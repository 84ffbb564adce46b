use cf_tool::path::FsPath;

fn path(parts: &[&str]) -> FsPath {
    FsPath { segments: parts.iter().map(|s| s.to_string()).collect() }
}

#[test]
fn join_appends_a_component() {
    assert_eq!(path(&["/", "home"]).join("cf"), path(&["/", "home", "cf"]));
}

#[test]
fn file_name_of_paths() {
    assert_eq!(path(&["/", "home", "a.cpp"]).file_name(), Some("a.cpp".to_string()));
    assert_eq!(path(&["/"]).file_name(), None);
    assert_eq!(path(&["/", "x", ".."]).file_name(), None);
    assert_eq!(path(&[]).file_name(), None);
}

#[test]
fn extension_and_stem_follow_the_last_dot() {
    let p = path(&["/", "src", "a.tar.gz"]);
    assert_eq!(p.extension(), Some("gz".to_string()));
    assert_eq!(p.file_stem(), Some("a.tar".to_string()));
    let hidden = path(&["/", ".bashrc"]);
    assert_eq!(hidden.extension(), None);
    assert_eq!(hidden.file_stem(), Some(".bashrc".to_string()));
    let plain = path(&["Makefile"]);
    assert_eq!(plain.extension(), None);
    assert_eq!(plain.file_stem(), Some("Makefile".to_string()));
    let trailing = path(&["a."]);
    assert_eq!(trailing.extension(), Some("".to_string()));
    assert_eq!(trailing.file_stem(), Some("a".to_string()));
}
