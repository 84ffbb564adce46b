use cf_tool::path::FsPath;
use cf_tool::validate::template_path_in;
use cf_tool::config::TemplateScripts;
use cf_tool::validate::{
    new_template, path_validation, template_path_for, validate_alias, validate_handle_or_email,
    validate_password, validate_template_path, validate_template_path_with, Validation,
};

fn invalid(m: &str) -> Validation {
    Validation::Invalid(m.to_string())
}

#[test]
fn handles_and_emails() {
    assert_eq!(validate_handle_or_email("tourist"), Validation::Valid);
    assert_eq!(validate_handle_or_email("a_b-c9"), Validation::Valid);
    assert_eq!(validate_handle_or_email("me@example.com"), Validation::Valid);
    assert_eq!(validate_handle_or_email(""), invalid("Field should not be empty."));
    assert_eq!(
        validate_handle_or_email("bad name!"),
        invalid("Field should contain only Latin letters, digits, underscore or dash characters.")
    );
}

#[test]
fn passwords_need_five_bytes() {
    assert_eq!(validate_password("1234"), invalid("Field should contain at least 5 characters."));
    assert_eq!(validate_password("12345"), Validation::Valid);
    assert_eq!(validate_password("ñññ"), Validation::Valid);
    assert_eq!(validate_password(""), invalid("Field should contain at least 5 characters."));
}

#[test]
fn aliases() {
    let existing = vec!["cpp".to_string()];
    assert_eq!(validate_alias("", &existing), invalid("Alias should not be empty."));
    assert_eq!(validate_alias("cpp", &existing), invalid("You already have a template with this alias."));
    assert_eq!(validate_alias("py3", &existing), Validation::Valid);
    assert_eq!(
        validate_alias("c++", &existing),
        invalid("Alias may only contain alphanumberic characters, underscores or dashes.")
    );
}

#[test]
fn template_paths() {
    assert_eq!(path_validation(false, false), invalid("Path does not exist."));
    assert_eq!(path_validation(true, false), invalid("Path does not point to file."));
    assert_eq!(path_validation(true, true), Validation::Valid);
    assert_eq!(validate_template_path("/no/such/file/for/cf_tool.cpp"), invalid("Path does not exist."));
}

#[test]
fn new_templates_keep_what_was_typed() {
    let t = new_template(54, "/t/a.cpp", None, "./a".to_string(), Some("rm a".to_string()));
    assert_eq!(t.lang_id, 54);
    assert_eq!(t.path.segments, vec!["/".to_string(), "t".to_string(), "a.cpp".to_string()]);
    assert!(t.suffix.is_empty());
    assert_eq!(t.scripts, TemplateScripts { before: None, execute: "./a".to_string(), after: Some("rm a".to_string()) });
}

#[test]
fn leading_tilde_is_the_home_directory() {
    let t = new_template(31, "~/a.py", None, "python3 a.py".to_string(), None);
    assert_eq!(t.path.segments.first(), Some(&"/".to_string()));
    assert_eq!(t.path.segments.last(), Some(&"a.py".to_string()));
    let u = new_template(31, "~user/a.py", None, "python3 a.py".to_string(), None);
    assert_eq!(u.path.segments, vec!["~user".to_string(), "a.py".to_string()]);
}

#[test]
fn template_path_answers_are_asked_about_the_expanded_path() {
    assert_eq!(template_path_for("/t/a.cpp").segments, vec!["/".to_string(), "t".to_string(), "a.cpp".to_string()]);
    let is_a = |p: &cf_tool::path::FsPath| p.segments.last().map(|s| s.as_str()) == Some("a.cpp");
    assert_eq!(validate_template_path_with("/t/a.cpp", is_a, is_a), Validation::Valid);
    assert_eq!(validate_template_path_with("/t/b.cpp", is_a, is_a), invalid("Path does not exist."));
    let yes = |_: &cf_tool::path::FsPath| true;
    let no = |_: &cf_tool::path::FsPath| false;
    assert_eq!(validate_template_path_with("/t", yes, no), invalid("Path does not point to file."));
    let home = |p: &cf_tool::path::FsPath| p.segments.first().map(|s| s.as_str()) == Some("/");
    assert_eq!(validate_template_path_with("~/x.cpp", home, home), Validation::Valid);
}

#[test]
fn template_paths_with_a_given_home() {
    let home = Some(FsPath { segments: vec!["/".to_string(), "home".to_string(), "u".to_string()] });
    assert_eq!(
        template_path_in("~/cf/a.cpp", &home).segments,
        vec!["/", "home", "u", "cf", "a.cpp"].iter().map(|s| s.to_string()).collect::<Vec<_>>()
    );
    assert_eq!(template_path_in("~", &home).segments, vec!["/", "home", "u"].iter().map(|s| s.to_string()).collect::<Vec<_>>());
    assert_eq!(template_path_in("~/a.cpp", &None).segments, vec!["~".to_string(), "a.cpp".to_string()]);
    assert_eq!(template_path_in("~x/a.cpp", &home).segments, vec!["~x".to_string(), "a.cpp".to_string()]);
}
