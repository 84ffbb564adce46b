use cf_tool::cf::ContestType;
use cf_tool::cli::ContestArgs;
use cf_tool::files::{config_file_in, session_file_in, tool_dir_in};
use cf_tool::languages::Languages;
use cf_tool::path::FsPath;
use cf_tool::utils::{path_relative_cwd, shortest_path_repr};

fn path(parts: &[&str]) -> FsPath {
    FsPath { segments: parts.iter().map(|s| s.to_string()).collect() }
}

#[test]
fn contest_flags() {
    let args = |contest: bool, gym: bool| ContestArgs { contest, gym, contest_id: "1".to_string() };
    assert_eq!(args(false, false).contest_type(), ContestType::Contest);
    assert_eq!(args(true, false).contest_type(), ContestType::Contest);
    assert_eq!(args(false, true).contest_type(), ContestType::Gym);
    assert_eq!(args(false, true).get_contest_type(), ContestType::Gym);
}

#[test]
fn tool_files() {
    let base = path(&["/", "home", "u", ".config"]);
    assert_eq!(tool_dir_in(&base), path(&["/", "home", "u", ".config", "cf-tool"]));
    assert_eq!(config_file_in(&base), path(&["/", "home", "u", ".config", "cf-tool", "config.json"]));
    assert_eq!(session_file_in(&base), path(&["/", "home", "u", ".config", "cf-tool", "session.json"]));
}

#[test]
fn languages_table() {
    let langs = Languages::default();
    assert_eq!(langs.get("GNU G++17 7.3.0"), Some(54));
    assert_eq!(langs.get("Python 3.8.10"), Some(31));
    assert_eq!(langs.get("Brainfuck"), None);
    let names = langs.sorted_names();
    assert_eq!(names.len(), 26);
    assert_eq!(names[0], "C# 10, .NET SDK 6.0");
    let mut check = names.clone();
    check.sort();
    assert_eq!(check, names);
    check.dedup();
    assert_eq!(check.len(), 26);
}

#[test]
fn shortest_representation() {
    let p = path(&["/", "home", "u", "cf", "contest", "1976"]);
    assert_eq!(shortest_path_repr(&p, &None, &None), "/home/u/cf/contest/1976");
    let home = Some(path(&["/", "home", "u"]));
    assert_eq!(shortest_path_repr(&p, &home, &None), "~/cf/contest/1976");
    let cwd = Some(path(&["/", "home", "u", "cf", "contest"]));
    assert_eq!(shortest_path_repr(&p, &home, &cwd), "./1976");
    assert_eq!(path_relative_cwd(&p, &path(&["/", "home", "u", "cf", "contest"])), Some("./1976".to_string()));
}

#[test]
fn tool_files_in_the_configuration_directory() {
    let config = cf_tool::files::config_file_path().unwrap();
    let n = config.segments.len();
    assert_eq!(&config.segments[n - 2..], &["cf-tool".to_string(), "config.json".to_string()]);
    let session = cf_tool::files::session_file_path().unwrap();
    assert_eq!(session.segments.last(), Some(&"session.json".to_string()));
    assert_eq!(cf_tool::files::config_dir_path().unwrap().segments.last(), Some(&"cf-tool".to_string()));
}
