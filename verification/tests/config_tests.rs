use cf_tool::config::{Config, ConfigSource, Template, TemplateMap, TemplateScripts};
use cf_tool::path::FsPath;

fn path(parts: &[&str]) -> FsPath {
    FsPath { segments: parts.iter().map(|s| s.to_string()).collect() }
}

fn template(file: &str, lang: u8) -> Template {
    Template {
        lang_id: lang,
        path: path(&["/", "t", file]),
        suffix: Vec::new(),
        scripts: TemplateScripts { before: None, execute: "./a".to_string(), after: None },
    }
}

fn home_config() -> Config {
    Config::with_home(&path(&["/", "home", "u"]))
}

#[test]
fn fresh_configuration() {
    let c = home_config();
    assert_eq!(c.templates.len(), 0);
    assert_eq!(c.default, None);
    assert_eq!(c.cf_root, path(&["/", "home", "u", "cf"]));
    assert!(!c.asks_for_default());
}

#[test]
fn template_map_reads_what_was_written() {
    let mut m = TemplateMap::new();
    m.insert("cpp".to_string(), template("a.cpp", 54));
    m.insert("py".to_string(), template("a.py", 31));
    assert_eq!(m.len(), 2);
    assert_eq!(m.get("cpp"), Some(&template("a.cpp", 54)));
    m.insert("cpp".to_string(), template("b.cpp", 89));
    assert_eq!(m.len(), 2);
    assert_eq!(m.get("cpp"), Some(&template("b.cpp", 89)));
    assert_eq!(m.keys(), vec!["cpp".to_string(), "py".to_string()]);
    m.remove("cpp");
    assert!(!m.contains_key("cpp"));
    assert!(m.contains_key("py"));
    assert_eq!(m.get("cpp"), None);
    m.remove("absent");
    assert_eq!(m.len(), 1);
}

#[test]
fn set_default_only_for_known_templates() {
    let mut c = home_config();
    c.add_template("cpp".to_string(), template("a.cpp", 54), false);
    c.add_template("py".to_string(), template("a.py", 31), false);
    assert_eq!(c.default, Some("cpp".to_string()));
    assert!(!c.set_default("java"));
    assert_eq!(c.default, Some("cpp".to_string()));
    assert!(c.set_default("py"));
    assert_eq!(c.default, Some("py".to_string()));
    assert!(c.asks_for_default());
}

#[test]
fn first_template_becomes_the_default_unasked() {
    let mut c = home_config();
    assert!(!c.asks_for_default());
    c.add_template("cpp".to_string(), template("a.cpp", 54), false);
    assert_eq!(c.default, Some("cpp".to_string()));
    c.add_template("py".to_string(), template("a.py", 31), true);
    assert_eq!(c.default, Some("py".to_string()));
}

#[test]
fn add_template_can_make_it_the_default() {
    let mut c = home_config();
    c.add_template("py".to_string(), template("a.py", 31), true);
    assert_eq!(c.default, Some("py".to_string()));
    assert_eq!(c.templates.get("py"), Some(&template("a.py", 31)));
    c.add_template("cpp".to_string(), template("a.cpp", 54), false);
    assert_eq!(c.default, Some("py".to_string()));
}

#[test]
fn delete_templates_removes_the_named_ones_and_keeps_the_default() {
    let mut c = home_config();
    c.add_template("cpp".to_string(), template("a.cpp", 54), true);
    c.add_template("py".to_string(), template("a.py", 31), false);
    c.add_template("java".to_string(), template("A.java", 87), false);
    c.delete_templates(&vec!["cpp".to_string(), "java".to_string(), "nope".to_string()]);
    assert_eq!(c.templates.keys(), vec!["py".to_string()]);
    assert_eq!(c.default, Some("cpp".to_string()));
}

#[test]
fn adding_then_deleting_a_new_alias_changes_nothing() {
    let mut c = home_config();
    c.add_template("cpp".to_string(), template("a.cpp", 54), false);
    let before = c.templates.keys();
    c.add_template("rs".to_string(), template("main.rs", 75), false);
    c.delete_templates(&vec!["rs".to_string()]);
    assert_eq!(c.templates.keys(), before);
    assert_eq!(c.templates.get("cpp"), Some(&template("a.cpp", 54)));
}

#[test]
fn where_the_configuration_comes_from() {
    assert!(matches!(Config::source_for(true, &None), Some(ConfigSource::Stored)));
    assert!(Config::source_for(false, &None).is_none());
    match Config::source_for(false, &Some(path(&["/", "root"]))) {
        Some(ConfigSource::Fresh(c)) => {
            assert_eq!(c.cf_root, path(&["/", "root", "cf"]));
            assert_eq!(c.templates.len(), 0);
            assert_eq!(c.default, None);
        },
        _ => panic!("expected a fresh configuration"),
    }
}
