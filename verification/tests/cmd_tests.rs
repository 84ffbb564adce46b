use cf_tool::cli::{ContestArgs, TemplateArgs};
use cf_tool::cmd::{
    choice_of, contest_dir, first_free_path, free_file_path, gen_target_with, gen_target, gen_template_choice, generated_file_name,
    matching_templates, parsed_message, problem_dir, sample_file_names, sample_tests,
    source_files, source_name_parts, stems_with_extension, template_delete, template_extensions,
    template_set_default, test_plan, Choice, DeleteAction, GenAction, GenError, SetDefaultAction,
    TestPlan, PROJECT_URL,
};
use cf_tool::config::{Config, Template, TemplateScripts};
use cf_tool::path::FsPath;

fn path(parts: &[&str]) -> FsPath {
    FsPath { segments: parts.iter().map(|s| s.to_string()).collect() }
}

fn strings(v: &[&str]) -> Vec<String> {
    v.iter().map(|s| s.to_string()).collect()
}

fn template(file: &str) -> Template {
    Template {
        lang_id: 54,
        path: path(&["/", "t", file]),
        suffix: Vec::new(),
        scripts: TemplateScripts { before: None, execute: "./a".to_string(), after: None },
    }
}

fn config_with(aliases: &[(&str, &str)], default: Option<&str>) -> Config {
    let mut c = Config::with_home(&path(&["/", "home", "u"]));
    for (a, f) in aliases {
        c.add_template(a.to_string(), template(f), false);
    }
    c.default = default.map(|d| d.to_string());
    c
}

fn files(names: &[&str]) -> Vec<FsPath> {
    names.iter().map(|n| path(&["/", "w", n])).collect()
}

#[test]
fn template_delete_decisions() {
    let empty = config_with(&[], None);
    assert_eq!(template_delete(&empty, &TemplateArgs { alias: Some("cpp".to_string()) }), DeleteAction::NoTemplates);
    let c = config_with(&[("cpp", "a.cpp"), ("py", "a.py")], None);
    assert_eq!(
        template_delete(&c, &TemplateArgs { alias: Some("cpp".to_string()) }),
        DeleteAction::Delete(strings(&["cpp"]))
    );
    assert_eq!(
        template_delete(&c, &TemplateArgs { alias: Some("java".to_string()) }),
        DeleteAction::UnknownAlias("java".to_string())
    );
    assert_eq!(template_delete(&c, &TemplateArgs { alias: None }), DeleteAction::Choose(strings(&["cpp", "py"])));
}

#[test]
fn template_set_default_decisions() {
    let empty = config_with(&[], None);
    assert_eq!(template_set_default(&empty, &TemplateArgs { alias: None }), SetDefaultAction::NoTemplates);
    let c = config_with(&[("cpp", "a.cpp"), ("py", "a.py")], Some("py"));
    assert_eq!(
        template_set_default(&c, &TemplateArgs { alias: Some("java".to_string()) }),
        SetDefaultAction::MakeDefault("java".to_string())
    );
    assert_eq!(
        template_set_default(&c, &TemplateArgs { alias: None }),
        SetDefaultAction::Choose(Some("py".to_string()), strings(&["cpp", "py"]))
    );
}

#[test]
fn gen_picks_alias_then_default_then_asks() {
    let empty = config_with(&[], Some("cpp"));
    assert_eq!(gen_template_choice(&empty, &TemplateArgs { alias: None }), GenAction::NoTemplates);
    let c = config_with(&[("cpp", "a.cpp"), ("py", "a.py")], Some("py"));
    assert_eq!(gen_template_choice(&c, &TemplateArgs { alias: Some("cpp".to_string()) }), GenAction::Generate("cpp".to_string()));
    assert_eq!(gen_template_choice(&c, &TemplateArgs { alias: None }), GenAction::Generate("py".to_string()));
    let no_default = config_with(&[("cpp", "a.cpp")], None);
    assert_eq!(gen_template_choice(&no_default, &TemplateArgs { alias: None }), GenAction::NoDefault(strings(&["cpp"])));
}

#[test]
fn generated_names() {
    assert_eq!(generated_file_name("a", 0, "cpp"), "a.cpp");
    assert_eq!(generated_file_name("a", 1, "cpp"), "a1.cpp");
    assert_eq!(generated_file_name("1976", 12, "py"), "197612.py");
}

#[test]
fn free_file_path_takes_the_first_free_name() {
    let dir = path(&["/", "no_such_directory_for_cf_tool_tests"]);
    let (p, f) = free_file_path(&dir, "a", "cpp").unwrap();
    assert_eq!(f, "a.cpp");
    assert_eq!(p, path(&["/", "no_such_directory_for_cf_tool_tests", "a.cpp"]));
}

#[test]
fn gen_target_errors_and_success() {
    assert_eq!(gen_target(&path(&["/"]), &template("a.cpp")), Err(GenError::NoName));
    assert_eq!(gen_target(&path(&["/", "x"]), &template("Makefile")), Err(GenError::NoExtension));
    let (p, f) = gen_target(&path(&["/", "no_such_directory_for_cf_tool_tests", "b"]), &template("t.cpp")).unwrap();
    assert_eq!(f, "b.cpp");
    assert_eq!(p, path(&["/", "no_such_directory_for_cf_tool_tests", "b", "b.cpp"]));
    assert_eq!(GenError::NoName.message(), "Failed to deduce name from current directory.");
    assert_eq!(GenError::NoExtension.message(), "Failed to decude extension from template path:");
}

#[test]
fn extensions_and_source_files() {
    let c = config_with(&[("cpp", "a.cpp"), ("mk", "Makefile"), ("py", "a.py")], None);
    let exts = template_extensions(&c);
    assert_eq!(exts, strings(&["cpp", "py"]));
    let fs = files(&["a.cpp", "b.py", "1.in", "1.out", "notes.txt", "c.cpp"]);
    assert_eq!(source_files(&fs, &exts), strings(&["a.cpp", "b.py", "c.cpp"]));
    assert_eq!(stems_with_extension(&fs, "in"), strings(&["1"]));
}

#[test]
fn sample_tests_pair_inputs_with_outputs() {
    let fs = files(&["2.in", "10.in", "2.out", "3.out", "10.out", "4.in", "a.cpp"]);
    assert_eq!(sample_tests(&fs), strings(&["10", "2"]));
    assert_eq!(sample_tests(&files(&["1.in", "2.out"])), Vec::<String>::new());
}

#[test]
fn choices() {
    assert_eq!(choice_of(Vec::new()), Choice::Nothing);
    assert_eq!(choice_of(strings(&["a.cpp"])), Choice::One("a.cpp".to_string()));
    assert_eq!(choice_of(strings(&["a.cpp", "b.cpp"])), Choice::Several(strings(&["a.cpp", "b.cpp"])));
}

#[test]
fn templates_matching_an_extension() {
    let c = config_with(&[("cpp", "a.cpp"), ("py", "a.py"), ("cpp20", "b.cpp")], None);
    assert_eq!(matching_templates(&c, "cpp"), strings(&["cpp", "cpp20"]));
    assert_eq!(matching_templates(&c, "rs"), Vec::<String>::new());
}

#[test]
fn test_plans() {
    let exts = strings(&["cpp"]);
    assert_eq!(test_plan(&files(&["1.in", "1.out"]), &exts), TestPlan::NoSources);
    assert_eq!(test_plan(&files(&["a.cpp", "1.in"]), &exts), TestPlan::NoSamples(true));
    assert_eq!(test_plan(&files(&["a.cpp"]), &exts), TestPlan::NoSamples(false));
    assert_eq!(
        test_plan(&files(&["a.cpp", "1.in", "1.out"]), &exts),
        TestPlan::Ready(strings(&["a.cpp"]), strings(&["1"]))
    );
}

#[test]
fn source_file_name_parts() {
    assert_eq!(source_name_parts("a.cpp"), Some(("a".to_string(), "cpp".to_string())));
    assert_eq!(source_name_parts("Makefile"), None);
}

#[test]
fn parse_layout() {
    let root = path(&["/", "home", "u", "cf"]);
    let args = ContestArgs { contest: false, gym: true, contest_id: "105224".to_string() };
    let dir = contest_dir(&root, &args);
    assert_eq!(dir, path(&["/", "home", "u", "cf", "gym", "105224"]));
    assert_eq!(problem_dir(&dir, "B1"), path(&["/", "home", "u", "cf", "gym", "105224", "b1"]));
    assert_eq!(sample_file_names(0), ("0.in".to_string(), "0.out".to_string()));
    assert_eq!(sample_file_names(12), ("12.in".to_string(), "12.out".to_string()));
}

#[test]
fn parse_report_uses_plural_but_for_one() {
    assert_eq!(parsed_message("A", 1), "Problem A: parsed 1 sample testcase.");
    assert_eq!(parsed_message("B", 2), "Problem B: parsed 2 sample testcases.");
    assert_eq!(parsed_message("C", 0), "Problem C: parsed 0 sample testcases.");
}

#[test]
fn project_page() {
    assert_eq!(PROJECT_URL, "https://www.github.com/kriepiekrollie/cf-tool");
}

#[test]
fn least_free_name_is_taken() {
    let dir = path(&["/", "w", "a"]);
    let existing = ["a.cpp", "a1.cpp"];
    let taken = |p: &FsPath| existing.iter().any(|e| p.segments.last().map(|s| s.as_str()) == Some(*e));
    let (p, f) = first_free_path(&dir, "a", "cpp", taken).unwrap();
    assert_eq!(f, "a2.cpp");
    assert_eq!(p, path(&["/", "w", "a", "a2.cpp"]));
    let (_, first) = first_free_path(&dir, "a", "cpp", |_: &FsPath| false).unwrap();
    assert_eq!(first, "a.cpp");
    let gap = |p: &FsPath| p.segments.last().map(|s| s.as_str()) == Some("a.cpp");
    let (_, next) = first_free_path(&dir, "a", "cpp", gap).unwrap();
    assert_eq!(next, "a1.cpp");
}

#[test]
fn gen_target_numbers_after_existing_files() {
    let existing = ["a.cpp", "a1.cpp"];
    let taken = |p: &FsPath| existing.iter().any(|e| p.segments.last().map(|s| s.as_str()) == Some(*e));
    let (p, f) = gen_target_with(&path(&["/", "w", "a"]), &template("t.cpp"), taken).unwrap();
    assert_eq!(f, "a2.cpp");
    assert_eq!(p, path(&["/", "w", "a", "a2.cpp"]));
    assert_eq!(gen_target_with(&path(&["/"]), &template("t.cpp"), |_: &FsPath| false), Err(GenError::NoName));
    assert_eq!(
        gen_target_with(&path(&["/", "w"]), &template("Makefile"), |_: &FsPath| false),
        Err(GenError::NoExtension)
    );
}

#[test]
fn sample_tests_are_not_repeated() {
    assert_eq!(sample_tests(&files(&["1.in", "1.out", "2.in", "2.out"])), strings(&["1", "2"]));
}
