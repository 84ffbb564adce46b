use cf_tool::testing::{
    execute_command, expected_output_file, has_non_space, normalize_output,
    normalize_output_lines, output_accepted,
};

fn strings(v: &[&str]) -> Vec<String> {
    v.iter().map(|s| s.to_string()).collect()
}

#[test]
fn normal_form_of_output() {
    assert_eq!(normalize_output("1  2 \n\n   \n 3\n"), "1 2\n3");
    assert_eq!(normalize_output(""), "");
    assert_eq!(normalize_output_lines(&strings(&["  a   b ", "", "c"])), "a b\nc");
}

#[test]
fn normalizing_twice_changes_nothing() {
    for t in ["1  2 \n\n 3\n", "", "  x\ty  \n", "a\n\n\nb"] {
        let once = normalize_output(t);
        assert_eq!(normalize_output(&once), once);
    }
}

#[test]
fn accepted_when_normal_forms_agree() {
    assert!(output_accepted(&strings(&["1 2", "3"]), "1   2\n\n3\n"));
    assert!(!output_accepted(&strings(&["1 2", "3"]), "1 2 3\n"));
    assert!(output_accepted(&Vec::new(), "  \n\n"));
}

#[test]
fn commands_and_files() {
    assert_eq!(execute_command("./a", "1"), "./a < 1.in");
    assert_eq!(expected_output_file("12"), "12.out");
}

#[test]
fn non_space_detection() {
    assert!(!has_non_space("    "));
    assert!(!has_non_space(""));
    assert!(has_non_space("  x "));
    assert!(has_non_space("\n"));
}
