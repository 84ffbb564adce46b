use cf_tool::text::{
    chars_of, contains_str, join_strings, replace_str, sort_by_key, sort_strings, split_chars,
    starts_with_str, str_eq, str_lt, trim_chars, usize_to_string,
};

fn strings(v: &[&str]) -> Vec<String> {
    v.iter().map(|s| s.to_string()).collect()
}

#[test]
fn chars_of_keeps_every_character() {
    assert_eq!(chars_of("añb"), vec!['a', 'ñ', 'b']);
    assert_eq!(chars_of(""), Vec::<char>::new());
}

#[test]
fn str_eq_compares_contents() {
    assert!(str_eq("abc", "abc"));
    assert!(!str_eq("abc", "abd"));
    assert!(!str_eq("abc", "ab"));
}

#[test]
fn str_lt_is_lexicographic() {
    assert!(str_lt("0", "123"));
    assert!(str_lt("10", "9"));
    assert!(!str_lt("9", "10"));
    assert!(str_lt("ab", "abc"));
    assert!(!str_lt("abc", "abc"));
    assert!(!str_lt("", ""));
}

#[test]
fn contains_and_starts_with() {
    assert!(contains_str("Running on test 4", "Running on"));
    assert!(!contains_str("Accepted", "queue"));
    assert!(contains_str("anything", ""));
    assert!(starts_with_str("/profile/tourist", "/profile/"));
    assert!(!starts_with_str("/blog/tourist", "/profile/"));
}

#[test]
fn replace_replaces_every_occurrence() {
    assert_eq!(replace_str("/profile/tourist", "/profile/", ""), "tourist");
    assert_eq!(replace_str("aaaa", "aa", "b"), "bb");
    assert_eq!(replace_str("xyz", "q", "r"), "xyz");
}

#[test]
fn trim_drops_outer_white_space() {
    let t: String = trim_chars(&chars_of("  \t 12345 \n")).into_iter().collect();
    assert_eq!(t, "12345");
    let u: String = trim_chars(&chars_of("   ")).into_iter().collect();
    assert_eq!(u, "");
}

#[test]
fn split_keeps_empty_pieces() {
    let parts: Vec<String> = split_chars(&chars_of("a\n\nb\n"), '\n')
        .into_iter()
        .map(|p| p.into_iter().collect())
        .collect();
    assert_eq!(parts, strings(&["a", "", "b", ""]));
    assert_eq!(split_chars(&chars_of(""), '\n').len(), 1);
}

#[test]
fn join_puts_separator_between() {
    assert_eq!(join_strings(&strings(&["1 2", "3"]), "\n"), "1 2\n3");
    assert_eq!(join_strings(&strings(&["only"]), ", "), "only");
    assert_eq!(join_strings(&Vec::new(), ", "), "");
}

#[test]
fn decimal_numbers() {
    assert_eq!(usize_to_string(0), "0");
    assert_eq!(usize_to_string(7), "7");
    assert_eq!(usize_to_string(1234567), "1234567");
}

#[test]
fn sorting_strings_and_entries() {
    assert_eq!(sort_strings(strings(&["b", "10", "a", "9", "a"])), strings(&["10", "9", "a", "a", "b"]));
    let sorted = sort_by_key(vec![("C".to_string(), 3), ("A".to_string(), 1), ("B".to_string(), 2)]);
    assert_eq!(sorted, vec![("A".to_string(), 1), ("B".to_string(), 2), ("C".to_string(), 3)]);
}
