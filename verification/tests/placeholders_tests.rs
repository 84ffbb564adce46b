use cf_tool::cf::{ContestInfo, ContestType, ProblemInfo};
use cf_tool::client::problem_url;
use cf_tool::config::TemplateScripts;
use cf_tool::placeholders::{
    expand_script, expand_scripts, expand_template_source, substitute_placeholders, utc_date_time,
    DateTime,
};

fn pairs(v: &[(&str, &str)]) -> Vec<(String, String)> {
    v.iter().map(|(a, b)| (a.to_string(), b.to_string())).collect()
}

#[test]
fn substitution_is_one_pass_left_to_right() {
    let p = pairs(&[("$%a%$", "x"), ("$%b%$", "$%a%$")]);
    assert_eq!(substitute_placeholders("1 $%a%$ 2 $%b%$ 3", &p), "1 x 2 $%a%$ 3");
    assert_eq!(substitute_placeholders("no placeholders", &p), "no placeholders");
    assert_eq!(substitute_placeholders("$%a%$$%a%$", &p), "xx");
    assert_eq!(substitute_placeholders("", &p), "");
}

#[test]
fn script_placeholders() {
    assert_eq!(
        expand_script("g++ $%file%$ -o $%name%$ && echo $%time%$ in $%path%$", "/w", "a.cpp", "a", "1464465600"),
        "g++ a.cpp -o a && echo 1464465600 in /w"
    );
    let scripts = TemplateScripts {
        before: Some("g++ $%file%$ -o $%name%$".to_string()),
        execute: "./$%name%$".to_string(),
        after: Some("rm $%name%$".to_string()),
    };
    let e = expand_scripts(&scripts, "/w", "a.cpp", "a", "0");
    assert_eq!(e.before, Some("g++ a.cpp -o a".to_string()));
    assert_eq!(e.execute, "./a");
    assert_eq!(e.after, Some("rm a".to_string()));
    let none = TemplateScripts { before: None, execute: "python3 $%file%$".to_string(), after: None };
    let e = expand_scripts(&none, "/w", "a.py", "a", "0");
    assert_eq!(e.before, None);
    assert_eq!(e.after, None);
    assert_eq!(e.execute, "python3 a.py");
}

#[test]
fn utc_dates() {
    let t = |y, mo, d, h, mi, s| DateTime { year: y, month: mo, day: d, hour: h, minute: mi, second: s };
    assert_eq!(utc_date_time(0), t(1970, 1, 1, 0, 0, 0));
    assert_eq!(utc_date_time(1464465600), t(2016, 5, 28, 20, 0, 0));
    assert_eq!(utc_date_time(951782400), t(2000, 2, 29, 0, 0, 0));
    assert_eq!(utc_date_time(4107542399), t(2100, 2, 28, 23, 59, 59));
    assert_eq!(utc_date_time(4107542400), t(2100, 3, 1, 0, 0, 0));
    assert_eq!(utc_date_time(1704067199), t(2023, 12, 31, 23, 59, 59));
}

#[test]
fn template_placeholders() {
    let when = utc_date_time(1464465600);
    let src = "// $%U%$ $%L%$\n// $%Y%$-$%M%$-$%D%$ $%h%$:$%m%$:$%s%$\nint main() {}";
    assert_eq!(
        expand_template_source(src, "kriepiekrollie", "https://codeforces.com/contest/1985/problem/A", &when),
        "// kriepiekrollie https://codeforces.com/contest/1985/problem/A\n// 2016-05-28 20:00:00\nint main() {}"
    );
}

#[test]
fn problem_links() {
    let p = ProblemInfo { contest: ContestInfo { typ: ContestType::Contest, id: "1985".to_string() }, id: "A".to_string() };
    assert_eq!(problem_url(&p), "https://codeforces.com/contest/1985/problem/A");
    let g = ProblemInfo { contest: ContestInfo { typ: ContestType::Gym, id: "105224".to_string() }, id: "b".to_string() };
    assert_eq!(problem_url(&g), "https://codeforces.com/gym/105224/problem/b");
}
