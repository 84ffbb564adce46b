use cf_tool::cf::SubmissionInfo;
use cf_tool::scrape::{
    csrf, csrf_in, handle, handle_in, latest_in, latest_submission_info, parse_submission_tr,
    problem_index, problem_index_in, sample_tests, samples_in, submission_info, ScrapeError,
};

const SUBMIT_PAGE: &str = r#"<html><body>
<div class="lang-chooser"><a href="/blog">Blog</a><a href="/profile/tourist">tourist</a></div>
<span class="csrf-token" data-csrf="abc123"></span>
<form><select name="submittedProblemIndex"><option value="">Choose</option><option value="A">A</option><option value="B1">B1</option></select></form>
</body></html>"#;

const PROBLEMS_PAGE: &str = r#"<html><body>
<div class="problemindexholder" problemindex="A">
  <div class="input"><pre>1 2</pre></div><div class="output"><pre>3</pre></div>
  <div class="input"><pre>5 6</pre></div><div class="output"><pre>11</pre></div>
</div>
<div class="problemindexholder" problemindex="B">
  <div class="input"><pre>hello</pre></div>
</div>
</body></html>"#;

const STATUS_PAGE: &str = r#"<html><body><table class="status-frame-datatable">
<tr><th>#</th></tr>
<tr data-submission-id="98"><td> 98 </td><td>t1</td><td>who</td><td>A</td><td>C++</td><td>Accepted</td><td>15 ms</td><td>0 KB</td></tr>
<tr data-submission-id="100"><td>100</td><td>t2</td><td>who</td><td>B</td><td>C++</td><td> Running on test 3 </td><td>0 ms</td><td>0 KB</td></tr>
<tr data-submission-id="99"><td>99</td><td>t3</td><td>who</td><td>C</td><td>C++</td><td>Wrong answer</td><td>1 ms</td><td>1 KB</td></tr>
</table></body></html>"#;

fn strings(v: &[&str]) -> Vec<String> {
    v.iter().map(|s| s.to_string()).collect()
}

#[test]
fn csrf_token_of_a_page() {
    assert_eq!(csrf(SUBMIT_PAGE), Some("abc123".to_string()));
    assert_eq!(csrf("<html></html>"), None);
    assert_eq!(csrf_in(&vec![None, Some("x".to_string()), Some("y".to_string())]), Some("x".to_string()));
    assert_eq!(csrf_in(&vec![None]), None);
}

#[test]
fn handle_of_the_logged_in_user() {
    assert_eq!(handle(SUBMIT_PAGE), Some("tourist".to_string()));
    assert_eq!(handle("<div class=\"lang-chooser\"><a href=\"/register\">Register</a></div>"), None);
    assert_eq!(
        handle_in(&vec![vec![None, Some("/x".to_string())], vec![Some("/profile/a/profile/b".to_string())]]),
        Some("ab".to_string())
    );
}

#[test]
fn problem_index_ignores_case() {
    assert_eq!(problem_index(SUBMIT_PAGE, "b1"), Some("B1".to_string()));
    assert_eq!(problem_index(SUBMIT_PAGE, "a"), Some("A".to_string()));
    assert_eq!(problem_index(SUBMIT_PAGE, "c"), None);
    assert_eq!(problem_index_in(&vec![vec![Some("D".to_string())]], "d"), Some("D".to_string()));
}

#[test]
fn samples_of_a_problems_page() {
    let mut samples = sample_tests(PROBLEMS_PAGE).unwrap();
    samples.sort();
    assert_eq!(samples.len(), 2);
    assert_eq!(samples[0].0, "A");
    assert_eq!(samples[0].1, vec![("1 2".to_string(), "3".to_string()), ("5 6".to_string(), "11".to_string())]);
    assert_eq!(samples[1].0, "B");
    assert_eq!(samples[1].1, Vec::<(String, String)>::new());
}

#[test]
fn samples_join_text_nodes_with_newlines() {
    let page = r#"<div class="problemindexholder" problemindex="C"><div class="input"><pre>1<br>2</pre><pre>ignored</pre></div><div class="output"><pre>3</pre></div></div>"#;
    let samples = sample_tests(page).unwrap();
    assert_eq!(samples, vec![("C".to_string(), vec![("1\n2".to_string(), "3".to_string())])]);
}

#[test]
fn samples_need_problem_indices() {
    let page = r#"<div class="problemindexholder"><div class="input"><pre>1</pre></div></div>"#;
    assert_eq!(sample_tests(page), Err(ScrapeError::NoProblemIndex));
}

#[test]
fn later_problem_with_same_index_wins() {
    let groups = vec![
        (Some("A".to_string()), vec![vec![strings(&["1"])]], vec![vec![strings(&["2"])]]),
        (Some("A".to_string()), vec![vec![strings(&["3"])]], vec![vec![strings(&["4"])]]),
    ];
    let r = samples_in(&groups).unwrap();
    assert_eq!(r, vec![("A".to_string(), vec![("3".to_string(), "4".to_string())])]);
}

#[test]
fn rows_are_read_cell_by_cell() {
    let cells: Vec<Vec<String>> = ["  1 ", "when", "who", "A", "C++", "OK", "1 ms", "2 KB"]
        .iter()
        .map(|c| strings(&[c]))
        .collect();
    let info = parse_submission_tr(&cells).unwrap();
    assert_eq!(info.id, "1");
    assert_eq!(info.memory, "2 KB");
    let short: Vec<Vec<String>> = vec![strings(&["1"]), strings(&["when"]), strings(&["a", "b"])];
    assert_eq!(parse_submission_tr(&short), Err(ScrapeError::MissingCell(3)));
    assert_eq!(parse_submission_tr(&Vec::new()), Err(ScrapeError::MissingCell(0)));
}

#[test]
fn latest_submission_has_the_greatest_id_as_text() {
    let info = latest_submission_info(STATUS_PAGE).unwrap();
    assert_eq!(
        info,
        SubmissionInfo {
            id: "99".to_string(),
            when: "t3".to_string(),
            who: "who".to_string(),
            problem: "C".to_string(),
            lang: "C++".to_string(),
            verdict: "Wrong answer".to_string(),
            time: "1 ms".to_string(),
            memory: "1 KB".to_string(),
        }
    );
    assert_eq!(latest_submission_info("<html></html>"), Err(ScrapeError::NoSubmission));
    assert_eq!(latest_in(&vec![vec![(Some("0".to_string()), vec![])]]), Err(ScrapeError::NoSubmission));
}

#[test]
fn submission_by_id() {
    let info = submission_info(STATUS_PAGE, &"100".to_string()).unwrap();
    assert_eq!(info.verdict, "Running on test 3");
    let first = submission_info(STATUS_PAGE, &"98".to_string()).unwrap();
    assert_eq!(first.id, "98");
    assert_eq!(submission_info(STATUS_PAGE, &"7".to_string()), Err(ScrapeError::NoSubmission));
}

#[test]
fn scrape_error_messages() {
    assert_eq!(ScrapeError::NoProblemIndex.message(), "Failed to parse samples from HTML");
    assert_eq!(ScrapeError::MissingCell(0).message(), "Couldn't find submission ID.");
    assert_eq!(ScrapeError::MissingCell(7).message(), "Couldn't find result memory.");
}
