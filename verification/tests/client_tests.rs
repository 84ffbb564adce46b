use cf_tool::cf::{ContestInfo, ContestType, ProblemInfo};
use cf_tool::client::{
    login_post_body, login_request, my_submissions_url, no_such_contest, prepare_submission,
    problems_url, read_problems_page, read_submission, read_submission_reply, same_code_submitted,
    submit_post_body, submit_url, verdict_accepted, verdict_pending, ClientError, PostBody,
    SessionInfo, HOME_URL, LOGIN_URL,
};
use cf_tool::config::LoginDetails;
use cf_tool::scrape::ScrapeError;

const SUBMIT_PAGE: &str = r#"<html><body>
<div class="lang-chooser"><a href="/profile/tourist">tourist</a></div>
<span class="csrf-token" data-csrf="tok"></span>
<select name="submittedProblemIndex"><option value="A">A</option></select>
</body></html>"#;

fn session() -> SessionInfo {
    SessionInfo { ftaa: "f".repeat(18), bfaa: SessionInfo::gen_bfaa(), tta: SessionInfo::gen_tta() }
}

fn problem() -> ProblemInfo {
    ProblemInfo { contest: ContestInfo { typ: ContestType::Contest, id: "1976".to_string() }, id: "a".to_string() }
}

#[test]
fn new_session_values() {
    let s = SessionInfo::new();
    assert_eq!(s.ftaa.len(), 18);
    assert!(s.ftaa.chars().all(|c| c.is_ascii_digit() || c.is_ascii_lowercase()));
    assert_eq!(s.bfaa, "f1b3f18c715565b589b7823cda7448ce");
    assert_eq!(s.tta, "176");
    let t = SessionInfo::new();
    assert_ne!(s.ftaa, t.ftaa);
}

#[test]
fn addresses() {
    assert_eq!(LOGIN_URL, "https://codeforces.com/enter");
    assert_eq!(HOME_URL, "https://codeforces.com");
    assert_eq!(problems_url(ContestType::Contest, "1976"), "https://codeforces.com/contest/1976/problems");
    assert_eq!(problems_url(ContestType::Gym, "105224"), "https://codeforces.com/gym/105224/problems");
    let c = ContestInfo { typ: ContestType::Gym, id: "7".to_string() };
    assert_eq!(submit_url(&c), "https://codeforces.com/gym/7/submit");
    assert_eq!(my_submissions_url(&c), "https://codeforces.com/gym/7/my");
}

#[test]
fn page_checks() {
    assert!(no_such_contest("x Codeforces.showMessage(\"No such contest\"); y"));
    assert!(!no_such_contest("Codeforces.showMessage(\"Welcome\");"));
    assert!(same_code_submitted("<b>You have submitted exactly the same code before</b>"));
    assert!(!same_code_submitted("Submitted"));
}

#[test]
fn verdicts() {
    assert!(verdict_pending("Running on test 5"));
    assert!(verdict_pending("In queue"));
    assert!(verdict_pending("Waiting"));
    assert!(verdict_pending("Submitted"));
    assert!(!verdict_pending("Accepted"));
    assert!(!verdict_pending("Wrong answer on test 2"));
    assert!(verdict_accepted("Accepted"));
    assert!(!verdict_accepted("Accepted "));
}

#[test]
fn login_form() {
    let details = LoginDetails { handle_or_email: "me".to_string(), password: "secret".to_string(), remember: true };
    let body = login_post_body(&session(), "tok".to_string(), details.clone());
    assert_eq!(
        body,
        PostBody::Login {
            csrf_token: "tok".to_string(),
            ftaa: "f".repeat(18),
            bfaa: "f1b3f18c715565b589b7823cda7448ce".to_string(),
            tta: "176".to_string(),
            handle_or_email: "me".to_string(),
            password: "secret".to_string(),
            remember: "yes".to_string(),
        }
    );
    let forget = LoginDetails { remember: false, ..details.clone() };
    match login_request(SUBMIT_PAGE, &session(), forget) {
        Some(PostBody::Login { remember, csrf_token, .. }) => {
            assert_eq!(remember, "no");
            assert_eq!(csrf_token, "tok");
        },
        _ => panic!("expected a login form"),
    }
    assert_eq!(login_request("<html></html>", &session(), details), None);
}

#[test]
fn submission_form() {
    let body = submit_post_body(&session(), "tok".to_string(), &problem(), "A".to_string(), 54, &"int main(){}".to_string());
    assert_eq!(
        body,
        PostBody::Submit {
            csrf_token: "tok".to_string(),
            ftaa: "f".repeat(18),
            bfaa: "f1b3f18c715565b589b7823cda7448ce".to_string(),
            tta: "176".to_string(),
            contest_id: "1976".to_string(),
            problem_index: "A".to_string(),
            language_id: 54,
            source: "int main(){}".to_string(),
            tab_size: 4,
            source_file: String::new(),
        }
    );
}

#[test]
fn preparing_a_submission() {
    let src = "code".to_string();
    let (who, body) = prepare_submission(SUBMIT_PAGE, &session(), &problem(), &src, 54).unwrap();
    assert_eq!(who, "tourist");
    assert!(matches!(body, PostBody::Submit { ref problem_index, .. } if problem_index == "A"));
    assert_eq!(prepare_submission("<html></html>", &session(), &problem(), &src, 54), Err(ClientError::NoCsrf));
    let missing = format!("{}Codeforces.showMessage(\"No such contest\");", SUBMIT_PAGE);
    assert_eq!(prepare_submission(&missing, &session(), &problem(), &src, 54), Err(ClientError::NoSuchContest));
    let anonymous = r#"<span class="csrf-token" data-csrf="t"></span>"#;
    assert_eq!(prepare_submission(anonymous, &session(), &problem(), &src, 54), Err(ClientError::NotLoggedIn));
    let other = ProblemInfo { id: "z".to_string(), ..problem() };
    assert_eq!(prepare_submission(SUBMIT_PAGE, &session(), &other, &src, 54), Err(ClientError::NoProblemIndex));
}

#[test]
fn replies_to_a_submission() {
    assert_eq!(read_submission_reply("You have submitted exactly the same code before"), Err(ClientError::SameCode));
    assert_eq!(read_submission_reply("<html></html>"), Err(ClientError::Page(ScrapeError::NoSubmission)));
    let table = r#"<table class="status-frame-datatable"><tr data-submission-id="5"><td>5</td><td>w</td><td>me</td><td>A</td><td>C++</td><td>In queue</td><td>0 ms</td><td>0 KB</td></tr></table>"#;
    let info = read_submission_reply(table).unwrap();
    assert_eq!(info.verdict, "In queue");
    assert_eq!(read_submission(table, &"5".to_string()).unwrap().id, "5");
    assert_eq!(read_submission(table, &"6".to_string()), Err(ClientError::Page(ScrapeError::NoSubmission)));
}

#[test]
fn problems_page() {
    assert_eq!(read_problems_page("Codeforces.showMessage(\"No such contest\");"), Err(ClientError::NoSuchContest));
    assert_eq!(read_problems_page("<html></html>"), Ok(Vec::new()));
}

#[test]
fn client_error_messages() {
    assert_eq!(ClientError::NoSuchContest.message(), "No such contest.");
    assert_eq!(ClientError::Page(ScrapeError::NoSubmission).message(), "Failed to find submission in table.");
    assert_eq!(ClientError::SameCode.message(), "You have submitted exactly the same code before");
}
