//! What the tool sends to the site and what it looks for in the replies:
//! session values, form bodies, addresses and page checks.
use vstd::prelude::*;
use crate::cf::{ContestInfo, ContestType, ProblemInfo, contest_type_name};
use crate::config::LoginDetails;
use crate::cf::SubmissionInfo;
use crate::scrape::{
    ScrapeError, scrape_error_text, csrf, found_row_read, handle, latest_submission_info, page_csrf, page_handle,
    page_latest, page_problem_index, page_samples_read, page_submission, problem_index,
    sample_tests, submission_info,
};
use crate::text::{chars_of, string_from_chars, append_chars, contains_str, contains_seq, occurs_at};

verus! {

/// The login page.
pub const LOGIN_URL: &'static str = "https://codeforces.com/enter";

/// The home page.
pub const HOME_URL: &'static str = "https://codeforces.com";

/// A byte that the `Alphanumeric` distribution can produce.
pub open spec fn is_ascii_alphanumeric(b: u8) -> bool {
    (48 <= b <= 57) || (65 <= b <= 90) || (97 <= b <= 122)
}

/// A lower-case ASCII letter or digit.
pub open spec fn is_lower_alphanumeric(c: char) -> bool {
    ('0' <= c && c <= '9') || ('a' <= c && c <= 'z')
}

/// `rng.sample(rand::distributions::Alphanumeric)` on the thread's generator:
/// a random byte that is an ASCII letter or digit, as the distribution
/// documents. Which one is left open.
#[verifier::external_body]
fn random_alphanumeric() -> (b: u8)
    ensures
        is_ascii_alphanumeric(b),
{
    rand::Rng::sample(&mut rand::thread_rng(), rand::distributions::Alphanumeric)
}

/// The lower-case character for an ASCII letter or digit.
fn ascii_lower(b: u8) -> (c: char)
    requires
        is_ascii_alphanumeric(b),
    ensures
        is_lower_alphanumeric(c),
        c as u32 == (if 65 <= b <= 90 { b + 32 } else { b as int }),
{
    let l: u8 = if 65 <= b && b <= 90 { b + 32 } else { b };
    l as char
}

/// The values sent along with every form, kept for the session.
#[derive(Clone, Debug, PartialEq, Eq)]
pub struct SessionInfo {
    pub ftaa: String,
    pub bfaa: String,
    pub tta: String,
}

/// The `bfaa` value the site expects.
pub open spec fn fixed_bfaa() -> Seq<char> {
    "f1b3f18c715565b589b7823cda7448ce"@
}

/// The `_tta` value the site expects.
pub open spec fn fixed_tta() -> Seq<char> {
    "176"@
}

impl SessionInfo {
    /// A new session: a fresh random `ftaa` and the fixed `bfaa` and `_tta`.
    pub fn new() -> (r: Self)
        ensures
            r.ftaa@.len() == 18,
            forall|i: int| 0 <= i < 18 ==> is_lower_alphanumeric(#[trigger] r.ftaa@[i]),
            r.bfaa@ == fixed_bfaa(),
            r.tta@ == fixed_tta(),
    {
        SessionInfo { ftaa: Self::gen_ftaa(), bfaa: Self::gen_bfaa(), tta: Self::gen_tta() }
    }

    /// Eighteen random lower-case letters and digits.
    pub fn gen_ftaa() -> (r: String)
        ensures
            r@.len() == 18,
            forall|i: int| 0 <= i < 18 ==> is_lower_alphanumeric(#[trigger] r@[i]),
    {
        let mut v: Vec<char> = Vec::new();
        let mut i: usize = 0;
        while i < 18
            invariant
                i <= 18,
                v@.len() == i,
                forall|k: int| 0 <= k < i ==> is_lower_alphanumeric(#[trigger] v@[k]),
            decreases 18 - i,
        {
            let b = random_alphanumeric();
            v.push(ascii_lower(b));
            i = i + 1;
        }
        string_from_chars(v.as_slice())
    }

    /// The fixed `bfaa` value.
    pub fn gen_bfaa() -> (r: String)
        ensures
            r@ == fixed_bfaa(),
    {
        "f1b3f18c715565b589b7823cda7448ce".to_owned()
    }

    /// The fixed `_tta` value.
    pub fn gen_tta() -> (r: String)
        ensures
            r@ == fixed_tta(),
    {
        "176".to_owned()
    }
}

/// The body of a form sent to the site.
#[derive(Clone, Debug, PartialEq, Eq)]
pub enum PostBody {
    /// Logging in.
    Login {
        csrf_token: String,
        ftaa: String,
        bfaa: String,
        tta: String,
        handle_or_email: String,
        password: String,
        remember: String,
    },
    /// Submitting a solution.
    Submit {
        csrf_token: String,
        ftaa: String,
        bfaa: String,
        tta: String,
        contest_id: String,
        problem_index: String,
        language_id: u8,
        source: String,
        tab_size: u8,
        source_file: String,
    },
}

/// `body` is the login form for `details` under the token `csrf` and the
/// session's values.
pub open spec fn is_login_body(body: PostBody, csrf: Seq<char>, session: SessionInfo, details: LoginDetails) -> bool {
    body matches PostBody::Login {
        csrf_token,
        ftaa,
        bfaa,
        tta,
        handle_or_email,
        password,
        remember,
    } && csrf_token@ == csrf && ftaa@ == session.ftaa@ && bfaa@ == session.bfaa@ && tta@
        == session.tta@ && handle_or_email@ == details.handle_or_email@ && password@
        == details.password@ && remember@ == (if details.remember {
        "yes"@
    } else {
        "no"@
    })
}

/// The login form for `details`, under `csrf_token` and the session's values.
pub fn login_post_body(session: &SessionInfo, csrf_token: String, details: LoginDetails) -> (r:
    PostBody)
    ensures
        is_login_body(r, csrf_token@, *session, details),
{
    PostBody::Login {
        csrf_token,
        ftaa: session.ftaa.clone(),
        bfaa: session.bfaa.clone(),
        tta: session.tta.clone(),
        handle_or_email: details.handle_or_email,
        password: details.password,
        remember: if details.remember {
            "yes".to_owned()
        } else {
            "no".to_owned()
        },
    }
}

/// `body` is the submission form for `source` in language `language_id` to
/// the problem with index `index` of the contest `contest_id`, under the token
/// `csrf` and the session's values.
pub open spec fn is_submit_body(
    body: PostBody,
    csrf: Seq<char>,
    session: SessionInfo,
    contest_id: Seq<char>,
    index: Seq<char>,
    language_id: u8,
    source: Seq<char>,
) -> bool {
    body matches PostBody::Submit {
        csrf_token,
        ftaa,
        bfaa,
        tta,
        contest_id: c,
        problem_index,
        language_id: l,
        source: s,
        tab_size,
        source_file,
    } && csrf_token@ == csrf && ftaa@ == session.ftaa@ && bfaa@ == session.bfaa@ && tta@
        == session.tta@ && c@ == contest_id && problem_index@ == index && l == language_id
        && s@ == source && tab_size == 4 && source_file@.len() == 0
}

/// The submission form for `source` in language `language_id` to the problem
/// with index `problem_index` of `problem`'s contest.
pub fn submit_post_body(
    session: &SessionInfo,
    csrf_token: String,
    problem: &ProblemInfo,
    problem_index: String,
    language_id: u8,
    source: &String,
) -> (r: PostBody)
    ensures
        is_submit_body(
            r,
            csrf_token@,
            *session,
            problem.contest.id@,
            problem_index@,
            language_id,
            source@,
        ),
{
    PostBody::Submit {
        csrf_token,
        ftaa: session.ftaa.clone(),
        bfaa: session.bfaa.clone(),
        tta: session.tta.clone(),
        contest_id: problem.contest.id.clone(),
        problem_index,
        language_id,
        source: source.clone(),
        tab_size: 4,
        source_file: String::new(),
    }
}

/// `https://codeforces.com/<type>/<id>/<page>`.
pub open spec fn contest_url(t: ContestType, id: Seq<char>, page: Seq<char>) -> Seq<char> {
    "https://codeforces.com/"@ + contest_type_name(t) + "/"@ + id + "/"@ + page
}

fn contest_page_url(t: ContestType, id: &str, page: &str) -> (r: String)
    ensures
        r@ == contest_url(t, id@, page@),
{
    let mut v = chars_of("https://codeforces.com/");
    let name = t.to_string();
    append_chars(&mut v, &chars_of(name.as_str()));
    let slash = chars_of("/");
    append_chars(&mut v, &slash);
    append_chars(&mut v, &chars_of(id));
    append_chars(&mut v, &slash);
    append_chars(&mut v, &chars_of(page));
    string_from_chars(v.as_slice())
}

/// The page listing all problems of a contest.
pub fn problems_url(t: ContestType, contest_id: &str) -> (r: String)
    ensures
        r@ == contest_url(t, contest_id@, "problems"@),
{
    contest_page_url(t, contest_id, "problems")
}

/// The page for submitting to a contest.
pub fn submit_url(contest: &ContestInfo) -> (r: String)
    ensures
        r@ == contest_url(contest.typ, contest.id@, "submit"@),
{
    contest_page_url(contest.typ, contest.id.as_str(), "submit")
}

/// The page listing the user's submissions to a contest.
pub fn my_submissions_url(contest: &ContestInfo) -> (r: String)
    ensures
        r@ == contest_url(contest.typ, contest.id@, "my"@),
{
    contest_page_url(contest.typ, contest.id.as_str(), "my")
}

/// The page of a problem: `https://codeforces.com/<type>/<contest>/problem/<id>`.
pub fn problem_url(problem: &ProblemInfo) -> (r: String)
    ensures
        r@ == contest_url(problem.contest.typ, problem.contest.id@, "problem/"@ + problem.id@),
{
    let mut page = chars_of("problem/");
    append_chars(&mut page, &chars_of(problem.id.as_str()));
    let page = string_from_chars(page.as_slice());
    contest_page_url(problem.contest.typ, problem.contest.id.as_str(), page.as_str())
}

/// The page says there is no such contest.
pub fn no_such_contest(response: &str) -> (r: bool)
    ensures
        r == contains_seq(response@, "Codeforces.showMessage(\"No such contest\");"@),
{
    contains_str(response, "Codeforces.showMessage(\"No such contest\");")
}

/// The site turned the submission down as a repeat of an earlier one.
pub fn same_code_submitted(response: &str) -> (r: bool)
    ensures
        r == contains_seq(response@, "You have submitted exactly the same code before"@),
{
    contains_str(response, "You have submitted exactly the same code before")
}

/// A verdict that will still change: the submission is waiting or running.
pub open spec fn verdict_pending_spec(v: Seq<char>) -> bool {
    contains_seq(v, "Running on"@) || contains_seq(v, "queue"@) || contains_seq(v, "Submit"@)
        || contains_seq(v, "Waiting"@)
}

/// Is the verdict still to change?
pub fn verdict_pending(verdict: &str) -> (r: bool)
    ensures
        r == verdict_pending_spec(verdict@),
{
    contains_str(verdict, "Running on") || contains_str(verdict, "queue") || contains_str(
        verdict,
        "Submit",
    ) || contains_str(verdict, "Waiting")
}

/// Is the verdict an acceptance?
pub fn verdict_accepted(verdict: &str) -> (r: bool)
    ensures
        r == (verdict@ == "Accepted"@),
{
    crate::text::str_eq(verdict, "Accepted")
}


/// The text by which the site says a contest does not exist.
pub open spec fn no_such_contest_text() -> Seq<char> {
    "Codeforces.showMessage(\"No such contest\");"@
}

/// The text by which the site turns down a repeated submission.
pub open spec fn same_code_text() -> Seq<char> {
    "You have submitted exactly the same code before"@
}

/// Why talking to the site did not get what was wanted.
#[derive(Clone, Copy, Debug, PartialEq, Eq, Structural)]
pub enum ClientError {
    /// The page has no CSRF token.
    NoCsrf,
    /// The site says there is no such contest.
    NoSuchContest,
    /// The page shows no logged-in user.
    NotLoggedIn,
    /// The submit form offers no such problem.
    NoProblemIndex,
    /// The same code was submitted before.
    SameCode,
    /// The page could not be read.
    Page(ScrapeError),
}

/// What to tell the user about a failed exchange with the site.
pub open spec fn client_error_text(e: ClientError) -> Seq<char> {
    match e {
        ClientError::NoCsrf => "Failed to get CSRF from HTML"@,
        ClientError::NoSuchContest => "No such contest."@,
        ClientError::NotLoggedIn => "Login failed. Try logging in with cf login"@,
        ClientError::NoProblemIndex => "Failed to get problem index. Does this problem exist?"@,
        ClientError::SameCode => "You have submitted exactly the same code before"@,
        ClientError::Page(p) => scrape_error_text(p),
    }
}

impl ClientError {
    /// What to tell the user.
    pub fn message(&self) -> (r: String)
        ensures
            r@ == client_error_text(*self),
    {
        match self {
            ClientError::Page(e) => e.message(),
            ClientError::NoCsrf => "Failed to get CSRF from HTML".to_owned(),
            ClientError::NoSuchContest => "No such contest.".to_owned(),
            ClientError::NotLoggedIn => "Login failed. Try logging in with cf login".to_owned(),
            ClientError::NoProblemIndex => "Failed to get problem index. Does this problem exist?".to_owned(),
            ClientError::SameCode => "You have submitted exactly the same code before".to_owned(),
        }
    }
}

/// `r` is the login form built from the login page `page`: none without a
/// CSRF token.
pub open spec fn login_request_for(
    r: Option<PostBody>,
    page: Seq<char>,
    session: SessionInfo,
    details: LoginDetails,
) -> bool {
    match page_csrf(page) {
        Some(c) => r matches Some(b) && is_login_body(b, c, session, details),
        None => r is None,
    }
}

/// The login form to send, from the login page `page`.
pub fn login_request(page: &str, session: &SessionInfo, details: LoginDetails) -> (r: Option<
    PostBody,
>)
    ensures
        login_request_for(r, page@, *session, details),
{
    match csrf(page) {
        Some(token) => Some(login_post_body(session, token, details)),
        None => None,
    }
}

/// `r` is what the submit page `page` leads to: the handle shown and the form
/// to send, or the first thing missing, in the order the page is read.
pub open spec fn submission_prepared(
    r: Result<(String, PostBody), ClientError>,
    page: Seq<char>,
    session: SessionInfo,
    problem: ProblemInfo,
    language_id: u8,
    source: Seq<char>,
) -> bool {
    match page_csrf(page) {
        None => r == Err::<(String, PostBody), ClientError>(ClientError::NoCsrf),
        Some(c) => if contains_seq(page, no_such_contest_text()) {
            r == Err::<(String, PostBody), ClientError>(ClientError::NoSuchContest)
        } else {
            match page_handle(page) {
                None => r == Err::<(String, PostBody), ClientError>(ClientError::NotLoggedIn),
                Some(h) => match page_problem_index(page, problem.id@) {
                    None => r == Err::<(String, PostBody), ClientError>(
                        ClientError::NoProblemIndex,
                    ),
                    Some(i) => r matches Ok((hh, body)) && hh@ == h && is_submit_body(
                        body,
                        c,
                        session,
                        problem.contest.id@,
                        i,
                        language_id,
                        source,
                    ),
                },
            }
        },
    }
}

/// From the submit page of a problem's contest: the logged-in handle and the
/// form that submits `source` in language `language_id`.
pub fn prepare_submission(
    page: &str,
    session: &SessionInfo,
    problem: &ProblemInfo,
    source: &String,
    language_id: u8,
) -> (r: Result<(String, PostBody), ClientError>)
    ensures
        submission_prepared(r, page@, *session, *problem, language_id, source@),
{
    let token = match csrf(page) {
        Some(t) => t,
        None => return Err(ClientError::NoCsrf),
    };
    if no_such_contest(page) {
        return Err(ClientError::NoSuchContest);
    }
    let who = match handle(page) {
        Some(h) => h,
        None => return Err(ClientError::NotLoggedIn),
    };
    let index = match problem_index(page, problem.id.as_str()) {
        Some(i) => i,
        None => return Err(ClientError::NoProblemIndex),
    };
    let body = submit_post_body(session, token, problem, index, language_id, source);
    Ok((who, body))
}

/// `r` is what the reply `reply` to a submission says: turned down as a
/// repeat, or the newest submission in its table.
pub open spec fn submission_reply_read(r: Result<SubmissionInfo, ClientError>, reply: Seq<char>) -> bool {
    if contains_seq(reply, same_code_text()) {
        r == Err::<SubmissionInfo, ClientError>(ClientError::SameCode)
    } else {
        match r {
            Ok(info) => found_row_read(Ok(info), page_latest(reply)),
            Err(ClientError::Page(e)) => found_row_read(Err(e), page_latest(reply)),
            Err(_) => false,
        }
    }
}

/// Reads the reply to a submission.
pub fn read_submission_reply(reply: &str) -> (r: Result<SubmissionInfo, ClientError>)
    ensures
        submission_reply_read(r, reply@),
{
    if same_code_submitted(reply) {
        return Err(ClientError::SameCode);
    }
    match latest_submission_info(reply) {
        Ok(info) => Ok(info),
        Err(e) => Err(ClientError::Page(e)),
    }
}

/// `r` is what the problems page `page` of a contest gives.
pub open spec fn problems_page_read(
    r: Result<Vec<(String, Vec<(String, String)>)>, ClientError>,
    page: Seq<char>,
) -> bool {
    if contains_seq(page, no_such_contest_text()) {
        r == Err::<Vec<(String, Vec<(String, String)>)>, ClientError>(ClientError::NoSuchContest)
    } else {
        match r {
            Ok(v) => page_samples_read(Ok(v), page),
            Err(ClientError::Page(e)) => page_samples_read(Err(e), page),
            Err(_) => false,
        }
    }
}

/// The sample tests on the problems page of a contest, by problem index.
pub fn read_problems_page(page: &str) -> (r: Result<Vec<(String, Vec<(String, String)>)>, ClientError>)
    ensures
        problems_page_read(r, page@),
{
    if no_such_contest(page) {
        return Err(ClientError::NoSuchContest);
    }
    match sample_tests(page) {
        Ok(v) => Ok(v),
        Err(e) => Err(ClientError::Page(e)),
    }
}

/// Reads the submission `submission_id` from the page of the user's
/// submissions to a contest.
pub fn read_submission(page: &str, submission_id: &String) -> (r: Result<SubmissionInfo, ClientError>)
    ensures
        match r {
            Ok(info) => found_row_read(Ok(info), page_submission(page@, submission_id@)),
            Err(ClientError::Page(e)) => found_row_read(Err(e), page_submission(page@, submission_id@)),
            Err(_) => false,
        },
{
    match submission_info(page, submission_id) {
        Ok(info) => Ok(info),
        Err(e) => Err(ClientError::Page(e)),
    }
}


/// A verdict is still pending exactly when it mentions "Running on",
/// "queue", "Submit" or "Waiting": any verdict that mentions none of them (a
/// time, memory or idleness limit, a wrong answer, a runtime error, ...) is
/// final, and the submit loop stops on it.
pub proof fn lemma_pending_only_with_markers(verdict: Seq<char>)
    ensures
        !contains_seq(verdict, "Running on"@) && !contains_seq(verdict, "queue"@) && !contains_seq(
            verdict,
            "Submit"@,
        ) && !contains_seq(verdict, "Waiting"@) ==> !verdict_pending_spec(verdict),
        contains_seq(verdict, "Running on"@) || contains_seq(verdict, "queue"@) || contains_seq(
            verdict,
            "Submit"@,
        ) || contains_seq(verdict, "Waiting"@) ==> verdict_pending_spec(verdict),
{
}

/// An accepted verdict is final: it is never taken for one that is still
/// waiting or running.
pub proof fn lemma_accepted_is_final(verdict: Seq<char>)
    requires
        verdict == "Accepted"@,
    ensures
        !verdict_pending_spec(verdict),
{
    reveal_strlit("Accepted");
    reveal_strlit("Running on");
    reveal_strlit("queue");
    reveal_strlit("Submit");
    reveal_strlit("Waiting");
    assert(verdict.len() == 8);
    assert(!contains_seq(verdict, "Running on"@));
    assert forall|i: int| !occurs_at(verdict, "queue"@, i) by {
        if occurs_at(verdict, "queue"@, i) {
            assert(verdict.subrange(i, i + 5)[0] == verdict[i]);
        }
    }
    assert forall|i: int| !occurs_at(verdict, "Submit"@, i) by {
        if occurs_at(verdict, "Submit"@, i) {
            assert(verdict.subrange(i, i + 6)[0] == verdict[i]);
        }
    }
    assert forall|i: int| !occurs_at(verdict, "Waiting"@, i) by {
        if occurs_at(verdict, "Waiting"@, i) {
            assert(verdict.subrange(i, i + 7)[0] == verdict[i]);
        }
    }
}
} // verus!
