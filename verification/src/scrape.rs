//! Reading the site's pages: the CSRF token, the logged-in handle, the sample
//! tests of a contest, the problem index of a submit form and the rows of the
//! submission table.
//!
//! The HTML parsing and CSS selection are done by the `scraper` crate; each
//! query below hands back plain values, and everything decided from them is
//! verified here.
use vstd::prelude::*;
use scraper::{Html, Selector};
use crate::cf::SubmissionInfo;
use crate::text::{
    is_white_space, trim_end, trim_start,
    chars_of, join, join_strings, lex_lt, lowercase, occurs_at, replace_all, replace_str,
    starts_with_str, str_eq, str_lt, string_from_chars, to_lowercase, trim, trim_chars,
};

verus! {

/// For each element of `document` matching `selector`, in the order the
/// parser created them (the order `Html::select` walks the tree), the
/// value of its attribute `attr`; `None` when `selector` does not parse.
pub uninterp spec fn attr_query(document: Seq<char>, selector: Seq<char>, attr: Seq<char>) -> Option<
    Seq<Option<Seq<char>>>,
>;

/// For each element matching `outer`, for each element inside it matching
/// `inner`, the value of its attribute `attr`; `None` when a selector does
/// not parse.
pub uninterp spec fn nested_attr_query(
    document: Seq<char>,
    outer: Seq<char>,
    inner: Seq<char>,
    attr: Seq<char>,
) -> Option<Seq<Seq<Option<Seq<char>>>>>;

/// Parses `document` with `scraper::Html::parse_document`, selects with
/// `scraper::Selector` and reads attributes with `Element::attr`. What comes
/// back is named, not restated: it is a function of the arguments alone.
#[verifier::external_body]
fn select_attrs(document: &str, selector: &str, attr: &str) -> (r: Option<Vec<Option<String>>>)
    ensures
        r.deep_view() == attr_query(document@, selector@, attr@),
{
    let s = Selector::parse(selector).ok()?;
    let html = Html::parse_document(document);
    Some(html.select(&s).map(|e| e.value().attr(attr).map(String::from)).collect())
}

/// As `select_attrs`, one level deeper: the elements matching `inner` are
/// looked for inside each element matching `outer` (`ElementRef::select`).
#[verifier::external_body]
fn select_nested_attrs(document: &str, outer: &str, inner: &str, attr: &str) -> (r: Option<
    Vec<Vec<Option<String>>>,
>)
    ensures
        r.deep_view() == nested_attr_query(document@, outer@, inner@, attr@),
{
    let (o, i) = (Selector::parse(outer).ok()?, Selector::parse(inner).ok()?);
    let html = Html::parse_document(document);
    Some(
        html.select(&o).map(|e| e.select(&i).map(|x| x.value().attr(attr).map(String::from)).collect()).collect(),
    )
}

/// The first value that `pick` accepts, scanning `s` from position `i`;
/// absent values are skipped.
pub open spec fn first_found(
    s: Seq<Option<Seq<char>>>,
    i: int,
    pick: spec_fn(Seq<char>) -> Option<Seq<char>>,
) -> Option<Seq<char>>
    decreases s.len() - i,
{
    if 0 <= i < s.len() {
        if s[i] is Some && pick(s[i].unwrap()) is Some {
            pick(s[i].unwrap())
        } else {
            first_found(s, i + 1, pick)
        }
    } else {
        None
    }
}

/// `first_found` over groups of values, group by group from group `i`.
pub open spec fn first_found_nested(
    s: Seq<Seq<Option<Seq<char>>>>,
    i: int,
    pick: spec_fn(Seq<char>) -> Option<Seq<char>>,
) -> Option<Seq<char>>
    decreases s.len() - i,
{
    if 0 <= i < s.len() {
        if first_found(s[i], 0, pick) is Some {
            first_found(s[i], 0, pick)
        } else {
            first_found_nested(s, i + 1, pick)
        }
    } else {
        None
    }
}

/// Takes any value as it is.
pub open spec fn any_value() -> spec_fn(Seq<char>) -> Option<Seq<char>> {
    |v: Seq<char>| Some(v)
}

/// A profile link `/profile/<handle>` gives the handle (every `/profile/`
/// removed, as `str::replace` does).
pub open spec fn profile_handle() -> spec_fn(Seq<char>) -> Option<Seq<char>> {
    |v: Seq<char>|
        if occurs_at(v, "/profile/"@, 0) {
            Some(replace_all(v, "/profile/"@, ""@))
        } else {
            None
        }
}

/// An option value equal to `id` after lower-casing both.
pub open spec fn same_index(id: Seq<char>) -> spec_fn(Seq<char>) -> Option<Seq<char>> {
    |v: Seq<char>|
        if lowercase(v) == lowercase(id) {
            Some(v)
        } else {
            None
        }
}

/// The `data-csrf` attribute of the first `span.csrf-token` that has one.
pub open spec fn csrf_of(found: Option<Seq<Option<Seq<char>>>>) -> Option<Seq<char>> {
    match found {
        Some(s) => first_found(s, 0, any_value()),
        None => None,
    }
}

/// The first present value of `found`.
pub fn csrf_in(found: &Vec<Option<String>>) -> (r: Option<String>)
    ensures
        r.deep_view() == first_found(found.deep_view(), 0, any_value()),
{
    let ghost s = found.deep_view();
    let mut i: usize = 0;
    while i < found.len()
        invariant
            i <= found.len(),
            s == found.deep_view(),
            first_found(s, 0, any_value()) == first_found(s, i as int, any_value()),
        decreases found.len() - i,
    {
        if let Some(v) = &found[i] {
            assert(s[i as int] == Some(v@));
            return Some(v.clone());
        }
        i = i + 1;
    }
    None
}

/// The CSRF token of a page: the `data-csrf` attribute of its first
/// `span.csrf-token` that has one.
pub open spec fn page_csrf(document: Seq<char>) -> Option<Seq<char>> {
    csrf_of(attr_query(document, "span.csrf-token"@, "data-csrf"@))
}

/// Finds the CSRF token in a page served by the site.
pub fn csrf(document: &str) -> (r: Option<String>)
    ensures
        r.deep_view() == page_csrf(document@),
{
    match select_attrs(document, "span.csrf-token", "data-csrf") {
        Some(found) => csrf_in(&found),
        None => None,
    }
}

/// The handle in the first profile link among `found`, group by group.
pub fn handle_in(found: &Vec<Vec<Option<String>>>) -> (r: Option<String>)
    ensures
        r.deep_view() == first_found_nested(found.deep_view(), 0, profile_handle()),
{
    let ghost s = found.deep_view();
    let mut i: usize = 0;
    while i < found.len()
        invariant
            i <= found.len(),
            s == found.deep_view(),
            first_found_nested(s, 0, profile_handle()) == first_found_nested(
                s,
                i as int,
                profile_handle(),
            ),
        decreases found.len() - i,
    {
        let group = &found[i];
        let ghost g = group.deep_view();
        assert(g == s[i as int]);
        let mut j: usize = 0;
        while j < group.len()
            invariant
                j <= group.len(),
                i < found.len(),
                s == found.deep_view(),
                g == group.deep_view(),
                g == s[i as int],
                first_found_nested(s, 0, profile_handle()) == first_found_nested(
                    s,
                    i as int,
                    profile_handle(),
                ),
                first_found(g, 0, profile_handle()) == first_found(g, j as int, profile_handle()),
            decreases group.len() - j,
        {
            if let Some(v) = &group[j] {
                assert(g[j as int] == Some(v@));
                if starts_with_str(v.as_str(), "/profile/") {
                    proof {
                        reveal_strlit("/profile/");
                    }
                    let h = replace_str(v.as_str(), "/profile/", "");
                    assert(first_found(g, j as int, profile_handle()) == Some(h@));
                    assert(first_found_nested(s, i as int, profile_handle()) == Some(h@));
                    return Some(h);
                }
            }
            j = j + 1;
        }
        i = i + 1;
    }
    None
}

/// The handle in the first profile link inside the language chooser of a page.
pub open spec fn page_handle(document: Seq<char>) -> Option<Seq<char>> {
    match nested_attr_query(document, "div.lang-chooser"@, "a"@, "href"@) {
        Some(s) => first_found_nested(s, 0, profile_handle()),
        None => None,
    }
}

/// The handle of the logged-in user, from the profile link in the language
/// chooser at the top of a page served by the site.
pub fn handle(document: &str) -> (r: Option<String>)
    ensures
        r.deep_view() == page_handle(document@),
{
    match select_nested_attrs(document, "div.lang-chooser", "a", "href") {
        Some(found) => handle_in(&found),
        None => None,
    }
}

/// The first option value among `found` that equals `problem_id` after
/// lower-casing both.
pub fn problem_index_in(found: &Vec<Vec<Option<String>>>, problem_id: &str) -> (r: Option<String>)
    ensures
        r.deep_view() == first_found_nested(found.deep_view(), 0, same_index(problem_id@)),
{
    let ghost s = found.deep_view();
    let ghost p = same_index(problem_id@);
    let wanted = to_lowercase(problem_id);
    let mut i: usize = 0;
    while i < found.len()
        invariant
            i <= found.len(),
            s == found.deep_view(),
            p == same_index(problem_id@),
            wanted@ == lowercase(problem_id@),
            first_found_nested(s, 0, p) == first_found_nested(s, i as int, p),
        decreases found.len() - i,
    {
        let group = &found[i];
        let ghost g = group.deep_view();
        assert(g == s[i as int]);
        let mut j: usize = 0;
        while j < group.len()
            invariant
                j <= group.len(),
                i < found.len(),
                s == found.deep_view(),
                g == group.deep_view(),
                g == s[i as int],
                first_found_nested(s, 0, p) == first_found_nested(s, i as int, p),
                p == same_index(problem_id@),
                wanted@ == lowercase(problem_id@),
                first_found(g, 0, p) == first_found(g, j as int, p),
            decreases group.len() - j,
        {
            if let Some(v) = &group[j] {
                assert(g[j as int] == Some(v@));
                let lower = to_lowercase(v.as_str());
                if str_eq(lower.as_str(), wanted.as_str()) {
                    assert(first_found(g, j as int, p) == Some(v@));
                    assert(first_found_nested(s, i as int, p) == Some(v@));
                    return Some(v.clone());
                }
            }
            j = j + 1;
        }
        i = i + 1;
    }
    None
}

/// The first option of the submit form of a page that names the problem `id`,
/// without regard to case.
pub open spec fn page_problem_index(document: Seq<char>, id: Seq<char>) -> Option<Seq<char>> {
    match nested_attr_query(
        document,
        "select[name=\"submittedProblemIndex\"]"@,
        "option"@,
        "value"@,
    ) {
        Some(s) => first_found_nested(s, 0, same_index(id)),
        None => None,
    }
}

/// The problem index offered by the submit form of a page for the problem
/// `problem_id`, compared without regard to case; `None` when the form has no
/// such problem.
pub fn problem_index(document: &str, problem_id: &str) -> (r: Option<String>)
    ensures
        r.deep_view() == page_problem_index(document@, problem_id@),
{
    match select_nested_attrs(document, "select[name=\"submittedProblemIndex\"]", "option", "value") {
        Some(found) => problem_index_in(&found, problem_id),
        None => None,
    }
}


/// For each element matching `holder`: the value of its attribute
/// `holder_attr`, and, for each element inside it matching `input` and then
/// for each matching `output`, the text nodes of each element inside that
/// matches `block`; `None` when a selector does not parse.
pub uninterp spec fn sample_query(
    document: Seq<char>,
    holder: Seq<char>,
    holder_attr: Seq<char>,
    input: Seq<char>,
    output: Seq<char>,
    block: Seq<char>,
) -> Option<
    Seq<(Option<Seq<char>>, Seq<Seq<Seq<Seq<char>>>>, Seq<Seq<Seq<Seq<char>>>>)>,
>;

/// For each element matching `table`, for each element inside it matching
/// `row`: the value of its attribute `row_attr` and the text nodes of each
/// element inside the row that matches `cell`; `None` when a selector does not
/// parse.
pub uninterp spec fn row_query(
    document: Seq<char>,
    table: Seq<char>,
    row: Seq<char>,
    row_attr: Seq<char>,
    cell: Seq<char>,
) -> Option<Seq<Seq<(Option<Seq<char>>, Seq<Seq<Seq<char>>>)>>>;

/// Parses `document` with `scraper::Html::parse_document` and walks it with
/// `scraper::Selector`s, reading an attribute (`Element::attr`) and text nodes
/// (`ElementRef::text`). What comes back is named, not restated.
#[verifier::external_body]
fn select_samples(
    document: &str,
    holder: &str,
    holder_attr: &str,
    input: &str,
    output: &str,
    block: &str,
) -> (r: Option<Vec<(Option<String>, Vec<Vec<Vec<String>>>, Vec<Vec<Vec<String>>>)>>)
    ensures
        r.deep_view() == sample_query(document@, holder@, holder_attr@, input@, output@, block@),
{
    let (h, i, o) = (Selector::parse(holder).ok()?, Selector::parse(input).ok()?, Selector::parse(output).ok()?);
    let b = Selector::parse(block).ok()?;
    let html = Html::parse_document(document);
    let texts = |d: scraper::ElementRef| d.select(&b).map(|p| p.text().map(String::from).collect()).collect();
    Some(html.select(&h).map(|e| (e.value().attr(holder_attr).map(String::from), e.select(&i).map(texts).collect(), e.select(&o).map(texts).collect())).collect())
}

/// Parses `document` with `scraper::Html::parse_document` and walks it with
/// `scraper::Selector`s, reading an attribute of each row (`Element::attr`)
/// and the text nodes of its cells (`ElementRef::text`). What comes back is
/// named, not restated.
#[verifier::external_body]
fn select_rows(document: &str, table: &str, row: &str, row_attr: &str, cell: &str) -> (r: Option<
    Vec<Vec<(Option<String>, Vec<Vec<String>>)>>,
>)
    ensures
        r.deep_view() == row_query(document@, table@, row@, row_attr@, cell@),
{
    let (t, w, c) = (Selector::parse(table).ok()?, Selector::parse(row).ok()?, Selector::parse(cell).ok()?);
    let html = Html::parse_document(document);
    let cells = |x: scraper::ElementRef| x.select(&c).map(|d| d.text().map(String::from).collect()).collect();
    Some(html.select(&t).map(|e| e.select(&w).map(|x| (x.value().attr(row_attr).map(String::from), cells(x))).collect()).collect())
}

/// What went wrong reading a page.
#[derive(Clone, Copy, Debug, PartialEq, Eq, Structural)]
pub enum ScrapeError {
    /// A problem on the problems page carries no problem index.
    NoProblemIndex,
    /// The submission table has no such submission.
    NoSubmission,
    /// A row of the submission table has only this many cells, fewer than eight.
    MissingCell(usize),
}

/// What to tell the user about a page that could not be read.
pub open spec fn scrape_error_text(e: ScrapeError) -> Seq<char> {
    match e {
        ScrapeError::NoProblemIndex => "Failed to parse samples from HTML"@,
        ScrapeError::NoSubmission => "Failed to find submission in table."@,
        ScrapeError::MissingCell(k) => if k == 0 {
            "Couldn't find submission ID."@
        } else if k == 1 {
            "Couldn't find submission time."@
        } else if k == 2 {
            "Couldn't find submission author."@
        } else if k == 3 {
            "Couldn't find submission problem."@
        } else if k == 4 {
            "Couldn't find submission language."@
        } else if k == 5 {
            "Couldn't find submission verdict."@
        } else if k == 6 {
            "Couldn't find result time."@
        } else {
            "Couldn't find result memory."@
        },
    }
}

impl ScrapeError {
    /// What to tell the user.
    pub fn message(&self) -> (r: String)
        ensures
            r@ == scrape_error_text(*self),
    {
        let m: &str = match self {
            ScrapeError::NoProblemIndex => "Failed to parse samples from HTML",
            ScrapeError::NoSubmission => "Failed to find submission in table.",
            ScrapeError::MissingCell(0) => "Couldn't find submission ID.",
            ScrapeError::MissingCell(1) => "Couldn't find submission time.",
            ScrapeError::MissingCell(2) => "Couldn't find submission author.",
            ScrapeError::MissingCell(3) => "Couldn't find submission problem.",
            ScrapeError::MissingCell(4) => "Couldn't find submission language.",
            ScrapeError::MissingCell(5) => "Couldn't find submission verdict.",
            ScrapeError::MissingCell(6) => "Couldn't find result time.",
            ScrapeError::MissingCell(_) => "Couldn't find result memory.",
        };
        m.to_owned()
    }
}

/// The text of a table cell: its text nodes run together, then trimmed.
pub open spec fn cell_text(nodes: Seq<Seq<char>>) -> Seq<char> {
    trim(join(nodes, Seq::<char>::empty()))
}

/// Joining pieces with nothing between them runs them together.
proof fn lemma_join_empty(parts: Seq<Seq<char>>)
    ensures
        join(parts, Seq::<char>::empty()) == parts.flatten(),
    decreases parts.len(),
{
    broadcast use vstd::seq_lib::group_seq_properties;
    if parts.len() == 0 {
        assert(parts.flatten() =~= Seq::<char>::empty());
    } else {
        let d = parts.drop_last();
        assert(parts =~= d.push(parts.last()));
        d.lemma_flatten_push(parts.last());
        lemma_join_empty(d);
        if parts.len() == 1 {
            assert(d.flatten() =~= Seq::<char>::empty());
            assert(parts.flatten() =~= parts[0]);
        } else {
            assert(join(parts, Seq::<char>::empty()) =~= d.flatten() + parts.last());
        }
    }
}

/// Dropping the leading white space drops a prefix of white space, up to the
/// first character that is not.
proof fn lemma_trim_start(s: Seq<char>) -> (i: int)
    ensures
        0 <= i <= s.len(),
        trim_start(s) == s.skip(i),
        forall|k: int| 0 <= k < i ==> is_white_space(s[k]),
        i < s.len() ==> !is_white_space(s[i]),
    decreases s.len(),
{
    if s.len() > 0 && is_white_space(s[0]) {
        let j = lemma_trim_start(s.drop_first());
        assert(s.drop_first().skip(j) =~= s.skip(j + 1));
        assert forall|k: int| 0 <= k < j + 1 implies is_white_space(s[k]) by {
            if k > 0 {
                assert(s[k] == s.drop_first()[k - 1]);
            }
        }
        if j + 1 < s.len() {
            assert(s[j + 1] == s.drop_first()[j]);
        }
        j + 1
    } else {
        assert(s.skip(0) =~= s);
        0
    }
}

/// Dropping the trailing white space drops a suffix of white space, back to
/// the last character that is not.
proof fn lemma_trim_end(s: Seq<char>) -> (j: int)
    ensures
        0 <= j <= s.len(),
        trim_end(s) == s.take(j),
        forall|k: int| j <= k < s.len() ==> is_white_space(s[k]),
        j > 0 ==> !is_white_space(s[j - 1]),
    decreases s.len(),
{
    if s.len() > 0 && is_white_space(s.last()) {
        let j = lemma_trim_end(s.drop_last());
        assert(s.drop_last().take(j) =~= s.take(j));
        assert forall|k: int| j <= k < s.len() implies is_white_space(s[k]) by {
            if k < s.len() - 1 {
                assert(s[k] == s.drop_last()[k]);
            }
        }
        if j > 0 {
            assert(s[j - 1] == s.drop_last()[j - 1]);
        }
        j
    } else {
        assert(s.take(s.len() as int) =~= s);
        s.len() as int
    }
}

/// The text of a cell is all of its text nodes run together in order, less
/// the white space at both ends: the nodes' characters are some white space,
/// then the cell text, then some white space; and the cell text, unless
/// empty, begins and ends with a character that is not white space. So every
/// character of every node that is not white space is in the cell text.
pub proof fn lemma_cell_text(nodes: Seq<Seq<char>>)
    ensures
        exists|a: Seq<char>, b: Seq<char>|
            nodes.flatten() == a + cell_text(nodes) + b && (forall|k: int|
                0 <= k < a.len() ==> is_white_space(#[trigger] a[k])) && (forall|k: int|
                0 <= k < b.len() ==> is_white_space(#[trigger] b[k])),
        cell_text(nodes).len() > 0 ==> !is_white_space(cell_text(nodes)[0]) && !is_white_space(
            cell_text(nodes).last(),
        ),
{
    lemma_join_empty(nodes);
    let s = nodes.flatten();
    let i = lemma_trim_start(s);
    let t = s.skip(i);
    let j = lemma_trim_end(t);
    let mid = t.take(j);
    assert(cell_text(nodes) == mid);
    let a = s.take(i);
    let b = s.skip(i + j);
    assert(s =~= a + mid + b);
    assert forall|k: int| 0 <= k < b.len() implies is_white_space(#[trigger] b[k]) by {
        assert(b[k] == t[j + k]);
    }
    assert forall|k: int| 0 <= k < a.len() implies is_white_space(#[trigger] a[k]) by {
        assert(a[k] == s[k]);
    }
    if mid.len() > 0 {
        assert(mid[0] == s[i]);
        assert(mid.last() == t[j - 1]);
    }
}

/// The fields of a submission, in table order.
pub open spec fn submission_fields(s: SubmissionInfo) -> Seq<Seq<char>> {
    seq![s.id@, s.when@, s.who@, s.problem@, s.lang@, s.verdict@, s.time@, s.memory@]
}

/// `r` is what reading the row with cells `cells` gives: the first eight cell
/// texts, or the number of cells when there are fewer than eight.
pub open spec fn row_read(r: Result<SubmissionInfo, ScrapeError>, cells: Seq<Seq<Seq<char>>>) -> bool {
    match r {
        Ok(info) => cells.len() >= 8 && submission_fields(info) == Seq::new(
            8,
            |k: int| cell_text(cells[k]),
        ),
        Err(e) => cells.len() < 8 && e == ScrapeError::MissingCell(cells.len() as usize),
    }
}

fn cell_string(nodes: &Vec<String>) -> (r: String)
    ensures
        r@ == cell_text(nodes.deep_view()),
{
    let joined = join_strings(nodes, "");
    proof {
        reveal_strlit("");
        assert(""@ =~= Seq::<char>::empty());
    }
    let t = trim_chars(&chars_of(joined.as_str()));
    string_from_chars(t.as_slice())
}

/// Reads a row of the submission table from the text nodes of its cells.
pub fn parse_submission_tr(cells: &Vec<Vec<String>>) -> (r: Result<SubmissionInfo, ScrapeError>)
    ensures
        row_read(r, cells.deep_view()),
{
    if cells.len() < 8 {
        return Err(ScrapeError::MissingCell(cells.len()));
    }
    let info = SubmissionInfo {
        id: cell_string(&cells[0]),
        when: cell_string(&cells[1]),
        who: cell_string(&cells[2]),
        problem: cell_string(&cells[3]),
        lang: cell_string(&cells[4]),
        verdict: cell_string(&cells[5]),
        time: cell_string(&cells[6]),
        memory: cell_string(&cells[7]),
    };
    assert(submission_fields(info) =~= Seq::new(8, |k: int| cell_text(cells.deep_view()[k])));
    Ok(info)
}

/// Scanning rows from `j` with the greatest id so far `cur` and the row that
/// carried it: a row replaces them when its id is greater (as strings).
pub open spec fn scan_rows(
    rows: Seq<(Option<Seq<char>>, Seq<Seq<Seq<char>>>)>,
    j: int,
    cur: Seq<char>,
    chosen: Option<Seq<Seq<Seq<char>>>>,
) -> (Seq<char>, Option<Seq<Seq<Seq<char>>>>)
    decreases rows.len() - j,
{
    if 0 <= j < rows.len() {
        if rows[j].0 is Some && lex_lt(cur, rows[j].0.unwrap()) {
            scan_rows(rows, j + 1, rows[j].0.unwrap(), Some(rows[j].1))
        } else {
            scan_rows(rows, j + 1, cur, chosen)
        }
    } else {
        (cur, chosen)
    }
}

/// `scan_rows` over the tables from table `i`, in order.
pub open spec fn scan_tables(
    tables: Seq<Seq<(Option<Seq<char>>, Seq<Seq<Seq<char>>>)>>,
    i: int,
    cur: Seq<char>,
    chosen: Option<Seq<Seq<Seq<char>>>>,
) -> (Seq<char>, Option<Seq<Seq<Seq<char>>>>)
    decreases tables.len() - i,
{
    if 0 <= i < tables.len() {
        let next = scan_rows(tables[i], 0, cur, chosen);
        scan_tables(tables, i + 1, next.0, next.1)
    } else {
        (cur, chosen)
    }
}

/// The cells of the row with the greatest submission id, starting from "0".
pub open spec fn latest_cells(tables: Seq<Seq<(Option<Seq<char>>, Seq<Seq<Seq<char>>>)>>) -> Option<
    Seq<Seq<Seq<char>>>,
> {
    scan_tables(tables, 0, "0"@, None).1
}

/// `r` is what reading the row `cells` gives, or `NoSubmission` if there is none.
pub open spec fn found_row_read(
    r: Result<SubmissionInfo, ScrapeError>,
    cells: Option<Seq<Seq<Seq<char>>>>,
) -> bool {
    match cells {
        Some(c) => row_read(r, c),
        None => r == Err::<SubmissionInfo, ScrapeError>(ScrapeError::NoSubmission),
    }
}

spec fn chosen_cells(
    tables: Seq<Seq<(Option<Seq<char>>, Seq<Seq<Seq<char>>>)>>,
    at: Option<(usize, usize)>,
) -> Option<Seq<Seq<Seq<char>>>> {
    match at {
        Some((a, b)) => Some(tables[a as int][b as int].1),
        None => None,
    }
}

/// Reads the row with the greatest submission id among the tables' rows.
pub fn latest_in(tables: &Vec<Vec<(Option<String>, Vec<Vec<String>>)>>) -> (r: Result<
    SubmissionInfo,
    ScrapeError,
>)
    ensures
        found_row_read(r, latest_cells(tables.deep_view())),
{
    let ghost t = tables.deep_view();
    let mut cur: String = "0".to_owned();
    let mut at: Option<(usize, usize)> = None;
    let mut i: usize = 0;
    while i < tables.len()
        invariant
            i <= tables.len(),
            t == tables.deep_view(),
            scan_tables(t, 0, "0"@, None) == scan_tables(t, i as int, cur@, chosen_cells(t, at)),
            at matches Some((a, b)) ==> a < tables.len() && b < tables@[a as int].len(),
        decreases tables.len() - i,
    {
        let rows = &tables[i];
        let ghost g = rows.deep_view();
        let ghost start = (cur@, chosen_cells(t, at));
        assert(g == t[i as int]);
        let mut j: usize = 0;
        while j < rows.len()
            invariant
                j <= rows.len(),
                i < tables.len(),
                rows == tables@[i as int],
                t == tables.deep_view(),
                g == rows.deep_view(),
                g == t[i as int],
                scan_tables(t, 0, "0"@, None) == scan_tables(t, i as int, start.0, start.1),
                scan_rows(g, 0, start.0, start.1) == scan_rows(g, j as int, cur@, chosen_cells(t, at)),
                at matches Some((a, b)) ==> a < tables.len() && b < tables@[a as int].len(),
            decreases rows.len() - j,
        {
            if let Some(sid) = &rows[j].0 {
                assert(g[j as int].0 == Some(sid@));
                if str_lt(cur.as_str(), sid.as_str()) {
                    cur = sid.clone();
                    at = Some((i, j));
                }
            }
            j = j + 1;
        }
        i = i + 1;
    }
    match at {
        Some((a, b)) => parse_submission_tr(&tables[a][b].1),
        None => Err(ScrapeError::NoSubmission),
    }
}

/// The rows of the table of the user's submissions, table by table.
pub open spec fn page_rows(document: Seq<char>) -> Option<
    Seq<Seq<(Option<Seq<char>>, Seq<Seq<Seq<char>>>)>>,
> {
    row_query(document, "table.status-frame-datatable"@, "tr"@, "data-submission-id"@, "td"@)
}

/// The cells of the newest submission on a page.
pub open spec fn page_latest(document: Seq<char>) -> Option<Seq<Seq<Seq<char>>>> {
    match page_rows(document) {
        Some(t) => latest_cells(t),
        None => None,
    }
}

/// Reads the newest submission from the table of the user's submissions: the
/// row whose `data-submission-id` is greatest.
pub fn latest_submission_info(document: &str) -> (r: Result<SubmissionInfo, ScrapeError>)
    ensures
        found_row_read(r, page_latest(document@)),
{
    match select_rows(document, "table.status-frame-datatable", "tr", "data-submission-id", "td") {
        Some(tables) => latest_in(&tables),
        None => Err(ScrapeError::NoSubmission),
    }
}

/// The cells of the first row from row `j` whose id is `id`.
pub open spec fn row_with_id(
    rows: Seq<(Option<Seq<char>>, Seq<Seq<Seq<char>>>)>,
    j: int,
    id: Seq<char>,
) -> Option<Seq<Seq<Seq<char>>>>
    decreases rows.len() - j,
{
    if 0 <= j < rows.len() {
        if rows[j].0 == Some(id) {
            Some(rows[j].1)
        } else {
            row_with_id(rows, j + 1, id)
        }
    } else {
        None
    }
}

/// The cells of the first row, table by table from table `i`, whose id is `id`.
pub open spec fn table_row_with_id(
    tables: Seq<Seq<(Option<Seq<char>>, Seq<Seq<Seq<char>>>)>>,
    i: int,
    id: Seq<char>,
) -> Option<Seq<Seq<Seq<char>>>>
    decreases tables.len() - i,
{
    if 0 <= i < tables.len() {
        if row_with_id(tables[i], 0, id) is Some {
            row_with_id(tables[i], 0, id)
        } else {
            table_row_with_id(tables, i + 1, id)
        }
    } else {
        None
    }
}

/// Reads the first row among the tables' rows whose id is `submission_id`.
pub fn submission_in(
    tables: &Vec<Vec<(Option<String>, Vec<Vec<String>>)>>,
    submission_id: &String,
) -> (r: Result<SubmissionInfo, ScrapeError>)
    ensures
        found_row_read(r, table_row_with_id(tables.deep_view(), 0, submission_id@)),
{
    let ghost t = tables.deep_view();
    let mut i: usize = 0;
    while i < tables.len()
        invariant
            i <= tables.len(),
            t == tables.deep_view(),
            table_row_with_id(t, 0, submission_id@) == table_row_with_id(t, i as int, submission_id@),
        decreases tables.len() - i,
    {
        let rows = &tables[i];
        let ghost g = rows.deep_view();
        assert(g == t[i as int]);
        let mut j: usize = 0;
        while j < rows.len()
            invariant
                j <= rows.len(),
                i < tables.len(),
                t == tables.deep_view(),
                g == rows.deep_view(),
                g == t[i as int],
                table_row_with_id(t, 0, submission_id@) == table_row_with_id(t, i as int, submission_id@),
                row_with_id(g, 0, submission_id@) == row_with_id(g, j as int, submission_id@),
            decreases rows.len() - j,
        {
            if let Some(sid) = &rows[j].0 {
                assert(g[j as int].0 == Some(sid@));
                if str_eq(sid.as_str(), submission_id.as_str()) {
                    assert(row_with_id(g, j as int, submission_id@) == Some(g[j as int].1));
                    assert(g[j as int].1 == rows[j as int].1.deep_view());
                    return parse_submission_tr(&rows[j].1);
                }
            }
            j = j + 1;
        }
        i = i + 1;
    }
    Err(ScrapeError::NoSubmission)
}

/// The cells of the submission `id` on a page.
pub open spec fn page_submission(document: Seq<char>, id: Seq<char>) -> Option<Seq<Seq<Seq<char>>>> {
    match page_rows(document) {
        Some(t) => table_row_with_id(t, 0, id),
        None => None,
    }
}

/// Reads the submission `submission_id` from the table of the user's
/// submissions.
pub fn submission_info(document: &str, submission_id: &String) -> (r: Result<
    SubmissionInfo,
    ScrapeError,
>)
    ensures
        found_row_read(r, page_submission(document@, submission_id@)),
{
    match select_rows(document, "table.status-frame-datatable", "tr", "data-submission-id", "td") {
        Some(tables) => submission_in(&tables, submission_id),
        None => Err(ScrapeError::NoSubmission),
    }
}


/// The first block of each division that has one, its text nodes joined by
/// newlines; divisions without a block are passed over.
pub open spec fn first_blocks(divs: Seq<Seq<Seq<Seq<char>>>>) -> Seq<Seq<char>>
    decreases divs.len(),
{
    if divs.len() == 0 {
        Seq::empty()
    } else if divs.last().len() > 0 {
        first_blocks(divs.drop_last()).push(join(divs.last()[0], "\n"@))
    } else {
        first_blocks(divs.drop_last())
    }
}

/// The pairs `(a[k], b[k])`, as many as the shorter of the two has.
pub open spec fn paired(a: Seq<Seq<char>>, b: Seq<Seq<char>>) -> Seq<(Seq<char>, Seq<char>)> {
    Seq::new(if a.len() <= b.len() { a.len() } else { b.len() }, |k: int| (a[k], b[k]))
}

/// The sample tests of one problem: its inputs paired with its outputs.
pub open spec fn holder_samples(
    g: (Option<Seq<char>>, Seq<Seq<Seq<Seq<char>>>>, Seq<Seq<Seq<Seq<char>>>>),
) -> Seq<(Seq<char>, Seq<char>)> {
    paired(first_blocks(g.1), first_blocks(g.2))
}

/// Every problem carries its index.
pub open spec fn all_indexed(
    gs: Seq<(Option<Seq<char>>, Seq<Seq<Seq<Seq<char>>>>, Seq<Seq<Seq<Seq<char>>>>)>,
) -> bool {
    forall|k: int| 0 <= k < gs.len() ==> (#[trigger] gs[k]).0 is Some
}

/// The sample tests by problem index; a later problem with the same index
/// replaces an earlier one.
pub open spec fn samples_map(
    gs: Seq<(Option<Seq<char>>, Seq<Seq<Seq<Seq<char>>>>, Seq<Seq<Seq<Seq<char>>>>)>,
) -> Map<Seq<char>, Seq<(Seq<char>, Seq<char>)>>
    decreases gs.len(),
{
    if gs.len() == 0 {
        Map::empty()
    } else {
        samples_map(gs.drop_last()).insert(gs.last().0.unwrap(), holder_samples(gs.last()))
    }
}

/// No key occurs twice in a list of entries.
pub open spec fn assoc_distinct<V>(s: Seq<(Seq<char>, V)>) -> bool {
    forall|i: int, j: int| 0 <= i < j < s.len() ==> #[trigger] s[i].0 != #[trigger] s[j].0
}

/// The map that a list of entries stands for.
pub open spec fn assoc_map<V>(s: Seq<(Seq<char>, V)>) -> Map<Seq<char>, V>
    decreases s.len(),
{
    if s.len() == 0 {
        Map::empty()
    } else {
        assoc_map(s.drop_last()).insert(s.last().0, s.last().1)
    }
}

/// Replacing the value of an entry is inserting into the map it stands for.
pub proof fn lemma_assoc_update<V>(s: Seq<(Seq<char>, V)>, j: int, v: V)
    requires
        assoc_distinct(s),
        0 <= j < s.len(),
    ensures
        assoc_distinct(s.update(j, (s[j].0, v))),
        assoc_map(s.update(j, (s[j].0, v))) == assoc_map(s).insert(s[j].0, v),
    decreases s.len(),
{
    let u = s.update(j, (s[j].0, v));
    assert forall|a: int, b: int| 0 <= a < b < u.len() implies #[trigger] u[a].0 != #[trigger] u[b].0 by {
        assert(u[a].0 == s[a].0 && u[b].0 == s[b].0);
    }
    if j == s.len() - 1 {
        assert(u.drop_last() =~= s.drop_last());
        assert(assoc_map(u) =~= assoc_map(s).insert(s[j].0, v));
    } else {
        let d = s.drop_last();
        assert(assoc_distinct(d)) by {
            assert forall|a: int, b: int| 0 <= a < b < d.len() implies #[trigger] d[a].0
                != #[trigger] d[b].0 by {
                assert(d[a] == s[a] && d[b] == s[b]);
            }
        }
        lemma_assoc_update(d, j, v);
        assert(u.drop_last() =~= d.update(j, (d[j].0, v)));
        assert(s.last().0 != s[j].0);
        assert(assoc_map(u) =~= assoc_map(s).insert(s[j].0, v));
    }
}

/// The texts of the first blocks of `divs`.
fn first_blocks_of(divs: &Vec<Vec<Vec<String>>>) -> (r: Vec<String>)
    ensures
        r.deep_view() == first_blocks(divs.deep_view()),
{
    let ghost d = divs.deep_view();
    let mut out: Vec<String> = Vec::new();
    let mut i: usize = 0;
    assert(d.take(0) =~= Seq::<Seq<Seq<Seq<char>>>>::empty());
    assert(out.deep_view() =~= Seq::<Seq<char>>::empty());
    while i < divs.len()
        invariant
            i <= divs.len(),
            d == divs.deep_view(),
            out.deep_view() == first_blocks(d.take(i as int)),
        decreases divs.len() - i,
    {
        proof {
            assert(d.take(i + 1).drop_last() =~= d.take(i as int));
            assert(d.take(i + 1).last() == d[i as int]);
        }
        if divs[i].len() > 0 {
            let text = join_strings(&divs[i][0], "\n");
            let ghost before = out.deep_view();
            out.push(text);
            assert(out.deep_view() =~= before.push(text@));
        }
        i = i + 1;
    }
    assert(d.take(divs.len() as int) =~= d);
    out
}

/// The pairs of `a` and `b` by position.
fn pair_up(a: &Vec<String>, b: &Vec<String>) -> (r: Vec<(String, String)>)
    ensures
        r.deep_view() == paired(a.deep_view(), b.deep_view()),
{
    let n: usize = if a.len() <= b.len() { a.len() } else { b.len() };
    let mut out: Vec<(String, String)> = Vec::new();
    let mut k: usize = 0;
    while k < n
        invariant
            k <= n,
            n <= a.len(),
            n <= b.len(),
            out.deep_view() =~= paired(a.deep_view(), b.deep_view()).take(k as int),
        decreases n - k,
    {
        let x = a[k].clone();
        let y = b[k].clone();
        let ghost before = out.deep_view();
        out.push((x, y));
        assert(out.deep_view() =~= before.push((a.deep_view()[k as int], b.deep_view()[k as int])));
        k = k + 1;
        assert(out.deep_view() =~= paired(a.deep_view(), b.deep_view()).take(k as int));
    }
    assert(paired(a.deep_view(), b.deep_view()).take(n as int) =~= paired(
        a.deep_view(),
        b.deep_view(),
    ));
    out
}

/// Where the entry with key `key` stands, if there is one.
fn entry_position(entries: &Vec<(String, Vec<(String, String)>)>, key: &str) -> (r: Option<usize>)
    ensures
        match r {
            Some(j) => j < entries.len() && entries@[j as int].0@ == key@,
            None => forall|m: int| 0 <= m < entries.len() ==> entries@[m].0@ != key@,
        },
{
    let mut j: usize = 0;
    while j < entries.len()
        invariant
            j <= entries.len(),
            forall|m: int| 0 <= m < j ==> entries@[m].0@ != key@,
        decreases entries.len() - j,
    {
        if str_eq(entries[j].0.as_str(), key) {
            return Some(j);
        }
        j = j + 1;
    }
    None
}

/// `r` is what reading the problems `gs` gives: the sample tests by problem
/// index, or `NoProblemIndex` when a problem carries no index.
pub open spec fn samples_read(
    r: Result<Vec<(String, Vec<(String, String)>)>, ScrapeError>,
    gs: Seq<(Option<Seq<char>>, Seq<Seq<Seq<Seq<char>>>>, Seq<Seq<Seq<Seq<char>>>>)>,
) -> bool {
    match r {
        Ok(v) => all_indexed(gs) && assoc_distinct(v.deep_view()) && assoc_map(v.deep_view())
            == samples_map(gs),
        Err(e) => !all_indexed(gs) && e == ScrapeError::NoProblemIndex,
    }
}

/// The sample tests of the problems `groups`, by problem index.
pub fn samples_in(
    groups: &Vec<(Option<String>, Vec<Vec<Vec<String>>>, Vec<Vec<Vec<String>>>)>,
) -> (r: Result<Vec<(String, Vec<(String, String)>)>, ScrapeError>)
    ensures
        samples_read(r, groups.deep_view()),
{
    let ghost gs = groups.deep_view();
    let mut res: Vec<(String, Vec<(String, String)>)> = Vec::new();
    let mut i: usize = 0;
    assert(gs.take(0) =~= Seq::<
        (Option<Seq<char>>, Seq<Seq<Seq<Seq<char>>>>, Seq<Seq<Seq<Seq<char>>>>),
    >::empty());
    assert(assoc_map(res.deep_view()) =~= Map::<Seq<char>, Seq<(Seq<char>, Seq<char>)>>::empty());
    while i < groups.len()
        invariant
            i <= groups.len(),
            gs == groups.deep_view(),
            all_indexed(gs.take(i as int)),
            assoc_distinct(res.deep_view()),
            assoc_map(res.deep_view()) == samples_map(gs.take(i as int)),
        decreases groups.len() - i,
    {
        let group = &groups[i];
        assert(gs[i as int] == group.deep_view());
        let key = match &group.0 {
            Some(k) => k,
            None => {
                assert(gs[i as int].0 is None);
                return Err(ScrapeError::NoProblemIndex);
            },
        };
        let ins = first_blocks_of(&group.1);
        let outs = first_blocks_of(&group.2);
        let pairs = pair_up(&ins, &outs);
        let ghost value = holder_samples(gs[i as int]);
        assert(pairs.deep_view() == value);
        proof {
            let t = gs.take(i + 1);
            assert(t.drop_last() =~= gs.take(i as int));
            assert(t.last() == gs[i as int]);
            assert(samples_map(t) == samples_map(gs.take(i as int)).insert(key@, value));
            assert forall|k: int| 0 <= k < t.len() implies (#[trigger] t[k]).0 is Some by {
                if k < i {
                    assert(t[k] == gs.take(i as int)[k]);
                }
            }
        }
        let ghost before = res.deep_view();
        match entry_position(&res, key.as_str()) {
            Some(j) => {
                proof {
                    lemma_assoc_update(before, j as int, value);
                }
                res.set(j, (key.clone(), pairs));
                assert(res.deep_view() =~= before.update(j as int, (before[j as int].0, value)));
            },
            None => {
                res.push((key.clone(), pairs));
                proof {
                    assert(res.deep_view() =~= before.push((key@, value)));
                    assert(res.deep_view().drop_last() =~= before);
                    let r = res.deep_view();
                    assert forall|a: int, b: int| 0 <= a < b < r.len() implies #[trigger] r[a].0
                        != #[trigger] r[b].0 by {
                        if b < before.len() {
                            assert(r[a] == before[a] && r[b] == before[b]);
                        }
                    }
                }
            },
        }
        i = i + 1;
    }
    assert(gs.take(groups.len() as int) =~= gs);
    Ok(res)
}

/// `r` is what reading the problems page `document` gives.
pub open spec fn page_samples_read(
    r: Result<Vec<(String, Vec<(String, String)>)>, ScrapeError>,
    document: Seq<char>,
) -> bool {
    match sample_query(
        document,
        "div.problemindexholder"@,
        "problemindex"@,
        "div.input"@,
        "div.output"@,
        "pre"@,
    ) {
        Some(gs) => samples_read(r, gs),
        None => r matches Ok(v) && v.len() == 0,
    }
}

/// The sample tests on the problems page of a contest, by problem index: for
/// each `div.problemindexholder`, the first `pre` of each `div.input` paired
/// with the first `pre` of each `div.output`.
pub fn sample_tests(document: &str) -> (r: Result<Vec<(String, Vec<(String, String)>)>, ScrapeError>)
    ensures
        page_samples_read(r, document@),
{
    match select_samples(
        document,
        "div.problemindexholder",
        "problemindex",
        "div.input",
        "div.output",
        "pre",
    ) {
        Some(groups) => samples_in(&groups),
        None => Ok(Vec::new()),
    }
}

} // verus!
