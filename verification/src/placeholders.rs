//! Placeholders: the `$%..%$` names in scripts and template files, and the
//! values that replace them.
use vstd::prelude::*;
use crate::config::TemplateScripts;
use crate::text::{append_chars, chars_of, decimal, matches_at, occurs_at, push_decimal_u64, string_from_chars};

verus! {

/// The first placeholder, from the `j`-th on, whose (non-empty) name starts `s`.
pub open spec fn first_key_from(s: Seq<char>, pairs: Seq<(Seq<char>, Seq<char>)>, j: int) -> Option<int>
    decreases pairs.len() - j,
{
    if 0 <= j < pairs.len() {
        if pairs[j].0.len() > 0 && occurs_at(s, pairs[j].0, 0) {
            Some(j)
        } else {
            first_key_from(s, pairs, j + 1)
        }
    } else {
        None
    }
}

/// `s` with its placeholders replaced, scanning left to right: where a
/// placeholder's name starts (the first in `pairs` if several do), its value
/// is put in its place and scanning goes on after the name; every other
/// character is kept. Values are not scanned again.
pub open spec fn substitute(s: Seq<char>, pairs: Seq<(Seq<char>, Seq<char>)>) -> Seq<char>
    decreases s.len(),
{
    if s.len() == 0 {
        s
    } else {
        match first_key_from(s, pairs, 0) {
            Some(k) => if 0 <= k < pairs.len() && 0 < pairs[k].0.len() <= s.len() {
                pairs[k].1 + substitute(s.skip(pairs[k].0.len() as int), pairs)
            } else {
                seq![s[0]] + substitute(s.drop_first(), pairs)
            },
            None => seq![s[0]] + substitute(s.drop_first(), pairs),
        }
    }
}

/// What `first_key_from` finds is a placeholder whose name starts `s`.
proof fn lemma_first_key(s: Seq<char>, pairs: Seq<(Seq<char>, Seq<char>)>, j: int)
    ensures
        first_key_from(s, pairs, j) matches Some(k) ==> 0 <= k < pairs.len() && 0 < pairs[k].0.len()
            <= s.len() && occurs_at(s, pairs[k].0, 0),
    decreases pairs.len() - j,
{
    if 0 <= j < pairs.len() {
        lemma_first_key(s, pairs, j + 1);
    }
}

/// Replaces the placeholders `pairs` (name, value) in `text`.
pub fn substitute_placeholders(text: &str, pairs: &Vec<(String, String)>) -> (r: String)
    ensures
        r@ == substitute(text@, pairs.deep_view()),
{
    let ghost ps = pairs.deep_view();
    let x = chars_of(text);
    let mut names: Vec<Vec<char>> = Vec::new();
    let mut values: Vec<Vec<char>> = Vec::new();
    let mut k: usize = 0;
    while k < pairs.len()
        invariant
            k <= pairs.len(),
            ps == pairs.deep_view(),
            names@.len() == k,
            values@.len() == k,
            forall|m: int| 0 <= m < k ==> #[trigger] names@[m]@ == ps[m].0 && values@[m]@ == ps[m].1,
        decreases pairs.len() - k,
    {
        let ghost before_names = names@;
        let ghost before_values = values@;
        names.push(chars_of(pairs[k].0.as_str()));
        values.push(chars_of(pairs[k].1.as_str()));
        proof {
            assert(ps[k as int] == (pairs@[k as int].0@, pairs@[k as int].1@));
            assert forall|m: int| 0 <= m < k + 1 implies #[trigger] names@[m]@ == ps[m].0
                && values@[m]@ == ps[m].1 by {
                if m < k {
                    assert(names@[m] == before_names[m]);
                    assert(values@[m] == before_values[m]);
                }
            }
        }
        k = k + 1;
    }
    let mut out: Vec<char> = Vec::new();
    let mut i: usize = 0;
    assert(x@.skip(0) =~= x@);
    while i < x.len()
        invariant
            i <= x.len(),
            x@ == text@,
            names@.len() == ps.len(),
            values@.len() == ps.len(),
            forall|m: int| 0 <= m < ps.len() ==> #[trigger] names@[m]@ == ps[m].0 && values@[m]@ == ps[m].1,
            out@ + substitute(x@.skip(i as int), ps) == substitute(x@, ps),
        decreases x.len() - i,
    {
        let ghost rest = x@.skip(i as int);
        let mut j: usize = 0;
        let mut found: Option<usize> = None;
        while j < names.len()
            invariant
                j <= names.len(),
                names@.len() == ps.len(),
                i < x.len(),
                rest == x@.skip(i as int),
                forall|m: int| 0 <= m < ps.len() ==> #[trigger] names@[m]@ == ps[m].0 && values@[m]@ == ps[m].1,
                found is None ==> first_key_from(rest, ps, 0) == first_key_from(rest, ps, j as int),
                found matches Some(f) ==> first_key_from(rest, ps, 0) == Some(f as int),
            decreases names.len() - j,
        {
            if found.is_none() && names[j].len() > 0 && matches_at(&x, &names[j], i) {
                proof {
                    assert(rest.subrange(0, names@[j as int]@.len() as int) =~= x@.subrange(
                        i as int,
                        i + names@[j as int]@.len(),
                    ));
                    assert(occurs_at(rest, ps[j as int].0, 0));
                }
                found = Some(j);
            } else if found.is_none() {
                proof {
                    if names@[j as int]@.len() > 0 && occurs_at(rest, ps[j as int].0, 0) {
                        assert(rest.subrange(0, names@[j as int]@.len() as int) =~= x@.subrange(
                            i as int,
                            i + names@[j as int]@.len(),
                        ));
                    }
                }
            }
            j = j + 1;
        }
        proof {
            lemma_first_key(rest, ps, 0);
        }
        match found {
            Some(f) => {
                let n = names[f].len();
                append_chars(&mut out, &values[f]);
                proof {
                    assert(rest.skip(n as int) =~= x@.skip(i + n));
                }
                i = i + n;
            },
            None => {
                out.push(x[i]);
                proof {
                    assert(rest.drop_first() =~= x@.skip(i + 1));
                    assert(seq![rest[0]] =~= seq![x@[i as int]]);
                }
                i = i + 1;
            },
        }
    }
    proof {
        assert(x@.skip(i as int) =~= Seq::<char>::empty());
        assert(out@ + Seq::<char>::empty() =~= out@);
    }
    string_from_chars(out.as_slice())
}


/// The placeholders of scripts: the working directory, the source file, its
/// name without suffix, and the time in seconds since the epoch.
pub open spec fn script_pairs(path: Seq<char>, file: Seq<char>, name: Seq<char>, time: Seq<char>) -> Seq<
    (Seq<char>, Seq<char>),
> {
    seq![("$%path%$"@, path), ("$%file%$"@, file), ("$%name%$"@, name), ("$%time%$"@, time)]
}

fn pair(name: &str, value: &str) -> (r: (String, String))
    ensures
        r.0@ == name@,
        r.1@ == value@,
{
    (name.to_owned(), value.to_owned())
}

fn script_placeholders(path: &str, file: &str, name: &str, time: &str) -> (r: Vec<(String, String)>)
    ensures
        r.deep_view() == script_pairs(path@, file@, name@, time@),
{
    let mut v: Vec<(String, String)> = Vec::new();
    v.push(pair("$%path%$", path));
    v.push(pair("$%file%$", file));
    v.push(pair("$%name%$", name));
    v.push(pair("$%time%$", time));
    assert(v.deep_view() =~= script_pairs(path@, file@, name@, time@));
    v
}

/// A script with its placeholders replaced.
pub fn expand_script(script: &str, path: &str, file: &str, name: &str, time: &str) -> (r: String)
    ensures
        r@ == substitute(script@, script_pairs(path@, file@, name@, time@)),
{
    substitute_placeholders(script, &script_placeholders(path, file, name, time))
}

/// `r` is `s` with its script placeholders replaced, where there is a script.
pub open spec fn expanded_opt(r: Option<String>, s: Option<String>, pairs: Seq<(Seq<char>, Seq<char>)>) -> bool {
    match s {
        Some(x) => r matches Some(y) && y@ == substitute(x@, pairs),
        None => r is None,
    }
}

/// The scripts to run for a test session: the template's before-script (run
/// once first), execute-script (run for each sample test) and after-script
/// (run once after all the tests), each with its placeholders replaced.
pub fn expand_scripts(scripts: &TemplateScripts, path: &str, file: &str, name: &str, time: &str) -> (r:
    TemplateScripts)
    ensures
        expanded_opt(r.before, scripts.before, script_pairs(path@, file@, name@, time@)),
        r.execute@ == substitute(scripts.execute@, script_pairs(path@, file@, name@, time@)),
        expanded_opt(r.after, scripts.after, script_pairs(path@, file@, name@, time@)),
{
    let before = match &scripts.before {
        Some(b) => Some(expand_script(b.as_str(), path, file, name, time)),
        None => None,
    };
    let execute = expand_script(scripts.execute.as_str(), path, file, name, time);
    let after = match &scripts.after {
        Some(a) => Some(expand_script(a.as_str(), path, file, name, time)),
        None => None,
    };
    TemplateScripts { before, execute, after }
}

/// A point in time, in UTC.
#[derive(Clone, Copy, Debug, PartialEq, Eq, Structural)]
pub struct DateTime {
    pub year: u64,
    pub month: u64,
    pub day: u64,
    pub hour: u64,
    pub minute: u64,
    pub second: u64,
}

/// A leap year of the Gregorian calendar.
pub open spec fn is_leap(y: int) -> bool {
    y % 4 == 0 && (y % 100 != 0 || y % 400 == 0)
}

/// The number of days of year `y`.
pub open spec fn year_len(y: int) -> nat {
    if is_leap(y) {
        366
    } else {
        365
    }
}

/// The number of days of month `m` (1 to 12) of year `y`.
pub open spec fn month_len(y: int, m: int) -> nat {
    if m == 2 {
        if is_leap(y) {
            29
        } else {
            28
        }
    } else if m == 4 || m == 6 || m == 9 || m == 11 {
        30
    } else {
        31
    }
}

/// The year of the `d`-th day counted from the start of year `y`, and the
/// day within that year (from 0).
pub open spec fn year_of_day(y: int, d: nat) -> (int, nat)
    decreases d,
{
    if d < year_len(y) {
        (y, d)
    } else {
        year_of_day(y + 1, (d - year_len(y)) as nat)
    }
}

/// The month of the `d`-th day of year `y` counted from the start of month
/// `m`, and the day within that month (from 0).
pub open spec fn month_of_day(y: int, m: int, d: nat) -> (int, nat)
    decreases 12 - m,
{
    if m >= 12 || d < month_len(y, m) {
        (m, d)
    } else {
        month_of_day(y, m + 1, (d - month_len(y, m)) as nat)
    }
}

/// The UTC date and time `secs` seconds after the start of 1970.
pub open spec fn utc_of(secs: nat) -> DateTime {
    let (y, in_year) = year_of_day(1970, secs / 86400);
    let (m, in_month) = month_of_day(y, 1, in_year);
    DateTime {
        year: y as u64,
        month: m as u64,
        day: (in_month + 1) as u64,
        hour: ((secs % 86400) / 3600) as u64,
        minute: ((secs % 3600) / 60) as u64,
        second: (secs % 60) as u64,
    }
}

/// The days from the start of month `m` of year `y` to the end of the year.
spec fn rest_of_year(y: int, m: int) -> nat
    decreases 13 - m,
{
    if 1 <= m <= 12 {
        month_len(y, m) + rest_of_year(y, m + 1)
    } else {
        0
    }
}

proof fn lemma_year_of_day(y: int, d: nat, total: int)
    requires
        y >= 1970,
        days_before_year(y) + d == total,
    ensures
        year_of_day(y, d).1 < year_len(year_of_day(y, d).0),
        y <= year_of_day(y, d).0 <= y + d,
        days_before_year(year_of_day(y, d).0) + year_of_day(y, d).1 == total,
    decreases d,
{
    if d >= year_len(y) {
        lemma_year_step(y);
        lemma_year_of_day(y + 1, (d - year_len(y)) as nat, total);
    }
}

proof fn lemma_month_of_day(y: int, m: int, d: nat)
    requires
        1 <= m <= 12,
        d < rest_of_year(y, m),
    ensures
        m <= month_of_day(y, m, d).0 <= 12,
        month_of_day(y, m, d).1 < month_len(y, month_of_day(y, m, d).0),
        days_before_month(y, month_of_day(y, m, d).0) + month_of_day(y, m, d).1 == days_before_month(
            y,
            m,
        ) + d,
    decreases 12 - m,
{
    if m >= 12 {
        assert(rest_of_year(y, 13) == 0);
    } else if d >= month_len(y, m) {
        lemma_month_step(y, m);
        lemma_month_of_day(y, m + 1, (d - month_len(y, m)) as nat);
    }
}

/// The days of year `y` before the first of month `m` (1 to 12), by the
/// usual table: 0, 31, 59, 90, ... and one more after February in a leap
/// year (divisible by 4, and by 400 if by 100).
pub open spec fn days_before_month(y: int, m: int) -> int {
    let table: int = if m == 1 {
        0
    } else if m == 2 {
        31
    } else if m == 3 {
        59
    } else if m == 4 {
        90
    } else if m == 5 {
        120
    } else if m == 6 {
        151
    } else if m == 7 {
        181
    } else if m == 8 {
        212
    } else if m == 9 {
        243
    } else if m == 10 {
        273
    } else if m == 11 {
        304
    } else {
        334
    };
    table + if m > 2 && y % 4 == 0 && (y % 100 != 0 || y % 400 == 0) {
        1int
    } else {
        0
    }
}

/// The days from the start of 1970 to the start of year `y` (from 1970 on):
/// 365 a year and one more for each leap year before it, counted as the
/// years divisible by 4, less those by 100, plus those by 400.
pub open spec fn days_before_year(y: int) -> int {
    365 * (y - 1970) + ((y - 1) / 4 - (y - 1) / 100 + (y - 1) / 400) - 477
}

/// The number of the day (from 0 for 1970-01-01) that a date falls on.
pub open spec fn day_number(year: int, month: int, day: int) -> int {
    days_before_year(year) + days_before_month(year, month) + day - 1
}

proof fn lemma_month_step(y: int, m: int)
    requires
        1 <= m < 12,
    ensures
        days_before_month(y, m + 1) == days_before_month(y, m) + month_len(y, m),
        rest_of_year(y, m) == month_len(y, m) + rest_of_year(y, m + 1),
{
}

proof fn lemma_year_step(y: int)
    requires
        y >= 1970,
    ensures
        days_before_year(y + 1) == days_before_year(y) + year_len(y),
{
    assert(y / 4 - (y - 1) / 4 == (if y % 4 == 0 { 1int } else { 0 }));
    assert(y / 100 - (y - 1) / 100 == (if y % 100 == 0 { 1int } else { 0 }));
    assert(y / 400 - (y - 1) / 400 == (if y % 400 == 0 { 1int } else { 0 }));
}

proof fn lemma_rest_of_year(y: int)
    ensures
        rest_of_year(y, 1) == year_len(y),
{
    reveal_with_fuel(rest_of_year, 13);
}

/// Every date and time `utc_date_time` gives is a real one: a month from 1
/// to 12; a day that exists in that month (30 days in April, June, September
/// and November, 29 in February of a leap year and 28 in other years, 31 in
/// the rest); an hour below 24, a minute and a second below 60. And it is
/// the right one: its day number, counted with the usual month table and
/// leap rule, is the number of whole days since 1970-01-01, and its time is
/// the seconds left over.
pub proof fn lemma_utc_date_is_real(secs: u64)
    ensures
        ({
            let t = utc_of(secs as nat);
            &&& 1 <= t.month <= 12
            &&& 1 <= t.day <= 31
            &&& (t.month == 4 || t.month == 6 || t.month == 9 || t.month == 11) ==> t.day <= 30
            &&& t.month == 2 ==> t.day <= 29
            &&& (t.month == 2 && t.day == 29) ==> t.year % 4 == 0 && (t.year % 100 != 0 || t.year
                % 400 == 0)
            &&& t.hour < 24 && t.minute < 60 && t.second < 60
            &&& day_number(t.year as int, t.month as int, t.day as int) == secs / 86400
            &&& t.hour * 3600 + t.minute * 60 + t.second == secs % 86400
        }),
{
    let total = (secs / 86400) as nat;
    assert(days_before_year(1970) == 0);
    lemma_year_of_day(1970, total, total as int);
    let (y, r) = year_of_day(1970, total);
    lemma_rest_of_year(y);
    lemma_month_of_day(y, 1, r);
    let (m, e) = month_of_day(y, 1, r);
    assert(total <= 0xffff_ffff_ffff_ffffint / 86400);
    assert(y <= 1970 + total);
    assert((secs % 86400) / 3600 * 3600 + (secs % 3600) / 60 * 60 + secs % 60 == secs % 86400)
        by (nonlinear_arith);
}

fn leap(y: u64) -> (r: bool)
    ensures
        r == is_leap(y as int),
{
    y % 4 == 0 && (y % 100 != 0 || y % 400 == 0)
}

fn days_in_year(y: u64) -> (r: u64)
    ensures
        r == year_len(y as int),
{
    if leap(y) {
        366
    } else {
        365
    }
}

fn days_in_month(y: u64, m: u64) -> (r: u64)
    ensures
        r == month_len(y as int, m as int),
{
    if m == 2 {
        if leap(y) {
            29
        } else {
            28
        }
    } else if m == 4 || m == 6 || m == 9 || m == 11 {
        30
    } else {
        31
    }
}

/// The UTC date and time `secs` seconds after the start of 1970.
pub fn utc_date_time(secs: u64) -> (r: DateTime)
    ensures
        r == utc_of(secs as nat),
{
    let total: u64 = secs / 86400;
    let mut days: u64 = total;
    let mut y: u64 = 1970;
    while days >= days_in_year(y)
        invariant
            1970 <= y,
            (y - 1970) + days <= total,
            total == secs / 86400,
            year_of_day(1970, total as nat) == year_of_day(y as int, days as nat),
        decreases days,
    {
        days = days - days_in_year(y);
        y = y + 1;
    }
    let mut m: u64 = 1;
    let ghost in_year = days;
    while m < 12 && days >= days_in_month(y, m)
        invariant
            1 <= m <= 12,
            days <= in_year < 367,
            month_of_day(y as int, 1, in_year as nat) == month_of_day(y as int, m as int, days as nat),
        decreases 12 - m,
    {
        days = days - days_in_month(y, m);
        m = m + 1;
    }
    DateTime {
        year: y,
        month: m,
        day: days + 1,
        hour: (secs % 86400) / 3600,
        minute: (secs % 3600) / 60,
        second: secs % 60,
    }
}

/// A number written with at least two digits.
pub open spec fn two_digit(n: nat) -> Seq<char> {
    if n < 10 {
        seq!['0'] + decimal(n)
    } else {
        decimal(n)
    }
}

fn two_digit_string(n: u64) -> (r: String)
    ensures
        r@ == two_digit(n as nat),
{
    let mut v: Vec<char> = Vec::new();
    if n < 10 {
        v.push('0');
    }
    push_decimal_u64(n, &mut v);
    assert(v@ =~= two_digit(n as nat));
    string_from_chars(v.as_slice())
}

fn decimal_string(n: u64) -> (r: String)
    ensures
        r@ == decimal(n as nat),
{
    let mut v: Vec<char> = Vec::new();
    push_decimal_u64(n, &mut v);
    assert(v@ =~= decimal(n as nat));
    string_from_chars(v.as_slice())
}

/// The placeholders of template files: the handle, the problem's link, and
/// the year, month, day, hour, minute and second.
pub open spec fn template_pairs(handle: Seq<char>, link: Seq<char>, t: DateTime) -> Seq<
    (Seq<char>, Seq<char>),
> {
    seq![
        ("$%U%$"@, handle),
        ("$%L%$"@, link),
        ("$%Y%$"@, decimal(t.year as nat)),
        ("$%M%$"@, two_digit(t.month as nat)),
        ("$%D%$"@, two_digit(t.day as nat)),
        ("$%h%$"@, two_digit(t.hour as nat)),
        ("$%m%$"@, two_digit(t.minute as nat)),
        ("$%s%$"@, two_digit(t.second as nat)),
    ]
}

/// The source of a file generated from a template: the template's text with
/// its placeholders replaced.
pub fn expand_template_source(source: &str, handle: &str, link: &str, when: &DateTime) -> (r: String)
    ensures
        r@ == substitute(source@, template_pairs(handle@, link@, *when)),
{
    let mut v: Vec<(String, String)> = Vec::new();
    v.push(pair("$%U%$", handle));
    v.push(pair("$%L%$", link));
    let y = decimal_string(when.year);
    v.push(pair("$%Y%$", y.as_str()));
    let mo = two_digit_string(when.month);
    v.push(pair("$%M%$", mo.as_str()));
    let d = two_digit_string(when.day);
    v.push(pair("$%D%$", d.as_str()));
    let h = two_digit_string(when.hour);
    v.push(pair("$%h%$", h.as_str()));
    let mi = two_digit_string(when.minute);
    v.push(pair("$%m%$", mi.as_str()));
    let sec = two_digit_string(when.second);
    v.push(pair("$%s%$", sec.as_str()));
    assert(v.deep_view() =~= template_pairs(handle@, link@, *when));
    substitute_placeholders(source, &v)
}
} // verus!
