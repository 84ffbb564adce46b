//! Running a solution on the sample tests: how outputs are compared and how
//! the commands are put together.
use vstd::prelude::*;
use crate::text::{
    chars_of, string_from_chars, string_views, views, split_on, join, split_chars, join_chars,
    lemma_split_on_nonempty, append_chars, free_of, lemma_split_join, lemma_split_parts,
    lemma_split_covers, lemma_join_chars,
};

verus! {

/// A line that holds nothing but spaces and newlines.
pub open spec fn is_blank_line(l: Seq<char>) -> bool {
    forall|i: int| 0 <= i < l.len() ==> l[i] == ' ' || l[i] == '\n'
}

/// A piece that is not empty.
pub open spec fn non_empty(w: Seq<char>) -> bool {
    w.len() > 0
}

/// A line that is not blank.
pub open spec fn non_blank(l: Seq<char>) -> bool {
    !is_blank_line(l)
}

/// The words of a line: the non-empty pieces between spaces.
pub open spec fn words(l: Seq<char>) -> Seq<Seq<char>> {
    split_on(l, ' ').filter(|w: Seq<char>| non_empty(w))
}

/// A line with its words separated by single spaces.
pub open spec fn collapse(l: Seq<char>) -> Seq<char> {
    join(words(l), seq![' '])
}

/// The lines that are not blank, each collapsed.
pub open spec fn kept_lines(ls: Seq<Seq<char>>) -> Seq<Seq<char>> {
    ls.filter(|l: Seq<char>| non_blank(l)).map_values(|l: Seq<char>| collapse(l))
}

/// The normal form of an output given as lines: blank lines dropped, runs of
/// spaces collapsed, lines joined by newlines.
pub open spec fn normalize_lines(ls: Seq<Seq<char>>) -> Seq<char> {
    join(kept_lines(ls), seq!['\n'])
}

/// The normal form of an output given as text, split into lines at `\n`.
pub open spec fn normalize_text(t: Seq<char>) -> Seq<char> {
    normalize_lines(split_on(t, '\n'))
}

fn is_blank(x: &Vec<char>) -> (r: bool)
    ensures
        r == is_blank_line(x@),
{
    let mut i: usize = 0;
    while i < x.len()
        invariant
            i <= x.len(),
            forall|k: int| 0 <= k < i ==> x@[k] == ' ' || x@[k] == '\n',
        decreases x.len() - i,
    {
        if x[i] != ' ' && x[i] != '\n' {
            return false;
        }
        i = i + 1;
    }
    true
}

/// Does `s` hold any character other than a space?
pub fn has_non_space(s: &str) -> (r: bool)
    ensures
        r == exists|i: int| 0 <= i < s@.len() && s@[i] != ' ',
{
    let x = chars_of(s);
    let mut i: usize = 0;
    while i < x.len()
        invariant
            i <= x.len(),
            x@ == s@,
            forall|k: int| 0 <= k < i ==> x@[k] == ' ',
        decreases x.len() - i,
    {
        if x[i] != ' ' {
            return true;
        }
        i = i + 1;
    }
    false
}

/// A line with its words separated by single spaces.
fn collapse_line(x: &Vec<char>) -> (r: Vec<char>)
    ensures
        r@ == collapse(x@),
{
    let parts = split_chars(x, ' ');
    let mut kept: Vec<Vec<char>> = Vec::new();
    let mut i: usize = 0;
    while i < parts.len()
        invariant
            i <= parts.len(),
            views(kept@) == views(parts@).take(i as int).filter(|w: Seq<char>| non_empty(w)),
        decreases parts.len() - i,
    {
        proof {
            assert(views(parts@).take(i + 1) =~= views(parts@).take(i as int).push(parts@[i as int]@));
            views(parts@).take(i as int).lemma_filter_push(
                parts@[i as int]@,
                |w: Seq<char>| non_empty(w),
            );
        }
        if parts[i].len() > 0 {
            let p = parts[i].clone();
            kept.push(p);
            proof { assert(views(kept@) =~= views(parts@).take(i + 1).filter(|w: Seq<char>| non_empty(w))); }
        }
        i = i + 1;
    }
    assert(views(parts@).take(parts.len() as int) =~= views(parts@));
    let mut sep: Vec<char> = Vec::new();
    sep.push(' ');
    assert(sep@ =~= seq![' ']);
    join_chars(&kept, &sep)
}

/// The normal form of the lines of an output.
fn normalize_line_chars(lines: &Vec<Vec<char>>) -> (r: Vec<char>)
    ensures
        r@ == normalize_lines(views(lines@)),
{
    let mut kept: Vec<Vec<char>> = Vec::new();
    let mut i: usize = 0;
    while i < lines.len()
        invariant
            i <= lines.len(),
            views(kept@) == kept_lines(views(lines@).take(i as int)),
        decreases lines.len() - i,
    {
        proof {
            assert(views(lines@).take(i + 1) =~= views(lines@).take(i as int).push(lines@[i as int]@));
            views(lines@).take(i as int).lemma_filter_push(
                lines@[i as int]@,
                |l: Seq<char>| non_blank(l),
            );
        }
        if !is_blank(&lines[i]) {
            let c = collapse_line(&lines[i]);
            kept.push(c);
            proof {
                let f = |l: Seq<char>| collapse(l);
                let fl = views(lines@).take(i as int).filter(|l: Seq<char>| non_blank(l));
                assert(fl.push(lines@[i as int]@).map_values(f) =~= fl.map_values(f).push(
                    collapse(lines@[i as int]@),
                ));
                assert(views(kept@) =~= kept_lines(views(lines@).take(i + 1)));
            }
        } else {
            proof {
                assert(kept_lines(views(lines@).take(i + 1)) =~= kept_lines(views(lines@).take(i as int)));
            }
        }
        i = i + 1;
    }
    assert(views(lines@).take(lines.len() as int) =~= views(lines@));
    let mut sep: Vec<char> = Vec::new();
    sep.push('\n');
    assert(sep@ =~= seq!['\n']);
    join_chars(&kept, &sep)
}

/// The normal form of an output given as lines.
pub fn normalize_output_lines(lines: &Vec<String>) -> (r: String)
    ensures
        r@ == normalize_lines(string_views(lines@)),
{
    let mut ls: Vec<Vec<char>> = Vec::new();
    let mut i: usize = 0;
    while i < lines.len()
        invariant
            i <= lines.len(),
            ls@.len() == i,
            views(ls@) == string_views(lines@).take(i as int),
        decreases lines.len() - i,
    {
        let ghost before = ls@;
        let c = chars_of(lines[i].as_str());
        assert(c@ == lines@[i as int]@);
        ls.push(c);
        proof {
            assert(ls@ == before.push(c));
            assert forall|k: int| 0 <= k < i + 1 implies views(ls@)[k] == string_views(lines@).take(i + 1)[k] by {
                if k < i {
                    assert(ls@[k] == before[k]);
                    assert(views(before)[k] == string_views(lines@).take(i as int)[k]);
                }
            }
            assert(views(ls@) =~= string_views(lines@).take(i + 1));
        }
        i = i + 1;
    }
    assert(string_views(lines@).take(lines.len() as int) =~= string_views(lines@));
    let r = normalize_line_chars(&ls);
    string_from_chars(r.as_slice())
}

/// The normal form of an output given as text.
pub fn normalize_output(text: &str) -> (r: String)
    ensures
        r@ == normalize_text(text@),
{
    let x = chars_of(text);
    let lines = split_chars(&x, '\n');
    let r = normalize_line_chars(&lines);
    string_from_chars(r.as_slice())
}

/// Is the output of a run accepted: does it agree with the expected output
/// once both are in normal form?
pub fn output_accepted(expected_lines: &Vec<String>, stdout: &str) -> (r: bool)
    ensures
        r == (normalize_lines(string_views(expected_lines@)) == normalize_text(stdout@)),
{
    let e = normalize_output_lines(expected_lines);
    let o = normalize_output(stdout);
    e == o
}

/// The command that runs a solution on sample test `test`: the template's
/// execute script with the test's input file redirected in.
pub fn execute_command(execute: &str, test: &str) -> (r: String)
    ensures
        r@ == execute@ + " < "@ + test@ + ".in"@,
{
    let mut v = chars_of(execute);
    let a = chars_of(" < ");
    append_chars(&mut v, &a);
    let b = chars_of(test);
    append_chars(&mut v, &b);
    let c = chars_of(".in");
    append_chars(&mut v, &c);
    string_from_chars(v.as_slice())
}

/// The file holding the expected output of sample test `test`.
pub fn expected_output_file(test: &str) -> (r: String)
    ensures
        r@ == test@ + ".out"@,
{
    let mut v = chars_of(test);
    let c = chars_of(".out");
    append_chars(&mut v, &c);
    string_from_chars(v.as_slice())
}


/// Filtering keeps everything when everything passes.
proof fn lemma_filter_keeps_all(s: Seq<Seq<char>>, p: spec_fn(Seq<char>) -> bool)
    requires
        forall|i: int| 0 <= i < s.len() ==> p(#[trigger] s[i]),
    ensures
        s.filter(p) == s,
    decreases s.len(),
{
    reveal(Seq::filter);
    if s.len() > 0 {
        lemma_filter_keeps_all(s.drop_last(), p);
        assert(s.drop_last().push(s.last()) =~= s);
    }
}

/// The words of a line hold neither spaces nor anything the line lacks, and
/// none is empty.
proof fn lemma_words(l: Seq<char>)
    ensures
        forall|i: int| 0 <= i < words(l).len() ==> (#[trigger] words(l)[i]).len() > 0,
        forall|i: int| 0 <= i < words(l).len() ==> free_of(#[trigger] words(l)[i], ' '),
        forall|i: int, j: int|
            0 <= i < words(l).len() && 0 <= j < words(l)[i].len() ==> l.contains(
                #[trigger] words(l)[i][j],
            ),
{
    let parts = split_on(l, ' ');
    let f = |w: Seq<char>| non_empty(w);
    lemma_split_parts(l, ' ');
    assert forall|i: int| 0 <= i < words(l).len() implies (#[trigger] words(l)[i]).len() > 0 && free_of(
        words(l)[i],
        ' ',
    ) && (forall|j: int| 0 <= j < words(l)[i].len() ==> l.contains(#[trigger] words(l)[i][j])) by {
        parts.lemma_filter_pred(f, i);
        assert(words(l).contains(words(l)[i]));
        parts.lemma_filter_contains_rev(f, words(l)[i]);
        let k = choose|k: int| 0 <= k < parts.len() && parts[k] == words(l)[i];
        assert(free_of(parts[k], ' '));
        assert forall|j: int| 0 <= j < words(l)[i].len() implies l.contains(#[trigger] words(l)[i][j]) by {
            assert(parts[k][j] == words(l)[i][j]);
        }
    }
}

/// Splitting a line made of words joined by single spaces gives back the words.
proof fn lemma_words_of_join(ws: Seq<Seq<char>>)
    requires
        forall|i: int| 0 <= i < ws.len() ==> (#[trigger] ws[i]).len() > 0 && free_of(ws[i], ' '),
    ensures
        words(join(ws, seq![' '])) == ws,
{
    let f = |w: Seq<char>| non_empty(w);
    if ws.len() == 0 {
        reveal(Seq::filter);
        assert(join(ws, seq![' ']) =~= Seq::<char>::empty());
        assert(split_on(Seq::<char>::empty(), ' ') =~= seq![Seq::<char>::empty()]);
        assert(seq![Seq::<char>::empty()].drop_last() =~= Seq::<Seq<char>>::empty());
        let e = Seq::<Seq<char>>::empty();
        assert(seq![Seq::<char>::empty()] =~= e.push(Seq::<char>::empty()));
        e.lemma_filter_push(Seq::<char>::empty(), f);
        assert(e.filter(f) =~= e);
        assert(seq![Seq::<char>::empty()].filter(f) =~= ws);
    } else {
        lemma_split_join(ws, ' ');
        lemma_filter_keeps_all(ws, f);
    }
}

/// Collapsing a collapsed line changes nothing.
pub proof fn lemma_collapse_idempotent(l: Seq<char>)
    ensures
        collapse(collapse(l)) == collapse(l),
{
    lemma_words(l);
    lemma_words_of_join(words(l));
}

/// A collapsed line holds only characters of the line and spaces; a line
/// without newlines that is not blank stays not blank.
proof fn lemma_collapse_chars(l: Seq<char>)
    requires
        free_of(l, '\n'),
    ensures
        free_of(collapse(l), '\n'),
        non_blank(l) ==> non_blank(collapse(l)),
{
    lemma_words(l);
    let w = words(l);
    lemma_join_chars(w, seq![' ']);
    let cl = collapse(l);
    assert forall|k: int| 0 <= k < cl.len() implies cl[k] != '\n' by {
        if !seq![' '].contains(cl[k]) {
            let (i, j) = choose|i: int, j: int| 0 <= i < w.len() && 0 <= j < w[i].len() && w[i][j] == cl[k];
            assert(l.contains(w[i][j]));
        } else {
            assert(seq![' '][0] == ' ');
        }
    }
    if non_blank(l) {
        let k = choose|k: int| 0 <= k < l.len() && !(l[k] == ' ' || l[k] == '\n');
        lemma_split_covers(l, ' ', k);
        let parts = split_on(l, ' ');
        let (i, j) = choose|i: int, j: int|
            0 <= i < parts.len() && 0 <= j < parts[i].len() && #[trigger] parts[i][j] == l[k];
        parts.lemma_filter_contains(|w: Seq<char>| non_empty(w), i);
        let i2 = choose|i2: int| 0 <= i2 < w.len() && w[i2] == parts[i];
        assert(w[i2][j] == l[k]);
        assert(cl.contains(w[i2][j]));
        let m = choose|m: int| 0 <= m < cl.len() && cl[m] == w[i2][j];
        assert(!(cl[m] == ' ' || cl[m] == '\n'));
    }
}

/// The lines kept in the normal form hold no newline, are not blank, and
/// are already collapsed.
proof fn lemma_kept_lines(t: Seq<char>)
    ensures
        forall|i: int|
            0 <= i < kept_lines(split_on(t, '\n')).len() ==> free_of(
                #[trigger] kept_lines(split_on(t, '\n'))[i],
                '\n',
            ) && non_blank(kept_lines(split_on(t, '\n'))[i]) && collapse(
                kept_lines(split_on(t, '\n'))[i],
            ) == kept_lines(split_on(t, '\n'))[i],
{
    let parts = split_on(t, '\n');
    let f = |l: Seq<char>| non_blank(l);
    let fl = parts.filter(f);
    let k = kept_lines(parts);
    lemma_split_parts(t, '\n');
    assert forall|i: int| 0 <= i < k.len() implies free_of(#[trigger] k[i], '\n') && non_blank(k[i])
        && collapse(k[i]) == k[i] by {
        parts.lemma_filter_pred(f, i);
        assert(fl.contains(fl[i]));
        parts.lemma_filter_contains_rev(f, fl[i]);
        let m = choose|m: int| 0 <= m < parts.len() && parts[m] == fl[i];
        assert(free_of(parts[m], '\n'));
        lemma_collapse_chars(fl[i]);
        lemma_collapse_idempotent(fl[i]);
        assert(k[i] == collapse(fl[i]));
    }
}

/// Law: putting an output in normal form twice gives the same as once, so
/// a normalised output is accepted against itself.
pub proof fn lemma_normalize_idempotent(t: Seq<char>)
    ensures
        normalize_text(normalize_text(t)) == normalize_text(t),
{
    let k = kept_lines(split_on(t, '\n'));
    let n = normalize_text(t);
    assert(n == join(k, seq!['\n']));
    lemma_kept_lines(t);
    let f = |l: Seq<char>| non_blank(l);
    let g = |l: Seq<char>| collapse(l);
    if k.len() == 0 {
        reveal(Seq::filter);
        assert(n =~= Seq::<char>::empty());
        assert(split_on(n, '\n') =~= seq![Seq::<char>::empty()]);
        assert(!non_blank(Seq::<char>::empty()));
        assert(seq![Seq::<char>::empty()].drop_last() =~= Seq::<Seq<char>>::empty());
        let e = Seq::<Seq<char>>::empty();
        assert(seq![Seq::<char>::empty()] =~= e.push(Seq::<char>::empty()));
        e.lemma_filter_push(Seq::<char>::empty(), f);
        assert(e.filter(f) =~= e);
        assert(seq![Seq::<char>::empty()].filter(f) =~= Seq::<Seq<char>>::empty());
        assert(kept_lines(split_on(n, '\n')) =~= Seq::<Seq<char>>::empty());
    } else {
        lemma_split_join(k, '\n');
        lemma_filter_keeps_all(k, f);
        assert(k.map_values(g) =~= k);
        assert(kept_lines(split_on(n, '\n')) == k);
    }
}

} // verus!
