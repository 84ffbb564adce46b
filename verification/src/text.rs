//! Character-level string utilities used throughout the crate.
use vstd::prelude::*;
use vstd::multiset::Multiset;

verus! {

/// The characters of a string slice, in order.
pub fn chars_of(s: &str) -> (r: Vec<char>)
    ensures
        r@ == s@,
{
    let mut r: Vec<char> = Vec::new();
    for c in it: s.chars()
        invariant
            r@ == it.seq().take(it.index() as int),
            it.seq() == s@,
    {
        r.push(c);
    }
    r
}

/// `String::from_iter`: builds a string holding exactly the given characters.
#[verifier::external_body]
pub(crate) fn string_from_chars(v: &[char]) -> (r: String)
    ensures
        r@ == v@,
{
    String::from_iter(v.iter())
}

/// Do two character vectors hold the same characters?
pub fn chars_eq(x: &Vec<char>, y: &Vec<char>) -> (r: bool)
    ensures
        r == (x@ == y@),
{
    if x.len() != y.len() {
        return false;
    }
    let mut i: usize = 0;
    while i < x.len()
        invariant
            i <= x.len() == y.len(),
            forall|k: int| 0 <= k < i ==> x@[k] == y@[k],
        decreases x.len() - i,
    {
        if x[i] != y[i] {
            return false;
        }
        i = i + 1;
    }
    assert(x@ =~= y@);
    true
}

/// `==` on string slices.
pub fn str_eq(a: &str, b: &str) -> (r: bool)
    ensures
        r == (a@ == b@),
{
    let x = chars_of(a);
    let y = chars_of(b);
    chars_eq(&x, &y)
}

/// Lexicographic order on character sequences (the order of `str`'s `Ord`).
pub open spec fn lex_lt(a: Seq<char>, b: Seq<char>) -> bool
    decreases a.len(),
{
    if b.len() == 0 {
        false
    } else if a.len() == 0 {
        true
    } else if a[0] != b[0] {
        a[0] < b[0]
    } else {
        lex_lt(a.drop_first(), b.drop_first())
    }
}

/// Is `a` strictly before `b` in lexicographic order?
pub fn str_lt(a: &str, b: &str) -> (r: bool)
    ensures
        r == lex_lt(a@, b@),
{
    let x = chars_of(a);
    let y = chars_of(b);
    let mut i: usize = 0;
    assert(x@.skip(0) =~= x@ && y@.skip(0) =~= y@);
    while i < x.len() && i < y.len() && x[i] == y[i]
        invariant
            i <= x.len(),
            i <= y.len(),
            lex_lt(x@, y@) == lex_lt(x@.skip(i as int), y@.skip(i as int)),
        decreases x.len() - i,
    {
        proof {
            assert(x@.skip(i as int).drop_first() =~= x@.skip(i + 1));
            assert(y@.skip(i as int).drop_first() =~= y@.skip(i + 1));
        }
        i = i + 1;
    }
    if i == y.len() {
        false
    } else if i == x.len() {
        true
    } else {
        x[i] < y[i]
    }
}


/// `a` occurs in `s` starting at position `i`.
pub open spec fn occurs_at(s: Seq<char>, a: Seq<char>, i: int) -> bool {
    0 <= i && i + a.len() <= s.len() && s.subrange(i, i + a.len()) == a
}

/// `a` occurs somewhere in `s` (the meaning of `str::contains` for a string pattern).
pub open spec fn contains_seq(s: Seq<char>, a: Seq<char>) -> bool {
    exists|i: int| occurs_at(s, a, i)
}

/// Does `a` occur in `s` at position `i`?
pub(crate) fn matches_at(s: &Vec<char>, a: &Vec<char>, i: usize) -> (r: bool)
    requires
        i <= s.len(),
    ensures
        r == occurs_at(s@, a@, i as int),
{
    if a.len() > s.len() - i {
        return false;
    }
    let mut j: usize = 0;
    while j < a.len()
        invariant
            j <= a.len(),
            i + a.len() <= s.len(),
            forall|k: int| 0 <= k < j ==> s@[i + k] == a@[k],
        decreases a.len() - j,
    {
        if s[i + j] != a[j] {
            assert(s@.subrange(i as int, i + a.len())[j as int] != a@[j as int]);
            return false;
        }
        j = j + 1;
    }
    assert(s@.subrange(i as int, i + a.len()) =~= a@);
    true
}

/// `str::contains` with a string pattern: does `needle` occur in `haystack`?
pub fn contains_str(haystack: &str, needle: &str) -> (r: bool)
    ensures
        r == contains_seq(haystack@, needle@),
{
    let s = chars_of(haystack);
    let a = chars_of(needle);
    if a.len() == 0 {
        assert(s@.subrange(0, 0) =~= a@);
        assert(occurs_at(haystack@, needle@, 0));
        return true;
    }
    let mut i: usize = 0;
    while i < s.len()
        invariant
            i <= s.len(),
            a@.len() > 0,
            s@ == haystack@,
            a@ == needle@,
            forall|k: int| 0 <= k < i ==> !occurs_at(s@, a@, k),
        decreases s.len() - i,
    {
        if matches_at(&s, &a, i) {
            assert(occurs_at(haystack@, needle@, i as int));
            return true;
        }
        i = i + 1;
    }
    false
}

/// `str::starts_with` with a string pattern.
pub fn starts_with_str(s: &str, prefix: &str) -> (r: bool)
    ensures
        r == occurs_at(s@, prefix@, 0),
{
    let x = chars_of(s);
    let p = chars_of(prefix);
    matches_at(&x, &p, 0)
}

/// `str::replace` with a non-empty pattern: every non-overlapping occurrence of
/// `from`, scanning left to right, is replaced by `to`.
pub open spec fn replace_all(s: Seq<char>, from: Seq<char>, to: Seq<char>) -> Seq<char>
    recommends
        from.len() > 0,
    decreases s.len(),
{
    if s.len() == 0 || from.len() == 0 {
        s
    } else if occurs_at(s, from, 0) {
        to + replace_all(s.skip(from.len() as int), from, to)
    } else {
        seq![s[0]] + replace_all(s.drop_first(), from, to)
    }
}

/// Replaces every occurrence of the non-empty pattern `from` in `s` by `to`.
pub fn replace_str(s: &str, from: &str, to: &str) -> (r: String)
    requires
        from@.len() > 0,
    ensures
        r@ == replace_all(s@, from@, to@),
{
    let x = chars_of(s);
    let f = chars_of(from);
    let t = chars_of(to);
    let mut out: Vec<char> = Vec::new();
    let mut i: usize = 0;
    assert(x@.skip(0) =~= x@);
    while i < x.len()
        invariant
            i <= x.len(),
            f@.len() > 0,
            out@ + replace_all(x@.skip(i as int), f@, t@) == replace_all(x@, f@, t@),
        decreases x.len() - i,
    {
        if matches_at(&x, &f, i) {
            proof {
                assert(x@.skip(i as int).subrange(0, f@.len() as int)
                    =~= x@.subrange(i as int, i + f@.len()));
                assert(x@.skip(i as int).skip(f@.len() as int) =~= x@.skip(i + f@.len()));
                assert(out@ + t@ + replace_all(x@.skip(i + f@.len()), f@, t@)
                    =~= out@ + (t@ + replace_all(x@.skip(i + f@.len()), f@, t@)));
            }
            let mut k: usize = 0;
            let ghost before = out@;
            while k < t.len()
                invariant
                    k <= t.len(),
                    out@ == before + t@.take(k as int),
                decreases t.len() - k,
            {
                out.push(t[k]);
                k = k + 1;
                proof { assert(out@ =~= before + t@.take(k as int)); }
            }
            proof { assert(t@.take(t@.len() as int) =~= t@); }
            i = i + f.len();
        } else {
            proof {
                if occurs_at(x@.skip(i as int), f@, 0) {
                    assert(x@.skip(i as int).subrange(0, f@.len() as int)
                        =~= x@.subrange(i as int, i + f@.len()));
                }
                assert(x@.skip(i as int).drop_first() =~= x@.skip(i + 1));
                assert(x@.skip(i as int)[0] == x@[i as int]);
                assert(out@.push(x@[i as int]) + replace_all(x@.skip(i + 1), f@, t@)
                    =~= out@ + (seq![x@[i as int]] + replace_all(x@.skip(i + 1), f@, t@)));
            }
            out.push(x[i]);
            i = i + 1;
        }
    }
    proof { assert(out@ + replace_all(x@.skip(i as int), f@, t@) =~= out@); }
    string_from_chars(out.as_slice())
}


/// The characters that `char::is_whitespace` accepts (Unicode `White_Space`).
pub open spec fn is_white_space(c: char) -> bool {
    ||| c == '\t' || c == '\n' || c == '\u{0B}' || c == '\u{0C}' || c == '\r' || c == ' '
    ||| c == '\u{85}' || c == '\u{A0}' || c == '\u{1680}'
    ||| ('\u{2000}' <= c && c <= '\u{200A}')
    ||| c == '\u{2028}' || c == '\u{2029}' || c == '\u{202F}' || c == '\u{205F}' || c == '\u{3000}'
}

fn white_space(c: char) -> (r: bool)
    ensures
        r == is_white_space(c),
{
    c == '\t' || c == '\n' || c == '\u{0B}' || c == '\u{0C}' || c == '\r' || c == ' '
        || c == '\u{85}' || c == '\u{A0}' || c == '\u{1680}' || ('\u{2000}' <= c && c
        <= '\u{200A}') || c == '\u{2028}' || c == '\u{2029}' || c == '\u{202F}' || c
        == '\u{205F}' || c == '\u{3000}'
}

/// `s` without its leading white space.
pub open spec fn trim_start(s: Seq<char>) -> Seq<char>
    decreases s.len(),
{
    if s.len() > 0 && is_white_space(s[0]) {
        trim_start(s.drop_first())
    } else {
        s
    }
}

/// `s` without its trailing white space.
pub open spec fn trim_end(s: Seq<char>) -> Seq<char>
    decreases s.len(),
{
    if s.len() > 0 && is_white_space(s.last()) {
        trim_end(s.drop_last())
    } else {
        s
    }
}

/// `str::trim`: `s` without leading and trailing white space.
pub open spec fn trim(s: Seq<char>) -> Seq<char> {
    trim_end(trim_start(s))
}

/// `str::trim` on a character vector.
pub fn trim_chars(x: &Vec<char>) -> (r: Vec<char>)
    ensures
        r@ == trim(x@),
{
    let mut i: usize = 0;
    assert(x@.skip(0) =~= x@);
    while i < x.len() && white_space(x[i])
        invariant
            i <= x.len(),
            trim_start(x@) == trim_start(x@.skip(i as int)),
        decreases x.len() - i,
    {
        proof { assert(x@.skip(i as int).drop_first() =~= x@.skip(i + 1)); }
        i = i + 1;
    }
    let mut j: usize = x.len();
    assert(x@.skip(i as int).take(j - i) =~= x@.skip(i as int));
    while j > i && white_space(x[j - 1])
        invariant
            i <= j <= x.len(),
            trim(x@) == trim_end(x@.subrange(i as int, j as int)),
        decreases j,
    {
        proof {
            assert(x@.subrange(i as int, j as int).drop_last() =~= x@.subrange(i as int, j - 1));
        }
        j = j - 1;
    }
    let mut r: Vec<char> = Vec::new();
    let mut k: usize = i;
    while k < j
        invariant
            i <= k <= j <= x.len(),
            r@ == x@.subrange(i as int, k as int),
        decreases j - k,
    {
        r.push(x[k]);
        k = k + 1;
        proof { assert(r@ =~= x@.subrange(i as int, k as int)); }
    }
    r
}

/// The result of `str::to_lowercase` on a string: Unicode lower-casing,
/// a function of the string alone.
pub uninterp spec fn lowercase(s: Seq<char>) -> Seq<char>;

/// `str::to_lowercase`. Nothing beyond "it is a function of its argument" is
/// claimed: the mapping is the Unicode lower-case mapping, not restated here.
#[verifier::external_body]
pub(crate) fn to_lowercase(s: &str) -> (r: String)
    ensures
        r@ == lowercase(s@),
{
    s.to_lowercase()
}

/// The decimal digit for `d`, which must be below ten.
pub open spec fn digit_char(d: int) -> char {
    if d == 0 { '0' }
    else if d == 1 { '1' }
    else if d == 2 { '2' }
    else if d == 3 { '3' }
    else if d == 4 { '4' }
    else if d == 5 { '5' }
    else if d == 6 { '6' }
    else if d == 7 { '7' }
    else if d == 8 { '8' }
    else { '9' }
}

/// The decimal representation of `n`, as `Display` prints an unsigned integer.
pub open spec fn decimal(n: nat) -> Seq<char>
    decreases n,
{
    if n < 10 {
        seq![digit_char(n as int)]
    } else {
        decimal(n / 10).push(digit_char((n % 10) as int))
    }
}

fn digit(d: usize) -> (c: char)
    requires
        d < 10,
    ensures
        c == digit_char(d as int),
{
    match d {
        0 => '0',
        1 => '1',
        2 => '2',
        3 => '3',
        4 => '4',
        5 => '5',
        6 => '6',
        7 => '7',
        8 => '8',
        _ => '9',
    }
}

/// Appends the decimal representation of `n` to `out`.
pub fn push_decimal(n: usize, out: &mut Vec<char>)
    ensures
        final(out)@ == old(out)@ + decimal(n as nat),
    decreases n,
{
    if n >= 10 {
        push_decimal(n / 10, out);
    }
    out.push(digit(n % 10));
    proof {
        if n >= 10 {
            assert(old(out)@ + decimal((n / 10) as nat) + seq![digit_char((n % 10) as int)]
                =~= old(out)@ + decimal(n as nat));
        } else {
            assert(old(out)@.push(digit_char((n % 10) as int)) =~= old(out)@ + decimal(n as nat));
        }
    }
}

/// Appends the decimal representation of the 64-bit `n` to `out`.
pub fn push_decimal_u64(n: u64, out: &mut Vec<char>)
    ensures
        final(out)@ == old(out)@ + decimal(n as nat),
    decreases n,
{
    if n >= 10 {
        push_decimal_u64(n / 10, out);
    }
    out.push(digit((n % 10) as usize));
    proof {
        if n >= 10 {
            assert(old(out)@ + decimal((n / 10) as nat) + seq![digit_char((n % 10) as int)]
                =~= old(out)@ + decimal(n as nat));
        } else {
            assert(old(out)@.push(digit_char((n % 10) as int)) =~= old(out)@ + decimal(n as nat));
        }
    }
}

/// `n.to_string()` for an unsigned integer.
pub fn usize_to_string(n: usize) -> (r: String)
    ensures
        r@ == decimal(n as nat),
{
    let mut v: Vec<char> = Vec::new();
    push_decimal(n, &mut v);
    assert(v@ =~= decimal(n as nat));
    string_from_chars(v.as_slice())
}


/// The views of a sequence of strings.
pub open spec fn string_views(v: Seq<String>) -> Seq<Seq<char>> {
    v.map_values(|s: String| s@)
}

/// The views of a sequence of character vectors.
pub open spec fn views(v: Seq<Vec<char>>) -> Seq<Seq<char>> {
    v.map_values(|x: Vec<char>| x@)
}

/// `str::split` on a single character: the pieces between separators, empty
/// pieces included; the empty string splits into one empty piece.
pub open spec fn split_on(s: Seq<char>, c: char) -> Seq<Seq<char>>
    decreases s.len(),
{
    if s.len() == 0 {
        seq![Seq::<char>::empty()]
    } else {
        let p = split_on(s.drop_last(), c);
        if s.last() == c {
            p.push(Seq::<char>::empty())
        } else {
            p.update(p.len() - 1, p.last().push(s.last()))
        }
    }
}

/// Splitting always yields at least one piece.
pub proof fn lemma_split_on_nonempty(s: Seq<char>, c: char)
    ensures
        split_on(s, c).len() >= 1,
    decreases s.len(),
{
    if s.len() > 0 {
        lemma_split_on_nonempty(s.drop_last(), c);
    }
}

/// `s` has no occurrence of `c`.
pub open spec fn free_of(s: Seq<char>, c: char) -> bool {
    forall|i: int| 0 <= i < s.len() ==> s[i] != c
}

/// Appending text free of the separator extends the last piece.
pub proof fn lemma_split_extend(a: Seq<char>, b: Seq<char>, c: char)
    requires
        free_of(b, c),
    ensures
        split_on(a + b, c) == split_on(a, c).update(
            split_on(a, c).len() - 1,
            split_on(a, c).last() + b,
        ),
    decreases b.len(),
{
    lemma_split_on_nonempty(a, c);
    let p = split_on(a, c);
    if b.len() == 0 {
        assert(a + b =~= a);
        assert(p.last() + b =~= p.last());
        assert(p.update(p.len() - 1, p.last() + b) =~= p);
    } else {
        let b1 = b.drop_last();
        lemma_split_extend(a, b1, c);
        assert((a + b).drop_last() =~= a + b1);
        assert((a + b).last() == b.last());
        let q = split_on(a + b1, c);
        assert(q.last() == p.last() + b1);
        assert(p.last() + b1 + seq![b.last()] =~= p.last() + b);
        assert(q.len() == p.len());
        assert(q.last().push(b.last()) =~= p.last() + b);
        assert(q.update(q.len() - 1, q.last().push(b.last())) =~= p.update(
            p.len() - 1,
            p.last() + b,
        ));
    }
}

/// Splitting the pieces joined by the separator gives back the pieces, when
/// none of them holds the separator.
pub proof fn lemma_split_join(parts: Seq<Seq<char>>, c: char)
    requires
        parts.len() >= 1,
        forall|i: int| 0 <= i < parts.len() ==> free_of(#[trigger] parts[i], c),
    ensures
        split_on(join(parts, seq![c]), c) == parts,
    decreases parts.len(),
{
    if parts.len() == 1 {
        lemma_split_extend(Seq::<char>::empty(), parts[0], c);
        assert(Seq::<char>::empty() + parts[0] =~= parts[0]);
        assert(split_on(Seq::<char>::empty(), c) =~= seq![Seq::<char>::empty()]);
        assert(Seq::<char>::empty() + parts[0] =~= parts[0]);
        assert(seq![Seq::<char>::empty()].update(0, Seq::<char>::empty() + parts[0]) =~= parts);
    } else {
        let q = parts.drop_last();
        lemma_split_join(q, c);
        let jq = join(q, seq![c]);
        assert(jq + seq![c] =~= jq.push(c));
        assert(jq.push(c).drop_last() =~= jq);
        assert(split_on(jq.push(c), c) == split_on(jq, c).push(Seq::<char>::empty()));
        lemma_split_extend(jq.push(c), parts.last(), c);
        assert(join(parts, seq![c]) == jq + seq![c] + parts.last());
        assert(Seq::<char>::empty() + parts.last() =~= parts.last());
        assert(q.push(Seq::<char>::empty()).update(q.len() as int, Seq::<char>::empty() + parts.last())
            =~= parts);
    }
}

/// The pieces of a split hold no separator, and every character in them
/// comes from the string split.
pub proof fn lemma_split_parts(s: Seq<char>, c: char)
    ensures
        forall|i: int| 0 <= i < split_on(s, c).len() ==> free_of(#[trigger] split_on(s, c)[i], c),
        forall|i: int, j: int|
            0 <= i < split_on(s, c).len() && 0 <= j < split_on(s, c)[i].len() ==> s.contains(
                #[trigger] split_on(s, c)[i][j],
            ),
    decreases s.len(),
{
    lemma_split_on_nonempty(s, c);
    if s.len() > 0 {
        let t = s.drop_last();
        lemma_split_parts(t, c);
        lemma_split_on_nonempty(t, c);
        let p = split_on(t, c);
        assert forall|i: int, j: int|
            0 <= i < split_on(s, c).len() && 0 <= j < split_on(s, c)[i].len() implies s.contains(
                #[trigger] split_on(s, c)[i][j],
            ) by {
            if s.last() != c && i == p.len() - 1 && j == p.last().len() {
                assert(s[s.len() - 1] == split_on(s, c)[i][j]);
            } else {
                assert(split_on(s, c)[i][j] == p[i][j]);
                let k = choose|k: int| 0 <= k < t.len() && t[k] == p[i][j];
                assert(s[k] == t[k]);
            }
        }
    }
}

/// Every character of `s` other than the separator is in some piece.
pub proof fn lemma_split_covers(s: Seq<char>, c: char, k: int)
    requires
        0 <= k < s.len(),
        s[k] != c,
    ensures
        exists|i: int, j: int|
            0 <= i < split_on(s, c).len() && 0 <= j < split_on(s, c)[i].len() && #[trigger] split_on(
                s,
                c,
            )[i][j] == s[k],
    decreases s.len(),
{
    let t = s.drop_last();
    lemma_split_on_nonempty(t, c);
    let p = split_on(t, c);
    if k == s.len() - 1 {
        let i = p.len() - 1;
        let j = p.last().len() as int;
        assert(split_on(s, c)[i][j] == s[k]);
    } else {
        lemma_split_covers(t, c, k);
        let (i, j) = choose|i: int, j: int|
            0 <= i < p.len() && 0 <= j < p[i].len() && #[trigger] p[i][j] == t[k];
        assert(split_on(s, c)[i][j] == p[i][j]);
    }
}

/// The characters of a join come from the pieces or the separator, and every
/// character of a piece is in the join.
pub proof fn lemma_join_chars(parts: Seq<Seq<char>>, sep: Seq<char>)
    ensures
        forall|k: int|
            0 <= k < join(parts, sep).len() ==> sep.contains(#[trigger] join(parts, sep)[k])
                || exists|i: int, j: int|
                0 <= i < parts.len() && 0 <= j < parts[i].len() && parts[i][j] == join(
                    parts,
                    sep,
                )[k],
        forall|i: int, j: int|
            0 <= i < parts.len() && 0 <= j < parts[i].len() ==> join(parts, sep).contains(
                #[trigger] parts[i][j],
            ),
    decreases parts.len(),
{
    if parts.len() >= 2 {
        let q = parts.drop_last();
        lemma_join_chars(q, sep);
        let jq = join(q, sep);
        let jp = join(parts, sep);
        assert(jp == jq + sep + parts.last());
        assert forall|k: int| 0 <= k < jp.len() implies sep.contains(#[trigger] jp[k]) || exists|
            i: int,
            j: int,
        | 0 <= i < parts.len() && 0 <= j < parts[i].len() && parts[i][j] == jp[k] by {
            if k < jq.len() {
                assert(jp[k] == jq[k]);
                if !sep.contains(jq[k]) {
                    let (i, j) = choose|i: int, j: int|
                        0 <= i < q.len() && 0 <= j < q[i].len() && q[i][j] == jq[k];
                    assert(parts[i][j] == jp[k]);
                }
            } else if k < jq.len() + sep.len() {
                assert(jp[k] == sep[k - jq.len()]);
            } else {
                let j = k - jq.len() - sep.len();
                assert(parts[parts.len() - 1][j] == jp[k]);
            }
        }
        assert forall|i: int, j: int| 0 <= i < parts.len() && 0 <= j < parts[i].len() implies jp.contains(
            #[trigger] parts[i][j],
        ) by {
            if i < parts.len() - 1 {
                assert(q[i][j] == parts[i][j]);
                let k = choose|k: int| 0 <= k < jq.len() && jq[k] == q[i][j];
                assert(jp[k] == jq[k]);
            } else {
                assert(jp[jq.len() + sep.len() + j] == parts[i][j]);
            }
        }
    } else if parts.len() == 1 {
        assert forall|i: int, j: int| 0 <= i < parts.len() && 0 <= j < parts[i].len() implies join(
            parts,
            sep,
        ).contains(#[trigger] parts[i][j]) by {
            assert(join(parts, sep)[j] == parts[i][j]);
        }
        assert forall|k: int| 0 <= k < join(parts, sep).len() implies sep.contains(
            #[trigger] join(parts, sep)[k],
        ) || exists|i: int, j: int|
            0 <= i < parts.len() && 0 <= j < parts[i].len() && parts[i][j] == join(parts, sep)[k] by {
            assert(parts[0][k] == join(parts, sep)[k]);
        }
    }
}

/// `itertools::join` / `[T]::join`: the parts with `sep` between neighbours.
pub open spec fn join(parts: Seq<Seq<char>>, sep: Seq<char>) -> Seq<char>
    decreases parts.len(),
{
    if parts.len() == 0 {
        Seq::<char>::empty()
    } else if parts.len() == 1 {
        parts[0]
    } else {
        join(parts.drop_last(), sep) + sep + parts.last()
    }
}

/// Splits `x` at every occurrence of `c`.
pub fn split_chars(x: &Vec<char>, c: char) -> (r: Vec<Vec<char>>)
    ensures
        views(r@) == split_on(x@, c),
{
    let mut parts: Vec<Vec<char>> = Vec::new();
    let mut cur: Vec<char> = Vec::new();
    let mut i: usize = 0;
    assert(x@.take(0) =~= Seq::<char>::empty());
    assert(views(parts@).push(cur@) =~= split_on(x@.take(0), c));
    while i < x.len()
        invariant
            i <= x.len(),
            views(parts@).push(cur@) == split_on(x@.take(i as int), c),
        decreases x.len() - i,
    {
        proof {
            assert(x@.take(i + 1).drop_last() =~= x@.take(i as int));
            assert(x@.take(i + 1).last() == x@[i as int]);
        }
        if x[i] == c {
            let done = cur;
            parts.push(done);
            cur = Vec::new();
            proof {
                assert(views(parts@).push(cur@) =~= split_on(x@.take(i as int), c).push(
                    Seq::<char>::empty(),
                ));
            }
        } else {
            cur.push(x[i]);
            proof {
                lemma_split_on_nonempty(x@.take(i as int), c);
                let p = split_on(x@.take(i as int), c);
                assert(views(parts@).push(cur@) =~= p.update(p.len() - 1, p.last().push(x@[i as int])));
            }
        }
        i = i + 1;
    }
    parts.push(cur);
    proof {
        assert(x@.take(x@.len() as int) =~= x@);
        assert(views(parts@) =~= split_on(x@, c));
    }
    parts
}

/// Joins `parts` with `sep` between neighbours.
pub fn join_chars(parts: &Vec<Vec<char>>, sep: &Vec<char>) -> (r: Vec<char>)
    ensures
        r@ == join(views(parts@), sep@),
{
    let mut out: Vec<char> = Vec::new();
    let mut i: usize = 0;
    assert(views(parts@).take(0) =~= Seq::<Seq<char>>::empty());
    while i < parts.len()
        invariant
            i <= parts.len(),
            out@ == join(views(parts@).take(i as int), sep@),
        decreases parts.len() - i,
    {
        let ghost before = out@;
        if i > 0 {
            append_chars(&mut out, sep);
        }
        append_chars(&mut out, &parts[i]);
        proof {
            let t = views(parts@).take(i + 1);
            assert(t.drop_last() =~= views(parts@).take(i as int));
            assert(t.last() == parts@[i as int]@);
            if i == 0 {
                assert(t.len() == 1);
                assert(out@ =~= join(t, sep@));
            } else {
                assert(out@ =~= join(t, sep@));
            }
        }
        i = i + 1;
    }
    assert(views(parts@).take(parts.len() as int) =~= views(parts@));
    out
}

/// Appends the characters of `extra` to `out`.
pub fn append_chars(out: &mut Vec<char>, extra: &Vec<char>)
    ensures
        final(out)@ == old(out)@ + extra@,
{
    let mut k: usize = 0;
    let ghost before = out@;
    while k < extra.len()
        invariant
            k <= extra.len(),
            out@ == before + extra@.take(k as int),
        decreases extra.len() - k,
    {
        out.push(extra[k]);
        k = k + 1;
        proof { assert(out@ =~= before + extra@.take(k as int)); }
    }
    assert(extra@.take(extra@.len() as int) =~= extra@);
}


/// Lexicographic order is transitive.
pub proof fn lemma_lex_lt_transitive(a: Seq<char>, b: Seq<char>, c: Seq<char>)
    requires
        lex_lt(a, b),
        lex_lt(b, c),
    ensures
        lex_lt(a, c),
    decreases a.len(),
{
    if a.len() > 0 && b.len() > 0 && c.len() > 0 && a[0] == b[0] && b[0] == c[0] {
        lemma_lex_lt_transitive(a.drop_first(), b.drop_first(), c.drop_first());
    }
}

/// No sequence is before itself.
pub proof fn lemma_lex_lt_irreflexive(a: Seq<char>)
    ensures
        !lex_lt(a, a),
    decreases a.len(),
{
    if a.len() > 0 {
        lemma_lex_lt_irreflexive(a.drop_first());
    }
}

/// The strings of `v` are in non-decreasing lexicographic order.
pub open spec fn sorted_strings(v: Seq<String>) -> bool {
    forall|i: int, j: int| 0 <= i < j < v.len() ==> !lex_lt(#[trigger] v[j]@, #[trigger] v[i]@)
}

/// The entries of `v` are in non-decreasing lexicographic order of their keys.
pub open spec fn sorted_by_key<T>(v: Seq<(String, T)>) -> bool {
    forall|i: int, j: int|
        0 <= i < j < v.len() ==> !lex_lt(#[trigger] v[j].0@, #[trigger] v[i].0@)
}

/// Sorts strings in lexicographic order (the order of `String`'s `Ord`).
pub fn sort_strings(v: Vec<String>) -> (r: Vec<String>)
    ensures
        sorted_strings(r@),
        r@.to_multiset() == v@.to_multiset(),
{
    broadcast use vstd::seq_lib::group_to_multiset_ensures;
    let ghost orig = v@;
    let mut rest = v;
    let mut r: Vec<String> = Vec::new();
    while rest.len() > 0
        invariant
            sorted_strings(r@),
            r@.to_multiset().add(rest@.to_multiset()) == orig.to_multiset(),
        decreases rest.len(),
    {
        let ghost before_rest = rest@;
        let x = rest.pop().unwrap();
        proof { assert(before_rest =~= rest@.push(x)); }
        let mut p: usize = 0;
        while p < r.len() && !str_lt(x.as_str(), r[p].as_str())
            invariant
                p <= r.len(),
                forall|k: int| 0 <= k < p ==> !lex_lt(x@, #[trigger] r@[k]@),
            decreases r.len() - p,
        {
            p = p + 1;
        }
        let ghost before = r@;
        r.insert(p, x);
        proof {
            assert forall|i: int, j: int| 0 <= i < j < r@.len() implies !lex_lt(
                #[trigger] r@[j]@,
                #[trigger] r@[i]@,
            ) by {
                if j == p {
                    assert(r@[i] == before[i]);
                } else if i == p {
                    assert(r@[j] == before[j - 1]);
                    if lex_lt(r@[j]@, x@) {
                        if p < before.len() {
                            if j - 1 > p {
                                assert(!lex_lt(before[j - 1]@, before[p as int]@));
                            }
                            lemma_lex_lt_transitive(r@[j]@, x@, before[p as int]@);
                            if j - 1 == p {
                                lemma_lex_lt_irreflexive(before[p as int]@);
                            }
                        }
                    }
                } else {
                    let i0 = if i < p { i } else { i - 1 };
                    let j0 = if j < p { j } else { j - 1 };
                    assert(r@[i] == before[i0]);
                    assert(r@[j] == before[j0]);
                }
            }
            vstd::seq_lib::to_multiset_insert(before, p as int, x);
            vstd::seq_lib::to_multiset_build(rest@, x);
            assert(r@.to_multiset() =~= before.to_multiset().insert(x));
            assert(before_rest.to_multiset() =~= rest@.to_multiset().insert(x));
            assert(r@.to_multiset().add(rest@.to_multiset()) =~= before.to_multiset().add(
                before_rest.to_multiset(),
            ));
        }
    }
    proof { assert(rest@.to_multiset() =~= Multiset::empty()); }
    r
}


/// Sorts entries by their keys in lexicographic order; entries with equal keys
/// may come in any order.
pub fn sort_by_key<T>(v: Vec<(String, T)>) -> (r: Vec<(String, T)>)
    ensures
        sorted_by_key(r@),
        r@.to_multiset() == v@.to_multiset(),
{
    broadcast use vstd::seq_lib::group_to_multiset_ensures;
    let ghost orig = v@;
    let mut rest = v;
    let mut r: Vec<(String, T)> = Vec::new();
    while rest.len() > 0
        invariant
            sorted_by_key(r@),
            r@.to_multiset().add(rest@.to_multiset()) == orig.to_multiset(),
        decreases rest.len(),
    {
        let ghost before_rest = rest@;
        let x = rest.pop().unwrap();
        proof { assert(before_rest =~= rest@.push(x)); }
        let mut p: usize = 0;
        while p < r.len() && !str_lt(x.0.as_str(), r[p].0.as_str())
            invariant
                p <= r.len(),
                forall|k: int| 0 <= k < p ==> !lex_lt(x.0@, #[trigger] r@[k].0@),
            decreases r.len() - p,
        {
            p = p + 1;
        }
        let ghost before = r@;
        r.insert(p, x);
        proof {
            assert forall|i: int, j: int| 0 <= i < j < r@.len() implies !lex_lt(
                #[trigger] r@[j].0@,
                #[trigger] r@[i].0@,
            ) by {
                if j == p {
                    assert(r@[i] == before[i]);
                } else if i == p {
                    assert(r@[j] == before[j - 1]);
                    if lex_lt(r@[j].0@, x.0@) {
                        if p < before.len() {
                            if j - 1 > p {
                                assert(!lex_lt(before[j - 1].0@, before[p as int].0@));
                            }
                            lemma_lex_lt_transitive(r@[j].0@, x.0@, before[p as int].0@);
                            if j - 1 == p {
                                lemma_lex_lt_irreflexive(before[p as int].0@);
                            }
                        }
                    }
                } else {
                    let i0 = if i < p { i } else { i - 1 };
                    let j0 = if j < p { j } else { j - 1 };
                    assert(r@[i] == before[i0]);
                    assert(r@[j] == before[j0]);
                }
            }
            vstd::seq_lib::to_multiset_insert(before, p as int, x);
            vstd::seq_lib::to_multiset_build(rest@, x);
            assert(r@.to_multiset() =~= before.to_multiset().insert(x));
            assert(before_rest.to_multiset() =~= rest@.to_multiset().insert(x));
            assert(r@.to_multiset().add(rest@.to_multiset()) =~= before.to_multiset().add(
                before_rest.to_multiset(),
            ));
        }
    }
    proof { assert(rest@.to_multiset() =~= Multiset::empty()); }
    r
}


/// Sequences of strings with the same multiset have views with the same multiset.
pub proof fn lemma_multiset_map_views(a: Seq<String>, b: Seq<String>)
    requires
        a.to_multiset() == b.to_multiset(),
    ensures
        string_views(a).to_multiset() == string_views(b).to_multiset(),
    decreases a.len(),
{
    broadcast use vstd::seq_lib::group_to_multiset_ensures;
    if a.len() > 0 {
        let x = a.last();
        assert(a.to_multiset().count(x) > 0);
        assert(b.contains(x));
        let j = choose|j: int| 0 <= j < b.len() && b[j] == x;
        let a1 = a.drop_last();
        let b1 = b.remove(j);
        assert(a =~= a1.push(x));
        assert(a1.to_multiset() =~= a.to_multiset().remove(x));
        assert(b1.to_multiset() =~= b.to_multiset().remove(x));
        lemma_multiset_map_views(a1, b1);
        let f = |s: String| s@;
        assert(a.map_values(f) =~= a1.map_values(f).push(x@));
        assert(b.map_values(f).remove(j) =~= b1.map_values(f));
        assert(b.map_values(f)[j] == x@);
        assert(b.map_values(f).to_multiset() =~= b1.map_values(f).to_multiset().insert(x@)) by {
            assert(b.map_values(f).remove(j).to_multiset() =~= b.map_values(f).to_multiset().remove(
                x@,
            ));
            assert(b.map_values(f).to_multiset().count(x@) > 0) by {
                assert(b.map_values(f).contains(x@));
            }
        }
    } else {
        assert(b.to_multiset().len() == 0);
        assert(b.len() == 0);
        assert(string_views(a) =~= string_views(b));
    }
}


/// Joins the strings of `parts` with `sep` between neighbours.
pub fn join_strings(parts: &Vec<String>, sep: &str) -> (r: String)
    ensures
        r@ == join(parts.deep_view(), sep@),
{
    let sep_chars = chars_of(sep);
    let mut out: Vec<char> = Vec::new();
    let mut i: usize = 0;
    assert(parts.deep_view().take(0) =~= Seq::<Seq<char>>::empty());
    while i < parts.len()
        invariant
            i <= parts.len(),
            sep_chars@ == sep@,
            out@ == join(parts.deep_view().take(i as int), sep@),
        decreases parts.len() - i,
    {
        if i > 0 {
            append_chars(&mut out, &sep_chars);
        }
        append_chars(&mut out, &chars_of(parts[i].as_str()));
        proof {
            let t = parts.deep_view().take(i + 1);
            assert(t.drop_last() =~= parts.deep_view().take(i as int));
            assert(t.last() == parts@[i as int]@);
            assert(out@ =~= join(t, sep@));
        }
        i = i + 1;
    }
    assert(parts.deep_view().take(parts.len() as int) =~= parts.deep_view());
    string_from_chars(out.as_slice())
}

} // verus!
