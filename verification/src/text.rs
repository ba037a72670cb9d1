//! Character-sequence building blocks: the path and line handling of the
//! library works on `Vec<char>` and is specified over `Seq<char>`.

use vstd::prelude::*;

verus! {

// ---------------------------------------------------------------------------
// Specifications
// ---------------------------------------------------------------------------

/// `p` is a prefix of `s`.
pub open spec fn has_prefix(s: Seq<char>, p: Seq<char>) -> bool {
    p.len() <= s.len() && s.take(p.len() as int) == p
}

/// `p` is a suffix of `s`.
pub open spec fn has_suffix(s: Seq<char>, p: Seq<char>) -> bool {
    p.len() <= s.len() && s.skip(s.len() - p.len()) == p
}

/// An ASCII decimal digit.
pub open spec fn is_digit(c: char) -> bool {
    '0' <= c && c <= '9'
}

/// Every character of `s` is an ASCII decimal digit.
pub open spec fn all_digits(s: Seq<char>) -> bool {
    forall|i: int| 0 <= i < s.len() ==> is_digit(#[trigger] s[i])
}

/// A character with the Unicode `White_Space` property, the set that
/// `char::is_whitespace` (and so `str::trim`) uses.
pub open spec fn is_space(c: char) -> bool {
    ||| '\u{9}' <= c && c <= '\u{d}'
    ||| c == ' '
    ||| c == '\u{85}'
    ||| c == '\u{a0}'
    ||| c == '\u{1680}'
    ||| '\u{2000}' <= c && c <= '\u{200a}'
    ||| c == '\u{2028}'
    ||| c == '\u{2029}'
    ||| c == '\u{202f}'
    ||| c == '\u{205f}'
    ||| c == '\u{3000}'
}

/// `s` without its leading white space.
pub open spec fn trim_start(s: Seq<char>) -> Seq<char>
    decreases s.len(),
{
    if s.len() > 0 && is_space(s[0]) {
        trim_start(s.skip(1))
    } else {
        s
    }
}

/// `s` without its trailing white space.
pub open spec fn trim_end(s: Seq<char>) -> Seq<char>
    decreases s.len(),
{
    if s.len() > 0 && is_space(s.last()) {
        trim_end(s.drop_last())
    } else {
        s
    }
}

/// `s` without leading and trailing white space (`str::trim`).
pub open spec fn trim(s: Seq<char>) -> Seq<char> {
    trim_end(trim_start(s))
}

/// The pieces of `s` between the occurrences of `sep`, as `str::split`
/// gives them for a single-character pattern: one piece more than there are
/// separators, empty pieces included.
pub open spec fn split(s: Seq<char>, sep: char) -> Seq<Seq<char>>
    decreases s.len(),
{
    if s.len() == 0 {
        seq![Seq::empty()]
    } else {
        let init = split(s.drop_last(), sep);
        if s.last() == sep {
            init.push(Seq::empty())
        } else {
            init.update(init.len() - 1, init.last().push(s.last()))
        }
    }
}

/// `s` with every non-overlapping occurrence of the pair `a b`, found from
/// the left, replaced by `r` (`str::replace` with a two-character pattern
/// and a one-character replacement).
pub open spec fn replace_pair(s: Seq<char>, a: char, b: char, r: char) -> Seq<char>
    decreases s.len(),
{
    if s.len() == 0 {
        s
    } else if s.len() >= 2 && s[0] == a && s[1] == b {
        seq![r] + replace_pair(s.skip(2), a, b, r)
    } else {
        seq![s[0]] + replace_pair(s.skip(1), a, b, r)
    }
}

/// `s` with every occurrence of `from` replaced by `to`.
pub open spec fn replace_char(s: Seq<char>, from: char, to: char) -> Seq<char> {
    Seq::new(s.len(), |i: int| if s[i] == from { to } else { s[i] })
}

/// The pieces of `p` joined with `sep` between them.
pub open spec fn join(p: Seq<Seq<char>>, sep: char) -> Seq<char>
    decreases p.len(),
{
    if p.len() <= 1 {
        if p.len() == 1 {
            p[0]
        } else {
            Seq::empty()
        }
    } else {
        join(p.drop_last(), sep) + seq![sep] + p.last()
    }
}

/// The views of a sequence of character vectors.
pub open spec fn views(v: Seq<Vec<char>>) -> Seq<Seq<char>> {
    v.map_values(|x: Vec<char>| x@)
}

// ---------------------------------------------------------------------------
// Lemmas
// ---------------------------------------------------------------------------

/// `split` never yields an empty list of pieces.
pub proof fn lemma_split_nonempty(s: Seq<char>, sep: char)
    ensures
        split(s, sep).len() >= 1,
    decreases s.len(),
{
    if s.len() > 0 {
        lemma_split_nonempty(s.drop_last(), sep);
    }
}

/// No piece of `split(s, sep)` holds `sep`.
pub proof fn lemma_split_pieces_free(s: Seq<char>, sep: char)
    ensures
        forall|k: int, j: int|
            0 <= k < split(s, sep).len() && 0 <= j < split(s, sep)[k].len() ==> split(
                s,
                sep,
            )[k][j] != sep,
    decreases s.len(),
{
    if s.len() > 0 {
        lemma_split_pieces_free(s.drop_last(), sep);
        lemma_split_nonempty(s.drop_last(), sep);
    }
}

/// Joining the pieces of `s` with the separator gives `s` back.
pub proof fn lemma_join_split(s: Seq<char>, sep: char)
    ensures
        join(split(s, sep), sep) == s,
    decreases s.len(),
{
    if s.len() > 0 {
        let init = split(s.drop_last(), sep);
        lemma_join_split(s.drop_last(), sep);
        lemma_split_nonempty(s.drop_last(), sep);
        if s.last() == sep {
            assert(init.push(Seq::empty()).drop_last() == init);
            assert(s.drop_last() + seq![sep] + Seq::<char>::empty() == s);
        } else {
            let upd = init.update(init.len() - 1, init.last().push(s.last()));
            if init.len() == 1 {
                assert(s.drop_last().push(s.last()) == s);
            } else {
                assert(upd.drop_last() == init.drop_last());
                assert(join(init, sep) == join(init.drop_last(), sep) + seq![sep] + init.last());
                assert(join(init.drop_last(), sep) + seq![sep] + init.last().push(s.last())
                    == s.drop_last().push(s.last()));
                assert(s.drop_last().push(s.last()) == s);
            }
        }
    }
}

/// Each piece but the last is followed, in `s`, by the separator: the first
/// `k + 1` pieces joined, then `sep`, start `s`.
pub proof fn lemma_split_prefix(s: Seq<char>, sep: char, k: int)
    requires
        0 <= k < split(s, sep).len() - 1,
    ensures
        has_prefix(s, join(split(s, sep).take(k + 1), sep) + seq![sep]),
    decreases s.len(),
{
    lemma_split_nonempty(s, sep);
    if s.len() > 0 {
        let init = split(s.drop_last(), sep);
        lemma_split_nonempty(s.drop_last(), sep);
        let p = join(split(s, sep).take(k + 1), sep) + seq![sep];
        if s.last() == sep {
            assert(split(s, sep) == init.push(Seq::empty()));
            if k < init.len() - 1 {
                lemma_split_prefix(s.drop_last(), sep, k);
                assert(split(s, sep).take(k + 1) == init.take(k + 1));
                assert(s.take(p.len() as int) == s.drop_last().take(p.len() as int));
            } else {
                assert(split(s, sep).take(k + 1) == init);
                lemma_join_split(s.drop_last(), sep);
                assert(s.drop_last() + seq![sep] == s);
                assert(s.take(p.len() as int) == s);
            }
        } else {
            let upd = init.update(init.len() - 1, init.last().push(s.last()));
            assert(split(s, sep) == upd);
            lemma_split_prefix(s.drop_last(), sep, k);
            assert(upd.take(k + 1) == init.take(k + 1));
            assert(s.take(p.len() as int) == s.drop_last().take(p.len() as int));
        }
    }
}

/// When the last separator of `t + [sep] + u` is the one before `u`, the
/// last piece is `u`.
pub proof fn lemma_split_last(t: Seq<char>, u: Seq<char>, sep: char)
    requires
        forall|j: int| 0 <= j < u.len() ==> u[j] != sep,
    ensures
        split(t + seq![sep] + u, sep).last() == u,
        split(t + seq![sep] + u, sep).len() >= 2,
    decreases u.len(),
{
    let s = t + seq![sep] + u;
    if u.len() == 0 {
        assert(s.drop_last() == t);
        assert(s.last() == sep);
        lemma_split_nonempty(t, sep);
    } else {
        lemma_split_last(t, u.drop_last(), sep);
        assert(s.drop_last() == t + seq![sep] + u.drop_last());
        assert(s.last() == u.last());
        assert(u.drop_last().push(u.last()) == u);
    }
}

/// Appending a separator and a separator-free piece adds that piece.
pub proof fn lemma_split_append(t: Seq<char>, u: Seq<char>, sep: char)
    requires
        forall|j: int| 0 <= j < u.len() ==> u[j] != sep,
    ensures
        split(t + seq![sep] + u, sep) == split(t, sep).push(u),
    decreases u.len(),
{
    let s = t + seq![sep] + u;
    if u.len() == 0 {
        assert(s.drop_last() == t);
        assert(s.last() == sep);
        assert(u == Seq::<char>::empty());
    } else {
        assert(u.last() == u[u.len() - 1]);
        lemma_split_append(t, u.drop_last(), sep);
        assert(s.drop_last() == t + seq![sep] + u.drop_last());
        assert(s.last() == u.last());
        assert(u.drop_last().push(u.last()) == u);
        let init = split(t, sep).push(u.drop_last());
        assert(init.update(init.len() - 1, init.last().push(s.last())) == split(t, sep).push(u));
    }
}

/// A separator-free piece splits into itself alone.
pub proof fn lemma_split_single(s: Seq<char>, sep: char)
    requires
        forall|j: int| 0 <= j < s.len() ==> s[j] != sep,
    ensures
        split(s, sep) == seq![s],
    decreases s.len(),
{
    if s.len() > 0 {
        lemma_split_single(s.drop_last(), sep);
        assert(s.drop_last().push(s.last()) == s);
    } else {
        assert(s == Seq::<char>::empty());
    }
}

/// Splitting separator-free pieces joined by the separator gives the pieces
/// back.
pub proof fn lemma_split_join(p: Seq<Seq<char>>, sep: char)
    requires
        p.len() >= 1,
        forall|k: int, j: int| 0 <= k < p.len() && 0 <= j < p[k].len() ==> p[k][j] != sep,
    ensures
        split(join(p, sep), sep) == p,
    decreases p.len(),
{
    if p.len() == 1 {
        lemma_split_single(p[0], sep);
        assert(seq![p[0]] == p);
    } else {
        let init = p.drop_last();
        assert forall|k: int, j: int| 0 <= k < init.len() && 0 <= j < init[k].len() implies init[k][j]
            != sep by {
            assert(init[k] == p[k]);
        }
        lemma_split_join(init, sep);
        assert forall|j: int| 0 <= j < p.last().len() implies p.last()[j] != sep by {
            assert(p.last() == p[p.len() - 1]);
        }
        lemma_split_append(join(init, sep), p.last(), sep);
        assert(init.push(p.last()) == p);
    }
}

/// Trimming the front of a white-space-led sequence is trimming its tail.
proof fn lemma_trim_start_step(s: Seq<char>, i: int)
    requires
        0 <= i < s.len(),
        is_space(s[i]),
    ensures
        trim_start(s.skip(i)) == trim_start(s.skip(i + 1)),
{
    assert(s.skip(i).skip(1) == s.skip(i + 1));
}

proof fn lemma_trim_end_step(s: Seq<char>, a: int, j: int)
    requires
        0 <= a < j <= s.len(),
        is_space(s[j - 1]),
    ensures
        trim_end(s.subrange(a, j)) == trim_end(s.subrange(a, j - 1)),
{
    assert(s.subrange(a, j).drop_last() == s.subrange(a, j - 1));
}

// ---------------------------------------------------------------------------
// Executable operations
// ---------------------------------------------------------------------------

/// The characters of `s`, in order.
pub fn chars_of(s: &str) -> (v: Vec<char>)
    ensures
        v@ == s@,
{
    let mut v: Vec<char> = Vec::new();
    for c in it: s.chars()
        invariant
            v@ == it.seq().take(it.index() as int),
    {
        v.push(c);
    }
    v
}

/// Appends `c` to `s`.
/// Calls std's `String::push`; claims that the string afterwards holds the
/// characters it held before, then `c`.
#[verifier::external_body]
fn push_char(s: &mut String, c: char)
    ensures
        final(s)@ == old(s)@.push(c),
{
    s.push(c);
}

/// A `String` holding the characters of `v`, in order.
pub fn string_of(v: &Vec<char>) -> (s: String)
    ensures
        s@ == v@,
{
    let mut s = String::new();
    for i in 0..v.len()
        invariant
            s@ == v@.take(i as int),
    {
        push_char(&mut s, v[i]);
        assert(v@.take(i + 1) == v@.take(i as int).push(v@[i as int]));
    }
    assert(v@.take(v.len() as int) == v@);
    s
}

/// The characters of `v` from `a` up to, not including, `b`.
pub fn copy_range(v: &Vec<char>, a: usize, b: usize) -> (r: Vec<char>)
    requires
        a <= b <= v.len(),
    ensures
        r@ == v@.subrange(a as int, b as int),
{
    let mut r: Vec<char> = Vec::new();
    let mut i = a;
    while i < b
        invariant
            a <= i <= b <= v.len(),
            r@ == v@.subrange(a as int, i as int),
        decreases b - i,
    {
        r.push(v[i]);
        assert(v@.subrange(a as int, i + 1) == v@.subrange(a as int, i as int).push(v@[i as int]));
        i += 1;
    }
    r
}

/// The concatenation of `x` and `y`.
pub fn concat(x: &Vec<char>, y: &Vec<char>) -> (r: Vec<char>)
    ensures
        r@ == x@ + y@,
{
    let mut r = x.clone();
    let mut t = y.clone();
    assert(r@ == x@);
    r.append(&mut t);
    r
}

/// Whether `p` is a prefix of `s`.
pub fn starts_with(s: &Vec<char>, p: &Vec<char>) -> (b: bool)
    ensures
        b == has_prefix(s@, p@),
{
    if p.len() > s.len() {
        return false;
    }
    let mut i: usize = 0;
    while i < p.len()
        invariant
            i <= p.len() <= s.len(),
            forall|k: int| 0 <= k < i ==> s@[k] == p@[k],
        decreases p.len() - i,
    {
        if s[i] != p[i] {
            assert(s@.take(p.len() as int)[i as int] != p@[i as int]);
            return false;
        }
        i += 1;
    }
    assert(s@.take(p.len() as int) == p@);
    true
}

/// Whether `p` is a suffix of `s`.
pub fn ends_with(s: &Vec<char>, p: &Vec<char>) -> (b: bool)
    ensures
        b == has_suffix(s@, p@),
{
    if p.len() > s.len() {
        return false;
    }
    let off = s.len() - p.len();
    let mut i: usize = 0;
    while i < p.len()
        invariant
            i <= p.len() <= s.len(),
            off == s.len() - p.len(),
            forall|k: int| 0 <= k < i ==> s@[off + k] == p@[k],
        decreases p.len() - i,
    {
        if s[off + i] != p[i] {
            assert(s@.skip(off as int)[i as int] != p@[i as int]);
            return false;
        }
        i += 1;
    }
    assert(s@.skip(off as int) == p@);
    true
}

/// Whether every character of `s` is an ASCII decimal digit.
pub fn is_all_digits(s: &Vec<char>) -> (b: bool)
    ensures
        b == all_digits(s@),
{
    let mut i: usize = 0;
    while i < s.len()
        invariant
            i <= s.len(),
            forall|k: int| 0 <= k < i ==> is_digit(#[trigger] s@[k]),
        decreases s.len() - i,
    {
        if !('0' <= s[i] && s[i] <= '9') {
            return false;
        }
        i += 1;
    }
    true
}

/// Whether `c` is Unicode white space (`char::is_whitespace`).
pub fn is_whitespace(c: char) -> (b: bool)
    ensures
        b == is_space(c),
{
    ('\u{9}' <= c && c <= '\u{d}') || c == ' ' || c == '\u{85}' || c == '\u{a0}' || c
        == '\u{1680}' || ('\u{2000}' <= c && c <= '\u{200a}') || c == '\u{2028}' || c
        == '\u{2029}' || c == '\u{202f}' || c == '\u{205f}' || c == '\u{3000}'
}

/// `s` without leading and trailing white space.
pub fn trim_chars(s: &Vec<char>) -> (r: Vec<char>)
    ensures
        r@ == trim(s@),
{
    let mut i: usize = 0;
    assert(s@.skip(0) == s@);
    while i < s.len() && is_whitespace(s[i])
        invariant
            i <= s.len(),
            trim_start(s@) == trim_start(s@.skip(i as int)),
        decreases s.len() - i,
    {
        proof {
            lemma_trim_start_step(s@, i as int);
        }
        i += 1;
    }
    assert(trim_start(s@) == s@.subrange(i as int, s.len() as int));
    let mut j: usize = s.len();
    while j > i && is_whitespace(s[j - 1])
        invariant
            i <= j <= s.len(),
            trim_start(s@) == s@.subrange(i as int, s.len() as int),
            trim(s@) == trim_end(s@.subrange(i as int, j as int)),
        decreases j,
    {
        proof {
            lemma_trim_end_step(s@, i as int, j as int);
        }
        j -= 1;
    }
    copy_range(s, i, j)
}

/// The pieces of `s` between the occurrences of `sep`.
pub fn split_chars(s: &Vec<char>, sep: char) -> (r: Vec<Vec<char>>)
    ensures
        views(r@) == split(s@, sep),
{
    let mut segs: Vec<Vec<char>> = Vec::new();
    let mut cur: Vec<char> = Vec::new();
    assert(s@.take(0) == Seq::<char>::empty());
    assert(views(segs@).push(cur@) == split(s@.take(0), sep));
    for i in 0..s.len()
        invariant
            views(segs@).push(cur@) == split(s@.take(i as int), sep),
    {
        let c = s[i];
        let ghost t = s@.take(i + 1);
        assert(t.drop_last() == s@.take(i as int));
        assert(t.last() == c);
        if c == sep {
            let ghost before = views(segs@);
            segs.push(cur);
            assert(views(segs@) == before.push(cur@));
            cur = Vec::new();
        } else {
            cur.push(c);
        }
    }
    assert(s@.take(s.len() as int) == s@);
    let ghost before = views(segs@);
    segs.push(cur);
    assert(views(segs@) == before.push(cur@));
    segs
}

/// `s` with every occurrence of the pair `a b` (non-overlapping, from the
/// left) replaced by `r`.
pub fn replace_pair_chars(s: &Vec<char>, a: char, b: char, r: char) -> (out: Vec<char>)
    ensures
        out@ == replace_pair(s@, a, b, r),
{
    let mut out: Vec<char> = Vec::new();
    let mut i: usize = 0;
    assert(s@.skip(0) == s@);
    while i < s.len()
        invariant
            i <= s.len(),
            out@ + replace_pair(s@.skip(i as int), a, b, r) == replace_pair(s@, a, b, r),
        decreases s.len() - i,
    {
        let ghost rest = s@.skip(i as int);
        if i + 1 < s.len() && s[i] == a && s[i + 1] == b {
            assert(rest.skip(2) == s@.skip(i + 2));
            out.push(r);
            i += 2;
        } else {
            assert(rest.skip(1) == s@.skip(i + 1));
            out.push(s[i]);
            i += 1;
        }
        assert(out@ + replace_pair(s@.skip(i as int), a, b, r) == replace_pair(s@, a, b, r));
    }
    assert(s@.skip(i as int).len() == 0);
    out
}

/// `s` with every occurrence of `from` replaced by `to`.
pub fn replace_char_chars(s: &Vec<char>, from: char, to: char) -> (out: Vec<char>)
    ensures
        out@ == replace_char(s@, from, to),
{
    let mut out: Vec<char> = Vec::new();
    for i in 0..s.len()
        invariant
            out@.len() == i,
            forall|k: int| 0 <= k < i ==> out@[k] == (if s@[k] == from { to } else { s@[k] }),
    {
        if s[i] == from {
            out.push(to);
        } else {
            out.push(s[i]);
        }
    }
    assert(out@ == replace_char(s@, from, to));
    out
}

} // verus!
