//! Publication artefact paths: flat (`ID/body.md`), legacy `YYYY/MM/ID/body.md`
//! and `YYYY/MM/DD/ID/body.md` shards, and the subject line of `meta.toml`.

use vstd::prelude::*;

use crate::text::{
    all_digits, chars_of, concat, copy_range, ends_with, has_prefix, has_suffix, is_all_digits,
    is_digit, join, lemma_split_append, lemma_split_join, lemma_split_last,
    lemma_split_pieces_free, lemma_split_prefix, lemma_split_single, replace_char,
    replace_char_chars, replace_pair, replace_pair_chars, split, split_chars, starts_with,
    string_of, trim, trim_chars, trim_end, trim_start, views,
};

verus! {

/// One artefact folder on a publications branch.
#[derive(Debug, Clone, PartialEq, Eq)]
pub struct Artefact {
    /// Folder id (`DRAFT-…`, `POST-…`, `TWEET-…`, `XPOST-…`).
    pub id: String,
    /// `YYYY/MM` or `YYYY/MM/DD` when the tree is sharded.
    pub shard: Option<String>,
    /// Path to `body.md`.
    pub body_path: String,
    /// Sibling `meta.toml`.
    pub meta_path: String,
    /// Subject from `meta.toml` once loaded this session.
    pub subject: String,
}

/// What an [`Artefact`] holds, as character sequences.
pub struct ArtefactModel {
    pub id: Seq<char>,
    pub shard: Option<Seq<char>>,
    pub body_path: Seq<char>,
    pub meta_path: Seq<char>,
    pub subject: Seq<char>,
}

/// The view of an optional string.
pub open spec fn opt_view(o: Option<String>) -> Option<Seq<char>> {
    match o {
        Some(s) => Some(s@),
        None => None,
    }
}

impl View for Artefact {
    type V = ArtefactModel;

    open spec fn view(&self) -> ArtefactModel {
        ArtefactModel {
            id: self.id@,
            shard: opt_view(self.shard),
            body_path: self.body_path@,
            meta_path: self.meta_path@,
            subject: self.subject@,
        }
    }
}

/// The view of an optional artefact.
pub open spec fn opt_artefact_view(o: Option<Artefact>) -> Option<ArtefactModel> {
    match o {
        Some(a) => Some(a@),
        None => None,
    }
}

// ---------------------------------------------------------------------------
// Specification
// ---------------------------------------------------------------------------

/// `"/body.md"`
pub open spec fn body_suffix() -> Seq<char> {
    seq!['/', 'b', 'o', 'd', 'y', '.', 'm', 'd']
}

/// `"body.md"`
pub open spec fn body_name() -> Seq<char> {
    seq!['b', 'o', 'd', 'y', '.', 'm', 'd']
}

/// `"meta.toml"`
pub open spec fn meta_name() -> Seq<char> {
    seq!['m', 'e', 't', 'a', '.', 't', 'o', 'm', 'l']
}

/// `"DRAFT-"`
pub open spec fn draft_prefix() -> Seq<char> {
    seq!['D', 'R', 'A', 'F', 'T', '-']
}

/// `"POST-"`
pub open spec fn post_prefix() -> Seq<char> {
    seq!['P', 'O', 'S', 'T', '-']
}

/// `"TWEET-"`
pub open spec fn tweet_prefix() -> Seq<char> {
    seq!['T', 'W', 'E', 'E', 'T', '-']
}

/// `"XPOST-"`
pub open spec fn xpost_prefix() -> Seq<char> {
    seq!['X', 'P', 'O', 'S', 'T', '-']
}

/// A path segment names an artefact folder when it starts with one of the
/// four kind prefixes.
pub open spec fn is_id(seg: Seq<char>) -> bool {
    ||| has_prefix(seg, draft_prefix())
    ||| has_prefix(seg, post_prefix())
    ||| has_prefix(seg, tweet_prefix())
    ||| has_prefix(seg, xpost_prefix())
}

/// The first segment of `segs` that names an artefact folder.
pub open spec fn first_id(segs: Seq<Seq<char>>) -> Option<Seq<char>>
    decreases segs.len(),
{
    if segs.len() == 0 {
        None
    } else if is_id(segs[0]) {
        Some(segs[0])
    } else {
        first_id(segs.drop_first())
    }
}

/// A path with every `\` turned into `/`.
pub open spec fn normalize(path: Seq<char>) -> Seq<char> {
    replace_char(path, '\\', '/')
}

/// The shard a path lies in: its first segment is a four-digit year and its
/// second a two-digit month, giving `YYYY/MM`; a third segment of two digits
/// adds the day, `YYYY/MM/DD`.
pub open spec fn shard_of(path: Seq<char>) -> Option<Seq<char>> {
    let segs = split(path, '/');
    if segs.len() < 2 {
        None
    } else {
        let year = segs[0];
        let month = segs[1];
        if !(year.len() == 4 && all_digits(year) && month.len() == 2 && all_digits(month)) {
            None
        } else if segs.len() >= 3 && segs[2].len() == 2 && all_digits(segs[2]) {
            Some(year + seq!['/'] + month + seq!['/'] + segs[2])
        } else {
            Some(year + seq!['/'] + month)
        }
    }
}

/// The artefact whose `body.md` lies at `path`: the path (with `\` read as
/// `/`) must end in `/body.md` and one of its segments must name an artefact
/// folder; the first such segment is the id, `meta.toml` sits beside
/// `body.md`, and the subject is not loaded yet.
pub open spec fn artefact_of(path: Seq<char>) -> Option<ArtefactModel> {
    let name = normalize(path);
    if !has_suffix(name, body_suffix()) {
        None
    } else {
        match first_id(split(name, '/')) {
            None => None,
            Some(id) => Some(
                ArtefactModel {
                    id,
                    shard: shard_of(name),
                    body_path: name,
                    meta_path: name.take(name.len() - body_name().len()) + meta_name(),
                    subject: Seq::empty(),
                },
            ),
        }
    }
}


/// `"subject ="`
pub open spec fn subject_key() -> Seq<char> {
    seq!['s', 'u', 'b', 'j', 'e', 'c', 't', ' ', '=']
}

/// A quoted value with `\"` read as `"` and then `\\` read as `\`.
pub open spec fn unescape(s: Seq<char>) -> Seq<char> {
    replace_pair(replace_pair(s, '\\', '"', '"'), '\\', '\\', '\\')
}

/// The subject one line of `meta.toml` gives: the trimmed line starts with
/// `subject =`, and what follows, trimmed, is a value in double quotes.
pub open spec fn line_subject(line: Seq<char>) -> Option<Seq<char>> {
    let t = trim(line);
    if !has_prefix(t, subject_key()) {
        None
    } else {
        let rest = trim(t.skip(subject_key().len() as int));
        if rest.len() >= 2 && rest[0] == '"' && rest.last() == '"' {
            Some(unescape(rest.subrange(1, rest.len() - 1)))
        } else {
            None
        }
    }
}

/// The subject of the first line of `lines` that gives one.
pub open spec fn first_subject(lines: Seq<Seq<char>>) -> Option<Seq<char>>
    decreases lines.len(),
{
    if lines.len() == 0 {
        None
    } else {
        match line_subject(lines[0]) {
            Some(s) => Some(s),
            None => first_subject(lines.drop_first()),
        }
    }
}

/// The subject that `meta.toml` text gives, or the empty string. Lines are
/// the pieces between `\n`; a `\r` before the `\n` goes with the rest of the
/// white space when the line is trimmed.
pub open spec fn subject_of(meta: Seq<char>) -> Seq<char> {
    match first_subject(split(meta, '\n')) {
        Some(s) => s,
        None => Seq::empty(),
    }
}

// ---------------------------------------------------------------------------
// Laws
// ---------------------------------------------------------------------------

/// The folder that holds `body.md` (and `meta.toml`): the body path without
/// the file name.
pub open spec fn folder_of(a: ArtefactModel) -> Seq<char> {
    a.body_path.take(a.body_path.len() - body_name().len())
}

/// A shard name: `YYYY/MM` or `YYYY/MM/DD`, all digits but the slashes.
pub open spec fn is_shard(sh: Seq<char>) -> bool {
    &&& sh.len() == 7 || sh.len() == 10
    &&& forall|i: int| 0 <= i < sh.len() ==> (if i == 4 || i == 7 {
        sh[i] == '/'
    } else {
        is_digit(sh[i])
    })
}

/// The first artefact-folder segment found is an artefact-folder segment of
/// the list.
proof fn lemma_first_id(segs: Seq<Seq<char>>)
    ensures
        first_id(segs) matches Some(x) ==> is_id(x) && segs.contains(x),
    decreases segs.len(),
{
    if segs.len() > 0 && !is_id(segs[0]) {
        lemma_first_id(segs.drop_first());
        if let Some(x) = first_id(segs.drop_first()) {
            let k = choose|k: int| 0 <= k < segs.drop_first().len() && segs.drop_first()[k] == x;
            assert(segs[k + 1] == x);
        }
    }
}

/// Turning `\` into `/` twice is turning it once.
proof fn lemma_normalize_idempotent(path: Seq<char>)
    ensures
        normalize(normalize(path)) == normalize(path),
{
    assert(normalize(normalize(path)) =~= normalize(path));
}

/// A path reads as the same artefact whether it separates folders with `\`
/// or with `/`.
pub proof fn law_backslash_reads_as_slash(path: Seq<char>)
    ensures
        artefact_of(normalize(path)) == artefact_of(path),
{
    lemma_normalize_idempotent(path);
}

/// Reading an artefact's own `body_path` again gives the same artefact.
pub proof fn law_reparse_body_path(path: Seq<char>)
    requires
        artefact_of(path) is Some,
    ensures
        artefact_of(artefact_of(path).unwrap().body_path) == artefact_of(path),
{
    lemma_normalize_idempotent(path);
}

/// `meta.toml` is the sibling of `body.md`: both paths are the same folder,
/// ending in `/`, followed by the file's name.
pub proof fn law_meta_beside_body(path: Seq<char>)
    requires
        artefact_of(path) is Some,
    ensures
        ({
            let a = artefact_of(path).unwrap();
            let d = folder_of(a);
            &&& d.len() >= 1
            &&& d.last() == '/'
            &&& a.body_path == d + body_name()
            &&& a.meta_path == d + meta_name()
        }),
{
    let name = normalize(path);
    let a = artefact_of(path).unwrap();
    let d = folder_of(a);
    assert(name.skip(name.len() - 8) == body_suffix());
    assert(name[name.len() - 8] == name.skip(name.len() - 8)[0]);
    assert(d.last() == name[name.len() - 8]);
    assert(a.body_path =~= d + body_name());
}

/// The id is an artefact-folder name and one of the body path's segments.
pub proof fn law_id_is_a_folder(path: Seq<char>)
    requires
        artefact_of(path) is Some,
    ensures
        ({
            let a = artefact_of(path).unwrap();
            &&& is_id(a.id)
            &&& split(a.body_path, '/').contains(a.id)
            &&& forall|j: int| 0 <= j < a.id.len() ==> a.id[j] != '/'
        }),
{
    let name = normalize(path);
    let segs = split(name, '/');
    lemma_first_id(segs);
    lemma_split_pieces_free(name, '/');
    let a = artefact_of(path).unwrap();
    let k = choose|k: int| 0 <= k < segs.len() && segs[k] == a.id;
    assert forall|j: int| 0 <= j < a.id.len() implies a.id[j] != '/' by {
        assert(segs[k][j] != '/');
    }
}

/// Whatever path it is read from, a shard is `YYYY/MM` or `YYYY/MM/DD`.
pub proof fn law_shard_shape(path: Seq<char>)
    ensures
        shard_of(path) matches Some(sh) ==> is_shard(sh),
{
    let segs = split(path, '/');
    if let Some(sh) = shard_of(path) {
        let ym = segs[0] + seq!['/'] + segs[1];
        if segs.len() >= 3 && segs[2].len() == 2 && all_digits(segs[2]) {
            assert(sh == ym + seq!['/'] + segs[2]);
        } else {
            assert(sh == ym);
        }
        assert(is_shard(sh));
    }
}

/// A shard is `YYYY/MM` or `YYYY/MM/DD` and names the leading folders of the
/// body path.
pub proof fn law_shard_leads_path(path: Seq<char>)
    requires
        artefact_of(path) matches Some(a) && a.shard is Some,
    ensures
        ({
            let a = artefact_of(path).unwrap();
            let sh = a.shard.unwrap();
            &&& is_shard(sh)
            &&& has_prefix(a.body_path, sh + seq!['/'])
        }),
{
    let name = normalize(path);
    let p = split(name, '/');
    let a = artefact_of(path).unwrap();
    let sh = a.shard.unwrap();
    let t = name.take(name.len() - 8);
    assert(name.skip(name.len() - 8) == body_suffix());
    assert(name =~= t + seq!['/'] + body_name());
    assert forall|j: int| 0 <= j < body_name().len() implies body_name()[j] != '/' by {}
    lemma_split_last(t, body_name(), '/');
    assert(p.last() == body_name());
    assert(p.len() >= 2);
    let year = p[0];
    let month = p[1];
    assert(month.len() == 2);
    assert(p.len() >= 3);
    let ym = year + seq!['/'] + month;
    assert(join(p.take(2), '/') == ym) by {
        assert(p.take(2).drop_last() == p.take(1));
        assert(join(p.take(1), '/') == year);
    }
    if p.len() >= 3 && p[2].len() == 2 && all_digits(p[2]) {
        assert(p.len() >= 4);
        lemma_split_prefix(name, '/', 2);
        assert(p.take(3).drop_last() == p.take(2));
        assert(join(p.take(3), '/') == ym + seq!['/'] + p[2]);
        assert(sh == ym + seq!['/'] + p[2]);
        assert(is_shard(sh));
    } else {
        lemma_split_prefix(name, '/', 1);
        assert(sh == ym);
        assert(is_shard(sh));
    }
}

/// How a writer quotes a subject: `\` becomes `\\` and `"` becomes `\"`.
pub open spec fn escape(s: Seq<char>) -> Seq<char>
    decreases s.len(),
{
    if s.len() == 0 {
        Seq::empty()
    } else {
        let head = if s[0] == '\\' {
            seq!['\\', '\\']
        } else if s[0] == '"' {
            seq!['\\', '"']
        } else {
            seq![s[0]]
        };
        head + escape(s.skip(1))
    }
}

/// The `subject = "…"` line a writer puts in `meta.toml` for `s`.
pub open spec fn subject_line(s: Seq<char>) -> Seq<char> {
    subject_key() + seq![' ', '"'] + escape(s) + seq!['"']
}

/// `s` with only its backslashes doubled.
spec fn double_backslashes(s: Seq<char>) -> Seq<char>
    decreases s.len(),
{
    if s.len() == 0 {
        Seq::empty()
    } else {
        (if s[0] == '\\' {
            seq!['\\', '\\']
        } else {
            seq![s[0]]
        }) + double_backslashes(s.skip(1))
    }
}

proof fn lemma_escape_head(s: Seq<char>)
    ensures
        escape(s).len() >= s.len(),
        escape(s).len() > 0 ==> escape(s)[0] != '"',
        forall|j: int| 0 <= j < escape(s).len() ==> escape(s)[j] != '\n' || s.contains('\n'),
    decreases s.len(),
{
    if s.len() > 0 {
        lemma_escape_head(s.skip(1));
        let head = if s[0] == '\\' {
            seq!['\\', '\\']
        } else if s[0] == '"' {
            seq!['\\', '"']
        } else {
            seq![s[0]]
        };
        let e = escape(s.skip(1));
        assert forall|j: int| 0 <= j < escape(s).len() implies escape(s)[j] != '\n'
            || s.contains('\n') by {
            if j >= head.len() {
                assert(escape(s)[j] == e[j - head.len()]);
                if s.skip(1).contains('\n') {
                    let k = choose|k: int| 0 <= k < s.skip(1).len() && s.skip(1)[k] == '\n';
                    assert(s[k + 1] == '\n');
                }
            } else if escape(s)[j] == '\n' {
                assert(s[0] == '\n');
            }
        }
    }
}

/// One character, then the rest, through `replace_pair`.
proof fn lemma_replace_pair_head(c: char, rest: Seq<char>, a: char, b: char, r: char)
    requires
        c != a || rest.len() == 0 || rest[0] != b,
    ensures
        replace_pair(seq![c] + rest, a, b, r) == seq![c] + replace_pair(rest, a, b, r),
{
    assert((seq![c] + rest).skip(1) == rest);
}

/// A matching pair, then the rest, through `replace_pair`.
proof fn lemma_replace_pair_match(a: char, b: char, rest: Seq<char>, r: char)
    ensures
        replace_pair(seq![a, b] + rest, a, b, r) == seq![r] + replace_pair(rest, a, b, r),
{
    assert((seq![a, b] + rest).skip(2) == rest);
}

proof fn lemma_unquote_escaped(s: Seq<char>)
    ensures
        replace_pair(escape(s), '\\', '"', '"') == double_backslashes(s),
    decreases s.len(),
{
    if s.len() > 0 {
        let e = escape(s.skip(1));
        lemma_unquote_escaped(s.skip(1));
        lemma_escape_head(s.skip(1));
        if s[0] == '\\' {
            assert(escape(s) == seq!['\\'] + (seq!['\\'] + e));
            lemma_replace_pair_head('\\', seq!['\\'] + e, '\\', '"', '"');
            lemma_replace_pair_head('\\', e, '\\', '"', '"');
            assert(seq!['\\'] + (seq!['\\'] + double_backslashes(s.skip(1))) == double_backslashes(
                s,
            ));
        } else if s[0] == '"' {
            lemma_replace_pair_match('\\', '"', e, '"');
            assert(seq!['"'] + double_backslashes(s.skip(1)) == double_backslashes(s));
        } else {
            lemma_replace_pair_head(s[0], e, '\\', '"', '"');
        }
    }
}

proof fn lemma_undouble(s: Seq<char>)
    ensures
        replace_pair(double_backslashes(s), '\\', '\\', '\\') == s,
    decreases s.len(),
{
    if s.len() > 0 {
        let d = double_backslashes(s.skip(1));
        lemma_undouble(s.skip(1));
        if s[0] == '\\' {
            lemma_replace_pair_match('\\', '\\', d, '\\');
        } else {
            lemma_replace_pair_head(s[0], d, '\\', '\\', '\\');
        }
        assert(seq![s[0]] + s.skip(1) == s);
    }
}

/// A piece of text without the separator splits into itself alone.
proof fn lemma_split_whole(s: Seq<char>, sep: char)
    requires
        !s.contains(sep),
    ensures
        split(s, sep) == seq![s],
    decreases s.len(),
{
    if s.len() > 0 {
        assert(!s.drop_last().contains(sep)) by {
            if s.drop_last().contains(sep) {
                let k = choose|k: int| 0 <= k < s.drop_last().len() && s.drop_last()[k] == sep;
                assert(s[k] == sep);
            }
        }
        lemma_split_whole(s.drop_last(), sep);
        assert(s.last() != sep);
        assert(s.drop_last().push(s.last()) == s);
    } else {
        assert(s == Seq::<char>::empty());
    }
}

/// The line a writer puts down for `s` holds no line break and gives `s`.
proof fn lemma_subject_line(s: Seq<char>)
    requires
        !s.contains('\n'),
    ensures
        !subject_line(s).contains('\n'),
        line_subject(subject_line(s)) == Some(s),
{
    let e = escape(s);
    let line = subject_line(s);
    lemma_escape_head(s);
    assert(!line.contains('\n')) by {
        if line.contains('\n') {
            let k = choose|k: int| 0 <= k < line.len() && line[k] == '\n';
            if 11 <= k < 11 + e.len() {
                assert(e[k - 11] == '\n');
            }
        }
    }
    // The line has no white space at either end.
    assert(trim_start(line) == line);
    assert(trim_end(line) == line);
    assert(line.take(9) == subject_key());
    let after = line.skip(9);
    let quoted = seq!['"'] + e + seq!['"'];
    assert(after == seq![' '] + quoted);
    assert(after.skip(1) == quoted);
    assert(trim_start(quoted) == quoted);
    assert(trim_start(after) == quoted);
    assert(trim_end(quoted) == quoted);
    assert(quoted.subrange(1, quoted.len() - 1) == e);
    lemma_unquote_escaped(s);
    lemma_undouble(s);
}

/// A subject written on its own `subject = "…"` line, with `\` and `"`
/// escaped, reads back unchanged, so long as it holds no line break.
pub proof fn law_subject_round_trip(s: Seq<char>)
    requires
        !s.contains('\n'),
    ensures
        subject_of(subject_line(s)) == s,
{
    let line = subject_line(s);
    lemma_subject_line(s);
    lemma_split_whole(line, '\n');
    assert(split(line, '\n').drop_first() == Seq::<Seq<char>>::empty());
}

/// Lines that give no subject in front of others change nothing.
proof fn lemma_first_subject_skips(before: Seq<Seq<char>>, rest: Seq<Seq<char>>)
    requires
        forall|k: int| 0 <= k < before.len() ==> line_subject(#[trigger] before[k]) is None,
    ensures
        first_subject(before + rest) == first_subject(rest),
    decreases before.len(),
{
    if before.len() > 0 {
        let tail = before.drop_first();
        assert forall|k: int| 0 <= k < tail.len() implies line_subject(#[trigger] tail[k]) is None by {
            assert(tail[k] == before[k + 1]);
        }
        lemma_first_subject_skips(tail, rest);
        assert((before + rest).drop_first() == tail + rest);
        assert((before + rest)[0] == before[0]);
    }
}

/// In a `meta.toml` of any number of lines, the first line that gives a
/// subject decides: lines before it that give none, and any lines after it,
/// leave the written subject unchanged.
pub proof fn law_first_subject_line_wins(
    before: Seq<Seq<char>>,
    s: Seq<char>,
    after: Seq<Seq<char>>,
)
    requires
        !s.contains('\n'),
        forall|k: int| 0 <= k < before.len() ==> !(#[trigger] before[k]).contains('\n'),
        forall|k: int| 0 <= k < before.len() ==> line_subject(#[trigger] before[k]) is None,
        forall|k: int| 0 <= k < after.len() ==> !(#[trigger] after[k]).contains('\n'),
    ensures
        subject_of(join(before + seq![subject_line(s)] + after, '\n')) == s,
{
    let line = subject_line(s);
    lemma_subject_line(s);
    let p = before + seq![line] + after;
    assert forall|k: int, j: int| 0 <= k < p.len() && 0 <= j < p[k].len() implies p[k][j]
        != '\n' by {
        if k < before.len() {
            assert(p[k] == before[k]);
            assert(!before[k].contains('\n'));
        } else if k == before.len() {
            assert(p[k] == line);
        } else {
            assert(p[k] == after[k - before.len() - 1]);
            assert(!after[k - before.len() - 1].contains('\n'));
        }
        if p[k][j] == '\n' {
            assert(p[k].contains('\n'));
        }
    }
    lemma_split_join(p, '\n');
    assert(p == before + (seq![line] + after));
    lemma_first_subject_skips(before, seq![line] + after);
    assert((seq![line] + after)[0] == line);
}

/// A body path whose first three folders are a four-digit year, a two-digit
/// month and a two-digit day, with the artefact folder below them, is read
/// with the full `YYYY/MM/DD` shard, for every digit pair.
pub proof fn law_dated_body_path(y: Seq<char>, m: Seq<char>, d: Seq<char>, id: Seq<char>)
    requires
        y.len() == 4 && all_digits(y),
        m.len() == 2 && all_digits(m),
        d.len() == 2 && all_digits(d),
        is_id(id),
        forall|j: int| 0 <= j < id.len() ==> id[j] != '/' && id[j] != '\\',
    ensures
        artefact_of(y + seq!['/'] + m + seq!['/'] + d + seq!['/'] + id + seq!['/'] + body_name())
            == Some(
            ArtefactModel {
                id,
                shard: Some(y + seq!['/'] + m + seq!['/'] + d),
                body_path: y + seq!['/'] + m + seq!['/'] + d + seq!['/'] + id + seq!['/']
                    + body_name(),
                meta_path: y + seq!['/'] + m + seq!['/'] + d + seq!['/'] + id + seq!['/']
                    + meta_name(),
                subject: Seq::empty(),
            },
        ),
{
    let ym = y + seq!['/'] + m;
    let ymd = ym + seq!['/'] + d;
    let folder = ymd + seq!['/'] + id;
    let path = folder + seq!['/'] + body_name();
    assert forall|j: int| 0 <= j < y.len() implies y[j] != '/' && y[j] != '\\' by {
        assert(is_digit(y[j]));
    }
    assert forall|j: int| 0 <= j < m.len() implies m[j] != '/' && m[j] != '\\' by {
        assert(is_digit(m[j]));
    }
    assert forall|j: int| 0 <= j < d.len() implies d[j] != '/' && d[j] != '\\' by {
        assert(is_digit(d[j]));
    }
    assert forall|j: int| 0 <= j < body_name().len() implies body_name()[j] != '/'
        && body_name()[j] != '\\' by {}
    assert forall|j: int| 0 <= j < path.len() implies path[j] != '\\' by {
        if j < y.len() {
            assert(path[j] == y[j]);
        } else if j < ym.len() {
            assert(path[j] == ym[j]);
        } else if j < ymd.len() {
            assert(path[j] == ymd[j]);
        } else if j < folder.len() {
            assert(path[j] == folder[j]);
        }
    }
    assert(normalize(path) =~= path);
    assert(path.skip(path.len() - 8) =~= body_suffix());
    lemma_split_single(y, '/');
    lemma_split_append(y, m, '/');
    lemma_split_append(ym, d, '/');
    lemma_split_append(ymd, id, '/');
    lemma_split_append(folder, body_name(), '/');
    let segs = split(path, '/');
    assert(segs == seq![y, m, d, id, body_name()]);
    assert(!is_id(y));
    assert(!is_id(m));
    assert(!is_id(d));
    let s1 = segs.drop_first();
    let s2 = s1.drop_first();
    let s3 = s2.drop_first();
    assert(s1 == seq![m, d, id, body_name()]);
    assert(s2 == seq![d, id, body_name()]);
    assert(s3 == seq![id, body_name()]);
    assert(first_id(s3) == Some(id));
    assert(first_id(s2) == first_id(s3));
    assert(first_id(s1) == first_id(s2));
    assert(first_id(segs) == Some(id));
    assert(shard_of(path) == Some(ymd));
    assert(path.take(path.len() - body_name().len()) =~= folder + seq!['/']);
}

/// A body path whose first two folders are a four-digit year and a
/// two-digit month, with the artefact folder right below, is read with the
/// `YYYY/MM` shard.
pub proof fn law_monthly_body_path(y: Seq<char>, m: Seq<char>, id: Seq<char>)
    requires
        y.len() == 4 && all_digits(y),
        m.len() == 2 && all_digits(m),
        is_id(id),
        forall|j: int| 0 <= j < id.len() ==> id[j] != '/' && id[j] != '\\',
    ensures
        artefact_of(y + seq!['/'] + m + seq!['/'] + id + seq!['/'] + body_name()) == Some(
            ArtefactModel {
                id,
                shard: Some(y + seq!['/'] + m),
                body_path: y + seq!['/'] + m + seq!['/'] + id + seq!['/'] + body_name(),
                meta_path: y + seq!['/'] + m + seq!['/'] + id + seq!['/'] + meta_name(),
                subject: Seq::empty(),
            },
        ),
{
    let ym = y + seq!['/'] + m;
    let folder = ym + seq!['/'] + id;
    let path = folder + seq!['/'] + body_name();
    assert forall|j: int| 0 <= j < y.len() implies y[j] != '/' && y[j] != '\\' by {
        assert(is_digit(y[j]));
    }
    assert forall|j: int| 0 <= j < m.len() implies m[j] != '/' && m[j] != '\\' by {
        assert(is_digit(m[j]));
    }
    assert forall|j: int| 0 <= j < body_name().len() implies body_name()[j] != '/'
        && body_name()[j] != '\\' by {}
    assert forall|j: int| 0 <= j < path.len() implies path[j] != '\\' by {
        if j < y.len() {
            assert(path[j] == y[j]);
        } else if j < ym.len() {
            assert(path[j] == ym[j]);
        } else if j < folder.len() {
            assert(path[j] == folder[j]);
        }
    }
    assert(normalize(path) =~= path);
    assert(path.skip(path.len() - 8) =~= body_suffix());
    lemma_split_single(y, '/');
    lemma_split_append(y, m, '/');
    lemma_split_append(ym, id, '/');
    lemma_split_append(folder, body_name(), '/');
    let segs = split(path, '/');
    assert(segs == seq![y, m, id, body_name()]);
    assert(!is_id(y));
    assert(!is_id(m));
    let s1 = segs.drop_first();
    let s2 = s1.drop_first();
    assert(s1 == seq![m, id, body_name()]);
    assert(s2 == seq![id, body_name()]);
    assert(first_id(s2) == Some(id));
    assert(first_id(s1) == first_id(s2));
    assert(first_id(segs) == Some(id));
    // The artefact folder is no two-digit day: it starts with a letter.
    assert(!all_digits(id)) by {
        assert(id.len() > 0);
        assert(!is_digit(id[0]));
    }
    assert(shard_of(path) == Some(ym));
    assert(path.take(path.len() - body_name().len()) =~= folder + seq!['/']);
}

/// Whatever else a path holds, when its first three `/`-pieces are a
/// four-digit year, a two-digit month and a two-digit day, the artefact read
/// from it has the shard `YYYY/MM/DD` made of those pieces.
pub proof fn law_day_shard_from_pieces(path: Seq<char>)
    requires
        artefact_of(path) is Some,
        split(normalize(path), '/').len() >= 3,
        split(normalize(path), '/')[0].len() == 4 && all_digits(split(normalize(path), '/')[0]),
        split(normalize(path), '/')[1].len() == 2 && all_digits(split(normalize(path), '/')[1]),
        split(normalize(path), '/')[2].len() == 2 && all_digits(split(normalize(path), '/')[2]),
    ensures
        artefact_of(path).unwrap().shard == Some(
            split(normalize(path), '/')[0] + seq!['/'] + split(normalize(path), '/')[1] + seq![
                '/',
            ] + split(normalize(path), '/')[2],
        ),
{
}

// ---------------------------------------------------------------------------
// Implementation
// ---------------------------------------------------------------------------

/// `body.md` path -> artefact, or `None` if not a known id folder.
#[must_use]
pub fn artefact_from_body_path(path: &str) -> (r: Option<Artefact>)
    ensures
        opt_artefact_view(r) == artefact_of(path@),
{
    let raw = chars_of(path);
    let name = replace_char_chars(&raw, '\\', '/');
    let suffix = vec!['/', 'b', 'o', 'd', 'y', '.', 'm', 'd'];
    assert(suffix@ == body_suffix());
    if !ends_with(&name, &suffix) {
        return None;
    }
    let segs = split_chars(&name, '/');
    let id = match find_id(&segs) {
        Some(id) => id,
        None => return None,
    };
    let folder = copy_range(&name, 0, name.len() - 7);
    let meta = vec!['m', 'e', 't', 'a', '.', 't', 'o', 'm', 'l'];
    assert(meta@ == meta_name());
    let meta_path = concat(&folder, &meta);
    Some(
        Artefact {
            shard: shard_prefix(&name),
            body_path: string_of(&name),
            meta_path: string_of(&meta_path),
            id: string_of(&id),
            subject: String::new(),
        },
    )
}

/// The first segment that names an artefact folder.
fn find_id(segs: &Vec<Vec<char>>) -> (r: Option<Vec<char>>)
    ensures
        match r {
            Some(v) => first_id(views(segs@)) == Some(v@),
            None => first_id(views(segs@)) is None,
        },
{
    let mut i: usize = 0;
    assert(views(segs@).skip(0) == views(segs@));
    while i < segs.len()
        invariant
            i <= segs.len(),
            first_id(views(segs@)) == first_id(views(segs@).skip(i as int)),
        decreases segs.len() - i,
    {
        let ghost rest = views(segs@).skip(i as int);
        assert(rest[0] == segs@[i as int]@);
        assert(rest.drop_first() == views(segs@).skip(i + 1));
        if is_artefact_id(&segs[i]) {
            return Some(segs[i].clone());
        }
        i += 1;
    }
    None
}

/// Whether a path segment names an artefact folder.
fn is_artefact_id(seg: &Vec<char>) -> (b: bool)
    ensures
        b == is_id(seg@),
{
    let draft = vec!['D', 'R', 'A', 'F', 'T', '-'];
    let post = vec!['P', 'O', 'S', 'T', '-'];
    let tweet = vec!['T', 'W', 'E', 'E', 'T', '-'];
    let xpost = vec!['X', 'P', 'O', 'S', 'T', '-'];
    assert(draft@ == draft_prefix());
    assert(post@ == post_prefix());
    assert(tweet@ == tweet_prefix());
    assert(xpost@ == xpost_prefix());
    starts_with(seg, &draft) || starts_with(seg, &post) || starts_with(seg, &tweet)
        || starts_with(seg, &xpost)
}

/// The `YYYY/MM` or `YYYY/MM/DD` shard that `path` lies in, if any.
fn shard_prefix(path: &Vec<char>) -> (r: Option<String>)
    ensures
        opt_view(r) == shard_of(path@),
{
    let parts = split_chars(path, '/');
    if parts.len() < 2 {
        return None;
    }
    let year = &parts[0];
    let month = &parts[1];
    assert(year@ == split(path@, '/')[0]);
    assert(month@ == split(path@, '/')[1]);
    if year.len() != 4 || !is_all_digits(year) || month.len() != 2 || !is_all_digits(month) {
        return None;
    }
    let slash = vec!['/'];
    let year_month = concat(&concat(year, &slash), month);
    if parts.len() >= 3 {
        let day = &parts[2];
        assert(day@ == split(path@, '/')[2]);
        if day.len() == 2 && is_all_digits(day) {
            let full = concat(&concat(&year_month, &slash), day);
            return Some(string_of(&full));
        }
    }
    Some(string_of(&year_month))
}

/// Best-effort `subject = "…"` from pack `meta.toml`.
#[must_use]
pub fn subject_from_meta(meta: &str) -> (r: String)
    ensures
        r@ == subject_of(meta@),
{
    let text = chars_of(meta);
    let lines = split_chars(&text, '\n');
    let key = vec!['s', 'u', 'b', 'j', 'e', 'c', 't', ' ', '='];
    assert(key@ == subject_key());
    let mut i: usize = 0;
    assert(views(lines@).skip(0) == views(lines@));
    while i < lines.len()
        invariant
            i <= lines.len(),
            key@ == subject_key(),
            views(lines@) == split(meta@, '\n'),
            first_subject(views(lines@)) == first_subject(views(lines@).skip(i as int)),
        decreases lines.len() - i,
    {
        let ghost rest_lines = views(lines@).skip(i as int);
        assert(rest_lines[0] == lines@[i as int]@);
        assert(rest_lines.drop_first() == views(lines@).skip(i + 1));
        if let Some(found) = quoted_subject(&lines[i], &key) {
            assert(first_subject(rest_lines) == Some(found@));
            return string_of(&found);
        }
        i += 1;
    }
    String::new()
}

/// The subject that one line gives, if any.
fn quoted_subject(line: &Vec<char>, key: &Vec<char>) -> (r: Option<Vec<char>>)
    requires
        key@ == subject_key(),
    ensures
        match r {
            Some(v) => line_subject(line@) == Some(v@),
            None => line_subject(line@) is None,
        },
{
    let t = trim_chars(line);
    if !starts_with(&t, key) {
        return None;
    }
    let after = copy_range(&t, key.len(), t.len());
    assert(after@ == t@.skip(subject_key().len() as int));
    let rest = trim_chars(&after);
    let n = rest.len();
    if n >= 2 && rest[0] == '"' && rest[n - 1] == '"' {
        let inner = copy_range(&rest, 1, n - 1);
        let once = replace_pair_chars(&inner, '\\', '"', '"');
        let twice = replace_pair_chars(&once, '\\', '\\', '\\');
        Some(twice)
    } else {
        None
    }
}

} // verus!
