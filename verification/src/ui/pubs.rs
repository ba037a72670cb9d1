//! What the publications browser shows: kind chips, table rows and the
//! `body.md` preview.

use vstd::prelude::*;

use crate::artefact::{Artefact, ArtefactModel};
use crate::text::{chars_of, copy_range, split, split_chars, string_of};
use crate::ui::model::{PubsBranch, PubsPane, PubsRemote};
use crate::ui::{push_segment, segment_views, Segment, Tone};

verus! {

// ---------------------------------------------------------------------------
// Chips
// ---------------------------------------------------------------------------

/// The repository chips, in order: label and whether it is the browsed one.
pub open spec fn remote_chips_spec(current: PubsRemote) -> Seq<(Seq<char>, bool)> {
    seq![("o:org"@, current == PubsRemote::Org), ("f:fork"@, current == PubsRemote::Fork)]
}

/// The repository chips, in order: label and whether it is the browsed one.
pub fn remote_chips(current: PubsRemote) -> (r: Vec<(&'static str, bool)>)
    ensures
        r@.len() == 2,
        forall|i: int|
            0 <= i < 2 ==> (#[trigger] r@[i]).0@ == remote_chips_spec(current)[i].0 && r@[i].1
                == remote_chips_spec(current)[i].1,
{
    vec![("o:org", current == PubsRemote::Org), ("f:fork", current == PubsRemote::Fork)]
}

/// The branches, in the order of their keys `1`-`4`.
pub open spec fn branches_spec() -> Seq<PubsBranch> {
    seq![PubsBranch::Drafts, PubsBranch::Posts, PubsBranch::DraftsTweet, PubsBranch::Tweets]
}

/// The branch chips, in key order: label and whether it is the browsed one.
pub open spec fn branch_chips_spec(current: PubsBranch) -> Seq<(Seq<char>, bool)> {
    seq![
        ("1:drafts"@, current == PubsBranch::Drafts),
        ("2:posts"@, current == PubsBranch::Posts),
        ("3:drafts_tweet"@, current == PubsBranch::DraftsTweet),
        ("4:tweets"@, current == PubsBranch::Tweets),
    ]
}

/// The branch chips, in key order: label and whether it is the browsed one.
pub fn branch_chips(current: PubsBranch) -> (r: Vec<(&'static str, bool)>)
    ensures
        r@.len() == 4,
        forall|i: int|
            0 <= i < 4 ==> (#[trigger] r@[i]).0@ == branch_chips_spec(current)[i].0 && r@[i].1
                == branch_chips_spec(current)[i].1,
{
    vec![
        ("1:drafts", current == PubsBranch::Drafts),
        ("2:posts", current == PubsBranch::Posts),
        ("3:drafts_tweet", current == PubsBranch::DraftsTweet),
        ("4:tweets", current == PubsBranch::Tweets),
    ]
}

// ---------------------------------------------------------------------------
// Table
// ---------------------------------------------------------------------------

/// `"-"`, shown in an empty cell.
pub open spec fn dash() -> Seq<char> {
    "-"@
}

/// The cells of an artefact's row: id, shard (or `-`) and subject (or `-`
/// until it is loaded).
pub open spec fn row_cells_spec(a: ArtefactModel) -> (Seq<char>, Seq<char>, Seq<char>) {
    (
        a.id,
        match a.shard {
            Some(s) => s,
            None => dash(),
        },
        if a.subject.len() == 0 {
            dash()
        } else {
            a.subject
        },
    )
}

/// Every row shows the artefact's id; the shard cell is the shard whenever
/// there is one, `-` only when there is none, whatever the subject; the
/// subject cell is the subject once loaded, `-` before.
pub proof fn law_row_cells(a: ArtefactModel, b: ArtefactModel)
    ensures
        row_cells_spec(a).0 == a.id,
        a.shard matches Some(s) ==> row_cells_spec(a).1 == s,
        a.shard is None ==> row_cells_spec(a).1 == "-"@,
        a.shard == b.shard ==> row_cells_spec(a).1 == row_cells_spec(b).1,
        a.subject.len() > 0 ==> row_cells_spec(a).2 == a.subject,
        a.subject.len() == 0 ==> row_cells_spec(a).2 == "-"@,
{
}

/// The cells of an artefact's row in the table.
pub fn row_cells(a: &Artefact) -> (r: (String, String, String))
    ensures
        (r.0@, r.1@, r.2@) == row_cells_spec(a@),
{
    let shard = match &a.shard {
        Some(s) => s.clone(),
        None => "-".to_owned(),
    };
    let subject = if a.subject.as_str().unicode_len() == 0 {
        "-".to_owned()
    } else {
        a.subject.clone()
    };
    (a.id.clone(), shard, subject)
}

/// Rows the scroll bar spans: the row count, at least one.
pub fn scroll_length(rows: usize) -> (r: usize)
    ensures
        r == (if rows == 0 {
            1
        } else {
            rows
        }),
{
    if rows == 0 {
        1
    } else {
        rows
    }
}

// ---------------------------------------------------------------------------
// Preview
// ---------------------------------------------------------------------------

/// A line without a final `\r`.
pub open spec fn strip_cr(l: Seq<char>) -> Seq<char> {
    if l.len() > 0 && l.last() == '\r' {
        l.drop_last()
    } else {
        l
    }
}

/// The lines of `s` as `str::lines` gives them: the pieces between `\n`,
/// each without the `\r` of a `\r\n` ending; a final line ending adds no
/// empty line, and the empty text has no lines.
pub open spec fn lines_of(s: Seq<char>) -> Seq<Seq<char>> {
    let p = split(s, '\n');
    let n = if p.last().len() == 0 {
        p.len() - 1
    } else {
        p.len() as int
    };
    Seq::new(
        n as nat,
        |i: int|
            if i < p.len() - 1 {
                strip_cr(p[i])
            } else {
                p[i]
            },
    )
}

/// The lines of `s`, as `str::lines` gives them.
pub fn lines(s: &str) -> (r: Vec<String>)
    ensures
        r@.len() == lines_of(s@).len(),
        forall|i: int| 0 <= i < r@.len() ==> (#[trigger] r@[i])@ == lines_of(s@)[i],
{
    let text = chars_of(s);
    let pieces = split_chars(&text, '\n');
    proof {
        crate::text::lemma_split_nonempty(s@, '\n');
    }
    let count = if pieces[pieces.len() - 1].len() == 0 {
        pieces.len() - 1
    } else {
        pieces.len()
    };
    let ghost spec_lines = lines_of(s@);
    let mut out: Vec<String> = Vec::new();
    for i in 0..count
        invariant
            count <= pieces@.len(),
            count == spec_lines.len(),
            crate::text::views(pieces@) == split(s@, '\n'),
            spec_lines == lines_of(s@),
            out@.len() == i,
            forall|k: int| 0 <= k < i ==> (#[trigger] out@[k])@ == spec_lines[k],
    {
        let piece = &pieces[i];
        assert(piece@ == split(s@, '\n')[i as int]);
        let n = piece.len();
        if i + 1 < pieces.len() && n > 0 && piece[n - 1] == '\r' {
            let line = copy_range(piece, 0, n - 1);
            assert(line@ == piece@.drop_last());
            out.push(string_of(&line));
        } else {
            out.push(string_of(piece));
        }
    }
    out
}

/// The hint shown before a body is loaded.
pub open spec fn preview_hint() -> Seq<char> {
    "Enter loads body  ·  wait 400ms after j/k  ·  y yank id"@
}

/// The id shown at the head of the preview: the selected artefact's, or
/// `(none)`.
pub open spec fn preview_id_spec(sel: Option<ArtefactModel>) -> Seq<char> {
    match sel {
        Some(a) => a.id,
        None => "(none)"@,
    }
}

/// The preview, line by line: the id; the fetch error, if any; a blank
/// line; then the body's lines, or the hint while no body is loaded.
pub open spec fn preview_spec(id: Seq<char>, error: Seq<char>, body: Seq<char>) -> Seq<
    Seq<(Seq<char>, Tone)>,
> {
    seq![seq![("id  "@, Tone::Muted), (id, Tone::Strong)]] + (if error.len() > 0 {
        seq![seq![(error, Tone::Alert)]]
    } else {
        Seq::empty()
    }) + seq![seq![(Seq::<char>::empty(), Tone::Plain)]] + (if body.len() == 0 {
        seq![seq![(preview_hint(), Tone::Muted)]]
    } else {
        lines_of(body).map_values(|l: Seq<char>| seq![(l, Tone::Plain)])
    })
}

/// A non-empty text has at least one line.
proof fn lemma_lines_nonempty(s: Seq<char>)
    requires
        s.len() > 0,
    ensures
        lines_of(s).len() >= 1,
{
    crate::text::lemma_split_nonempty(s.drop_last(), '\n');
    crate::text::lemma_split_nonempty(s, '\n');
}

/// The preview starts with the id, then the fetch error when there is one,
/// then a blank line. After that come exactly the body's lines, one plain
/// line each, whenever a body is loaded, whatever the error; the hint shows
/// alone, and only, while the body is empty.
pub proof fn law_preview_layout(id: Seq<char>, error: Seq<char>, body: Seq<char>)
    ensures
        ({
            let p = preview_spec(id, error, body);
            let base: int = if error.len() > 0 {
                3
            } else {
                2
            };
            &&& p[0] == seq![("id  "@, Tone::Muted), (id, Tone::Strong)]
            &&& error.len() > 0 ==> p[1] == seq![(error, Tone::Alert)]
            &&& p[base - 1] == seq![(Seq::<char>::empty(), Tone::Plain)]
            &&& body.len() > 0 ==> {
                &&& lines_of(body).len() >= 1
                &&& p.len() == base + lines_of(body).len()
                &&& forall|i: int|
                    0 <= i < lines_of(body).len() ==> p[base + i] == seq![
                        (#[trigger] lines_of(body)[i], Tone::Plain),
                    ]
            }
            &&& body.len() == 0 ==> p.len() == base + 1 && p[base] == seq![
                (preview_hint(), Tone::Muted),
            ]
        }),
{
    if body.len() > 0 {
        lemma_lines_nonempty(body);
    }
}

/// The views of a list of lines.
pub open spec fn line_views(v: Seq<Vec<Segment>>) -> Seq<Seq<(Seq<char>, Tone)>> {
    v.map_values(|l: Vec<Segment>| segment_views(l@))
}

fn one_segment(text: String, tone: Tone) -> (r: Vec<Segment>)
    ensures
        segment_views(r@) == seq![(text@, tone)],
{
    let mut r: Vec<Segment> = Vec::new();
    assert(segment_views(r@) == Seq::<(Seq<char>, Tone)>::empty());
    push_segment(&mut r, text, tone);
    r
}

fn push_line(out: &mut Vec<Vec<Segment>>, line: Vec<Segment>)
    ensures
        line_views(final(out)@) == line_views(old(out)@).push(segment_views(line@)),
{
    let ghost before = line_views(out@);
    let ghost lv = segment_views(line@);
    out.push(line);
    assert(line_views(out@) == before.push(lv));
}

/// The id at the head of the preview.
pub fn preview_id(pane: &PubsPane) -> (r: String)
    ensures
        r@ == preview_id_spec(pane.selection()),
{
    match pane.selected_artefact() {
        Some(a) => a.id.clone(),
        None => "(none)".to_owned(),
    }
}

/// The lines of the preview pane.
pub fn preview_lines(pane: &PubsPane) -> (r: Vec<Vec<Segment>>)
    ensures
        line_views(r@) == preview_spec(preview_id_spec(pane.selection()), pane.error@, pane.body@),
{
    let id = preview_id(pane);
    let mut out: Vec<Vec<Segment>> = Vec::new();
    let mut first: Vec<Segment> = Vec::new();
    assert(segment_views(first@) == Seq::<(Seq<char>, Tone)>::empty());
    push_segment(&mut first, "id  ".to_owned(), Tone::Muted);
    push_segment(&mut first, id, Tone::Strong);
    let ghost first_view = segment_views(first@);
    assert(first_view == seq![("id  "@, Tone::Muted), (preview_id_spec(pane.selection()), Tone::Strong)]);
    assert(line_views(out@) == Seq::<Seq<(Seq<char>, Tone)>>::empty());
    push_line(&mut out, first);
    let ghost head = line_views(out@);
    if pane.error.as_str().unicode_len() > 0 {
        push_line(&mut out, one_segment(pane.error.clone(), Tone::Alert));
    }
    push_line(&mut out, one_segment(String::new(), Tone::Plain));
    let ghost upper = line_views(out@);
    let ghost err_part = if pane.error@.len() > 0 {
        seq![seq![(pane.error@, Tone::Alert)]]
    } else {
        Seq::<Seq<(Seq<char>, Tone)>>::empty()
    };
    assert(head =~~= seq![first_view]);
    assert(upper =~~= seq![first_view] + err_part + seq![seq![(Seq::<char>::empty(), Tone::Plain)]]);
    if pane.body.as_str().unicode_len() == 0 {
        push_line(
            &mut out,
            one_segment("Enter loads body  ·  wait 400ms after j/k  ·  y yank id".to_owned(), Tone::Muted),
        );
    } else {
        let body = lines(pane.body.as_str());
        let ghost bl = lines_of(pane.body@);
        for i in 0..body.len()
            invariant
                body@.len() == bl.len(),
                bl == lines_of(pane.body@),
                forall|k: int| 0 <= k < body@.len() ==> (#[trigger] body@[k])@ == bl[k],
                line_views(out@) == upper + bl.take(i as int).map_values(
                    |l: Seq<char>| seq![(l, Tone::Plain)],
                ),
        {
            push_line(&mut out, one_segment(body[i].clone(), Tone::Plain));
            assert(bl.take(i + 1).map_values(|l: Seq<char>| seq![(l, Tone::Plain)]) == bl.take(
                i as int,
            ).map_values(|l: Seq<char>| seq![(l, Tone::Plain)]).push(seq![(bl[i as int], Tone::Plain)]));
        }
        assert(bl.take(body.len() as int) == bl);
    }
    assert(line_views(out@) == preview_spec(preview_id_spec(pane.selection()), pane.error@, pane.body@));
    out
}

} // verus!
