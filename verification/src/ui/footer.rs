//! The footer line and the overlay title: what text shows and in which tone.

use vstd::prelude::*;

use crate::text::{chars_of, concat, string_of};
use crate::ui::model::InputMode;
use crate::ui::{
    footer_keys, footer_keys_text, push_segment, segment_views, view_label, view_label_text,
    Segment, Tone, ViewMode,
};

verus! {

// ---------------------------------------------------------------------------
// Decimal numbers
// ---------------------------------------------------------------------------

/// The character of a decimal digit.
pub open spec fn digit_char(d: nat) -> char {
    seq!['0', '1', '2', '3', '4', '5', '6', '7', '8', '9'][d as int]
}

/// `n` written in decimal, without leading zeros.
pub open spec fn decimal(n: nat) -> Seq<char>
    decreases n,
{
    if n < 10 {
        seq![digit_char(n)]
    } else {
        decimal(n / 10).push(digit_char(n % 10))
    }
}

/// `n` written in decimal, as `format!("{n}")` writes it.
pub fn decimal_chars(n: u64) -> (r: Vec<char>)
    ensures
        r@ == decimal(n as nat),
    decreases n,
{
    let digits = ['0', '1', '2', '3', '4', '5', '6', '7', '8', '9'];
    assert(digits@ == seq!['0', '1', '2', '3', '4', '5', '6', '7', '8', '9']);
    if n < 10 {
        let d: usize = n as usize;
        vec![digits[d]]
    } else {
        let mut r = decimal_chars(n / 10);
        let d: usize = (n % 10) as usize;
        r.push(digits[d]);
        r
    }
}

// ---------------------------------------------------------------------------
// Footer
// ---------------------------------------------------------------------------

/// What the footer reports.
pub struct FooterInput {
    /// The product's `/health` answered: the browser is in local mode.
    pub product_up: bool,
    /// The pane on screen.
    pub view: ViewMode,
    /// Error text of the last action, empty when there is none.
    pub notice: String,
    /// The selected id was just copied.
    pub copied: bool,
    /// A request is in flight.
    pub pending: bool,
    /// Ticks of the event loop, which turn the spinner.
    pub ticks: u64,
    /// GitHub API calls left, once known.
    pub rate_remaining: Option<u64>,
    /// The id that `y` would copy, empty when nothing is selected.
    pub id: String,
    /// Rows matching the filter and rows in all, when the pane has a table.
    pub match_count: Option<(usize, usize)>,
    /// A filter is typed in.
    pub filter_active: bool,
}

/// `" · "`, the separator between footer items.
pub open spec fn sep_text() -> Seq<char> {
    " · "@
}

/// `"local"` when the product is up, else `"public"`.
pub open spec fn mode_text(product_up: bool) -> Seq<char> {
    if product_up {
        "local"@
    } else {
        "public"@
    }
}

/// The spinner frame for `ticks`: `usize::try_from(ticks)` modulo four, or
/// the first frame when `ticks` does not fit a `usize`.
pub open spec fn spinner_index(ticks: u64) -> int {
    if ticks <= usize::MAX {
        (ticks % 4) as int
    } else {
        0
    }
}

/// The spinner frames.
pub open spec fn spinner_frame(i: int) -> Seq<char> {
    if i == 0 {
        "|"@
    } else if i == 1 {
        "/"@
    } else if i == 2 {
        "-"@
    } else {
        "\\"@
    }
}

/// The status item: a notice wins, then "copied", then the spinner while a
/// request is in flight; otherwise nothing.
pub open spec fn status_of(f: FooterInput) -> (Seq<char>, Tone) {
    if f.notice@.len() > 0 {
        (f.notice@, Tone::Alert)
    } else if f.copied {
        ("copied"@, Tone::Done)
    } else if f.pending {
        (spinner_frame(spinner_index(f.ticks)) + " loading"@, Tone::Busy)
    } else {
        (Seq::empty(), Tone::Muted)
    }
}

/// The leading items: pad, mode and pane.
pub open spec fn head_part(f: FooterInput) -> Seq<(Seq<char>, Tone)> {
    seq![
        (" "@, Tone::Label),
        (mode_text(f.product_up), Tone::Strong),
        (sep_text(), Tone::Muted),
        (view_label_text(f.view), Tone::Strong),
    ]
}

/// The API budget, shown on the publications pane once known.
pub open spec fn rate_part(f: FooterInput) -> Seq<(Seq<char>, Tone)> {
    if f.view == ViewMode::Publications && f.rate_remaining is Some {
        seq![(" · rate "@ + decimal(f.rate_remaining.unwrap() as nat), Tone::Muted)]
    } else {
        Seq::empty()
    }
}

/// The status, when there is one.
pub open spec fn status_part(f: FooterInput) -> Seq<(Seq<char>, Tone)> {
    if status_of(f).0.len() > 0 {
        seq![(sep_text(), Tone::Muted), status_of(f)]
    } else {
        Seq::empty()
    }
}

/// The selected id, when there is one.
pub open spec fn id_part(f: FooterInput) -> Seq<(Seq<char>, Tone)> {
    if f.id@.len() > 0 {
        seq![(sep_text(), Tone::Muted), (f.id@, Tone::Strong)]
    } else {
        Seq::empty()
    }
}

/// `matching/total` while a filter is typed in.
pub open spec fn count_part(f: FooterInput) -> Seq<(Seq<char>, Tone)> {
    if f.match_count is Some && f.filter_active {
        seq![
            (sep_text(), Tone::Muted),
            (
                decimal(f.match_count.unwrap().0 as nat) + "/"@ + decimal(
                    f.match_count.unwrap().1 as nat,
                ),
                Tone::Muted,
            ),
        ]
    } else {
        Seq::empty()
    }
}

/// The closing key hints.
pub open spec fn keys_part(f: FooterInput) -> Seq<(Seq<char>, Tone)> {
    seq![(sep_text(), Tone::Muted), (footer_keys_text(f.view), Tone::Muted)]
}

/// The footer items, in order.
pub open spec fn footer_spec(f: FooterInput) -> Seq<(Seq<char>, Tone)> {
    head_part(f) + rate_part(f) + status_part(f) + id_part(f) + count_part(f) + keys_part(f)
}

/// `n` in decimal, as a `String`.
fn decimal_string(n: usize) -> (r: String)
    ensures
        r@ == decimal(n as nat),
{
    let wide: u64 = n as u64;
    string_of(&decimal_chars(wide))
}

/// The status item of the footer.
fn status(f: &FooterInput) -> (r: (String, Tone))
    ensures
        (r.0@, r.1) == status_of(*f),
{
    if f.notice.as_str().unicode_len() > 0 {
        (f.notice.clone(), Tone::Alert)
    } else if f.copied {
        ("copied".to_owned(), Tone::Done)
    } else if f.pending {
        let i: u64 = if f.ticks as u128 <= usize::MAX as u128 {
            f.ticks % 4
        } else {
            0
        };
        let frame = if i == 0 {
            "|"
        } else if i == 1 {
            "/"
        } else if i == 2 {
            "-"
        } else {
            "\\"
        };
        let text = concat(&chars_of(frame), &chars_of(" loading"));
        (string_of(&text), Tone::Busy)
    } else {
        (String::new(), Tone::Muted)
    }
}

/// The footer opens with the pad, the mode and the pane, and closes with
/// the key hints of the pane.
pub proof fn law_footer_frame(f: FooterInput)
    ensures
        footer_spec(f).len() >= 6,
        footer_spec(f)[0] == (" "@, Tone::Label),
        footer_spec(f)[1] == (mode_text(f.product_up), Tone::Strong),
        footer_spec(f)[3] == (view_label_text(f.view), Tone::Strong),
        footer_spec(f).last() == (footer_keys_text(f.view), Tone::Muted),
        footer_spec(f)[footer_spec(f).len() - 2] == (sep_text(), Tone::Muted),
{
}

/// Whenever an id is selected, the footer shows it, after a separator,
/// whatever the status; with a notice, copied flag or request in flight the
/// status comes before it.
pub proof fn law_footer_shows_id(f: FooterInput)
    requires
        f.id@.len() > 0,
    ensures
        exists|k: int|
            #![trigger footer_spec(f)[k]]
            0 <= k && k + 1 < footer_spec(f).len() && footer_spec(f)[k] == (sep_text(), Tone::Muted)
                && footer_spec(f)[k + 1] == (f.id@, Tone::Strong),
        status_of(f).0.len() > 0 ==> footer_spec(f)[(head_part(f).len() + rate_part(f).len() + 1) as int]
            == status_of(f),
{
    let k: int = (head_part(f).len() + rate_part(f).len() + status_part(f).len()) as int;
    assert(footer_spec(f)[k] == (sep_text(), Tone::Muted));
    assert(footer_spec(f)[k + 1] == (f.id@, Tone::Strong));
}

/// The filter count `matching/total` shows exactly while a filter is typed
/// into a pane that counts rows.
pub proof fn law_footer_count(f: FooterInput, n: usize, t: usize)
    requires
        f.match_count == Some((n, t)),
        f.filter_active,
    ensures
        footer_spec(f)[footer_spec(f).len() - 3] == (
            decimal(n as nat) + "/"@ + decimal(t as nat),
            Tone::Muted,
        ),
{
}


fn push_head(out: &mut Vec<Segment>, f: &FooterInput)
    ensures
        segment_views(final(out)@) == segment_views(old(out)@) + head_part(*f),
{
    let ghost start = segment_views(out@);
    let mode = if f.product_up {
        "local"
    } else {
        "public"
    };
    push_segment(out, " ".to_owned(), Tone::Label);
    push_segment(out, mode.to_owned(), Tone::Strong);
    push_segment(out, " · ".to_owned(), Tone::Muted);
    push_segment(out, view_label(f.view).to_owned(), Tone::Strong);
    assert(segment_views(out@) == start + head_part(*f));
}

fn push_rate(out: &mut Vec<Segment>, f: &FooterInput)
    ensures
        segment_views(final(out)@) == segment_views(old(out)@) + rate_part(*f),
{
    let ghost start = segment_views(out@);
    if f.view == ViewMode::Publications {
        if let Some(rate) = f.rate_remaining {
            let text = concat(&chars_of(" · rate "), &decimal_chars(rate));
            push_segment(out, string_of(&text), Tone::Muted);
        }
    }
    assert(segment_views(out@) == start + rate_part(*f));
}

fn push_status(out: &mut Vec<Segment>, f: &FooterInput)
    ensures
        segment_views(final(out)@) == segment_views(old(out)@) + status_part(*f),
{
    let ghost start = segment_views(out@);
    let (status_text, status_tone) = status(f);
    if status_text.as_str().unicode_len() > 0 {
        push_segment(out, " · ".to_owned(), Tone::Muted);
        push_segment(out, status_text, status_tone);
    }
    assert(segment_views(out@) == start + status_part(*f));
}

fn push_id(out: &mut Vec<Segment>, f: &FooterInput)
    ensures
        segment_views(final(out)@) == segment_views(old(out)@) + id_part(*f),
{
    let ghost start = segment_views(out@);
    if f.id.as_str().unicode_len() > 0 {
        push_segment(out, " · ".to_owned(), Tone::Muted);
        push_segment(out, f.id.clone(), Tone::Strong);
    }
    assert(segment_views(out@) == start + id_part(*f));
}

fn push_count(out: &mut Vec<Segment>, f: &FooterInput)
    ensures
        segment_views(final(out)@) == segment_views(old(out)@) + count_part(*f),
{
    let ghost start = segment_views(out@);
    if let Some((n, total)) = f.match_count {
        if f.filter_active {
            let count = concat(
                &concat(&chars_of(&decimal_string(n)), &chars_of("/")),
                &chars_of(&decimal_string(total)),
            );
            push_segment(out, " · ".to_owned(), Tone::Muted);
            push_segment(out, string_of(&count), Tone::Muted);
        }
    }
    assert(segment_views(out@) == start + count_part(*f));
}

fn push_keys(out: &mut Vec<Segment>, f: &FooterInput)
    ensures
        segment_views(final(out)@) == segment_views(old(out)@) + keys_part(*f),
{
    let ghost start = segment_views(out@);
    push_segment(out, " · ".to_owned(), Tone::Muted);
    push_segment(out, footer_keys(f.view).to_owned(), Tone::Muted);
    assert(segment_views(out@) == start + keys_part(*f));
}

/// The footer line: mode, pane, API budget on the publications pane, status,
/// selected id, filter count, key hints.
pub fn footer_segments(f: &FooterInput) -> (r: Vec<Segment>)
    ensures
        segment_views(r@) == footer_spec(*f),
{
    let mut out: Vec<Segment> = Vec::new();
    assert(segment_views(out@) == Seq::<(Seq<char>, Tone)>::empty());
    push_head(&mut out, f);
    push_rate(&mut out, f);
    push_status(&mut out, f);
    push_id(&mut out, f);
    push_count(&mut out, f);
    push_keys(&mut out, f);
    assert(segment_views(out@) == footer_spec(*f));
    out
}

// ---------------------------------------------------------------------------
// Overlay
// ---------------------------------------------------------------------------

/// The title of the `/` or `:` overlay.
pub open spec fn overlay_title_spec(input: InputMode, match_count: Option<(usize, usize)>) -> Seq<
    char,
> {
    match input {
        InputMode::Filter => match match_count {
            Some((n, t)) => "filter "@ + decimal(n as nat) + "/"@ + decimal(t as nat),
            None => "filter"@,
        },
        InputMode::Command => "command"@,
        InputMode::Normal => Seq::empty(),
    }
}

/// The title of the `/` or `:` overlay: the filter shows how many rows match
/// out of how many.
pub fn overlay_title(input: InputMode, match_count: Option<(usize, usize)>) -> (r: String)
    ensures
        r@ == overlay_title_spec(input, match_count),
{
    match input {
        InputMode::Filter => match match_count {
            Some((n, t)) => {
                let text = concat(
                    &concat(
                        &concat(&chars_of("filter "), &chars_of(&decimal_string(n))),
                        &chars_of("/"),
                    ),
                    &chars_of(&decimal_string(t)),
                );
                string_of(&text)
            },
            None => "filter".to_owned(),
        },
        InputMode::Command => "command".to_owned(),
        InputMode::Normal => String::new(),
    }
}

/// The column of the text cursor in the overlay: the input column past the
/// box's left edge, kept on the box's last column, both sums saturating at
/// `u16::MAX`.
pub open spec fn cursor_x_spec(left: u16, width: u16, col: u16) -> int {
    let x = if left + col > u16::MAX {
        u16::MAX as int
    } else {
        left + col
    };
    let last = if width == 0 {
        0
    } else {
        width - 1
    };
    let max_x = if left + last > u16::MAX {
        u16::MAX as int
    } else {
        left + last
    };
    if x < max_x {
        x
    } else {
        max_x
    }
}

/// The column of the text cursor in the overlay box that starts at `left`
/// and is `width` wide.
pub fn cursor_x(left: u16, width: u16, col: u16) -> (r: u16)
    ensures
        r == cursor_x_spec(left, width, col),
{
    let x = left.saturating_add(col);
    let max_x = left.saturating_add(width.saturating_sub(1));
    if x < max_x {
        x
    } else {
        max_x
    }
}

} // verus!
