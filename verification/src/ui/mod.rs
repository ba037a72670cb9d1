//! Chrome of the browser: which pane shows, its tabs, keys and footer.

use vstd::prelude::*;

pub mod footer;
pub mod model;
pub mod pubs;

verus! {

/// Which pane the TUI is showing.
#[derive(Debug, Clone, Copy, PartialEq, Eq, Structural)]
pub enum ViewMode {
    /// Live health / routes / webhook pane.
    Live,
    /// Slash-command reference pane.
    Commands,
    /// Public GitHub publications browser.
    Publications,
    /// Localhost `/list` table.
    SavedList,
    /// Keys and mouse help.
    Help,
}

impl Default for ViewMode {
    fn default() -> (r: Self)
        ensures
            r == ViewMode::Live,
    {
        ViewMode::Live
    }
}

/// The key hints the footer shows for `view`.
pub open spec fn footer_keys_text(view: ViewMode) -> Seq<char> {
    match view {
        ViewMode::Live => "d c p s  ?  :  /  q"@,
        ViewMode::Commands => "j k  Enter=/list  y  /  q"@,
        ViewMode::Publications => "o f  1-4  Tab  j k  y  /  :  q"@,
        ViewMode::SavedList => "j k  y  r  /  q"@,
        ViewMode::Help => "Esc back  q quit"@,
    }
}

/// Key hints for the footer of `view`.
pub fn footer_keys(view: ViewMode) -> (r: &'static str)
    ensures
        r@ == footer_keys_text(view),
{
    match view {
        ViewMode::Live => "d c p s  ?  :  /  q",
        ViewMode::Commands => "j k  Enter=/list  y  /  q",
        ViewMode::Publications => "o f  1-4  Tab  j k  y  /  :  q",
        ViewMode::SavedList => "j k  y  r  /  q",
        ViewMode::Help => "Esc back  q quit",
    }
}

/// The name of `view` in the footer.
pub open spec fn view_label_text(view: ViewMode) -> Seq<char> {
    match view {
        ViewMode::Live => "live"@,
        ViewMode::Commands => "commands"@,
        ViewMode::Publications => "pubs"@,
        ViewMode::SavedList => "list"@,
        ViewMode::Help => "help"@,
    }
}

/// The name of `view` in the footer.
pub fn view_label(view: ViewMode) -> (r: &'static str)
    ensures
        r@ == view_label_text(view),
{
    match view {
        ViewMode::Live => "live",
        ViewMode::Commands => "commands",
        ViewMode::Publications => "pubs",
        ViewMode::SavedList => "list",
        ViewMode::Help => "help",
    }
}

/// The tabs of the title bar, in order: label and the pane it opens.
pub open spec fn tabs_spec() -> Seq<(Seq<char>, ViewMode)> {
    seq![
        ("d:live"@, ViewMode::Live),
        ("c:commands"@, ViewMode::Commands),
        ("p:pubs"@, ViewMode::Publications),
        ("s:list"@, ViewMode::SavedList),
    ]
}

/// The tabs of the title bar, in order: label and the pane it opens. The
/// help pane has no tab.
pub fn tabs() -> (r: Vec<(&'static str, ViewMode)>)
    ensures
        r@.len() == tabs_spec().len(),
        forall|i: int|
            0 <= i < r@.len() ==> (#[trigger] r@[i]).0@ == tabs_spec()[i].0 && r@[i].1
                == tabs_spec()[i].1,
{
    vec![
        ("d:live", ViewMode::Live),
        ("c:commands", ViewMode::Commands),
        ("p:pubs", ViewMode::Publications),
        ("s:list", ViewMode::SavedList),
    ]
}

/// `a + b`, held at `u16::MAX`.
pub open spec fn sat_add(a: u16, b: u16) -> int {
    if a + b > u16::MAX {
        u16::MAX as int
    } else {
        a + b
    }
}

/// Whether the cell at `(column, row)` lies in the area whose top left is
/// `(x, y)` and which is `width` by `height`; the far edges saturate at
/// `u16::MAX`.
pub fn contains(x: u16, y: u16, width: u16, height: u16, column: u16, row: u16) -> (r: bool)
    ensures
        r == (x <= column && column < sat_add(x, width) && y <= row && row < sat_add(
            y,
            height,
        )),
{
    column >= x && column < x.saturating_add(width) && row >= y && row < y.saturating_add(height)
}

/// Rows that the `/` or `:` overlay takes: three when it is open, none
/// otherwise.
pub fn overlay_height(open: bool) -> (r: u16)
    ensures
        r == (if open { 3u16 } else { 0u16 }),
{
    if open {
        3
    } else {
        0
    }
}

/// How a piece of chrome text is shown.
#[derive(Debug, Clone, Copy, PartialEq, Eq, Structural)]
pub enum Tone {
    /// The leading pad of the footer.
    Label,
    /// Body text as it is.
    Plain,
    /// Accent colour, bold: mode, pane and selected id.
    Strong,
    /// Dimmed: separators, counters, key hints.
    Muted,
    /// A notice (error) from the last action.
    Alert,
    /// The selected id was copied.
    Done,
    /// A request is in flight.
    Busy,
}

/// A piece of chrome text and its tone.
pub struct Segment {
    pub text: String,
    pub tone: Tone,
}

impl View for Segment {
    type V = (Seq<char>, Tone);

    open spec fn view(&self) -> (Seq<char>, Tone) {
        (self.text@, self.tone)
    }
}

/// The views of a list of segments.
pub open spec fn segment_views(v: Seq<Segment>) -> Seq<(Seq<char>, Tone)> {
    v.map_values(|s: Segment| s@)
}

pub fn segment(text: String, tone: Tone) -> (r: Segment)
    ensures
        r@ == (text@, tone),
{
    Segment { text, tone }
}

/// Appends a segment.
pub fn push_segment(out: &mut Vec<Segment>, text: String, tone: Tone)
    ensures
        segment_views(final(out)@) == segment_views(old(out)@).push((text@, tone)),
{
    let ghost before = segment_views(out@);
    out.push(segment(text, tone));
    assert(segment_views(out@) == before.push((text@, tone)));
}

} // verus!
