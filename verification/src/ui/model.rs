//! State of the publications pane (rows, filter, selection) and the pane the
//! browser opens on.

use vstd::prelude::*;

use crate::artefact::{Artefact, ArtefactModel};
use crate::text::{chars_of, has_prefix};
use crate::ui::ViewMode;

verus! {

/// What the `/` / `:` overlay is doing.
#[derive(Debug, Clone, Copy, PartialEq, Eq, Structural)]
pub enum InputMode {
    /// No overlay.
    Normal,
    /// `/` filter of the current table.
    Filter,
    /// `:` command palette.
    Command,
}

/// Which half of the publications pane has the keys.
#[derive(Debug, Clone, Copy, PartialEq, Eq, Structural)]
pub enum PubsFocus {
    /// The artefact table.
    List,
    /// The `body.md` preview.
    Preview,
}

/// Whose publications tree is browsed.
#[derive(Debug, Clone, Copy, PartialEq, Eq, Structural)]
pub enum PubsRemote {
    /// The organisation's repository (`o`).
    Org,
    /// The fork (`f`).
    Fork,
}

/// Which branch of the publications tree is browsed (`1`-`4`).
#[derive(Debug, Clone, Copy, PartialEq, Eq, Structural)]
pub enum PubsBranch {
    Drafts,
    Posts,
    DraftsTweet,
    Tweets,
}

/// Input or output the caller has to perform after a state change.
#[derive(Debug, Clone, Copy, PartialEq, Eq, Structural)]
pub enum IoNeed {
    /// Nothing to fetch.
    Nothing,
    /// Fetch the publications tree of the current remote and branch.
    FetchTree,
}

// ---------------------------------------------------------------------------
// Matching rows
// ---------------------------------------------------------------------------

/// `c` in lower case, for ASCII letters; other characters stay.
pub open spec fn lower(c: char) -> char {
    if 'A' <= c && c <= 'Z' {
        ((c as u8) + 32) as char
    } else {
        c
    }
}

/// `s` with ASCII letters in lower case.
pub open spec fn lower_all(s: Seq<char>) -> Seq<char> {
    Seq::new(s.len(), |i: int| lower(s[i]))
}

/// `needle` occurs in `hay`.
pub open spec fn occurs(hay: Seq<char>, needle: Seq<char>) -> bool {
    exists|i: int|
        0 <= i && i + needle.len() <= hay.len() && #[trigger] hay.subrange(i, i + needle.len())
            == needle
}

/// A row matches a filter when the filter, ignoring ASCII case, occurs in
/// its id or in its subject. The empty filter matches every row.
pub open spec fn row_matches(a: ArtefactModel, filter: Seq<char>) -> bool {
    ||| occurs(lower_all(a.id), lower_all(filter))
    ||| occurs(lower_all(a.subject), lower_all(filter))
}

/// The views of the artefacts.
pub open spec fn artefact_views(v: Seq<Artefact>) -> Seq<ArtefactModel> {
    v.map_values(|a: Artefact| a@)
}

/// The indexes, in order, of the artefacts that match `filter`.
pub open spec fn matching_rows(arts: Seq<ArtefactModel>, filter: Seq<char>) -> Seq<usize>
    decreases arts.len(),
{
    if arts.len() == 0 {
        Seq::empty()
    } else {
        let init = matching_rows(arts.drop_last(), filter);
        if row_matches(arts.last(), filter) {
            init.push((arts.len() - 1) as usize)
        } else {
            init
        }
    }
}

fn lower_char(c: char) -> (r: char)
    ensures
        r == lower(c),
{
    if 'A' <= c && c <= 'Z' {
        ((c as u8) + 32) as char
    } else {
        c
    }
}

fn lower_chars(s: &Vec<char>) -> (r: Vec<char>)
    ensures
        r@ == lower_all(s@),
{
    let mut r: Vec<char> = Vec::new();
    for i in 0..s.len()
        invariant
            r@.len() == i,
            forall|k: int| 0 <= k < i ==> r@[k] == lower(s@[k]),
    {
        r.push(lower_char(s[i]));
    }
    assert(r@ == lower_all(s@));
    r
}

/// Whether `needle` occurs in `hay`.
fn occurs_in(hay: &Vec<char>, needle: &Vec<char>) -> (b: bool)
    ensures
        b == occurs(hay@, needle@),
{
    if needle.len() == 0 {
        assert(hay@.subrange(0, 0 + needle.len()) == needle@);
        return true;
    }
    if needle.len() > hay.len() {
        return false;
    }
    let starts = hay.len() - needle.len() + 1;
    for i in 0..starts
        invariant
            starts == hay.len() - needle.len() + 1,
            forall|k: int|
                0 <= k < i ==> #[trigger] hay@.subrange(k, k + needle.len()) != needle@,
    {
        let mut j: usize = 0;
        let mut same = true;
        while j < needle.len()
            invariant
                i < starts,
                starts == hay.len() - needle.len() + 1,
                j <= needle.len(),
                same ==> forall|m: int| 0 <= m < j ==> hay@[i + m] == needle@[m],
                !same ==> hay@.subrange(i as int, i + needle.len()) != needle@,
            decreases needle.len() - j,
        {
            if hay[i + j] != needle[j] {
                assert(hay@.subrange(i as int, i + needle.len())[j as int] != needle@[j as int]);
                same = false;
            }
            j += 1;
        }
        if same {
            assert(hay@.subrange(i as int, i + needle.len()) == needle@);
            return true;
        }
    }
    assert forall|k: int| 0 <= k && k + needle.len() <= hay.len() implies #[trigger] hay@.subrange(
        k,
        k + needle.len(),
    ) != needle@ by {
        assert(k < starts);
    }
    false
}

/// Whether an artefact matches a filter already in lower case.
fn matches_filter(a: &Artefact, needle: &Vec<char>) -> (b: bool)
    requires
        needle@ == lower_all(needle@),
    ensures
        b == row_matches(a@, needle@),
{
    proof {
        assert(lower_all(needle@) == needle@);
    }
    let id = lower_chars(&chars_of(a.id.as_str()));
    if occurs_in(&id, needle) {
        return true;
    }
    let subject = lower_chars(&chars_of(a.subject.as_str()));
    occurs_in(&subject, needle)
}

proof fn lemma_lower_idempotent(s: Seq<char>)
    ensures
        lower_all(lower_all(s)) == lower_all(s),
{
    assert forall|i: int| 0 <= i < s.len() implies lower(lower(s[i])) == lower(s[i]) by {
        let c = s[i];
        if 'A' <= c && c <= 'Z' {
            assert(('A' as u8) <= (c as u8) && (c as u8) <= ('Z' as u8));
        }
    }
    assert(lower_all(lower_all(s)) =~= lower_all(s));
}

// ---------------------------------------------------------------------------
// The publications pane
// ---------------------------------------------------------------------------

/// The publications browser: the artefacts of the browsed tree, the filter,
/// the selected row and the loaded `body.md`.
pub struct PubsPane {
    /// Artefacts of the browsed branch, in tree order.
    pub artefacts: Vec<Artefact>,
    /// Text typed after `/`; empty when no filter is on.
    pub filter: String,
    /// Selected row of the filtered table.
    pub selected: Option<usize>,
    /// Loaded `body.md` of the selected artefact.
    pub body: String,
    /// Error of the last fetch, empty when there is none.
    pub error: String,
    /// Preview lines scrolled past.
    pub body_scroll: u16,
    /// Which half has the keys.
    pub focus: PubsFocus,
    /// Browsed repository.
    pub remote: PubsRemote,
    /// Browsed branch.
    pub branch: PubsBranch,
    /// GitHub API calls left, once known.
    pub rate_remaining: Option<u64>,
}

impl PubsPane {
    /// The rows of the table: indexes of the artefacts that match the filter.
    pub open spec fn rows(&self) -> Seq<usize> {
        matching_rows(artefact_views(self.artefacts@), self.filter@)
    }

    /// The selected artefact, when the selection is a row of the table.
    pub open spec fn selection(&self) -> Option<ArtefactModel> {
        match self.selected {
            Some(r) => if r < self.rows().len() {
                Some(self.artefacts@[self.rows()[r as int] as int]@)
            } else {
                None
            },
            None => None,
        }
    }

    /// An empty pane on the organisation's drafts, its first row selected:
    /// once rows are loaded, the first one is highlighted.
    pub fn new() -> (p: Self)
        ensures
            p.artefacts@.len() == 0,
            p.filter@.len() == 0,
            p.selected == Some(0usize),
            p.body@.len() == 0,
            p.error@.len() == 0,
            p.body_scroll == 0,
            p.focus == PubsFocus::List,
            p.remote == PubsRemote::Org,
            p.branch == PubsBranch::Drafts,
            p.rate_remaining is None,
    {
        PubsPane {
            artefacts: Vec::new(),
            filter: String::new(),
            selected: Some(0),
            body: String::new(),
            error: String::new(),
            body_scroll: 0,
            focus: PubsFocus::List,
            remote: PubsRemote::Org,
            branch: PubsBranch::Drafts,
            rate_remaining: None,
        }
    }

    /// Indexes of the artefacts that the table shows, in order.
    pub fn filtered_indexes(&self) -> (r: Vec<usize>)
        ensures
            r@ == self.rows(),
    {
        let needle = lower_chars(&chars_of(self.filter.as_str()));
        proof {
            lemma_lower_idempotent(self.filter@);
        }
        let ghost arts = artefact_views(self.artefacts@);
        let mut out: Vec<usize> = Vec::new();
        for i in 0..self.artefacts.len()
            invariant
                arts == artefact_views(self.artefacts@),
                needle@ == lower_all(self.filter@),
                needle@ == lower_all(needle@),
                out@ == matching_rows(arts.take(i as int), self.filter@),
        {
            assert(arts.take(i + 1).drop_last() == arts.take(i as int));
            assert(arts.take(i + 1).last() == self.artefacts@[i as int]@);
            assert(row_matches(self.artefacts@[i as int]@, needle@) == row_matches(
                self.artefacts@[i as int]@,
                self.filter@,
            ));
            if matches_filter(&self.artefacts[i], &needle) {
                out.push(i);
            }
        }
        assert(arts.take(self.artefacts.len() as int) == arts);
        out
    }

    /// Sets the filter; the selection goes to the first matching row, or to
    /// none when no row matches.
    pub fn set_filter(&mut self, filter: String)
        ensures
            final(self).filter@ == filter@,
            final(self).artefacts@ == old(self).artefacts@,
            final(self).selected == (if final(self).rows().len() > 0 {
                Some(0usize)
            } else {
                None
            }),
            final(self).body@ == old(self).body@,
            final(self).error@ == old(self).error@,
            final(self).body_scroll == old(self).body_scroll,
            final(self).focus == old(self).focus,
            final(self).remote == old(self).remote,
            final(self).branch == old(self).branch,
            final(self).rate_remaining == old(self).rate_remaining,
    {
        self.filter = filter;
        let rows = self.filtered_indexes();
        self.selected = if rows.len() > 0 {
            Some(0)
        } else {
            None
        };
    }

    /// The selected row, or the first row when none is selected.
    pub fn selected(&self) -> (r: usize)
        ensures
            r == (match self.selected {
                Some(i) => i,
                None => 0,
            }),
    {
        match self.selected {
            Some(i) => i,
            None => 0,
        }
    }

    /// The artefact on the selected row.
    pub fn selected_artefact(&self) -> (r: Option<&Artefact>)
        ensures
            match r {
                Some(a) => self.selection() == Some(a@),
                None => self.selection() is None,
            },
    {
        match self.selected {
            Some(row) => {
                let rows = self.filtered_indexes();
                if row < rows.len() {
                    proof {
                        lemma_rows_in_range(artefact_views(self.artefacts@), self.filter@);
                    }
                    let i = rows[row];
                    Some(&self.artefacts[i])
                } else {
                    None
                }
            },
            None => None,
        }
    }

    /// The position among the rows of the first artefact whose id starts
    /// with `prefix`, ignoring ASCII case.
    fn find_prefixed(&self, prefix: &str) -> (r: Option<usize>)
        ensures
            match r {
                Some(i) => first_prefixed(artefact_views(self.artefacts@), self.rows(), prefix@)
                    == Some(i as int),
                None => first_prefixed(artefact_views(self.artefacts@), self.rows(), prefix@) is None,
            },
    {
        let rows = self.filtered_indexes();
        let wanted = lower_chars(&chars_of(prefix));
        let ghost arts = artefact_views(self.artefacts@);
        proof {
            lemma_rows_in_range(arts, self.filter@);
        }
        let mut r: usize = 0;
        assert(rows@.skip(0) == rows@);
        while r < rows.len()
            invariant
                r <= rows.len(),
                arts == artefact_views(self.artefacts@),
                rows@ == self.rows(),
                forall|k: int| 0 <= k < rows@.len() ==> rows@[k] < self.artefacts@.len(),
                wanted@ == lower_all(prefix@),
                first_prefixed(arts, rows@, prefix@) == offset(
                    first_prefixed(arts, rows@.skip(r as int), prefix@),
                    r as int,
                ),
            decreases rows.len() - r,
        {
            let ghost rest = rows@.skip(r as int);
            assert(rest[0] == rows@[r as int]);
            assert(rest.drop_first() == rows@.skip(r + 1));
            assert(arts[rows@[r as int] as int] == self.artefacts@[rows@[r as int] as int]@);
            let id = lower_chars(&chars_of(self.artefacts[rows[r]].id.as_str()));
            if crate::text::starts_with(&id, &wanted) {
                return Some(r);
            }
            r += 1;
        }
        None
    }

    /// Selects the first row whose id starts with `prefix`, ignoring ASCII
    /// case (`:open <id-prefix>`). Returns whether a row was found; when none
    /// is, nothing changes.
    pub fn open_prefix(&mut self, prefix: &str) -> (found: bool)
        ensures
            found == (first_prefixed(
                artefact_views(old(self).artefacts@),
                old(self).rows(),
                prefix@,
            ) is Some),
            found ==> final(self).selected == Some(
                first_prefixed(artefact_views(old(self).artefacts@), old(self).rows(), prefix@)->0
                    as usize,
            ),
            !found ==> final(self).selected == old(self).selected,
            final(self).artefacts@ == old(self).artefacts@,
            final(self).filter@ == old(self).filter@,
            final(self).body@ == old(self).body@,
            final(self).error@ == old(self).error@,
            final(self).body_scroll == old(self).body_scroll,
            final(self).focus == old(self).focus,
            final(self).remote == old(self).remote,
            final(self).branch == old(self).branch,
            final(self).rate_remaining == old(self).rate_remaining,
    {
        match self.find_prefixed(prefix) {
            Some(r) => {
                self.selected = Some(r);
                true
            },
            None => false,
        }
    }
}

/// The first position in `rows` whose artefact id starts with `prefix`,
/// ignoring ASCII case.
pub open spec fn first_prefixed(arts: Seq<ArtefactModel>, rows: Seq<usize>, prefix: Seq<char>) -> Option<int>
    decreases rows.len(),
{
    if rows.len() == 0 {
        None
    } else if has_prefix(lower_all(arts[rows[0] as int].id), lower_all(prefix)) {
        Some(0int)
    } else {
        offset(first_prefixed(arts, rows.drop_first(), prefix), 1)
    }
}

/// A position moved `by` places further.
pub open spec fn offset(o: Option<int>, by: int) -> Option<int> {
    match o {
        Some(i) => Some(i + by),
        None => None,
    }
}

/// Every row is the index of an artefact.
pub proof fn lemma_rows_in_range(arts: Seq<ArtefactModel>, filter: Seq<char>)
    ensures
        forall|k: int|
            0 <= k < matching_rows(arts, filter).len() ==> matching_rows(arts, filter)[k]
                < arts.len(),
    decreases arts.len(),
{
    if arts.len() > 0 {
        let init = matching_rows(arts.drop_last(), filter);
        lemma_rows_in_range(arts.drop_last(), filter);
        assert forall|k: int|
            0 <= k < matching_rows(arts, filter).len() implies matching_rows(arts, filter)[k]
            < arts.len() by {
            if k < init.len() {
                assert(matching_rows(arts, filter)[k] == init[k]);
            }
        }
    }
}

// ---------------------------------------------------------------------------
// Laws
// ---------------------------------------------------------------------------

proof fn lemma_rows_members(arts: Seq<ArtefactModel>, filter: Seq<char>)
    requires
        arts.len() <= usize::MAX,
    ensures
        matching_rows(arts, filter).len() <= arts.len(),
        forall|k: int|
            0 <= k < matching_rows(arts, filter).len() ==> {
                let i = #[trigger] matching_rows(arts, filter)[k];
                &&& i < arts.len()
                &&& row_matches(arts[i as int], filter)
            },
        forall|k: int, j: int|
            0 <= k < j < matching_rows(arts, filter).len() ==> #[trigger] matching_rows(
                arts,
                filter,
            )[k] < #[trigger] matching_rows(arts, filter)[j],
        forall|i: int|
            0 <= i < arts.len() && row_matches(arts[i], filter) ==> #[trigger] matching_rows(
                arts,
                filter,
            ).contains(i as usize),
    decreases arts.len(),
{
    if arts.len() > 0 {
        let init = matching_rows(arts.drop_last(), filter);
        let rows = matching_rows(arts, filter);
        lemma_rows_members(arts.drop_last(), filter);
        assert forall|k: int| 0 <= k < rows.len() implies {
            let i = #[trigger] rows[k];
            &&& i < arts.len()
            &&& row_matches(arts[i as int], filter)
        } by {
            if k < init.len() {
                assert(rows[k] == init[k]);
                assert(arts.drop_last()[init[k] as int] == arts[init[k] as int]);
            } else {
                assert(row_matches(arts.last(), filter));
                assert(rows[k] == (arts.len() - 1) as usize);
                assert(arts[(arts.len() - 1)] == arts.last());
            }
        }
        assert forall|k: int, j: int| 0 <= k < j < rows.len() implies #[trigger] rows[k]
            < #[trigger] rows[j] by {
            assert(rows[k] == init[k]);
            assert(init[k] < arts.len() - 1);
            if j < init.len() {
                assert(rows[j] == init[j]);
            } else {
                assert(rows[j] == (arts.len() - 1) as usize);
            }
        }
        assert forall|i: int| 0 <= i < arts.len() && row_matches(arts[i], filter) implies #[trigger] rows.contains(
            i as usize,
        ) by {
            if i < arts.len() - 1 {
                assert(arts.drop_last()[i] == arts[i]);
                assert(init.contains(i as usize));
                let k = choose|k: int| 0 <= k < init.len() && init[k] == i as usize;
                assert(rows[k] == init[k]);
            } else {
                assert(rows[rows.len() - 1] == i as usize);
            }
        }
    }
}

/// The table shows exactly the artefacts that match the filter, each once,
/// in tree order.
pub proof fn law_rows_are_the_matches(arts: Seq<ArtefactModel>, filter: Seq<char>)
    requires
        arts.len() <= usize::MAX,
    ensures
        forall|i: int|
            0 <= i < arts.len() ==> (#[trigger] matching_rows(arts, filter).contains(i as usize)
                <==> row_matches(arts[i], filter)),
        forall|k: int|
            0 <= k < matching_rows(arts, filter).len() ==> #[trigger] matching_rows(arts, filter)[k]
                < arts.len(),
        forall|k: int, j: int|
            0 <= k < j < matching_rows(arts, filter).len() ==> #[trigger] matching_rows(
                arts,
                filter,
            )[k] < #[trigger] matching_rows(arts, filter)[j],
{
    lemma_rows_members(arts, filter);
    assert forall|i: int| 0 <= i < arts.len() implies (#[trigger] matching_rows(
        arts,
        filter,
    ).contains(i as usize) <==> row_matches(arts[i], filter)) by {
        if matching_rows(arts, filter).contains(i as usize) {
            let k = choose|k: int|
                0 <= k < matching_rows(arts, filter).len() && matching_rows(arts, filter)[k]
                    == i as usize;
            assert(row_matches(arts[matching_rows(arts, filter)[k] as int], filter));
        }
    }
}

/// With no filter typed, the table shows every artefact in tree order.
pub proof fn law_empty_filter_shows_all(arts: Seq<ArtefactModel>)
    requires
        arts.len() <= usize::MAX,
    ensures
        matching_rows(arts, Seq::empty()) == Seq::new(arts.len(), |i: int| i as usize),
    decreases arts.len(),
{
    if arts.len() > 0 {
        law_empty_filter_shows_all(arts.drop_last());
        let id = lower_all(arts.last().id);
        let empty = lower_all(Seq::<char>::empty());
        assert(empty == Seq::<char>::empty());
        assert(id.subrange(0, 0 + empty.len() as int) == empty);
        assert(row_matches(arts.last(), Seq::empty()));
    }
    assert(matching_rows(arts, Seq::empty()) =~= Seq::new(arts.len(), |i: int| i as usize));
}

/// The selected artefact, when there is one, matches the filter.
pub proof fn law_selection_matches_filter(pane: PubsPane)
    requires
        pane.artefacts@.len() <= usize::MAX,
    ensures
        pane.selection() matches Some(a) ==> row_matches(a, pane.filter@),
{
    let arts = artefact_views(pane.artefacts@);
    lemma_rows_members(arts, pane.filter@);
    if let Some(r) = pane.selected {
        if r < pane.rows().len() {
            let i = pane.rows()[r as int];
            assert(arts[i as int] == pane.artefacts@[i as int]@);
        }
    }
}

/// With the first row selected, as a fresh pane has it, the selected
/// artefact is the first row shown, whenever there is one.
pub proof fn law_first_row_selected(pane: PubsPane)
    requires
        pane.selected == Some(0usize),
    ensures
        pane.rows().len() > 0 ==> pane.selection() == Some(
            pane.artefacts@[pane.rows()[0] as int]@,
        ),
        pane.rows().len() == 0 ==> pane.selection() is None,
{
}

proof fn lemma_first_prefixed(arts: Seq<ArtefactModel>, rows: Seq<usize>, prefix: Seq<char>)
    ensures
        first_prefixed(arts, rows, prefix) matches Some(i) ==> 0 <= i < rows.len() && has_prefix(
            lower_all(arts[rows[i] as int].id),
            lower_all(prefix),
        ),
    decreases rows.len(),
{
    if rows.len() > 0 {
        lemma_first_prefixed(arts, rows.drop_first(), prefix);
    }
}

/// After `:open` finds a row, the selected artefact is one whose id starts
/// with the typed prefix, ignoring ASCII case.
pub proof fn law_open_prefix_selects(before: PubsPane, after: PubsPane, prefix: Seq<char>)
    requires
        first_prefixed(artefact_views(before.artefacts@), before.rows(), prefix) is Some,
        before.artefacts@.len() <= usize::MAX,
        after.artefacts@ == before.artefacts@,
        after.filter@ == before.filter@,
        after.selected == Some(
            first_prefixed(artefact_views(before.artefacts@), before.rows(), prefix)->0 as usize,
        ),
    ensures
        after.selection() matches Some(a) && has_prefix(lower_all(a.id), lower_all(prefix)),
{
    let arts = artefact_views(before.artefacts@);
    lemma_first_prefixed(arts, before.rows(), prefix);
    lemma_rows_in_range(arts, before.filter@);
    lemma_rows_members(arts, before.filter@);
    let i = first_prefixed(arts, before.rows(), prefix)->0;
    assert(after.rows() == before.rows());
    assert(arts[before.rows()[i] as int] == after.artefacts@[before.rows()[i] as int]@);
}

// ---------------------------------------------------------------------------
// Start-up
// ---------------------------------------------------------------------------

/// The browser's pane state.
pub struct StatusModel {
    /// The pane on screen.
    pub view: ViewMode,
    /// The product's `/health` answered.
    pub product_up: bool,
    /// The publications browser.
    pub pubs: PubsPane,
}

impl StatusModel {
    /// A browser on the live pane, with an empty publications pane.
    pub fn new(product_up: bool) -> (m: Self)
        ensures
            m.view == ViewMode::Live,
            m.product_up == product_up,
            m.pubs.artefacts@.len() == 0,
            m.pubs.filter@.len() == 0,
            m.pubs.selected == Some(0usize),
            m.pubs.body@.len() == 0,
            m.pubs.error@.len() == 0,
            m.pubs.body_scroll == 0,
            m.pubs.focus == PubsFocus::List,
            m.pubs.remote == PubsRemote::Org,
            m.pubs.branch == PubsBranch::Drafts,
            m.pubs.rate_remaining is None,
    {
        StatusModel { view: ViewMode::Live, product_up, pubs: PubsPane::new() }
    }

    /// Chooses the pane to open on: live when the product is up, otherwise
    /// publications, whose tree is fetched only if none is loaded yet.
    pub fn apply_boot_view(&mut self) -> (need: IoNeed)
        ensures
            final(self).view == (if old(self).product_up {
                ViewMode::Live
            } else {
                ViewMode::Publications
            }),
            need == (if !old(self).product_up && old(self).pubs.artefacts@.len() == 0 {
                IoNeed::FetchTree
            } else {
                IoNeed::Nothing
            }),
            final(self).product_up == old(self).product_up,
            final(self).pubs == old(self).pubs,
    {
        if self.product_up {
            self.view = ViewMode::Live;
            IoNeed::Nothing
        } else {
            self.view = ViewMode::Publications;
            if self.pubs.artefacts.len() == 0 {
                IoNeed::FetchTree
            } else {
                IoNeed::Nothing
            }
        }
    }
}

} // verus!
