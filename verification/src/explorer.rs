//! The explorer state machine.
//!
//! A [`FileExplorer`] owns the current directory, the unfiltered entry
//! sequence, the filtered view (positions into the unfiltered sequence),
//! the selected entry, the hidden-file flag, the search substring, the
//! marked-path set and an advisory scroll offset. The cursor is stored in
//! unfiltered coordinates so that it survives filter changes; movement
//! commands work in filtered coordinates and translate back.
//!
//! Every command leaves the state well formed ([`explorer_wf`]): the
//! filtered view is exactly the matching positions and the cursor is a
//! valid unfiltered position whenever entries exist. Commands that reload
//! from the backend are all-or-nothing: on any backend failure the prior
//! state is kept unchanged.

use vstd::prelude::*;

use crate::entry::EntryV;
use crate::entry::FileEntry;
use crate::entry::entries_view;
use crate::entry::str_eq;
use crate::filesystem::FileSystem;
use crate::filesystem::FsError;
use crate::listing::build_entries;
use crate::listing::build_listing;
use crate::listing::lemma_build_listing_sorted;
use crate::listing::parent_entry;
use crate::listing::sorted_entries;
use crate::path_ops::join_seq;
use crate::path_ops::last_component_of;
use crate::path_ops::last_component_seq;
use crate::path_ops::lemma_parent_of_join;
use crate::path_ops::stem_seq;
use crate::path_ops::parent_of;
use crate::path_ops::parent_seq;
use crate::search::compute_filtered;
use crate::search::filter_view;
use crate::search::filtered_ids;
use crate::search::lemma_filtered_ids_props;
use crate::search::lemma_no_filter_identity;

verus! {

/// One abstract navigation or mutation command.
#[derive(Debug, Clone, Copy, PartialEq, Eq)]
pub enum Command {
    /// Move the cursor one filtered position up, wrapping at the first.
    MoveUp,
    /// Move the cursor one filtered position down, wrapping at the last.
    MoveDown,
    /// Select the first filtered entry.
    MoveHome,
    /// Select the last filtered entry.
    MoveEnd,
    /// Move the cursor [`SCROLL_COUNT`] filtered positions up, clamped.
    PageUp,
    /// Move the cursor [`SCROLL_COUNT`] filtered positions down, clamped.
    PageDown,
    /// Move to the parent directory, re-selecting the directory left.
    Ascend,
    /// Enter the selected directory.
    Descend,
    /// Flip the hidden-file flag and reload.
    ToggleHidden,
    /// Delete the selected entry, unless it is a directory.
    DeleteCurrent,
    /// Do nothing.
    Noop,
}

/// How many filtered positions a page command steps.
pub const SCROLL_COUNT: usize = 12;

/// The mathematical value of a [`FileExplorer`].
pub ghost struct ExplorerV {
    /// The current directory path.
    pub cwd: Seq<char>,
    /// The unfiltered entry sequence.
    pub entries: Seq<EntryV>,
    /// The positions of `entries` that match the search filter.
    pub filtered: Seq<int>,
    /// The cursor, in unfiltered coordinates.
    pub selected: int,
    /// Whether hidden entries are shown.
    pub show_hidden: bool,
    /// The active search substring, if any.
    pub filter: Option<Seq<char>>,
    /// The externally managed set of marked paths.
    pub marked: Seq<Seq<char>>,
    /// The advisory scroll offset written back by a renderer.
    pub scroll: int,
}

/// The explorer's invariant: the filtered view is exactly the positions
/// whose names match the filter, in order, and the cursor is a valid
/// unfiltered position whenever entries exist.
pub open spec fn explorer_wf(v: ExplorerV) -> bool {
    &&& v.filtered == filtered_ids(v.entries, v.filter)
    &&& v.entries.len() == 0 ==> v.selected == 0
    &&& v.entries.len() > 0 ==> 0 <= v.selected < v.entries.len()
}

/// The first position of `sel` in the filtered sequence, if present.
pub open spec fn find_pos(fil: Seq<int>, sel: int) -> Option<int>
    decreases fil.len(),
{
    if fil.len() == 0 {
        None
    } else if fil[0] == sel {
        Some(0)
    } else {
        match find_pos(fil.skip(1), sel) {
            None => None,
            Some(j) => Some(j + 1),
        }
    }
}

/// The cursor in filtered coordinates: the position of the selected
/// unfiltered index within the filtered sequence, or the first position
/// if the selection is filtered out.
pub open spec fn sel_pos(fil: Seq<int>, sel: int) -> int {
    match find_pos(fil, sel) {
        Some(j) => j,
        None => 0,
    }
}

/// What `find_pos` finds is in range and holds `sel`; when it finds
/// nothing, `sel` is not there.
pub proof fn lemma_find_pos_props(fil: Seq<int>, sel: int)
    ensures
        find_pos(fil, sel) matches Some(j) ==> 0 <= j < fil.len() && fil[j] == sel,
        find_pos(fil, sel) is None ==> forall|k: int| 0 <= k < fil.len() ==> fil[k] != sel,
    decreases fil.len(),
{
    if fil.len() > 0 {
        lemma_find_pos_props(fil.skip(1), sel);
        if find_pos(fil, sel) is None {
            assert forall|k: int| 0 <= k < fil.len() implies fil[k] != sel by {
                if k > 0 {
                    assert(fil.skip(1)[k - 1] == fil[k]);
                    assert(fil.skip(1)[k - 1] != sel);
                }
            }
        }
    }
}

/// The first occurrence is what `find_pos` finds.
pub proof fn lemma_find_pos_first(fil: Seq<int>, sel: int, j: int)
    requires
        0 <= j < fil.len(),
        fil[j] == sel,
        forall|k: int| 0 <= k < j ==> fil[k] != sel,
    ensures
        find_pos(fil, sel) == Some(j),
    decreases j,
{
    if j > 0 {
        assert(forall|k: int| 0 <= k < fil.skip(1).len() ==> fil.skip(1)[k] == fil[k + 1]);
        lemma_find_pos_first(fil.skip(1), sel, j - 1);
    }
}

/// An absent value is not found.
pub proof fn lemma_find_pos_none(fil: Seq<int>, sel: int)
    requires
        forall|k: int| 0 <= k < fil.len() ==> fil[k] != sel,
    ensures
        find_pos(fil, sel) is None,
    decreases fil.len(),
{
    if fil.len() > 0 {
        assert(forall|k: int| 0 <= k < fil.skip(1).len() ==> fil.skip(1)[k] == fil[k + 1]);
        lemma_find_pos_none(fil.skip(1), sel);
    }
}

/// The first entry whose name is `name`, if any.
pub open spec fn find_name(entries: Seq<EntryV>, name: Seq<char>) -> Option<int>
    decreases entries.len(),
{
    if entries.len() == 0 {
        None
    } else if entries[0].name == name {
        Some(0)
    } else {
        match find_name(entries.skip(1), name) {
            None => None,
            Some(j) => Some(j + 1),
        }
    }
}

/// What `find_name` finds is in range and carries the name; when it
/// finds nothing, no entry carries it.
pub proof fn lemma_find_name_props(entries: Seq<EntryV>, name: Seq<char>)
    ensures
        find_name(entries, name) matches Some(j) ==> 0 <= j < entries.len() && entries[j].name
            == name,
        find_name(entries, name) is None ==> forall|k: int|
            0 <= k < entries.len() ==> entries[k].name != name,
    decreases entries.len(),
{
    if entries.len() > 0 {
        lemma_find_name_props(entries.skip(1), name);
        if find_name(entries, name) is None {
            assert forall|k: int| 0 <= k < entries.len() implies entries[k].name != name by {
                if k > 0 {
                    assert(entries.skip(1)[k - 1] == entries[k]);
                    assert(entries.skip(1)[k - 1].name != name);
                }
            }
        }
    }
}

/// The first entry carrying the name is what `find_name` finds.
pub proof fn lemma_find_name_first(entries: Seq<EntryV>, name: Seq<char>, j: int)
    requires
        0 <= j < entries.len(),
        entries[j].name == name,
        forall|k: int| 0 <= k < j ==> entries[k].name != name,
    ensures
        find_name(entries, name) == Some(j),
    decreases j,
{
    if j > 0 {
        assert(forall|k: int|
            0 <= k < entries.skip(1).len() ==> entries.skip(1)[k] == entries[k + 1]);
        lemma_find_name_first(entries.skip(1), name, j - 1);
    }
}

/// A name nothing carries is not found.
pub proof fn lemma_find_name_none(entries: Seq<EntryV>, name: Seq<char>)
    requires
        forall|k: int| 0 <= k < entries.len() ==> entries[k].name != name,
    ensures
        find_name(entries, name) is None,
    decreases entries.len(),
{
    if entries.len() > 0 {
        assert(forall|k: int|
            0 <= k < entries.skip(1).len() ==> entries.skip(1)[k] == entries[k + 1]);
        lemma_find_name_none(entries.skip(1), name);
    }
}

/// The state with another cursor.
pub open spec fn with_selected(v: ExplorerV, sel: int) -> ExplorerV {
    ExplorerV { selected: sel, ..v }
}

/// One step down in filtered coordinates, wrapping at the last position;
/// a no-op on an empty filtered view.
pub open spec fn step_down(v: ExplorerV) -> ExplorerV {
    if v.filtered.len() == 0 {
        v
    } else {
        let p = sel_pos(v.filtered, v.selected);
        let np = if p + 1 < v.filtered.len() {
            p + 1
        } else {
            0
        };
        with_selected(v, v.filtered[np])
    }
}

/// One step up in filtered coordinates, wrapping at the first position;
/// a no-op on an empty filtered view.
pub open spec fn step_up(v: ExplorerV) -> ExplorerV {
    if v.filtered.len() == 0 {
        v
    } else {
        let p = sel_pos(v.filtered, v.selected);
        let np = if p == 0 {
            v.filtered.len() - 1
        } else {
            p - 1
        };
        with_selected(v, v.filtered[np])
    }
}

/// The first filtered entry selected; a no-op on an empty filtered view.
pub open spec fn step_home(v: ExplorerV) -> ExplorerV {
    if v.filtered.len() == 0 {
        v
    } else {
        with_selected(v, v.filtered[0])
    }
}

/// The last filtered entry selected; a no-op on an empty filtered view.
pub open spec fn step_end(v: ExplorerV) -> ExplorerV {
    if v.filtered.len() == 0 {
        v
    } else {
        with_selected(v, v.filtered[v.filtered.len() - 1])
    }
}

/// [`SCROLL_COUNT`] steps down in filtered coordinates, clamped to the
/// last position; a no-op on an empty filtered view.
pub open spec fn step_page_down(v: ExplorerV) -> ExplorerV {
    if v.filtered.len() == 0 {
        v
    } else {
        let p = sel_pos(v.filtered, v.selected);
        let np = if p + SCROLL_COUNT < v.filtered.len() {
            p + SCROLL_COUNT
        } else {
            v.filtered.len() - 1
        };
        with_selected(v, v.filtered[np])
    }
}

/// [`SCROLL_COUNT`] steps up in filtered coordinates, clamped to the
/// first position; a no-op on an empty filtered view.
pub open spec fn step_page_up(v: ExplorerV) -> ExplorerV {
    if v.filtered.len() == 0 {
        v
    } else {
        let p = sel_pos(v.filtered, v.selected);
        let np = if p >= SCROLL_COUNT {
            p - SCROLL_COUNT
        } else {
            0
        };
        with_selected(v, v.filtered[np])
    }
}

/// The name an ascent looks for afterwards: the last component of the
/// directory being left, with the trailing separator directory names
/// carry.
pub open spec fn departed_name(cwd: Seq<char>) -> Seq<char> {
    last_component_seq(cwd) + seq!['/']
}

/// The state after a successful reload: directory, hidden-file flag and
/// both sequences are replaced as one unit, and the cursor is set to
/// `sel`; filter, marked paths and scroll offset are untouched.
pub open spec fn reloaded(
    v: ExplorerV,
    dir: Seq<char>,
    show_hidden: bool,
    listing: Seq<EntryV>,
    sel: int,
) -> ExplorerV {
    let ents = build_listing(listing, dir, show_hidden);
    ExplorerV {
        cwd: dir,
        show_hidden: show_hidden,
        entries: ents,
        filtered: filtered_ids(ents, v.filter),
        selected: sel,
        ..v
    }
}

/// The state after a successful ascent: the parent directory reloaded,
/// with the entry of the directory just left re-selected when a reload
/// lists it (the first entry of that name), and the first entry
/// otherwise.
pub open spec fn ascended(v: ExplorerV, parent: Seq<char>, listing: Seq<EntryV>) -> ExplorerV {
    let ents = build_listing(listing, parent, v.show_hidden);
    let sel = match find_name(ents, departed_name(v.cwd)) {
        Some(j) => j,
        None => 0,
    };
    reloaded(v, parent, v.show_hidden, listing, sel)
}

/// The state after a successful deletion: the current directory
/// reloaded, the cursor kept where it was, clamped to the new last
/// position if the sequence shrank past it (and 0 if it emptied).
pub open spec fn deleted(v: ExplorerV, listing: Seq<EntryV>) -> ExplorerV {
    let ents = build_listing(listing, v.cwd, v.show_hidden);
    let sel = if ents.len() == 0 {
        0
    } else if v.selected < ents.len() {
        v.selected
    } else {
        ents.len() - 1
    };
    reloaded(v, v.cwd, v.show_hidden, listing, sel)
}

/// The state after a successful ascent, from the state alone: an ascent
/// reloads the parent of the current directory; see [`ascended`].
pub open spec fn ascended_from(v: ExplorerV, listing: Seq<EntryV>) -> ExplorerV
    recommends
        parent_seq(v.cwd) is Some,
{
    match parent_seq(v.cwd) {
        Some(p) => ascended(v, p, listing),
        None => v,
    }
}

/// The state after a successful hidden-file toggle: the current
/// directory reloaded under the flipped flag, the first entry selected.
pub open spec fn toggled(v: ExplorerV, listing: Seq<EntryV>) -> ExplorerV {
    reloaded(v, v.cwd, !v.show_hidden, listing, 0)
}

/// A freshly constructed state: the initial directory listed, hidden
/// entries not shown, no filter, nothing marked, cursor and scroll at 0.
pub open spec fn initial_view(path: Seq<char>, listing: Seq<EntryV>) -> ExplorerV {
    let ents = build_listing(listing, path, false);
    ExplorerV {
        cwd: path,
        entries: ents,
        filtered: filtered_ids(ents, None),
        selected: 0,
        show_hidden: false,
        filter: None,
        marked: Seq::empty(),
        scroll: 0,
    }
}

/// Whether the cursor stands on a directory entry, so that a descent
/// acts.
pub open spec fn can_descend(v: ExplorerV) -> bool {
    v.entries.len() > 0 && v.entries[v.selected].is_dir
}

/// Whether the cursor stands on a non-directory entry, so that a
/// deletion acts. Directories are never deleted through the explorer.
pub open spec fn can_delete(v: ExplorerV) -> bool {
    v.entries.len() > 0 && !v.entries[v.selected].is_dir
}

/// The position of the first entry named `name`, or 0 when none is.
fn index_of_name(entries: &Vec<FileEntry>, name: &str) -> (r: usize)
    ensures
        r as int == match find_name(entries_view(entries@), name@) {
            Some(j) => j,
            None => 0,
        },
        entries@.len() > 0 ==> (r as int) < entries@.len(),
        entries@.len() == 0 ==> r == 0,
{
    let n = entries.len();
    let mut i: usize = 0;
    while i < n
        invariant
            i <= n,
            n == entries@.len(),
            forall|k: int| 0 <= k < i ==> entries_view(entries@)[k].name != name@,
        decreases n - i,
    {
        if str_eq(entries[i].name.as_str(), name) {
            proof {
                lemma_find_name_first(entries_view(entries@), name@, i as int);
            }
            return i;
        }
        i += 1;
    }
    proof {
        lemma_find_name_none(entries_view(entries@), name@);
    }
    0
}

/// A file explorer bound to one filesystem backend.
pub struct FileExplorer<F: FileSystem> {
    filesystem: F,
    cwd: String,
    entries: Vec<FileEntry>,
    filtered: Vec<usize>,
    selected: usize,
    show_hidden: bool,
    filter: Option<String>,
    marked: Vec<String>,
    scroll: usize,
}

impl<F: FileSystem> View for FileExplorer<F> {
    type V = ExplorerV;

    closed spec fn view(&self) -> ExplorerV {
        ExplorerV {
            cwd: self.cwd@,
            entries: entries_view(self.entries@),
            filtered: self.filtered@.map_values(|u: usize| u as int),
            selected: self.selected as int,
            show_hidden: self.show_hidden,
            filter: filter_view(self.filter),
            marked: self.marked@.map_values(|s: String| s@),
            scroll: self.scroll as int,
        }
    }
}

impl<F: FileSystem> FileExplorer<F> {
    /// The explorer's invariant, [`explorer_wf`] of its value.
    pub open spec fn wf(&self) -> bool {
        explorer_wf(self@)
    }

    /// The cursor in filtered coordinates, by [`sel_pos`]: the position
    /// of the selected entry in the filtered view, or the first position
    /// if the selection is filtered out (or the view empty).
    pub fn selected_position(&self) -> (p: usize)
        ensures
            p as int == sel_pos(self@.filtered, self@.selected),
            self@.filtered.len() > 0 ==> (p as int) < self@.filtered.len(),
    {
        let n = self.filtered.len();
        let mut i: usize = 0;
        while i < n
            invariant
                i <= n,
                n == self.filtered@.len(),
                forall|k: int| 0 <= k < i ==> self@.filtered[k] != self@.selected,
            decreases n - i,
        {
            if self.filtered[i] == self.selected {
                proof {
                    lemma_find_pos_first(self@.filtered, self@.selected, i as int);
                }
                return i;
            }
            i += 1;
        }
        proof {
            lemma_find_pos_none(self@.filtered, self@.selected);
        }
        0
    }

    /// Moves the cursor one filtered position down, wrapping from the
    /// last position to the first; does nothing on an empty filtered
    /// view.
    pub fn move_down(&mut self)
        requires
            old(self).wf(),
        ensures
            final(self).wf(),
            final(self)@ == step_down(old(self)@),
    {
        if self.filtered.len() == 0 {
            return ;
        }
        let p = self.selected_position();
        let np = if p + 1 < self.filtered.len() {
            p + 1
        } else {
            0
        };
        let sel = self.filtered[np];
        proof {
            lemma_filtered_ids_props(self@.entries, self@.filter);
        }
        self.selected = sel;
    }

    /// Moves the cursor one filtered position up, wrapping from the
    /// first position to the last; does nothing on an empty filtered
    /// view.
    pub fn move_up(&mut self)
        requires
            old(self).wf(),
        ensures
            final(self).wf(),
            final(self)@ == step_up(old(self)@),
    {
        if self.filtered.len() == 0 {
            return ;
        }
        let p = self.selected_position();
        let np = if p == 0 {
            self.filtered.len() - 1
        } else {
            p - 1
        };
        let sel = self.filtered[np];
        proof {
            lemma_filtered_ids_props(self@.entries, self@.filter);
        }
        self.selected = sel;
    }

    /// Selects the first filtered entry; does nothing on an empty
    /// filtered view.
    pub fn move_home(&mut self)
        requires
            old(self).wf(),
        ensures
            final(self).wf(),
            final(self)@ == step_home(old(self)@),
    {
        if self.filtered.len() == 0 {
            return ;
        }
        let sel = self.filtered[0];
        proof {
            lemma_filtered_ids_props(self@.entries, self@.filter);
        }
        self.selected = sel;
    }

    /// Selects the last filtered entry; does nothing on an empty
    /// filtered view.
    pub fn move_end(&mut self)
        requires
            old(self).wf(),
        ensures
            final(self).wf(),
            final(self)@ == step_end(old(self)@),
    {
        if self.filtered.len() == 0 {
            return ;
        }
        let sel = self.filtered[self.filtered.len() - 1];
        proof {
            lemma_filtered_ids_props(self@.entries, self@.filter);
        }
        self.selected = sel;
    }

    /// Moves the cursor [`SCROLL_COUNT`] filtered positions down,
    /// clamped to the last position; does nothing on an empty filtered
    /// view.
    pub fn page_down(&mut self)
        requires
            old(self).wf(),
        ensures
            final(self).wf(),
            final(self)@ == step_page_down(old(self)@),
    {
        if self.filtered.len() == 0 {
            return ;
        }
        let p = self.selected_position();
        let last = self.filtered.len() - 1;
        let np = if last - p >= SCROLL_COUNT {
            p + SCROLL_COUNT
        } else {
            last
        };
        let sel = self.filtered[np];
        proof {
            lemma_filtered_ids_props(self@.entries, self@.filter);
        }
        self.selected = sel;
    }

    /// Moves the cursor [`SCROLL_COUNT`] filtered positions up, clamped
    /// to the first position; does nothing on an empty filtered view.
    pub fn page_up(&mut self)
        requires
            old(self).wf(),
        ensures
            final(self).wf(),
            final(self)@ == step_page_up(old(self)@),
    {
        if self.filtered.len() == 0 {
            return ;
        }
        let p = self.selected_position();
        let np = if p >= SCROLL_COUNT {
            p - SCROLL_COUNT
        } else {
            0
        };
        let sel = self.filtered[np];
        proof {
            lemma_filtered_ids_props(self@.entries, self@.filter);
        }
        self.selected = sel;
    }

    /// Replaces the search filter and recomputes the filtered view from
    /// the unfiltered sequence, in memory, without consulting the
    /// backend and without moving the cursor.
    pub fn set_search_filter(&mut self, filter: Option<String>)
        requires
            old(self).wf(),
        ensures
            final(self).wf(),
            final(self)@ == (ExplorerV {
                filter: filter_view(filter),
                filtered: filtered_ids(old(self)@.entries, filter_view(filter)),
                ..old(self)@
            }),
    {
        self.filter = filter;
        let filtered = compute_filtered(&self.entries, &self.filter);
        self.filtered = filtered;
    }

    /// Selects the entry at a filtered position. Passing a position that
    /// is not below the filtered length is a contract violation, not a
    /// clamped or ignored input.
    pub fn set_selected_idx(&mut self, selected: usize)
        requires
            old(self).wf(),
            (selected as int) < old(self)@.filtered.len(),
        ensures
            final(self).wf(),
            final(self)@ == with_selected(old(self)@, old(self)@.filtered[selected as int]),
            sel_pos(final(self)@.filtered, final(self)@.selected) == selected as int,
    {
        let sel = self.filtered[selected];
        proof {
            lemma_filtered_ids_props(self@.entries, self@.filter);
            lemma_select_index_exact(self@, selected as int);
        }
        self.selected = sel;
    }

    /// Selects the first entry named `filename` and reports whether one
    /// was found; the state is unchanged when not.
    pub fn select_file(&mut self, filename: &str) -> (r: bool)
        requires
            old(self).wf(),
        ensures
            final(self).wf(),
            match find_name(old(self)@.entries, filename@) {
                Some(j) => r && final(self)@ == with_selected(old(self)@, j),
                None => !r && *final(self) == *old(self),
            },
    {
        let n = self.entries.len();
        let mut i: usize = 0;
        while i < n
            invariant
                i <= n,
                *self == *old(self),
                old(self).wf(),
                n == self.entries@.len(),
                forall|k: int| 0 <= k < i ==> self@.entries[k].name != filename@,
            decreases n - i,
        {
            if str_eq(self.entries[i].name.as_str(), filename) {
                proof {
                    lemma_find_name_first(self@.entries, filename@, i as int);
                }
                self.selected = i;
                return true;
            }
            i += 1;
        }
        proof {
            lemma_find_name_none(self@.entries, filename@);
        }
        false
    }

    /// The current directory.
    pub fn cwd(&self) -> (r: &String)
        ensures
            r@ == self@.cwd,
    {
        &self.cwd
    }

    /// Whether hidden entries are shown.
    pub fn show_hidden(&self) -> (r: bool)
        ensures
            r == self@.show_hidden,
    {
        self.show_hidden
    }

    /// The unfiltered entry sequence, the synthetic parent entry
    /// included.
    pub fn files(&self) -> (r: &Vec<FileEntry>)
        ensures
            entries_view(r@) == self@.entries,
    {
        &self.entries
    }

    /// The filtered view: the positions of the unfiltered sequence whose
    /// names match the search filter, in increasing order.
    pub fn filtered_indices(&self) -> (r: &Vec<usize>)
        ensures
            r@.map_values(|u: usize| u as int) == self@.filtered,
    {
        &self.filtered
    }

    /// The filtered entries themselves, in order: the entry at each
    /// filtered position.
    pub fn filtered_files(&self) -> (r: Vec<FileEntry>)
        requires
            self.wf(),
        ensures
            r@.len() == self@.filtered.len(),
            forall|k: int| 0 <= k < r@.len() ==> (#[trigger] r@[k])@ == self@.entries[self@.filtered[k]],
    {
        proof {
            lemma_filtered_ids_props(self@.entries, self@.filter);
        }
        let mut r: Vec<FileEntry> = Vec::new();
        let n = self.filtered.len();
        let mut i: usize = 0;
        while i < n
            invariant
                i <= n,
                self.wf(),
                n == self@.filtered.len(),
                forall|k: int|
                    0 <= k < self@.filtered.len() ==> 0 <= #[trigger] self@.filtered[k]
                        < self@.entries.len(),
                r@.len() == i,
                forall|k: int| 0 <= k < i ==> (#[trigger] r@[k])@ == self@.entries[self@.filtered[k]],
            decreases n - i,
        {
            proof {
                assert(0 <= self@.filtered[i as int] < self@.entries.len());
            }
            let copy = FileEntry::duplicate(&self.entries[self.filtered[i]]);
            r.push(copy);
            i += 1;
        }
        r
    }

    /// The cursor, in unfiltered coordinates.
    pub fn selected_idx(&self) -> (r: usize)
        ensures
            r as int == self@.selected,
    {
        self.selected
    }

    /// The selected entry.
    pub fn current(&self) -> (r: &FileEntry)
        requires
            self.wf(),
            self@.entries.len() > 0,
        ensures
            r@ == self@.entries[self@.selected],
    {
        &self.entries[self.selected]
    }

    /// The active search substring, if any.
    pub fn search_filter(&self) -> (r: &Option<String>)
        ensures
            filter_view(*r) == self@.filter,
    {
        &self.filter
    }

    /// The advisory scroll offset.
    pub fn scroll_offset(&self) -> (r: usize)
        ensures
            r as int == self@.scroll,
    {
        self.scroll
    }

    /// Stores the scroll offset a renderer reports back after layout.
    pub fn set_scroll_offset(&mut self, offset: usize)
        requires
            old(self).wf(),
        ensures
            final(self).wf(),
            final(self)@ == (ExplorerV { scroll: offset as int, ..old(self)@ }),
    {
        self.scroll = offset;
    }

    /// The marked paths.
    pub fn marked_paths(&self) -> (r: &Vec<String>)
        ensures
            r@.map_values(|s: String| s@) == self@.marked,
    {
        &self.marked
    }

    /// Replaces the marked-path set. Reloads never touch it; a marked
    /// path that no longer exists simply never matches any entry.
    pub fn set_marked_paths(&mut self, marked: Vec<String>)
        requires
            old(self).wf(),
        ensures
            final(self).wf(),
            final(self)@ == (ExplorerV {
                marked: marked@.map_values(|s: String| s@),
                ..old(self)@
            }),
    {
        self.marked = marked;
    }

    /// Creates an explorer bound to `filesystem`, showing `initial_path`
    /// with hidden entries not shown, no search filter, nothing marked.
    /// Fails, returning no explorer, when the initial directory cannot
    /// be listed.
    pub fn with_fs(filesystem: F, initial_path: String) -> (r: Result<FileExplorer<F>, FsError>)
        ensures
            r matches Ok(ex) ==> ex.wf() && exists|l: Seq<EntryV>| ex@ == #[trigger] initial_view(initial_path@, l),
    {
        let listing = match filesystem.read_dir(initial_path.as_str()) {
            Err(e) => {
                return Err(e);
            },
            Ok(l) => l,
        };
        let entries = build_entries(&listing, initial_path.as_str(), false);
        let filter: Option<String> = None;
        let filtered = compute_filtered(&entries, &filter);
        let ex = FileExplorer {
            filesystem,
            cwd: initial_path,
            entries,
            filtered,
            selected: 0,
            show_hidden: false,
            filter,
            marked: Vec::new(),
            scroll: 0,
        };
        proof {
            let lv = entries_view(listing@);
            assert(ex@.marked =~= Seq::<Seq<char>>::empty());
            assert(ex@ == initial_view(initial_path@, lv));
        }
        Ok(ex)
    }

    /// Sets the current directory and reloads it. All-or-nothing: on a
    /// backend failure the error is returned and nothing changes.
    pub fn set_cwd(&mut self, cwd: String) -> (r: Result<(), FsError>)
        requires
            old(self).wf(),
        ensures
            final(self).wf(),
            r is Err ==> *final(self) == *old(self),
            r is Ok ==> exists|l: Seq<EntryV>| final(self)@ == #[trigger] reloaded(old(self)@, cwd@, old(self)@.show_hidden, l, 0),
    {
        let listing = match self.filesystem.read_dir(cwd.as_str()) {
            Err(e) => {
                return Err(e);
            },
            Ok(l) => l,
        };
        let entries = build_entries(&listing, cwd.as_str(), self.show_hidden);
        let filtered = compute_filtered(&entries, &self.filter);
        self.cwd = cwd;
        self.entries = entries;
        self.filtered = filtered;
        self.selected = 0;
        proof {
            let lv = entries_view(listing@);
            assert(self@ == reloaded(old(self)@, self@.cwd, old(self)@.show_hidden, lv, 0));
        }
        Ok(())
    }

    /// Sets the hidden-file flag and reloads the current directory.
    /// All-or-nothing: on a backend failure the error is returned and
    /// nothing changes, the flag included.
    pub fn set_show_hidden(&mut self, show_hidden: bool) -> (r: Result<(), FsError>)
        requires
            old(self).wf(),
        ensures
            final(self).wf(),
            r is Err ==> *final(self) == *old(self),
            r is Ok ==> exists|l: Seq<EntryV>| final(self)@ == #[trigger] reloaded(old(self)@, old(self)@.cwd, show_hidden, l, 0),
    {
        let listing = match self.filesystem.read_dir(self.cwd.as_str()) {
            Err(e) => {
                return Err(e);
            },
            Ok(l) => l,
        };
        let entries = build_entries(&listing, self.cwd.as_str(), show_hidden);
        let filtered = compute_filtered(&entries, &self.filter);
        self.show_hidden = show_hidden;
        self.entries = entries;
        self.filtered = filtered;
        self.selected = 0;
        proof {
            let lv = entries_view(listing@);
            assert(self@ == reloaded(old(self)@, old(self)@.cwd, show_hidden, lv, 0));
        }
        Ok(())
    }

    /// Flips the hidden-file flag and reloads, by [`Self::set_show_hidden`].
    pub fn toggle_hidden(&mut self) -> (r: Result<(), FsError>)
        requires
            old(self).wf(),
        ensures
            final(self).wf(),
            r is Err ==> *final(self) == *old(self),
            r is Ok ==> exists|l: Seq<EntryV>| final(self)@ == #[trigger] toggled(old(self)@, l),
    {
        let show_hidden = !self.show_hidden;
        let r = self.set_show_hidden(show_hidden);
        proof {
            if r is Ok {
                let lw = choose|l: Seq<EntryV>|
                    self@ == #[trigger] reloaded(old(self)@, old(self)@.cwd, show_hidden, l, 0);
                assert(self@ == toggled(old(self)@, lw));
            }
        }
        r
    }

    /// Moves to the parent directory, if there is one, and re-selects
    /// the entry of the directory just left, when the fresh listing
    /// holds one of that name; a no-op at a root. All-or-nothing on
    /// failure.
    pub fn ascend(&mut self) -> (r: Result<(), FsError>)
        requires
            old(self).wf(),
        ensures
            final(self).wf(),
            r is Err ==> *final(self) == *old(self),
            parent_seq(old(self)@.cwd) is None ==> r is Ok && *final(self) == *old(self),
            r is Ok && parent_seq(old(self)@.cwd) is Some ==> exists|l: Seq<EntryV>|
                final(self)@ == #[trigger] ascended_from(old(self)@, l),
    {
        let parent = match parent_of(self.cwd.as_str()) {
            None => {
                return Ok(());
            },
            Some(p) => p,
        };
        let listing = match self.filesystem.read_dir(parent.as_str()) {
            Err(e) => {
                return Err(e);
            },
            Ok(l) => l,
        };
        let mut departed = last_component_of(self.cwd.as_str());
        departed.append("/");
        proof {
            reveal_strlit("/");
            assert("/"@ =~= seq!['/']);
            assert(departed@ == departed_name(old(self)@.cwd));
        }
        let entries = build_entries(&listing, parent.as_str(), self.show_hidden);
        let filtered = compute_filtered(&entries, &self.filter);
        let sel = index_of_name(&entries, departed.as_str());
        self.cwd = parent;
        self.entries = entries;
        self.filtered = filtered;
        self.selected = sel;
        proof {
            let lv = entries_view(listing@);
            assert(self@ == ascended(old(self)@, self@.cwd, lv));
            assert(parent_seq(old(self)@.cwd) == Some(self@.cwd));
            assert(self@ == ascended_from(old(self)@, lv));
        }
        Ok(())
    }

    /// Enters the selected directory: the cursor's entry becomes the
    /// current directory and is reloaded, with the first entry selected.
    /// A no-op when the cursor does not stand on a directory entry (or
    /// nothing is listed); all-or-nothing on failure.
    pub fn descend(&mut self) -> (r: Result<(), FsError>)
        requires
            old(self).wf(),
        ensures
            final(self).wf(),
            r is Err ==> *final(self) == *old(self),
            !can_descend(old(self)@) ==> r is Ok && *final(self) == *old(self),
            r is Ok && can_descend(old(self)@) ==> exists|l: Seq<EntryV>| final(self)@ == #[trigger] reloaded(
                    old(self)@,
                    old(self)@.entries[old(self)@.selected].path,
                    old(self)@.show_hidden,
                    l,
                    0,
                ),
    {
        if self.entries.len() == 0 {
            return Ok(());
        }
        if !self.entries[self.selected].is_dir {
            return Ok(());
        }
        let target = self.entries[self.selected].path.clone();
        let listing = match self.filesystem.read_dir(target.as_str()) {
            Err(e) => {
                return Err(e);
            },
            Ok(l) => l,
        };
        let entries = build_entries(&listing, target.as_str(), self.show_hidden);
        let filtered = compute_filtered(&entries, &self.filter);
        self.cwd = target;
        self.entries = entries;
        self.filtered = filtered;
        self.selected = 0;
        proof {
            let lv = entries_view(listing@);
            assert(self@ == reloaded(
                old(self)@,
                old(self)@.entries[old(self)@.selected].path,
                old(self)@.show_hidden,
                lv,
                0,
            ));
        }
        Ok(())
    }

    /// Deletes the selected entry through the backend and reloads,
    /// keeping the cursor where it was, clamped to the new end. A no-op
    /// when the cursor stands on a directory — directories are never
    /// deleted this way — or when nothing is listed; all-or-nothing on
    /// failure.
    pub fn delete_current(&mut self) -> (r: Result<(), FsError>)
        requires
            old(self).wf(),
        ensures
            final(self).wf(),
            r is Err ==> *final(self) == *old(self),
            !can_delete(old(self)@) ==> r is Ok && *final(self) == *old(self),
            r is Ok && can_delete(old(self)@) ==> exists|l: Seq<EntryV>| final(self)@ == #[trigger] deleted(old(self)@, l),
    {
        if self.entries.len() == 0 {
            return Ok(());
        }
        if self.entries[self.selected].is_dir {
            return Ok(());
        }
        let target = self.entries[self.selected].path.clone();
        match self.filesystem.delete(target.as_str()) {
            Err(e) => {
                return Err(e);
            },
            Ok(_) => {},
        }
        let listing = match self.filesystem.read_dir(self.cwd.as_str()) {
            Err(e) => {
                return Err(e);
            },
            Ok(l) => l,
        };
        let entries = build_entries(&listing, self.cwd.as_str(), self.show_hidden);
        let filtered = compute_filtered(&entries, &self.filter);
        let sel = if entries.len() == 0 {
            0
        } else if self.selected < entries.len() {
            self.selected
        } else {
            entries.len() - 1
        };
        self.entries = entries;
        self.filtered = filtered;
        self.selected = sel;
        proof {
            let lv = entries_view(listing@);
            assert(self@ == deleted(old(self)@, lv));
        }
        Ok(())
    }

    /// Applies one command: pure cursor movement never fails nor
    /// suspends; directory changes, the hidden-file toggle and deletion
    /// reload through the backend and are all-or-nothing — on failure
    /// the error is surfaced unchanged and the prior state is kept.
    pub fn handle(&mut self, cmd: Command) -> (r: Result<(), FsError>)
        requires
            old(self).wf(),
        ensures
            final(self).wf(),
            r is Err ==> *final(self) == *old(self),
            match cmd {
                Command::MoveUp => r is Ok && final(self)@ == step_up(old(self)@),
                Command::MoveDown => r is Ok && final(self)@ == step_down(old(self)@),
                Command::MoveHome => r is Ok && final(self)@ == step_home(old(self)@),
                Command::MoveEnd => r is Ok && final(self)@ == step_end(old(self)@),
                Command::PageUp => r is Ok && final(self)@ == step_page_up(old(self)@),
                Command::PageDown => r is Ok && final(self)@ == step_page_down(old(self)@),
                Command::Ascend => if parent_seq(old(self)@.cwd) is Some {
                    r is Ok ==> exists|l: Seq<EntryV>|
                        final(self)@ == #[trigger] ascended_from(old(self)@, l)
                } else {
                    r is Ok && *final(self) == *old(self)
                },
                Command::Descend => if can_descend(old(self)@) {
                    r is Ok ==> exists|l: Seq<EntryV>|
                        final(self)@ == #[trigger] reloaded(
                            old(self)@,
                            old(self)@.entries[old(self)@.selected].path,
                            old(self)@.show_hidden,
                            l,
                            0,
                        )
                } else {
                    r is Ok && *final(self) == *old(self)
                },
                Command::ToggleHidden => r is Ok ==> exists|l: Seq<EntryV>|
                    final(self)@ == #[trigger] toggled(old(self)@, l),
                Command::DeleteCurrent => if can_delete(old(self)@) {
                    r is Ok ==> exists|l: Seq<EntryV>| final(self)@ == #[trigger] deleted(old(self)@, l)
                } else {
                    r is Ok && *final(self) == *old(self)
                },
                Command::Noop => r is Ok && *final(self) == *old(self),
            },
    {
        match cmd {
            Command::MoveUp => {
                self.move_up();
                Ok(())
            },
            Command::MoveDown => {
                self.move_down();
                Ok(())
            },
            Command::MoveHome => {
                self.move_home();
                Ok(())
            },
            Command::MoveEnd => {
                self.move_end();
                Ok(())
            },
            Command::PageUp => {
                self.page_up();
                Ok(())
            },
            Command::PageDown => {
                self.page_down();
                Ok(())
            },
            Command::Ascend => self.ascend(),
            Command::Descend => self.descend(),
            Command::ToggleHidden => self.toggle_hidden(),
            Command::DeleteCurrent => self.delete_current(),
            Command::Noop => Ok(()),
        }
    }

    /// Whether a path is marked.
    pub fn is_marked(&self, path: &str) -> (r: bool)
        ensures
            r == self@.marked.contains(path@),
    {
        let n = self.marked.len();
        let mut i: usize = 0;
        while i < n
            invariant
                i <= n,
                n == self.marked@.len(),
                forall|k: int| 0 <= k < i ==> self@.marked[k] != path@,
            decreases n - i,
        {
            if str_eq(self.marked[i].as_str(), path) {
                proof {
                    assert(self@.marked[i as int] == path@);
                }
                return true;
            }
            i += 1;
        }
        false
    }
}

/// After every command the cursor is a valid unfiltered position
/// whenever entries exist: that is [`explorer_wf`], which every command
/// ensures; this spells its index clause out.
pub proof fn lemma_selected_in_bounds(v: ExplorerV)
    requires
        explorer_wf(v),
        v.entries.len() > 0,
    ensures
        0 <= v.selected < v.entries.len(),
{
}

/// Wraparound at the boundaries: moving down from the last filtered
/// position selects the first filtered entry, and moving up from the
/// first selects the last.
pub proof fn lemma_move_wraps(v: ExplorerV)
    requires
        explorer_wf(v),
        v.filtered.len() > 0,
    ensures
        sel_pos(v.filtered, v.selected) == v.filtered.len() - 1 ==> sel_pos(
            step_down(v).filtered,
            step_down(v).selected,
        ) == 0,
        sel_pos(v.filtered, v.selected) == 0 ==> sel_pos(step_up(v).filtered, step_up(v).selected)
            == v.filtered.len() - 1,
{
    lemma_filtered_ids_props(v.entries, v.filter);
    if sel_pos(v.filtered, v.selected) == v.filtered.len() - 1 {
        lemma_find_pos_first(v.filtered, v.filtered[0], 0);
    }
    if sel_pos(v.filtered, v.selected) == 0 {
        let last = v.filtered.len() - 1;
        assert(forall|k: int| 0 <= k < last ==> v.filtered[k] != v.filtered[last]);
        lemma_find_pos_first(v.filtered, v.filtered[last], last);
    }
}

/// With no search filter active, the filtered view is exactly the
/// unfiltered sequence: every position, in the same order, the same
/// length.
pub proof fn lemma_no_filter_whole_view(v: ExplorerV)
    requires
        explorer_wf(v),
        v.filter is None,
    ensures
        v.filtered.len() == v.entries.len(),
        forall|k: int| 0 <= k < v.filtered.len() ==> v.filtered[k] == k,
{
    lemma_no_filter_identity(v.entries);
}

/// Selecting a filtered position is exact, never clamped: the contract
/// of [`FileExplorer::set_selected_idx`] admits exactly the positions
/// below the filtered length — any other position is a contract
/// violation, which Verus rejects at every verified call site — and an
/// admitted position is attained as given: afterwards the cursor's
/// filtered position is that very position.
pub proof fn lemma_select_index_exact(v: ExplorerV, pos: int)
    requires
        explorer_wf(v),
        0 <= pos < v.filtered.len(),
    ensures
        ({
            let w = with_selected(v, v.filtered[pos]);
            sel_pos(w.filtered, w.selected) == pos
        }),
{
    lemma_filtered_ids_props(v.entries, v.filter);
    assert(forall|k: int| 0 <= k < pos ==> v.filtered[k] != v.filtered[pos]);
    lemma_find_pos_first(v.filtered, v.filtered[pos], pos);
}

/// Toggling hidden files and toggling back restores the unfiltered
/// sequence exactly — the same entries in the same order — provided the
/// backend hands back the same batch both times (no concurrent
/// filesystem mutation); the hypothesis says the current sequence came
/// from that batch.
pub proof fn lemma_toggle_twice_restores(v: ExplorerV, l: Seq<EntryV>)
    requires
        v.entries == build_listing(l, v.cwd, v.show_hidden),
    ensures
        toggled(toggled(v, l), l).entries == v.entries,
        toggled(toggled(v, l), l).cwd == v.cwd,
        toggled(toggled(v, l), l).show_hidden == v.show_hidden,
{
}

/// The shape of the unfiltered sequence after any reload whose batch
/// was sorted: the synthetic parent entry, when the directory has a
/// parent, is at position 0, and everything after it is sorted —
/// directories first, names ascending within each group.
pub proof fn lemma_reload_shape(
    v: ExplorerV,
    dir: Seq<char>,
    show_hidden: bool,
    listing: Seq<EntryV>,
    sel: int,
)
    requires
        sorted_entries(listing),
    ensures
        parent_seq(dir) matches Some(p) ==> reloaded(v, dir, show_hidden, listing, sel).entries[0]
            == parent_entry(p) && sorted_entries(
            reloaded(v, dir, show_hidden, listing, sel).entries.skip(1),
        ),
        parent_seq(dir) is None ==> sorted_entries(reloaded(v, dir, show_hidden, listing, sel).entries),
{
    lemma_build_listing_sorted(listing, dir, show_hidden);
}

/// Round trip of a descent and an ascent, on the paths: entering a
/// directory entry whose path is the current directory joined with its
/// name's stem and moving back up leads to the directory one started
/// in, and the name
/// the ascent remembers is exactly the entry's name — so the ascent
/// re-selects the entry descended into whenever the fresh listing holds
/// an entry of that name. The hypotheses rule out the root-shaped and
/// separator-bearing names for which no round trip exists.
pub proof fn lemma_descend_ascend_round_trip(cwd: Seq<char>, name: Seq<char>)
    requires
        cwd.len() > 0,
        cwd == seq!['/'] || cwd.last() != '/',
        name.len() > 0,
        name.last() == '/',
        stem_seq(name).len() > 0,
        forall|k: int| 0 <= k < stem_seq(name).len() ==> stem_seq(name)[k] != '/',
    ensures
        parent_seq(join_seq(cwd, stem_seq(name))) == Some(cwd),
        departed_name(join_seq(cwd, stem_seq(name))) == name,
{
    lemma_parent_of_join(cwd, stem_seq(name));
    assert(stem_seq(name) + seq!['/'] =~= name);
}

/// The full navigation round trip on states: from a well-formed state
/// whose cursor stands on a directory entry whose backend-reported path
/// is the current directory joined with its name's stem — the shape a
/// well-behaved backend reports — and whose name is ordinary,
/// descending (whatever batch `l1` the backend returns for the entered
/// directory) and then ascending (with batch `l2` for the directory
/// returned to) leads back to the original directory; and whenever the
/// fresh listing holds an entry named like the one descended into, the
/// ascent re-selects an entry of exactly that name. The hypotheses rule
/// out the inputs with no round trip: an entry whose path lacks the
/// `directory/name` shape, a directory path (other than the root)
/// ending in a separator, and an entry name that is empty, lacks its
/// trailing separator or carries one inside.
pub proof fn lemma_descend_ascend_state(v: ExplorerV, l1: Seq<EntryV>, l2: Seq<EntryV>)
    requires
        explorer_wf(v),
        can_descend(v),
        v.entries[v.selected].path == join_seq(v.cwd, stem_seq(v.entries[v.selected].name)),
        v.entries[v.selected].name.len() > 0,
        v.entries[v.selected].name.last() == '/',
        stem_seq(v.entries[v.selected].name).len() > 0,
        forall|k: int|
            0 <= k < stem_seq(v.entries[v.selected].name).len() ==> stem_seq(
                v.entries[v.selected].name,
            )[k] != '/',
        v.cwd.len() > 0,
        v.cwd == seq!['/'] || v.cwd.last() != '/',
    ensures
        ({
            let down = reloaded(v, v.entries[v.selected].path, v.show_hidden, l1, 0);
            let up = ascended_from(down, l2);
            &&& parent_seq(down.cwd) == Some(v.cwd)
            &&& up.cwd == v.cwd
            &&& (find_name(
                build_listing(l2, v.cwd, v.show_hidden),
                v.entries[v.selected].name,
            ) is Some ==> up.entries[up.selected].name == v.entries[v.selected].name)
        }),
{
    let name = v.entries[v.selected].name;
    lemma_descend_ascend_round_trip(v.cwd, name);
    let down = reloaded(v, v.entries[v.selected].path, v.show_hidden, l1, 0);
    assert(down.cwd == join_seq(v.cwd, stem_seq(name)));
    assert(departed_name(down.cwd) == name);
    if find_name(build_listing(l2, v.cwd, v.show_hidden), name) is Some {
        lemma_ascend_reselects(down, v.cwd, l2);
    }
}

/// When the listing seen by an ascent holds an entry named like the
/// directory just left, the ascent selects such an entry — the first of
/// that name.
pub proof fn lemma_ascend_reselects(v: ExplorerV, parent: Seq<char>, listing: Seq<EntryV>)
    requires
        find_name(build_listing(listing, parent, v.show_hidden), departed_name(v.cwd)) is Some,
    ensures
        ({
            let w = ascended(v, parent, listing);
            w.entries[w.selected].name == departed_name(v.cwd)
        }),
{
    lemma_find_name_props(build_listing(listing, parent, v.show_hidden), departed_name(v.cwd));
}

} // verus!
