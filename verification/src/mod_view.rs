//! The table of mods on the screen: what is looked for, what is selected, and moving
//! mods about.
use crate::actions;
use crate::actions::{also, log, no_actions, say, Action, ActionView, LogLevel};
use crate::dep_desk;
use crate::library;
use crate::library::{find_profile, Library, ProfileEntry};
use crate::mod_changes;
use crate::mod_table;
use crate::mod_table::{mod_sort_next_column, table_indices, ModSort, SortDirection};
use crate::rank_order;
use crate::rank_state::SmartRankRefreshMode;
use crate::text;
use crate::text::{concat3, is_blank, same_text, trim};
use vstd::prelude::*;

verus! {

/// The table of mods on the screen.
pub struct ModView {
    /// Which row is selected.
    pub selected: usize,
    /// What is looked for.
    pub filter: String,
    /// What was looked for before the search was begun.
    pub snapshot: Option<String>,
    pub sort: ModSort,
    /// Whether the arrows move the selected mod, and whether they did.
    pub move_mode: bool,
    pub move_dirty: bool,
    /// How many rows there is room for.
    pub height: usize,
}

/// The load order of the active profile.
pub open spec fn active_order(library: Library) -> Seq<ProfileEntry> {
    library.profiles@[mod_changes::active_place(library)].order@
}

/// Which entries of the active profile are shown, from the top.
pub open spec fn rows(
    library: Library,
    filter: Seq<char>,
    sort: ModSort,
    loading: bool,
) -> Seq<int> {
    if mod_changes::active_place(library) < 0 {
        Seq::empty()
    } else {
        mod_table::indices_of(
            mod_table::table(active_order(library), library.mods@, filter, sort, loading),
        )
    }
}

/// Whether a row is the first of the mod with an id.
pub open spec fn is_row_of(
    rows: Seq<int>,
    order: Seq<ProfileEntry>,
    id: Seq<char>,
    k: int,
) -> bool {
    &&& 0 <= k < rows.len()
    &&& order[rows[k]].id@ == id
    &&& forall|j: int| 0 <= j < k ==> order[#[trigger] rows[j]].id@ != id
}

pub open spec fn has_row(rows: Seq<int>, order: Seq<ProfileEntry>, id: Seq<char>) -> bool {
    exists|k: int| 0 <= k < rows.len() && order[#[trigger] rows[k]].id@ == id
}

/// Whether the row of a mod is selected, or the first one where the mod is not shown.
pub open spec fn selects(
    selected: int,
    rows: Seq<int>,
    order: Seq<ProfileEntry>,
    id: Option<Seq<char>>,
) -> bool {
    match id {
        Some(t) => if has_row(rows, order, t) {
            is_row_of(rows, order, t, selected)
        } else {
            selected == 0
        },
        None => selected == 0,
    }
}

pub open spec fn sort_line(sort: ModSort) -> Seq<char> {
    "Sort: "@ + mod_table::column_name(sort.column) + " ("@ + mod_table::direction_name(
        sort.direction,
    ) + ")"@
}

fn say_sort(sort: ModSort) -> (out: Vec<Action>)
    ensures
        actions::action_views(out@) == seq![ActionView::Status(sort_line(sort))],
{
    let mut out = no_actions();
    let mut line = concat3("Sort: ", sort.column_label(), " (");
    line.append(sort.direction_label());
    line.append(")");
    say(&mut out, line.as_str());
    assert(actions::action_views(out@) =~= seq![ActionView::Status(sort_line(sort))]);
    out
}

/// What is said of a new search.
pub open spec fn filter_says(filter: Seq<char>) -> Seq<ActionView> {
    let line = if filter.len() == 0 {
        "Search cleared"@
    } else {
        "Search set: \""@ + filter + "\""@
    };
    seq![ActionView::Status(line), ActionView::Log(LogLevel::Info, line)]
}

/// A view with another search, and the selected mod still selected where it is shown.
pub open spec fn filtered(
    after: ModView,
    before: ModView,
    library: Library,
    loading: bool,
    value: Seq<char>,
) -> bool {
    &&& after == (ModView { filter: after.filter, selected: after.selected, ..before })
    &&& after.filter@ == text::trimmed(value)
    &&& selects(
        after.selected as int,
        after.shown(library, loading),
        active_order(library),
        before.chosen_id(library, loading),
    )
}

/// The order with two entries exchanged.
pub open spec fn swapped(order: Seq<ProfileEntry>, i: int, j: int) -> Seq<ProfileEntry> {
    order.update(i, order[j]).update(j, order[i])
}

pub(crate) fn swap_entries(order: &mut Vec<ProfileEntry>, i: usize, j: usize)
    requires
        i < old(order)@.len(),
        j < old(order)@.len(),
    ensures
        final(order)@ == swapped(old(order)@, i as int, j as int),
{
    let a = order[i].clone();
    let b = order[j].clone();
    order[i] = b;
    order[j] = a;
    assert(order@ =~= swapped(old(order)@, i as int, j as int));
}

/// What follows from a new order.
pub open spec fn reorder_says() -> Seq<ActionView> {
    seq![
        ActionView::RefreshRanking(SmartRankRefreshMode::ReorderOnly, "order changed"@),
        ActionView::Deploy("order changed"@),
    ]
}

fn say_reordered(out: &mut Vec<Action>)
    ensures
        actions::action_views(final(out)@) == actions::action_views(old(out)@) + reorder_says(),
{
    also(
        out,
        Action::RefreshRanking(SmartRankRefreshMode::ReorderOnly, "order changed".to_owned()),
    );
    also(out, Action::Deploy("order changed".to_owned()));
    assert(actions::action_views(out@) =~= actions::action_views(old(out)@) + reorder_says());
}

impl ModView {
    pub open spec fn shown(self, library: Library, loading: bool) -> Seq<int> {
        rows(library, self.filter@, self.sort, loading)
    }

    /// The entry that is selected.
    pub open spec fn chosen(self, library: Library, loading: bool) -> Option<int> {
        let r = self.shown(library, loading);
        if self.selected < r.len() {
            Some(r[self.selected as int])
        } else {
            None
        }
    }

    /// The id of the mod that is selected.
    pub open spec fn chosen_id(self, library: Library, loading: bool) -> Option<Seq<char>> {
        match self.chosen(library, loading) {
            Some(i) => Some(active_order(library)[i].id@),
            None => None,
        }
    }

    pub fn new() -> (r: Self)
        ensures
            r.selected == 0,
            r.filter@.len() == 0,
            r.snapshot is None,
            r.sort.column == mod_table::ModSortColumn::Order,
            r.sort.direction == SortDirection::Asc,
            !r.move_mode,
            !r.move_dirty,
            r.height == 0,
    {
        ModView {
            selected: 0,
            filter: String::new(),
            snapshot: None,
            sort: ModSort::default(),
            move_mode: false,
            move_dirty: false,
            height: 0,
        }
    }

    /// Which entries of the active profile are shown, from the top.
    pub fn visible_profile_indices(&self, library: &Library, loading: bool) -> (out: Vec<usize>)
        ensures
            rank_order::as_ints(out@) == self.shown(*library, loading),
            mod_changes::active_place(*library) < 0 ==> out@.len() == 0,
            forall|i: int|
                0 <= i < out@.len() ==> (#[trigger] out@[i]) < active_order(*library).len(),
    {
        proof {
            library::lemma_profile_index(library.profiles@, library.active_profile@);
        }
        match find_profile(&library.profiles, library.active_profile.as_str()) {
            Some(at) => {
                let index = library.index_by_id();
                table_indices(
                    &library.profiles[at].order,
                    &library.mods,
                    &index,
                    self.filter.as_str(),
                    self.sort,
                    loading,
                )
            },
            None => {
                let out: Vec<usize> = Vec::new();
                assert(rank_order::as_ints(out@) =~= Seq::<int>::empty());
                out
            },
        }
    }

    /// The entries that are shown, and where they stand.
    pub fn visible_profile_entries(&self, library: &Library, loading: bool) -> (out: Vec<
        (usize, ProfileEntry),
    >)
        ensures
            out@.len() == self.shown(*library, loading).len(),
            forall|i: int|
                0 <= i < out@.len() ==> (#[trigger] out@[i]).0 == self.shown(*library, loading)[i]
                    && out@[i].1 == active_order(*library)[out@[i].0 as int],
    {
        let places = self.visible_profile_indices(library, loading);
        let ghost r = self.shown(*library, loading);
        let mut out: Vec<(usize, ProfileEntry)> = Vec::new();
        proof {
            library::lemma_profile_index(library.profiles@, library.active_profile@);
        }
        assert(rank_order::as_ints(places@).len() == places@.len());
        if let Some(at) = find_profile(&library.profiles, library.active_profile.as_str()) {
            let order = &library.profiles[at].order;
            let mut i: usize = 0;
            while i < places.len()
                invariant
                    i <= places.len(),
                    out@.len() == i,
                    rank_order::as_ints(places@) == r,
                    order@ == active_order(*library),
                    forall|k: int| 0 <= k < places@.len() ==> (#[trigger] places@[k]) < order@.len(),
                    forall|k: int|
                        0 <= k < i ==> (#[trigger] out@[k]).0 == r[k] && out@[k].1
                            == order@[out@[k].0 as int],
                decreases places.len() - i,
            {
                assert(r[i as int] == places@[i as int]);
                out.push((places[i], order[places[i]].clone()));
                i = i + 1;
            }
        }
        out
    }

    pub fn selected_profile_index(&self, library: &Library, loading: bool) -> (r: Option<usize>)
        ensures
            match r {
                Some(i) => self.chosen(*library, loading) == Some(i as int)
                    && mod_changes::active_place(*library) >= 0 && i < active_order(*library).len(),
                None => self.chosen(*library, loading) is None,
            },
    {
        let places = self.visible_profile_indices(library, loading);
        assert(rank_order::as_ints(places@).len() == places@.len());
        if self.selected < places.len() {
            assert(rank_order::as_ints(places@)[self.selected as int] == places@[self.selected as int]);
            Some(places[self.selected])
        } else {
            None
        }
    }

    pub fn selected_profile_id(&self, library: &Library, loading: bool) -> (r: Option<String>)
        ensures
            text::text_opt(r) == self.chosen_id(*library, loading),
    {
        proof {
            library::lemma_profile_index(library.profiles@, library.active_profile@);
        }
        match self.selected_profile_index(library, loading) {
            Some(i) => match find_profile(&library.profiles, library.active_profile.as_str()) {
                Some(at) => Some(library.profiles[at].order[i].id.clone()),
                None => None,
            },
            None => None,
        }
    }

    pub fn mod_filter_active(&self) -> (r: bool)
        ensures
            r == (text::trimmed(self.filter@).len() > 0),
    {
        !is_blank(self.filter.as_str())
    }

    /// Keeps the selection inside the table.
    pub fn clamp_selection(&mut self, library: &Library, loading: bool)
        ensures
            *final(self) == (ModView { selected: final(self).selected, ..*old(self) }),
            final(self).selected == dep_desk::clamped(
                old(self).selected as int,
                old(self).shown(*library, loading).len() as int,
            ),
    {
        let places = self.visible_profile_indices(library, loading);
        assert(rank_order::as_ints(places@).len() == places@.len());
        if places.is_empty() {
            self.selected = 0;
        } else if self.selected >= places.len() {
            self.selected = places.len() - 1;
        }
    }

    /// Selects the row of a mod, or the first one where the mod is not shown.
    pub fn reselect_mod_by_id(&mut self, library: &Library, loading: bool, id: &Option<String>)
        ensures
            *final(self) == (ModView { selected: final(self).selected, ..*old(self) }),
            selects(
                final(self).selected as int,
                old(self).shown(*library, loading),
                active_order(*library),
                text::text_opt(*id),
            ),
    {
        let places = self.visible_profile_indices(library, loading);
        let ghost r = self.shown(*library, loading);
        let ghost order = active_order(*library);
        self.selected = 0;
        proof {
            library::lemma_profile_index(library.profiles@, library.active_profile@);
            assert(r.len() == places@.len());
        }
        if let Some(t) = id {
            if let Some(at) = find_profile(&library.profiles, library.active_profile.as_str()) {
                let entries = &library.profiles[at].order;
                let mut i: usize = 0;
                while i < places.len()
                    invariant
                        i <= places.len(),
                        rank_order::as_ints(places@) == r,
                        r.len() == places@.len(),
                        entries@ == order,
                        forall|k: int| 0 <= k < places@.len() ==> (#[trigger] places@[k]) < order.len(),
                        forall|k: int| 0 <= k < i ==> order[#[trigger] r[k]].id@ != t@,
                        *self == (ModView { selected: 0, ..*old(self) }),
                        *id == Some(*t),
                        r == old(self).shown(*library, loading),
                        order == active_order(*library),
                    decreases places.len() - i,
                {
                    assert(r[i as int] == places@[i as int]);
                    if same_text(entries[places[i]].id.as_str(), t.as_str()) {
                        self.selected = i;
                        assert(is_row_of(r, order, t@, i as int));
                        assert(has_row(r, order, t@));
                        return;
                    }
                    i = i + 1;
                }
            }
        }
    }

    /// Sorts by the next column, or the one before.
    pub fn cycle_mod_sort_column(&mut self, library: &Library, loading: bool, direction: i32) -> (
    out: Vec<Action>)
        ensures
            ({
                let column = mod_table::next_column(old(self).sort.column, direction as int);
                if column == old(self).sort.column {
                    *final(self) == *old(self) && out@.len() == 0
                } else {
                    &&& *final(self) == (ModView {
                        sort: ModSort { column, ..old(self).sort },
                        move_mode: false,
                        selected: final(self).selected,
                        ..*old(self)
                    })
                    &&& selects(
                        final(self).selected as int,
                        final(self).shown(*library, loading),
                        active_order(*library),
                        old(self).chosen_id(*library, loading),
                    )
                    &&& actions::action_views(out@) == seq![
                        ActionView::Status(sort_line(final(self).sort)),
                    ]
                }
            }),
    {
        let id = self.selected_profile_id(library, loading);
        let column = mod_sort_next_column(self.sort.column, direction);
        if column == self.sort.column {
            return no_actions();
        }
        self.sort = ModSort { column, direction: self.sort.direction };
        self.move_mode = false;
        self.reselect_mod_by_id(library, loading, &id);
        say_sort(self.sort)
    }

    /// Sorts the other way round.
    pub fn toggle_mod_sort_direction(&mut self, library: &Library, loading: bool) -> (out: Vec<
        Action,
    >)
        ensures
            *final(self) == (ModView {
                sort: ModSort {
                    direction: match old(self).sort.direction {
                        SortDirection::Asc => SortDirection::Desc,
                        SortDirection::Desc => SortDirection::Asc,
                    },
                    ..old(self).sort
                },
                move_mode: false,
                selected: final(self).selected,
                ..*old(self)
            }),
            selects(
                final(self).selected as int,
                final(self).shown(*library, loading),
                active_order(*library),
                old(self).chosen_id(*library, loading),
            ),
            actions::action_views(out@) == seq![ActionView::Status(sort_line(final(self).sort))],
    {
        let id = self.selected_profile_id(library, loading);
        let direction = match self.sort.direction {
            SortDirection::Asc => SortDirection::Desc,
            SortDirection::Desc => SortDirection::Asc,
        };
        self.sort = ModSort { column: self.sort.column, direction };
        self.move_mode = false;
        self.reselect_mod_by_id(library, loading, &id);
        say_sort(self.sort)
    }

    /// Looks for something else.
    pub fn apply_mod_filter(
        &mut self,
        library: &Library,
        loading: bool,
        value: &str,
        announce: bool,
    ) -> (out: Vec<Action>)
        ensures
            filtered(*final(self), *old(self), *library, loading, value@),
            actions::action_views(out@) == if announce {
                filter_says(text::trimmed(value@))
            } else {
                Seq::empty()
            },
    {
        let id = self.selected_profile_id(library, loading);
        self.filter = trim(value);
        self.reselect_mod_by_id(library, loading, &id);
        let mut out = no_actions();
        if announce {
            let line = if self.filter.as_str().is_empty() {
                "Search cleared".to_owned()
            } else {
                concat3("Search set: \"", self.filter.as_str(), "\"")
            };
            say(&mut out, line.as_str());
            log(&mut out, LogLevel::Info, line.as_str());
            assert(actions::action_views(out@) =~= filter_says(text::trimmed(value@)));
        }
        out
    }

    /// Goes back to what was looked for before.
    pub fn cancel_mod_filter(&mut self, library: &Library, loading: bool)
        ensures
            match old(self).snapshot {
                Some(s) => if s@ == old(self).filter@ {
                    *final(self) == (ModView { snapshot: None, ..*old(self) })
                } else {
                    filtered(
                        *final(self),
                        (ModView { snapshot: None, ..*old(self) }),
                        *library,
                        loading,
                        s@,
                    )
                },
                None => *final(self) == *old(self),
            },
    {
        if let Some(s) = self.snapshot.take() {
            if !same_text(s.as_str(), self.filter.as_str()) {
                self.apply_mod_filter(library, loading, s.as_str(), false);
            }
        }
    }

    /// Looks for nothing in particular any more.
    pub fn clear_mod_filter(&mut self, library: &Library, loading: bool) -> (out: Vec<Action>)
        ensures
            if text::trimmed(old(self).filter@).len() == 0 {
                *final(self) == *old(self) && actions::action_views(out@) == seq![
                    ActionView::Status("Search already cleared"@),
                ]
            } else {
                &&& filtered(
                    *final(self),
                    (ModView { snapshot: None, ..*old(self) }),
                    *library,
                    loading,
                    ""@,
                )
                &&& actions::action_views(out@) == filter_says(Seq::empty())
            },
    {
        if is_blank(self.filter.as_str()) {
            let mut out = no_actions();
            say(&mut out, "Search already cleared");
            assert(actions::action_views(out@) =~= seq![
                ActionView::Status("Search already cleared"@),
            ]);
            return out;
        }
        self.snapshot = None;
        proof {
            reveal_strlit("");
            assert(text::trimmed(""@) =~= Seq::<char>::empty());
        }
        self.apply_mod_filter(library, loading, "", true)
    }

    /// Ends a search with what was entered.
    pub fn submit_mod_filter(&mut self, library: &Library, loading: bool, value: &str) -> (out: Vec<
        Action,
    >)
        ensures
            filtered(
                (ModView { snapshot: old(self).snapshot, ..*final(self) }),
                *old(self),
                *library,
                loading,
                value@,
            ),
            final(self).snapshot is None,
            actions::action_views(out@) == filter_says(text::trimmed(value@)),
    {
        let out = self.apply_mod_filter(library, loading, value, true);
        self.snapshot = None;
        out
    }

    /// How far a page goes.
    pub open spec fn page(self) -> int {
        if self.height <= 2 {
            1
        } else {
            self.height - 1
        }
    }

    pub fn page_mods_up(&mut self)
        ensures
            *final(self) == (ModView { selected: final(self).selected, ..*old(self) }),
            final(self).selected == if old(self).move_mode {
                old(self).selected as int
            } else if old(self).selected < old(self).page() {
                0
            } else {
                old(self).selected - old(self).page()
            },
    {
        if self.move_mode {
            return;
        }
        let page: usize = if self.height <= 2 {
            1
        } else {
            self.height - 1
        };
        self.selected = self.selected.saturating_sub(page);
    }

    pub fn page_mods_down(&mut self)
        ensures
            *final(self) == (ModView { selected: final(self).selected, ..*old(self) }),
            final(self).selected == if old(self).move_mode {
                old(self).selected as int
            } else if old(self).selected + old(self).page() > usize::MAX {
                usize::MAX as int
            } else {
                old(self).selected + old(self).page()
            },
    {
        if self.move_mode {
            return;
        }
        let page: usize = if self.height <= 2 {
            1
        } else {
            self.height - 1
        };
        self.selected = self.selected.saturating_add(page);
    }

    /// Moves the selection by some rows, as far as the table goes.
    pub fn jump_mod_selection(&mut self, library: &Library, loading: bool, delta: isize)
        ensures
            *final(self) == (ModView { selected: final(self).selected, ..*old(self) }),
            final(self).selected == if old(self).move_mode {
                old(self).selected as int
            } else {
                dep_desk::clamped(
                    old(self).selected + delta,
                    old(self).shown(*library, loading).len() as int,
                )
            },
    {
        if self.move_mode {
            return;
        }
        let places = self.visible_profile_indices(library, loading);
        assert(rank_order::as_ints(places@).len() == places@.len());
        let to: i128 = self.selected as i128 + delta as i128;
        if places.is_empty() || to < 0 {
            self.selected = 0;
        } else if to >= places.len() as i128 {
            self.selected = places.len() - 1;
        } else {
            self.selected = to as usize;
        }
    }

    /// Lets the arrows move the selected mod, or no longer.
    pub fn toggle_move_mode(&mut self) -> (out: Vec<Action>)
        ensures
            *final(self) == (ModView {
                move_mode: !old(self).move_mode,
                move_dirty: false,
                ..*old(self)
            }),
            actions::action_views(out@) == if !old(self).move_mode {
                seq![ActionView::Status("Move mode: use arrows to reorder, Enter/Esc to exit"@)]
            } else if old(self).move_dirty {
                seq![ActionView::Status("Move mode disabled"@)] + reorder_says()
            } else {
                seq![ActionView::Status("Move mode disabled"@)]
            },
    {
        let mut out = no_actions();
        if self.move_mode {
            self.move_mode = false;
            say(&mut out, "Move mode disabled");
            assert(actions::action_views(out@) =~= seq![ActionView::Status("Move mode disabled"@)]);
            if self.move_dirty {
                self.move_dirty = false;
                say_reordered(&mut out);
            }
        } else {
            self.move_mode = true;
            self.move_dirty = false;
            say(&mut out, "Move mode: use arrows to reorder, Enter/Esc to exit");
            assert(actions::action_views(out@) =~= seq![
                ActionView::Status("Move mode: use arrows to reorder, Enter/Esc to exit"@),
            ]);
        }
        out
    }

    /// Whether the mods of two rows have been exchanged, and the selection has gone
    /// with the one that was selected.
    pub open spec fn moved(
        after: ModView,
        before: ModView,
        new: Library,
        old: Library,
        loading: bool,
        to: int,
        says: Seq<ActionView>,
    ) -> bool {
        let r = before.shown(old, loading);
        &&& after == (ModView {
            selected: to as usize,
            move_dirty: before.move_dirty || before.move_mode,
            ..before
        })
        &&& mod_changes::with_active_order(
            new,
            old,
            swapped(active_order(old), r[before.selected as int], r[to]),
            old.modsettings_sync_enabled,
        )
        &&& says == if before.move_mode {
            Seq::empty()
        } else {
            reorder_says()
        }
    }

    fn move_to(&mut self, library: &mut Library, from: usize, with: usize, to: usize) -> (out: Vec<
        Action,
    >)
        requires
            mod_changes::active_place(*old(library)) >= 0,
            from < active_order(*old(library)).len(),
            with < active_order(*old(library)).len(),
        ensures
            *final(self) == (ModView {
                selected: to,
                move_dirty: old(self).move_dirty || old(self).move_mode,
                ..*old(self)
            }),
            mod_changes::with_active_order(
                *final(library),
                *old(library),
                swapped(active_order(*old(library)), from as int, with as int),
                old(library).modsettings_sync_enabled,
            ),
            actions::action_views(out@) == if old(self).move_mode {
                Seq::empty()
            } else {
                reorder_says()
            },
    {
        proof {
            library::lemma_profile_index(library.profiles@, library.active_profile@);
        }
        let mut out = no_actions();
        if let Some(at) = find_profile(&library.profiles, library.active_profile.as_str()) {
            swap_entries(&mut library.profiles[at].order, from, with);
        }
        self.selected = to;
        if self.move_mode {
            self.move_dirty = true;
        } else {
            say_reordered(&mut out);
            assert(actions::action_views(out@) =~= reorder_says());
        }
        out
    }

    /// Moves the selected mod one row up.
    pub fn move_selected_up(&mut self, library: &mut Library, loading: bool) -> (out: Vec<Action>)
        ensures
            if 0 < old(self).selected < old(self).shown(*old(library), loading).len() {
                ModView::moved(
                    *final(self),
                    *old(self),
                    *final(library),
                    *old(library),
                    loading,
                    old(self).selected - 1,
                    actions::action_views(out@),
                )
            } else {
                *final(self) == *old(self) && *final(library) == *old(library) && out@.len() == 0
            },
    {
        let places = self.visible_profile_indices(library, loading);
        let ghost r = rank_order::as_ints(places@);
        assert(r.len() == places@.len());
        if self.selected == 0 || self.selected >= places.len() {
            return no_actions();
        }
        let at = self.selected;
        assert(r[at as int] == places@[at as int] && r[at - 1] == places@[at - 1]);
        self.move_to(library, places[at], places[at - 1], at - 1)
    }

    /// Moves the selected mod one row down.
    pub fn move_selected_down(&mut self, library: &mut Library, loading: bool) -> (out: Vec<Action>)
        ensures
            if old(self).selected + 1 < old(self).shown(*old(library), loading).len() {
                ModView::moved(
                    *final(self),
                    *old(self),
                    *final(library),
                    *old(library),
                    loading,
                    old(self).selected + 1,
                    actions::action_views(out@),
                )
            } else {
                *final(self) == *old(self) && *final(library) == *old(library) && out@.len() == 0
            },
    {
        let places = self.visible_profile_indices(library, loading);
        let ghost r = rank_order::as_ints(places@);
        assert(r.len() == places@.len());
        if places.len() < 2 || self.selected >= places.len() - 1 {
            return no_actions();
        }
        let at = self.selected;
        assert(r[at as int] == places@[at as int] && r[at + 1] == places@[at + 1]);
        self.move_to(library, places[at], places[at + 1], at + 1)
    }
}

/// How many mods the active profile lists, and how many are switched on.
pub fn profile_counts(library: &Library) -> (r: (usize, usize))
    ensures
        r == if mod_changes::active_place(*library) < 0 {
            (0usize, 0usize)
        } else {
            (
                active_order(*library).len() as usize,
                on_count(active_order(*library), active_order(*library).len() as int) as usize,
            )
        },
{
    proof {
        library::lemma_profile_index(library.profiles@, library.active_profile@);
    }
    let at = match find_profile(&library.profiles, library.active_profile.as_str()) {
        Some(at) => at,
        None => return (0, 0),
    };
    let order = &library.profiles[at].order;
    let mut on: usize = 0;
    let mut i: usize = 0;
    while i < order.len()
        invariant
            i <= order.len(),
            on <= i,
            on == on_count(order@, i as int),
        decreases order.len() - i,
    {
        if order[i].enabled {
            on = on + 1;
        }
        i = i + 1;
    }
    (order.len(), on)
}

/// How many of the first `n` entries are switched on.
pub open spec fn on_count(order: Seq<ProfileEntry>, n: int) -> nat
    decreases n,
{
    if n <= 0 {
        0
    } else {
        on_count(order, n - 1) + if order[n - 1].enabled {
            1nat
        } else {
            0nat
        }
    }
}

/// A table that is sorted another way keeps its selected mod.
pub proof fn law_sorting_keeps_selection(
    library: Library,
    before: ModView,
    after: ModView,
    loading: bool,
)
    requires
        before.filter@ == after.filter@,
        before.chosen_id(library, loading) is Some,
        selects(
            after.selected as int,
            after.shown(library, loading),
            active_order(library),
            before.chosen_id(library, loading),
        ),
    ensures
        after.chosen_id(library, loading) == before.chosen_id(library, loading),
{
    let order = active_order(library);
    let f = before.filter@;
    let a = mod_table::table(order, library.mods@, f, before.sort, loading);
    let b = mod_table::table(order, library.mods@, f, after.sort, loading);
    mod_table::law_sorting_hides_nothing(order, library.mods@, f, before.sort);
    mod_table::law_sorting_hides_nothing(order, library.mods@, f, after.sort);
    assert(a.to_multiset() == b.to_multiset());
    let k = before.selected as int;
    a.to_multiset_ensures();
    b.to_multiset_ensures();
    assert(a.contains(a[k]));
    assert(a.to_multiset().count(a[k]) > 0);
    assert(b.contains(a[k]));
    let j = choose|j: int| 0 <= j < b.len() && b[j] == a[k];
    assert(after.shown(library, loading)[j] == before.shown(library, loading)[k]);
}

/// Exchanging two mods twice changes nothing.
pub proof fn law_swap_twice(order: Seq<ProfileEntry>, i: int, j: int)
    requires
        0 <= i < order.len(),
        0 <= j < order.len(),
    ensures
        swapped(swapped(order, i, j), j, i) == order,
{
    assert(swapped(swapped(order, i, j), j, i) =~= order);
}

} // verus!
