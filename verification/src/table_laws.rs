//! What holds of the table of mods: which rows it has, and how they are ordered.
use crate::library;
use crate::library::{ModEntry, ModSource, ProfileEntry};
use crate::lists;
use crate::mod_table;
use crate::mod_table::{ModSort, ModSortColumn, RowView, SortDirection};
use crate::sorting;
use crate::text;
use vstd::prelude::*;

verus! {

/// Whether a filter stands in a text, whatever the case.
pub open spec fn stands_in(filter: Seq<char>, s: Seq<char>) -> bool {
    text::contains_text(
        text::unicode_lowercase(s),
        text::unicode_lowercase(text::trimmed(filter)),
    )
}

/// A filter without words lets every mod through; another lets those through that have it
/// in the name that is shown, in their own name, id or label, and the game's mods under
/// `native` and `mod.io`.
pub proof fn law_filter_by_names(m: ModEntry, filter: Seq<char>)
    ensures
        text::trimmed(filter).len() == 0 ==> mod_table::matches_filter(m, filter),
        text::trimmed(filter).len() > 0 ==> (mod_table::matches_filter(m, filter) <==> {
            ||| stands_in(filter, m.shown_name())
            ||| stands_in(filter, m.name@)
            ||| stands_in(filter, m.id@)
            ||| (m.source_label matches Some(l) && stands_in(filter, l@))
            ||| m.source == ModSource::Native && stands_in(filter, "native"@)
            ||| m.source == ModSource::Native && stands_in(filter, "mod.io"@)
        }),
{
}

/// The mod of the entry at a place.
pub open spec fn mod_at(order: Seq<ProfileEntry>, mods: Seq<ModEntry>, place: int) -> ModEntry {
    mods[library::last_index(mods, order[place].id@)]
}

/// The table has a row for each entry whose mod is there and passes the filter, and for no
/// other.
pub proof fn law_rows_are_the_shown(
    order: Seq<ProfileEntry>,
    mods: Seq<ModEntry>,
    filter: Seq<char>,
    s: ModSort,
    loading: bool,
    place: int,
)
    requires
        0 <= place < order.len(),
    ensures
        mod_table::indices_of(mod_table::table(order, mods, filter, s, loading)).contains(place)
            <==> library::mod_ids(mods).contains(order[place].id@) && (text::trimmed(filter).len()
            == 0 || mod_table::matches_filter(
            mod_at(order, mods, place),
            text::unicode_lowercase(text::trimmed(filter)),
        )),
{
    let f = mod_table::filter_of(filter);
    let rows = mod_table::shown_rows(order, mods, f, order.len() as int);
    let t = mod_table::table(order, mods, filter, s, loading);
    library::lemma_last_index(mods, order[place].id@);
    lemma_rows(order, mods, f, order.len() as int, place);
    let all = mod_table::indices_of(rows);
    let now = mod_table::indices_of(t);
    if !loading {
        let before = mod_table::row_before(s);
        if now.contains(place) {
            let k = choose|k: int| 0 <= k < now.len() && now[k] == place;
            sorting::lemma_ranking_members(rows, before, k);
            let j = choose|j: int| 0 <= j < rows.len() && rows[j] == t[k];
            assert(all[j] == place);
        }
        if all.contains(place) {
            let j = choose|j: int| 0 <= j < all.len() && all[j] == place;
            sorting::lemma_in_ranking(rows, before, rows[j]);
            let k = choose|k: int| 0 <= k < t.len() && t[k] == rows[j];
            assert(now[k] == place);
        }
    }
}

proof fn lemma_rows(
    order: Seq<ProfileEntry>,
    mods: Seq<ModEntry>,
    f: Option<Seq<char>>,
    n: int,
    place: int,
)
    requires
        0 <= n <= order.len(),
    ensures
        mod_table::indices_of(mod_table::shown_rows(order, mods, f, n)).contains(place) <==> 0
            <= place < n && mod_table::is_shown(order, mods, f, place),
    decreases n,
{
    if n > 0 {
        lemma_rows(order, mods, f, n - 1, place);
        let before = mod_table::shown_rows(order, mods, f, n - 1);
        let here = mod_table::row_of(order, mods, n - 1);
        assert(mod_table::indices_of(before.push(here)) =~= mod_table::indices_of(before).push(
            n - 1,
        ));
        lists::lemma_push_contains(mod_table::indices_of(before), n - 1, place);
    } else {
        assert(mod_table::indices_of(mod_table::shown_rows(order, mods, f, n)) =~= Seq::<
            int,
        >::empty());
    }
}

proof fn lemma_row_is(
    order: Seq<ProfileEntry>,
    mods: Seq<ModEntry>,
    f: Option<Seq<char>>,
    n: int,
    k: int,
)
    requires
        0 <= n <= order.len(),
        0 <= k < mod_table::shown_rows(order, mods, f, n).len(),
    ensures
        ({
            let row = mod_table::shown_rows(order, mods, f, n)[k];
            &&& 0 <= row.index < n
            &&& row == mod_table::row_of(order, mods, row.index)
        }),
    decreases n,
{
    if n > 0 {
        let before = mod_table::shown_rows(order, mods, f, n - 1);
        if k < before.len() {
            lemma_row_is(order, mods, f, n - 1, k);
        }
    }
}

/// The rows stand as their column says, up or down: by place in the load order, by being
/// on, by being of the game, by what they are called and what they are, and by time. A time
/// that is not known comes last either way.
pub proof fn law_rows_in_order(
    order: Seq<ProfileEntry>,
    mods: Seq<ModEntry>,
    filter: Seq<char>,
    s: ModSort,
    i: int,
    j: int,
)
    requires
        0 <= i < j < mod_table::table(order, mods, filter, s, false).len(),
    ensures
        ({
            let t = mod_table::indices_of(mod_table::table(order, mods, filter, s, false));
            let a = order[t[i]];
            let b = order[t[j]];
            let m = mod_at(order, mods, t[i]);
            let n = mod_at(order, mods, t[j]);
            let up = s.direction == SortDirection::Asc;
            &&& 0 <= t[i] < order.len()
            &&& 0 <= t[j] < order.len()
            &&& s.column == ModSortColumn::Order && up ==> t[i] <= t[j]
            &&& s.column == ModSortColumn::Order && !up ==> t[i] >= t[j]
            &&& s.column == ModSortColumn::Enabled && up ==> (a.enabled ==> b.enabled)
            &&& s.column == ModSortColumn::Enabled && !up ==> (b.enabled ==> a.enabled)
            &&& s.column == ModSortColumn::Native && up ==> (m.source == ModSource::Native
                ==> n.source == ModSource::Native)
            &&& s.column == ModSortColumn::Native && !up ==> (n.source == ModSource::Native
                ==> m.source == ModSource::Native)
            &&& s.column == ModSortColumn::Created && m.created_at is None ==> n.created_at is None
            &&& s.column == ModSortColumn::Created && up && n.created_at is Some
                ==> m.created_at->0 <= n.created_at->0
            &&& s.column == ModSortColumn::Created && !up && n.created_at is Some
                ==> m.created_at->0 >= n.created_at->0
            &&& s.column == ModSortColumn::Added && up ==> m.added_at <= n.added_at
            &&& s.column == ModSortColumn::Added && !up ==> m.added_at >= n.added_at
            &&& s.column == ModSortColumn::Name && up ==> !sorting::text_before(
                text::ascii_lower(n.shown_name()),
                text::ascii_lower(m.shown_name()),
            )
            &&& s.column == ModSortColumn::Name && !up ==> !sorting::text_before(
                text::ascii_lower(m.shown_name()),
                text::ascii_lower(n.shown_name()),
            )
            &&& s.column == ModSortColumn::Enabled && a.enabled == b.enabled ==> t[i] <= t[j]
            &&& s.column == ModSortColumn::Added && m.added_at == n.added_at ==> t[i] <= t[j]
            &&& s.column == ModSortColumn::Created && m.created_at == n.created_at ==> t[i] <= t[j]
        }),
{
    let f = mod_table::filter_of(filter);
    let rows = mod_table::shown_rows(order, mods, f, order.len() as int);
    let before = mod_table::row_before(s);
    let r = mod_table::table(order, mods, filter, s, false);
    sorting::lemma_ranking_members(rows, before, i);
    sorting::lemma_ranking_members(rows, before, j);
    let p = choose|p: int| 0 <= p < rows.len() && rows[p] == r[i];
    let q = choose|q: int| 0 <= q < rows.len() && rows[q] == r[j];
    lemma_row_is(order, mods, f, order.len() as int, p);
    lemma_row_is(order, mods, f, order.len() as int, q);
    assert forall|a: RowView, b: RowView| #[trigger] before(a, b) implies !before(b, a) by {
        mod_table::lemma_row_less(a, b, a, s);
    }
    assert forall|a: RowView, b: RowView, c: RowView|
        #![trigger before(a, c), before(c, b)]
        before(a, b) implies before(a, c) || before(c, b) by {
        mod_table::lemma_row_less(a, b, c, s);
    }
    sorting::law_ranking_in_order(rows, before);
    assert(!before(r[j], r[i]));
    assert(!mod_table::row_less(r[j], r[i], s));
    if s.column == ModSortColumn::Name {
        let x = r[i].name;
        let y = r[j].name;
        sorting::lemma_text_before_total(x, y);
    }
}

/// The words for what a mod consists of: both packages and loose files, one of them, or
/// nothing that is known.
pub proof fn law_kind_words(m: ModEntry)
    ensures
        ({
            let pak = library::targets_have(m.targets@, library::TargetKind::Pak);
            let loose = library::targets_have(m.targets@, library::TargetKind::Generated)
                || library::targets_have(m.targets@, library::TargetKind::Data)
                || library::targets_have(m.targets@, library::TargetKind::Bin);
            &&& pak && loose ==> mod_table::kind_word(m) == "Mixed"@
            &&& pak && !loose ==> mod_table::kind_word(m) == "Pak"@
            &&& !pak && loose ==> mod_table::kind_word(m) == "Loose"@
            &&& !pak && !loose ==> mod_table::kind_word(m) == "Unknown"@
        }),
{
    if mod_table::has_pak(m) {
        let i = choose|i: int| 0 <= i < m.targets@.len() && (#[trigger] m.targets@[i]) is Pak;
        assert(m.targets@[i].kind_of() == library::TargetKind::Pak);
    }
    if mod_table::has_other(m) {
        let i = choose|i: int| 0 <= i < m.targets@.len() && !((#[trigger] m.targets@[i]) is Pak);
        assert(m.targets@[i].kind_of() == library::TargetKind::Generated
            || m.targets@[i].kind_of() == library::TargetKind::Data || m.targets@[i].kind_of()
            == library::TargetKind::Bin);
    }
}

} // verus!
