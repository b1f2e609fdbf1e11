//! What a ranking promises: what counts as a patch, what counts as a conflict, and who
//! comes to stand behind whom.
use crate::library;
use crate::library::{ModEntry, ProfileEntry};
use crate::lists;
use crate::rank_explain;
use crate::rank_items;
use crate::rank_items::{ConflictPathInfo, ModScan};
use crate::rank_order;
use crate::rank_order::{RankGroup, RankItem};
use crate::smart_rank;
use crate::smart_rank::SmartRankResult;
use crate::sorting;
use crate::text;
use vstd::prelude::*;

verus! {

// ---------------------------------------------------------------------------
// Patches
// ---------------------------------------------------------------------------

/// What a word in a label is worth.
pub open spec fn worth(label: Seq<char>, word: Seq<char>, weight: nat) -> nat {
    if text::contains_text(label, word) {
        weight
    } else {
        0
    }
}

/// Each word in the name of a mod, whatever its case, that marks a patch adds to its score:
/// `patch`, `hotfix`, `compat`, `compatibility` and `addon` two, `fix`, `override` and
/// `add-on` one.
pub proof fn law_patch_name(m: ModEntry)
    ensures
        ({
            let label = text::ascii_lower(m.shown_name());
            rank_items::patch_notes(m, Seq::empty()).score == worth(label, "patch"@, 2) + worth(
                label,
                "hotfix"@,
                2,
            ) + worth(label, "compat"@, 2) + worth(label, "compatibility"@, 2) + worth(
                label,
                "addon"@,
                2,
            ) + worth(label, "fix"@, 1) + worth(label, "override"@, 1) + worth(
                label,
                "add-on"@,
                1,
            )
        }),
{
    let label = text::ascii_lower(m.shown_name());
    reveal_with_fuel(rank_items::label_notes, 10);
    reveal_with_fuel(rank_items::tag_notes, 1);
    assert(rank_items::keywords().len() == 9);
    let n0 = rank_items::label_notes(label, 0).score;
    let n3 = rank_items::label_notes(label, 3).score;
    assert(n3 == worth(label, "patch"@, 2) + worth(label, "hotfix"@, 2) + worth(label, "fix"@, 1));
    let n6 = rank_items::label_notes(label, 6).score;
    assert(n6 == n3 + worth(label, "compat"@, 2) + worth(label, "compatibility"@, 2) + worth(
        label,
        "override"@,
        1,
    ));
    let n9 = rank_items::label_notes(label, 9).score;
    assert(n9 == n6 + worth(label, "addon"@, 2) + worth(label, "add-on"@, 1));
}

/// A tag adds the worth of the first word in it that marks a patch, and nothing where it
/// holds none; the score ends at the largest number of eight bits.
pub proof fn law_patch_tag(m: ModEntry, tags: Seq<Seq<char>>, tag: Seq<char>)
    ensures
        ({
            let lower = text::ascii_lower(tag);
            let before = rank_items::patch_notes(m, tags).score;
            let after = rank_items::patch_notes(m, tags.push(tag)).score;
            let more: int = if text::contains_text(lower, "patch"@) || text::contains_text(
                lower,
                "hotfix"@,
            ) {
                2
            } else if text::contains_text(lower, "fix"@) {
                1
            } else if text::contains_text(lower, "compat"@) || text::contains_text(
                lower,
                "compatibility"@,
            ) {
                2
            } else if text::contains_text(lower, "override"@) || text::contains_text(
                lower,
                "addon"@,
            ) || text::contains_text(lower, "add-on"@) {
                1
            } else {
                0
            };
            after == if before + more <= 255 {
                before + more
            } else {
                255
            }
        }),
{
    reveal_with_fuel(rank_items::tag_weight, 10);
    assert(rank_items::keywords().len() == 9);
    assert(tags.push(tag).drop_last() =~= tags);
}

/// The creation time that the library knows of a mod counts before the one that its
/// packages state, that before the time of its last change, and that before the time at
/// which it was added. Files that are not read leave a mod without any.
pub proof fn law_item_is_of_mod(
    item: RankItem,
    entry: ProfileEntry,
    place: int,
    m: ModEntry,
    scan: ModScan,
)
    requires
        rank_items::is_item(item, entry, place, m, scan),
    ensures
        m.created_at matches Some(t) ==> item.date_hint == t,
        m.created_at is None && item.group == RankGroup::Pak && entry.enabled ==> (scan.created_at
            matches Some(t) ==> item.date_hint == t),
        m.created_at is None && (scan.created_at is None || item.group == RankGroup::Loose) ==> (
        m.modified_at matches Some(t) ==> item.date_hint == t),
        m.created_at is None && m.modified_at is None && (scan.created_at is None || item.group
            == RankGroup::Loose) ==> item.date_hint == m.added_at,
        item.group == RankGroup::Pak <==> forall|t: int|
            0 <= t < m.targets@.len() ==> #[trigger] m.targets@[t] is Pak,
        item.enabled == entry.enabled,
        item.id@ == entry.id@,
        !entry.enabled || !(scan.files is Ok) ==> item.file_count == 0 && item.total_bytes == 0
            && !item.has_data,
        entry.enabled && item.group == RankGroup::Pak ==> item.dependencies@
            == scan.dependencies@,
        scan.files matches Ok(files) ==> entry.enabled ==> {
            &&& item.has_data == (files@.len() > 0)
            &&& forall|f: int|
                0 <= f < files@.len() ==> text::texts(item.file_paths@).contains(
                    (#[trigger] files@[f]).key@,
                )
            &&& forall|f: int|
                0 <= f < files@.len() ==> item.total_bytes >= (#[trigger] files@[f]).size
        },
{
    if let Ok(files) = scan.files {
        if entry.enabled {
            assert forall|f: int| 0 <= f < files@.len() implies text::texts(
                item.file_paths@,
            ).contains((#[trigger] files@[f]).key@) && item.total_bytes >= files@[f].size by {
                assert(rank_items::file_keys(files@)[f] == files@[f].key@);
                assert(rank_items::file_keys(files@).contains(files@[f].key@));
                lemma_size(files@, f);
            }
        }
    }
    assert(text::texts(item.file_paths@).len() == item.file_paths@.len());
    if !entry.enabled || !(scan.files is Ok) {
        let keys = text::texts(item.file_paths@);
        if keys.len() > 0 {
            assert(keys.contains(keys[0]));
            assert(rank_items::file_keys(Seq::empty()).contains(keys[0]));
        }
    }
}

proof fn lemma_size(files: Seq<crate::pak_index::FileEntry>, f: int)
    requires
        0 <= f < files.len(),
    ensures
        rank_items::total_size(files) >= files[f].size,
    decreases files.len(),
{
    if f < files.len() - 1 {
        lemma_size(files.drop_last(), f);
    }
}

/// The size of a mod is the sum of those of its files, as far as a number of 64 bits
/// reaches: one more file makes it larger by the size of the file.
pub proof fn law_sizes_add_up(files: Seq<crate::pak_index::FileEntry>, f: crate::pak_index::FileEntry)
    ensures
        rank_items::total_size(Seq::empty()) == 0,
        rank_items::total_size(files) + f.size <= u64::MAX ==> rank_items::total_size(files.push(f))
            == rank_items::total_size(files) + f.size,
        rank_items::total_size(files) + f.size > u64::MAX ==> rank_items::total_size(files.push(f))
            == u64::MAX,
{
    assert(files.push(f).drop_last() =~= files);
}

// ---------------------------------------------------------------------------
// Conflicts
// ---------------------------------------------------------------------------

/// Whether two different mods of a group, both enabled and with files, bring a file in
/// common.
pub open spec fn share(items: Seq<RankItem>, i: int, j: int, path: Seq<char>) -> bool {
    &&& 0 <= i < items.len()
    &&& 0 <= j < items.len()
    &&& i != j
    &&& items[i].group == items[j].group
    &&& items[i].enabled && items[i].has_data
    &&& items[j].enabled && items[j].has_data
    &&& text::texts(items[i].file_paths@).contains(path)
    &&& text::texts(items[j].file_paths@).contains(path)
}

/// The files of a mod that another one brings too.
pub open spec fn contested(items: Seq<RankItem>, i: int) -> Set<Seq<char>> {
    Set::new(|path: Seq<char>| exists|j: int| #[trigger] share(items, i, j, path))
}

/// The mods that bring a file which this one brings too.
pub open spec fn rivals(items: Seq<RankItem>, i: int) -> Set<Seq<char>> {
    Set::new(
        |id: Seq<char>|
            exists|j: int, path: Seq<char>|
                #[trigger] share(items, i, j, path) && items[j].id@ == id,
    )
}

proof fn lemma_shared(items: Seq<RankItem>, i: int, path: Seq<char>)
    requires
        0 <= i < items.len(),
        rank_items::counts(items, items[i].group, i),
        rank_items::paths_of(items, i).contains(path),
    ensures
        rank_items::is_shared(items, items[i].group, path) <==> exists|j: int| #[trigger]
            share(items, i, j, path),
{
    let group = items[i].group;
    let n = items.len() as int;
    let who = rank_items::users(items, group, path, n);
    rank_items::lemma_users(items, group, path, n);
    lemma_users_distinct(items, group, path, n);
    assert(who.contains(i));
    let a = choose|a: int| 0 <= a < who.len() && who[a] == i;
    if who.len() > 1 {
        let b: int = if a == 0 {
            1
        } else {
            0
        };
        assert(who.contains(who[b]));
        assert(who[b] != i);
        assert(share(items, i, who[b], path));
    }
    if exists|j: int| #[trigger] share(items, i, j, path) {
        let j = choose|j: int| #[trigger] share(items, i, j, path);
        assert(rank_items::counts(items, group, j));
        assert(rank_items::paths_of(items, j).contains(path));
        assert(who.contains(j));
        let b = choose|b: int| 0 <= b < who.len() && who[b] == j;
        assert(a != b);
    }
}

proof fn lemma_users_distinct(items: Seq<RankItem>, group: RankGroup, path: Seq<char>, n: int)
    ensures
        rank_items::users(items, group, path, n).no_duplicates(),
    decreases n,
{
    if n > 0 {
        lemma_users_distinct(items, group, path, n - 1);
        rank_items::lemma_users(items, group, path, n - 1);
        let before = rank_items::users(items, group, path, n - 1);
        assert(!before.contains(n - 1));
    }
}

proof fn lemma_distinct_filter<T>(s: Seq<T>, p: spec_fn(T) -> bool)
    requires
        s.no_duplicates(),
    ensures
        s.filter(p).no_duplicates(),
    decreases s.len(),
{
    reveal(Seq::filter);
    if s.len() > 0 {
        let front = s.drop_last();
        lemma_distinct_filter(front, p);
        lists::lemma_filter_contains(front, p, s.last());
        if front.contains(s.last()) {
            let k = choose|k: int| 0 <= k < front.len() && front[k] == s.last();
            assert(s[k] == s[s.len() - 1]);
        }
    }
}

proof fn lemma_partners(items: Seq<RankItem>, i: int, n: int)
    requires
        0 <= i < items.len(),
        0 <= n <= items.len(),
        rank_items::counts(items, items[i].group, i),
    ensures
        ({
            let some = Set::new(
                |id: Seq<char>|
                    id != items[i].id@ && exists|j: int, path: Seq<char>|
                        j < n && #[trigger] share(items, i, j, path) && items[j].id@ == id,
            );
            some.finite() && some.len() == rank_items::partner_count(
                items,
                items[i].group,
                i,
                n,
            )
        }),
    decreases n,
{
    broadcast use vstd::set::group_set_axioms;

    let group = items[i].group;
    let some = Set::new(
        |id: Seq<char>|
            id != items[i].id@ && exists|j: int, path: Seq<char>|
                j < n && #[trigger] share(items, i, j, path) && items[j].id@ == id,
    );
    if n == 0 {
        assert(some =~= Set::empty());
    } else {
        lemma_partners(items, i, n - 1);
        let before = Set::new(
            |id: Seq<char>|
                id != items[i].id@ && exists|j: int, path: Seq<char>|
                    j < n - 1 && #[trigger] share(items, i, j, path) && items[j].id@ == id,
        );
        let last = items[n - 1].id@;
        assert(rank_items::overlap(items, group, i, n - 1) <==> exists|path: Seq<char>| #[trigger]
            share(items, i, n - 1, path)) by {
            if rank_items::overlap(items, group, i, n - 1) {
                let path = choose|path: Seq<char>| #[trigger]
                    rank_items::paths_of(items, i).contains(path) && rank_items::paths_of(
                        items,
                        n - 1,
                    ).contains(path);
                assert(share(items, i, n - 1, path));
            }
            if exists|path: Seq<char>| #[trigger] share(items, i, n - 1, path) {
                let path = choose|path: Seq<char>| #[trigger] share(items, i, n - 1, path);
                assert(rank_items::paths_of(items, i).contains(path) && rank_items::paths_of(
                    items,
                    n - 1,
                ).contains(path));
            }
        }
        if rank_items::overlap(items, group, i, n - 1) && last != items[i].id@ {
            let path = choose|path: Seq<char>| #[trigger] share(items, i, n - 1, path);
            assert(some =~= before.insert(last)) by {
                assert forall|id: Seq<char>| some.contains(id) implies before.insert(
                    last,
                ).contains(id) by {}
                assert(share(items, i, n - 1, path));
            }
            assert(before.contains(last) <==> !rank_items::is_new_partner(items, group, i, n - 1))
                by {
                if before.contains(last) {
                    let (j, path) = choose|j: int, path: Seq<char>|
                        j < n - 1 && #[trigger] share(items, i, j, path) && items[j].id@ == last;
                    assert(rank_items::paths_of(items, i).contains(path) && rank_items::paths_of(
                        items,
                        j,
                    ).contains(path));
                    assert(rank_items::overlap(items, group, i, j));
                } else if !rank_items::is_new_partner(items, group, i, n - 1) {
                    let m = choose|m: int|
                        0 <= m < n - 1 && #[trigger] rank_items::overlap(items, group, i, m)
                            && items[m].id@ == last;
                    let path = choose|path: Seq<char>| #[trigger]
                        rank_items::paths_of(items, i).contains(path) && rank_items::paths_of(
                            items,
                            m,
                        ).contains(path);
                    assert(share(items, i, m, path));
                }
            }
        } else {
            assert(some =~= before) by {
                assert forall|id: Seq<char>| some.contains(id) implies before.contains(id) by {
                    let (j, path) = choose|j: int, path: Seq<char>|
                        j < n && #[trigger] share(items, i, j, path) && items[j].id@ == id;
                    if j == n - 1 {
                        assert(share(items, i, n - 1, path));
                    }
                }
            }
        }
    }
}

/// Counting conflicts counts, for each mod that is enabled and has files, those of its
/// files that another such mod of its group brings, and the mods that bring one; and
/// changes nothing else.
pub proof fn law_conflicts_are_counted(before: Seq<RankItem>, after: Seq<RankItem>, i: int)
    requires
        rank_items::with_conflicts(before, after),
        rank_order::distinct_ids(before),
        0 <= i < before.len(),
        sorting::ascending(text::texts(before[i].file_paths@)),
    ensures
        after.len() == before.len(),
        after[i] == (RankItem {
            conflict_files: after[i].conflict_files,
            conflict_partners: after[i].conflict_partners,
            ..before[i]
        }),
        contested(before, i).finite(),
        after[i].conflict_files == contested(before, i).len(),
        rivals(before, i).finite(),
        after[i].conflict_partners == rivals(before, i).len(),
{
    broadcast use vstd::set::group_set_axioms;

    let group = before[i].group;
    assert(rank_items::same_item(before[i], after[i]));
    if rank_items::counts(before, group, i) {
        let paths = rank_items::paths_of(before, i);
        let keep = |p: Seq<char>| rank_items::is_shared(before, group, p);
        assert(paths.no_duplicates()) by {
            assert forall|a: int, b: int| 0 <= a < b < paths.len() implies paths[a] != paths[b] by {
                assert(sorting::text_before(paths[a], paths[b]));
                sorting::lemma_text_before_asymmetric(paths[a], paths[b]);
            }
        }
        lemma_distinct_filter(paths, keep);
        let some = paths.filter(keep);
        assert(some.to_set() =~= contested(before, i)) by {
            assert forall|p: Seq<char>| some.contains(p) <==> contested(before, i).contains(p) by {
                lists::lemma_filter_contains(paths, keep, p);
                if paths.contains(p) {
                    lemma_shared(before, i, p);
                }
            }
        }
        some.unique_seq_to_set();
        vstd::seq_lib::seq_to_set_is_finite(some);
        lemma_partners(before, i, before.len() as int);
        let others = Set::new(
            |id: Seq<char>|
                id != before[i].id@ && exists|j: int, path: Seq<char>|
                    j < before.len() && #[trigger] share(before, i, j, path) && before[j].id@ == id,
        );
        assert(others =~= rivals(before, i)) by {
            assert forall|id: Seq<char>| rivals(before, i).contains(id) implies others.contains(
                id,
            ) by {
                let (j, path) = choose|j: int, path: Seq<char>|
                    #[trigger] share(before, i, j, path) && before[j].id@ == id;
                if i < j {
                    assert(before[i].id@ != before[j].id@);
                } else {
                    assert(before[j].id@ != before[i].id@);
                }
            }
        }
    } else {
        assert(contested(before, i) =~= Set::empty());
        assert(rivals(before, i) =~= Set::empty());
    }
}

// ---------------------------------------------------------------------------
// Dependencies
// ---------------------------------------------------------------------------

/// Where the dependencies of a group do not go round in a circle, none is found: where
/// mods can be given heights so that each stands higher than what it depends on.
pub proof fn law_no_circle_is_found(
    items: Seq<RankItem>,
    group: RankGroup,
    height: spec_fn(int) -> nat,
)
    requires
        rank_order::distinct_ids(items),
        forall|i: int, j: int|
            0 <= i < items.len() && 0 <= j < items.len() && items[i].group == group
                && items[j].group == group && #[trigger] text::texts(
                items[i].dependencies@,
            ).contains((#[trigger] items[j]).id@) ==> height(j) < height(i),
    ensures
        !rank_order::has_cycle(items, group),
{
    if rank_order::has_cycle(items, group) {
        let eligible = rank_order::movers(items, group);
        let needs = rank_order::needs_of(items, group);
        let n = items.len() as int;
        let p = choose|p: Seq<int>| #[trigger]
            rank_order::picked(items, eligible, needs, p) && p.len() < rank_order::mover_kinds(
                items,
                group,
                n,
            );
        assert forall|i: int| #[trigger] rank_order::may_move(items, group, i) implies p.contains(
            i,
        ) by {
            lemma_all_picked(items, group, height, p, i);
        }
        rank_order::lemma_all_movers(items, group, p);
    }
}

proof fn lemma_all_picked(
    items: Seq<RankItem>,
    group: RankGroup,
    height: spec_fn(int) -> nat,
    p: Seq<int>,
    i: int,
)
    requires
        rank_order::picked(
            items,
            rank_order::movers(items, group),
            rank_order::needs_of(items, group),
            p,
        ),
        forall|i: int, j: int|
            0 <= i < items.len() && 0 <= j < items.len() && items[i].group == group
                && items[j].group == group && #[trigger] text::texts(
                items[i].dependencies@,
            ).contains((#[trigger] items[j]).id@) ==> height(j) < height(i),
        rank_order::may_move(items, group, i),
    ensures
        p.contains(i),
    decreases height(i),
{
    let eligible = rank_order::movers(items, group);
    let needs = rank_order::needs_of(items, group);
    if !p.contains(i) {
        assert forall|j: int| #[trigger] needs(i, j) implies p.contains(j) by {
            assert(rank_order::must_follow(items, group, i, j));
            assert(text::texts(items[i].dependencies@).contains(items[j].id@));
            lemma_all_picked(items, group, height, p, j);
        }
        assert(eligible[i]);
        assert(rank_order::ready(eligible, needs, p, i));
    }
}

// ---------------------------------------------------------------------------
// Load orders
// ---------------------------------------------------------------------------

/// Where an entry of a known mod stands among the items, and where in the new order.
proof fn lemma_item_of_entry(
    r: SmartRankResult,
    order: Seq<ProfileEntry>,
    mods: Seq<ModEntry>,
    scans: Seq<ModScan>,
    bare: Seq<RankItem>,
    items: Seq<RankItem>,
    top: Seq<ConflictPathInfo>,
    loose: Seq<int>,
    pak: Seq<int>,
    i: int,
) -> (k: int)
    requires
        smart_rank::follows(r, order, mods, scans, bare, items, top, loose, pak),
        library::distinct_entries(order),
        0 <= i < order.len(),
        smart_rank::is_known(mods, order[i]),
    ensures
        0 <= k < items.len(),
        rank_order::distinct_ids(bare),
        rank_order::distinct_ids(items),
        bare.len() == items.len(),
        items[k].id@ == order[i].id@,
        rank_items::same_item(bare[k], items[k]),
        rank_items::is_item(bare[k], order[i], i, smart_rank::mod_of(mods, order[i]), scans[i]),
        rank_explain::place_of(order, items[k].id@) == i,
{
    let n = order.len() as int;
    let known = smart_rank::known_places(order, mods, n);
    smart_rank::lemma_known_places(order, mods, n);
    smart_rank::lemma_items_in_order(bare, order, mods, scans);
    assert(known.contains(i));
    let k = choose|k: int| 0 <= k < known.len() && known[k] == i;
    assert(rank_items::same_item(bare[k], items[k]));
    assert(rank_items::is_item(
        bare[k],
        order[known[k]],
        known[k],
        smart_rank::mod_of(mods, order[known[k]]),
        scans[known[k]],
    ));
    rank_explain::lemma_place_of(order, i);
    assert forall|x: int, y: int| 0 <= x < y < items.len() implies (#[trigger] items[x]).id@ != (
    #[trigger] items[y]).id@ by {
        assert(rank_items::same_item(bare[x], items[x]));
        assert(rank_items::same_item(bare[y], items[y]));
        assert(bare[x].id@ != bare[y].id@);
    }
    k
}

/// Where an item stands in the new order of its group, the entry stands in the new load
/// order, behind the loose mods where it is of a package.
proof fn lemma_entry_placed(
    r: SmartRankResult,
    order: Seq<ProfileEntry>,
    mods: Seq<ModEntry>,
    scans: Seq<ModScan>,
    bare: Seq<RankItem>,
    items: Seq<RankItem>,
    top: Seq<ConflictPathInfo>,
    loose: Seq<int>,
    pak: Seq<int>,
    i: int,
    k: int,
) -> (at: int)
    requires
        smart_rank::follows(r, order, mods, scans, bare, items, top, loose, pak),
        0 <= i < order.len(),
        0 <= k < items.len(),
        rank_order::distinct_ids(items),
        rank_explain::place_of(order, items[k].id@) == i,
    ensures
        rank_order::covers(rank_order::movers(items, RankGroup::Loose), loose),
        rank_order::covers(rank_order::movers(items, RankGroup::Pak), pak),
        ({
            let first = rank_order::group_order(items, RankGroup::Loose, loose);
            let second = rank_order::group_order(items, RankGroup::Pak, pak);
            &&& r.order@.len() == first.len() + second.len()
            &&& items[k].group == RankGroup::Loose ==> 0 <= at < first.len() && first[at] == k
                && r.order@[at] == order[i]
            &&& items[k].group == RankGroup::Pak ==> 0 <= at < second.len() && second[at] == k
                && r.order@[first.len() + at] == order[i]
        }),
{
    let first = rank_order::group_order(items, RankGroup::Loose, loose);
    let second = rank_order::group_order(items, RankGroup::Pak, pak);
    rank_order::law_ranks_all(items, RankGroup::Loose, loose);
    rank_order::law_ranks_all(items, RankGroup::Pak, pak);
    rank_order::law_group_order_permutes(items, RankGroup::Loose, loose);
    rank_order::law_group_order_permutes(items, RankGroup::Pak, pak);
    let places = smart_rank::new_places(items, loose, pak);
    assert(places =~= first + second);
    if items[k].group == RankGroup::Loose {
        assert(rank_order::in_group(items, RankGroup::Loose, k));
        assert(first.contains(k));
        let at = choose|at: int| 0 <= at < first.len() && first[at] == k;
        assert(places[at] == k);
        at
    } else {
        assert(rank_order::in_group(items, RankGroup::Pak, k));
        assert(second.contains(k));
        let at = choose|at: int| 0 <= at < second.len() && second[at] == k;
        assert(places[first.len() + at] == k);
        at
    }
}

/// A mod with loose files comes to stand before every mod that is packages alone.
pub proof fn law_loose_mods_first(
    r: SmartRankResult,
    order: Seq<ProfileEntry>,
    mods: Seq<ModEntry>,
    scans: Seq<ModScan>,
    i: int,
    j: int,
)
    requires
        smart_rank::ranks_order(r, order, mods, scans),
        library::distinct_entries(order),
        0 <= i < order.len(),
        0 <= j < order.len(),
        smart_rank::is_known(mods, order[i]),
        smart_rank::is_known(mods, order[j]),
        exists|t: int|
            0 <= t < smart_rank::mod_of(mods, order[i]).targets@.len() && !(
            #[trigger] smart_rank::mod_of(mods, order[i]).targets@[t] is Pak),
        forall|t: int|
            0 <= t < smart_rank::mod_of(mods, order[j]).targets@.len() ==> (
            #[trigger] smart_rank::mod_of(mods, order[j]).targets@[t]) is Pak,
    ensures
        exists|x: int, y: int|
            0 <= x < y < r.order@.len() && #[trigger] r.order@[x] == order[i]
                && #[trigger] r.order@[y] == order[j],
{
    let (bare, items, top, loose, pak) = choose|
        bare: Seq<RankItem>,
        items: Seq<RankItem>,
        top: Seq<ConflictPathInfo>,
        loose: Seq<int>,
        pak: Seq<int>,
    | #[trigger]
        smart_rank::follows(r, order, mods, scans, bare, items, top, loose, pak);
    let a = lemma_item_of_entry(r, order, mods, scans, bare, items, top, loose, pak, i);
    let b = lemma_item_of_entry(r, order, mods, scans, bare, items, top, loose, pak, j);
    let x = lemma_entry_placed(r, order, mods, scans, bare, items, top, loose, pak, i, a);
    let y = lemma_entry_placed(r, order, mods, scans, bare, items, top, loose, pak, j, b);
    let first = rank_order::group_order(items, RankGroup::Loose, loose);
    assert(r.order@[x] == order[i]);
    assert(r.order@[first.len() + y] == order[j]);
}

/// Whether a mod is packages alone.
pub open spec fn only_packages(m: ModEntry) -> bool {
    forall|t: int| 0 <= t < m.targets@.len() ==> (#[trigger] m.targets@[t]) is Pak
}

/// The tags that count for a mod: those that its packages state.
pub open spec fn counted_tags(m: ModEntry, scan: ModScan) -> Seq<Seq<char>> {
    if only_packages(m) {
        text::texts(scan.tags@)
    } else {
        Seq::empty()
    }
}

proof fn lemma_same_files(
    bare: Seq<RankItem>,
    items: Seq<RankItem>,
    a: int,
    b: int,
)
    requires
        rank_items::with_conflicts(bare, items),
        rank_order::distinct_ids(bare),
        0 <= a < bare.len(),
        0 <= b < bare.len(),
        a != b,
        bare[a].group == bare[b].group,
        bare[a].enabled && bare[a].has_data,
        bare[b].enabled && bare[b].has_data,
        text::texts(bare[a].file_paths@) == text::texts(bare[b].file_paths@),
        bare[a].file_paths@.len() > 0,
        sorting::ascending(text::texts(bare[a].file_paths@)),
    ensures
        items[a].conflict_files == items[b].conflict_files,
        items[a].conflict_files > 0,
        items[a].conflict_partners == items[b].conflict_partners,
{
    broadcast use vstd::set::group_set_axioms;

    law_conflicts_are_counted(bare, items, a);
    law_conflicts_are_counted(bare, items, b);
    let files = text::texts(bare[a].file_paths@);
    let path = files[0];
    assert(files.contains(path));
    assert(share(bare, a, b, path));
    assert(share(bare, b, a, path));
    assert(contested(bare, a) =~= contested(bare, b)) by {
        assert forall|p: Seq<char>| contested(bare, a).contains(p) <==> contested(
            bare,
            b,
        ).contains(p) by {
            if contested(bare, a).contains(p) {
                assert(share(bare, b, a, p));
            }
            if contested(bare, b).contains(p) {
                assert(share(bare, a, b, p));
            }
        }
    }
    assert(contested(bare, a).contains(path));
    let ida = bare[a].id@;
    let idb = bare[b].id@;
    assert(rivals(bare, a).contains(idb));
    assert(rivals(bare, b).contains(ida));
    assert forall|j: int, p: Seq<char>| #[trigger]
        share(bare, a, j, p) && j != b implies share(bare, b, j, p) by {}
    assert forall|j: int, p: Seq<char>| #[trigger]
        share(bare, b, j, p) && j != a implies share(bare, a, j, p) by {}
    assert forall|j: int| 0 <= j < bare.len() && j != a implies (#[trigger] bare[j]).id@ != ida by {
        if j < a {
            assert(bare[j].id@ != bare[a].id@);
        }
    }
    assert forall|j: int| 0 <= j < bare.len() && j != b implies (#[trigger] bare[j]).id@ != idb by {
        if j < b {
            assert(bare[j].id@ != bare[b].id@);
        }
    }
    assert(rivals(bare, a).remove(idb) =~= rivals(bare, b).remove(ida)) by {
        assert forall|id: Seq<char>| rivals(bare, a).remove(idb).contains(id) <==> rivals(
            bare,
            b,
        ).remove(ida).contains(id) by {
            if rivals(bare, a).remove(idb).contains(id) {
                let (j, p) = choose|j: int, p: Seq<char>|
                    #[trigger] share(bare, a, j, p) && bare[j].id@ == id;
                assert(j != b);
                assert(share(bare, b, j, p));
            }
            if rivals(bare, b).remove(ida).contains(id) {
                let (j, p) = choose|j: int, p: Seq<char>|
                    #[trigger] share(bare, b, j, p) && bare[j].id@ == id;
                assert(j != a);
                assert(share(bare, a, j, p));
            }
        }
    }
}

/// Of two enabled mods with the same files, both with loose files or both packages alone,
/// the one that looks more like a patch comes to stand behind the other, unless the other
/// waits for a dependency; where both look alike, the larger stands first. So the files of
/// a patch win.
pub proof fn law_patch_comes_last(
    r: SmartRankResult,
    order: Seq<ProfileEntry>,
    mods: Seq<ModEntry>,
    scans: Seq<ModScan>,
    i: int,
    j: int,
)
    requires
        smart_rank::ranks_order(r, order, mods, scans),
        library::distinct_entries(order),
        0 <= i < order.len(),
        0 <= j < order.len(),
        i != j,
        smart_rank::is_known(mods, order[i]),
        smart_rank::is_known(mods, order[j]),
        order[i].enabled,
        order[j].enabled,
        only_packages(smart_rank::mod_of(mods, order[i])) == only_packages(
            smart_rank::mod_of(mods, order[j]),
        ),
        scans[i].files is Ok,
        scans[j].files is Ok,
        scans[i].files->Ok_0@.len() > 0,
        scans[j].files->Ok_0@.len() > 0,
        forall|path: Seq<char>|
            rank_items::file_keys(scans[i].files->Ok_0@).contains(path)
                <==> #[trigger] rank_items::file_keys(scans[j].files->Ok_0@).contains(path),
        scans[i].dependencies@.len() == 0,
        ({
            let a = rank_items::patch_notes(
                smart_rank::mod_of(mods, order[i]),
                counted_tags(smart_rank::mod_of(mods, order[i]), scans[i]),
            ).score;
            let b = rank_items::patch_notes(
                smart_rank::mod_of(mods, order[j]),
                counted_tags(smart_rank::mod_of(mods, order[j]), scans[j]),
            ).score;
            a < b || (a == b && rank_items::total_size(scans[i].files->Ok_0@)
                > rank_items::total_size(scans[j].files->Ok_0@))
        }),
    ensures
        exists|x: int, y: int|
            0 <= x < y < r.order@.len() && #[trigger] r.order@[x] == order[i]
                && #[trigger] r.order@[y] == order[j],
{
    let (bare, items, top, loose, pak) = choose|
        bare: Seq<RankItem>,
        items: Seq<RankItem>,
        top: Seq<ConflictPathInfo>,
        loose: Seq<int>,
        pak: Seq<int>,
    | #[trigger]
        smart_rank::follows(r, order, mods, scans, bare, items, top, loose, pak);
    let a = lemma_item_of_entry(r, order, mods, scans, bare, items, top, loose, pak, i);
    let b = lemma_item_of_entry(r, order, mods, scans, bare, items, top, loose, pak, j);
    let x = lemma_entry_placed(r, order, mods, scans, bare, items, top, loose, pak, i, a);
    let y = lemma_entry_placed(r, order, mods, scans, bare, items, top, loose, pak, j, b);
    assert(a != b) by {
        if a == b {
            assert(rank_explain::place_of(order, items[a].id@) == i);
        }
    }
    let fi = text::texts(bare[a].file_paths@);
    let fj = text::texts(bare[b].file_paths@);
    assert forall|path: Seq<char>| #[trigger] fi.contains(path) <==> fj.contains(path) by {
        assert(fi.contains(path) <==> rank_items::file_keys(scans[i].files->Ok_0@).contains(path));
        assert(fj.contains(path) <==> rank_items::file_keys(scans[j].files->Ok_0@).contains(path));
    }
    sorting::lemma_sorted_set_unique(fi, fj);
    law_item_is_of_mod(bare[a], order[i], i, smart_rank::mod_of(mods, order[i]), scans[i]);
    law_item_is_of_mod(bare[b], order[j], j, smart_rank::mod_of(mods, order[j]), scans[j]);
    assert(fi.len() > 0) by {
        assert(fi.contains(scans[i].files->Ok_0@[0].key@));
    }
    lemma_same_files(bare, items, a, b);
    assert(rank_items::same_item(bare[a], items[a]));
    assert(rank_items::same_item(bare[b], items[b]));
    let group = items[a].group;
    let ranked = if group == RankGroup::Loose {
        loose
    } else {
        pak
    };
    let out = rank_order::group_order(items, group, ranked);
    assert(out[x] == a && out[y] == b);
    assert(x != y);
    rank_order::law_scores_decide(items, group, ranked, x, y);
    assert(x < y);
    let first = rank_order::group_order(items, RankGroup::Loose, loose);
    if group == RankGroup::Loose {
        assert(r.order@[x] == order[i] && r.order@[y] == order[j]);
    } else {
        assert(r.order@[first.len() + x] == order[i] && r.order@[first.len() + y] == order[j]);
    }
}

} // verus!
