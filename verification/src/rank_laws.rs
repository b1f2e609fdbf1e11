//! That a ranking is determined by what is ranked.
use crate::library;
use crate::library::{Library, ModEntry, ProfileEntry};
use crate::rank_items;
use crate::rank_items::{ConflictPathInfo, ModScan};
use crate::rank_order;
use crate::rank_order::{RankGroup, RankItem};
use crate::smart_rank;
use crate::smart_rank::{SmartRankReport, SmartRankResult};
use crate::sorting;
use crate::text;
use vstd::prelude::*;

verus! {

// ---------------------------------------------------------------------------
// Items that say the same
// ---------------------------------------------------------------------------

/// Whether two items say the same of a mod, conflicts aside.
pub open spec fn alike_item(a: RankItem, b: RankItem) -> bool {
    &&& a.id@ == b.id@
    &&& a.enabled == b.enabled
    &&& a.group == b.group
    &&& text::texts(a.file_paths@) == text::texts(b.file_paths@)
    &&& a.file_count == b.file_count
    &&& a.total_bytes == b.total_bytes
    &&& a.original_index == b.original_index
    &&& a.has_data == b.has_data
    &&& a.patch_score == b.patch_score
    &&& a.dependencies@ == b.dependencies@
    &&& a.date_hint == b.date_hint
}

pub open spec fn alike(a: Seq<RankItem>, b: Seq<RankItem>) -> bool {
    &&& a.len() == b.len()
    &&& forall|i: int| 0 <= i < a.len() ==> alike_item(#[trigger] a[i], b[i])
}

/// Whether the items say the same of conflicts too.
pub open spec fn all_alike(a: Seq<RankItem>, b: Seq<RankItem>) -> bool {
    &&& alike(a, b)
    &&& forall|i: int|
        0 <= i < a.len() ==> (#[trigger] a[i]).conflict_files == b[i].conflict_files
            && a[i].conflict_partners == b[i].conflict_partners
}

proof fn lemma_built_alike(
    a: Seq<RankItem>,
    b: Seq<RankItem>,
    order: Seq<ProfileEntry>,
    mods: Seq<ModEntry>,
    scans: Seq<ModScan>,
)
    requires
        smart_rank::items_built(a, order, mods, scans, order.len() as int),
        smart_rank::items_built(b, order, mods, scans, order.len() as int),
    ensures
        alike(a, b),
{
    let places = smart_rank::known_places(order, mods, order.len() as int);
    assert forall|i: int| 0 <= i < a.len() implies alike_item(#[trigger] a[i], b[i]) by {
        let m = smart_rank::mod_of(mods, order[places[i]]);
        let entry = order[places[i]];
        assert(rank_items::is_item(a[i], entry, places[i], m, scans[places[i]]));
        assert(rank_items::is_item(b[i], entry, places[i], m, scans[places[i]]));
        sorting::lemma_sorted_set_unique(
            text::texts(a[i].file_paths@),
            text::texts(b[i].file_paths@),
        );
        assert(text::texts(a[i].file_paths@).len() == a[i].file_paths@.len());
        assert(text::texts(b[i].file_paths@).len() == b[i].file_paths@.len());
    }
}

// ---------------------------------------------------------------------------
// Conflicts
// ---------------------------------------------------------------------------

proof fn lemma_alike_at(a: Seq<RankItem>, b: Seq<RankItem>, group: RankGroup, i: int)
    requires
        alike(a, b),
    ensures
        rank_order::in_group(a, group, i) == rank_order::in_group(b, group, i),
        rank_items::counts(a, group, i) == rank_items::counts(b, group, i),
        0 <= i < a.len() ==> alike_item(a[i], b[i]) && rank_items::paths_of(a, i)
            == rank_items::paths_of(b, i) && rank_order::deps_of(a, i) == rank_order::deps_of(b, i),
{
    if 0 <= i < a.len() {
        assert(alike_item(a[i], b[i]));
    }
}

proof fn lemma_users(
    a: Seq<RankItem>,
    b: Seq<RankItem>,
    group: RankGroup,
    path: Seq<char>,
    n: int,
)
    requires
        alike(a, b),
        n <= a.len(),
    ensures
        rank_items::users(a, group, path, n) == rank_items::users(b, group, path, n),
    decreases n,
{
    if n > 0 {
        lemma_users(a, b, group, path, n - 1);
        lemma_alike_at(a, b, group, n - 1);
    }
}

proof fn lemma_all_paths(a: Seq<RankItem>, b: Seq<RankItem>, group: RankGroup, n: int)
    requires
        alike(a, b),
        n <= a.len(),
    ensures
        rank_items::all_paths(a, group, n) == rank_items::all_paths(b, group, n),
    decreases n,
{
    if n > 0 {
        lemma_all_paths(a, b, group, n - 1);
        lemma_alike_at(a, b, group, n - 1);
    }
}

proof fn lemma_shared(a: Seq<RankItem>, b: Seq<RankItem>, group: RankGroup)
    requires
        alike(a, b),
    ensures
        (|p: Seq<char>| rank_items::is_shared(a, group, p)) == (|p: Seq<char>|
            rank_items::is_shared(b, group, p)),
        rank_items::shared_paths(a, group) == rank_items::shared_paths(b, group),
{
    let f = |p: Seq<char>| rank_items::is_shared(a, group, p);
    let g = |p: Seq<char>| rank_items::is_shared(b, group, p);
    assert forall|p: Seq<char>| #[trigger] f(p) == g(p) by {
        lemma_users(a, b, group, p, a.len() as int);
    }
    assert(f =~= g);
    lemma_all_paths(a, b, group, a.len() as int);
}

proof fn lemma_overlap(a: Seq<RankItem>, b: Seq<RankItem>, group: RankGroup, i: int, j: int)
    requires
        alike(a, b),
        rank_items::overlap(a, group, i, j),
    ensures
        rank_items::overlap(b, group, i, j),
{
    lemma_alike_at(a, b, group, i);
    lemma_alike_at(a, b, group, j);
    let p = choose|p: Seq<char>| #[trigger]
        rank_items::paths_of(a, i).contains(p) && rank_items::paths_of(a, j).contains(p);
    assert(rank_items::paths_of(b, i).contains(p) && rank_items::paths_of(b, j).contains(p));
}

proof fn lemma_back(a: Seq<RankItem>, b: Seq<RankItem>)
    requires
        alike(a, b),
    ensures
        alike(b, a),
{
    assert forall|i: int| 0 <= i < b.len() implies alike_item(#[trigger] b[i], a[i]) by {
        assert(alike_item(a[i], b[i]));
    }
}

proof fn lemma_new_partner(a: Seq<RankItem>, b: Seq<RankItem>, group: RankGroup, i: int, j: int)
    requires
        alike(a, b),
        0 <= j,
        rank_items::is_new_partner(a, group, i, j),
    ensures
        rank_items::is_new_partner(b, group, i, j),
{
    lemma_back(a, b);
    lemma_overlap(a, b, group, i, j);
    lemma_alike_at(a, b, group, i);
    lemma_alike_at(a, b, group, j);
    assert forall|m: int| 0 <= m < j && #[trigger] rank_items::overlap(b, group, i, m) implies
        b[m].id@ != b[j].id@ by {
        lemma_overlap(b, a, group, i, m);
        lemma_alike_at(a, b, group, m);
    }
}

proof fn lemma_partners(a: Seq<RankItem>, b: Seq<RankItem>, group: RankGroup, i: int, n: int)
    requires
        alike(a, b),
        n <= a.len(),
    ensures
        rank_items::partner_count(a, group, i, n) == rank_items::partner_count(b, group, i, n),
    decreases n,
{
    if n > 0 {
        lemma_partners(a, b, group, i, n - 1);
        lemma_back(a, b);
        if rank_items::is_new_partner(a, group, i, n - 1) {
            lemma_new_partner(a, b, group, i, n - 1);
        }
        if rank_items::is_new_partner(b, group, i, n - 1) {
            lemma_new_partner(b, a, group, i, n - 1);
        }
    }
}

proof fn lemma_conflicts_alike(
    bare_a: Seq<RankItem>,
    bare_b: Seq<RankItem>,
    a: Seq<RankItem>,
    b: Seq<RankItem>,
)
    requires
        alike(bare_a, bare_b),
        rank_items::with_conflicts(bare_a, a),
        rank_items::with_conflicts(bare_b, b),
    ensures
        all_alike(a, b),
{
    assert forall|i: int| 0 <= i < a.len() implies alike_item(#[trigger] a[i], b[i])
        && a[i].conflict_files == b[i].conflict_files && a[i].conflict_partners
        == b[i].conflict_partners by {
        let group = bare_a[i].group;
        assert(rank_items::same_item(bare_a[i], a[i]));
        assert(rank_items::same_item(bare_b[i], b[i]));
        lemma_alike_at(bare_a, bare_b, group, i);
        lemma_shared(bare_a, bare_b, group);
        lemma_partners(bare_a, bare_b, group, i, bare_a.len() as int);
        assert(a[i].conflict_files == rank_items::shared_count(bare_a, group, i));
        assert(b[i].conflict_files == rank_items::shared_count(bare_b, group, i));
    }
}

// ---------------------------------------------------------------------------
// The order of a group
// ---------------------------------------------------------------------------

proof fn lemma_back_all(a: Seq<RankItem>, b: Seq<RankItem>)
    requires
        all_alike(a, b),
    ensures
        all_alike(b, a),
{
    lemma_back(a, b);
    assert forall|i: int| 0 <= i < b.len() implies (#[trigger] b[i]).conflict_files
        == a[i].conflict_files && b[i].conflict_partners == a[i].conflict_partners by {
        assert(a[i].conflict_files == b[i].conflict_files);
    }
}

proof fn lemma_may_move(a: Seq<RankItem>, b: Seq<RankItem>, group: RankGroup, i: int)
    requires
        all_alike(a, b),
        rank_order::may_move(a, group, i),
    ensures
        rank_order::may_move(b, group, i),
{
    lemma_alike_at(a, b, group, i);
    if rank_order::involves(a, group, a[i].id@) {
        let k = choose|k: int|
            rank_order::in_group(a, group, k) && a[k].id@ == a[i].id@
                && #[trigger] rank_order::is_involved(a, k);
        lemma_alike_at(a, b, group, k);
        assert(a[k].conflict_files == b[k].conflict_files);
        assert(rank_order::is_involved(b, k));
        assert(rank_order::involves(b, group, b[i].id@));
    } else {
        let j = choose|j: int|
            rank_order::in_group(a, group, j) && #[trigger] rank_order::deps_of(a, j).contains(
                a[i].id@,
            );
        lemma_alike_at(a, b, group, j);
        assert(rank_order::deps_of(b, j).contains(b[i].id@));
        assert(rank_order::is_needed(b, group, i));
    }
}

proof fn lemma_same_movers(a: Seq<RankItem>, b: Seq<RankItem>, group: RankGroup)
    requires
        all_alike(a, b),
    ensures
        forall|i: int| #[trigger]
            rank_order::may_move(a, group, i) == rank_order::may_move(b, group, i),
        rank_order::movers(a, group) == rank_order::movers(b, group),
        rank_order::needs_of(a, group) == rank_order::needs_of(b, group),
{
    lemma_back_all(a, b);
    assert forall|i: int| #[trigger]
        rank_order::may_move(a, group, i) == rank_order::may_move(b, group, i) by {
        if rank_order::may_move(a, group, i) {
            lemma_may_move(a, b, group, i);
        }
        if rank_order::may_move(b, group, i) {
            lemma_may_move(b, a, group, i);
        }
    }
    assert(rank_order::movers(a, group) =~= rank_order::movers(b, group));
    let f = rank_order::needs_of(a, group);
    let g = rank_order::needs_of(b, group);
    assert forall|i: int, j: int| #[trigger] f(i, j) == g(i, j) by {
        assert(rank_order::may_move(a, group, i) == rank_order::may_move(b, group, i));
        assert(rank_order::may_move(a, group, j) == rank_order::may_move(b, group, j));
        lemma_alike_at(a, b, group, i);
        lemma_alike_at(a, b, group, j);
    }
    assert(f =~= g);
}

proof fn lemma_picked(
    a: Seq<RankItem>,
    b: Seq<RankItem>,
    eligible: Seq<bool>,
    needs: spec_fn(int, int) -> bool,
    s: Seq<int>,
)
    requires
        all_alike(a, b),
        eligible.len() == a.len(),
        rank_order::picked(a, eligible, needs, s),
    ensures
        rank_order::picked(b, eligible, needs, s),
{
    assert forall|k: int| 0 <= k < s.len() implies rank_order::comes_next(
        b,
        eligible,
        needs,
        s.take(k),
        #[trigger] s[k],
    ) by {
        assert(rank_order::comes_next(a, eligible, needs, s.take(k), s[k]));
        let i = s[k];
        assert forall|j: int| #[trigger]
            rank_order::ready(eligible, needs, s.take(k), j) && j != i implies rank_order::item_before(
            b[i],
            b[j],
        ) by {
            assert(rank_order::item_before(a[i], a[j]));
            assert(alike_item(a[i], b[i]) && alike_item(a[j], b[j]));
            assert(a[i].conflict_files == b[i].conflict_files);
            assert(a[j].conflict_files == b[j].conflict_files);
        }
    }
}

proof fn lemma_counts(a: Seq<RankItem>, b: Seq<RankItem>, group: RankGroup, n: int)
    requires
        all_alike(a, b),
        n <= a.len(),
    ensures
        rank_order::mover_kinds(a, group, n) == rank_order::mover_kinds(b, group, n),
        rank_order::movers_before(a, group, n) == rank_order::movers_before(b, group, n),
        rank_order::group_places(a, group, n) == rank_order::group_places(b, group, n),
    decreases n,
{
    if n > 0 {
        lemma_counts(a, b, group, n - 1);
        lemma_same_movers(a, b, group);
        lemma_alike_at(a, b, group, n - 1);
        assert(rank_order::may_move(a, group, n - 1) == rank_order::may_move(b, group, n - 1));
        assert(rank_order::is_new_mover(a, group, n - 1) == rank_order::is_new_mover(
            b,
            group,
            n - 1,
        )) by {
            if rank_order::is_new_mover(a, group, n - 1) {
                assert forall|m: int|
                    0 <= m < n - 1 && #[trigger] rank_order::may_move(b, group, m) implies b[m].id@
                    != b[n - 1].id@ by {
                    assert(rank_order::may_move(a, group, m));
                    lemma_alike_at(a, b, group, m);
                }
            }
            if rank_order::is_new_mover(b, group, n - 1) {
                assert forall|m: int|
                    0 <= m < n - 1 && #[trigger] rank_order::may_move(a, group, m) implies a[m].id@
                    != a[n - 1].id@ by {
                    assert(rank_order::may_move(b, group, m));
                    lemma_alike_at(a, b, group, m);
                }
            }
        }
    }
}

proof fn lemma_cycle(a: Seq<RankItem>, b: Seq<RankItem>, group: RankGroup)
    requires
        all_alike(a, b),
        rank_order::has_cycle(a, group),
    ensures
        rank_order::has_cycle(b, group),
{
    lemma_same_movers(a, b, group);
    lemma_counts(a, b, group, a.len() as int);
    let p = choose|p: Seq<int>| #[trigger]
        rank_order::picked(
            a,
            rank_order::movers(a, group),
            rank_order::needs_of(a, group),
            p,
        ) && p.len() < rank_order::mover_kinds(a, group, a.len() as int);
    lemma_picked(a, b, rank_order::movers(a, group), rank_order::needs_of(a, group), p);
}

/// Items that say the same are ranked in the same way.
proof fn lemma_same_order(
    a: Seq<RankItem>,
    b: Seq<RankItem>,
    group: RankGroup,
    r: Seq<int>,
    t: Seq<int>,
)
    requires
        all_alike(a, b),
        rank_order::ranks(a, group, r),
        rank_order::ranks(b, group, t),
    ensures
        r == t,
        rank_order::has_cycle(a, group) == rank_order::has_cycle(b, group),
        rank_order::group_order(a, group, r) == rank_order::group_order(b, group, t),
{
    lemma_back_all(a, b);
    lemma_same_movers(a, b, group);
    let n = a.len() as int;
    lemma_counts(a, b, group, n);
    if rank_order::has_cycle(a, group) {
        lemma_cycle(a, b, group);
    }
    if rank_order::has_cycle(b, group) {
        lemma_cycle(b, a, group);
    }
    let eligible = rank_order::movers(a, group);
    let needs = if rank_order::has_cycle(a, group) {
        rank_order::needs_nothing()
    } else {
        rank_order::needs_of(a, group)
    };
    lemma_picked(b, a, eligible, needs, t);
    rank_order::lemma_picked_unique(a, eligible, needs, r, t);
    let places = rank_order::group_places(a, group, n);
    rank_order::lemma_group_places(a, group, n);
    assert forall|k: int| 0 <= k < places.len() implies #[trigger] rank_order::new_at(
        a,
        group,
        r,
        places[k],
    ) == rank_order::new_at(b, group, r, places[k]) by {
        let x = places[k];
        assert(rank_order::in_group(a, group, x));
        lemma_counts(a, b, group, x);
        assert(rank_order::may_move(a, group, x) == rank_order::may_move(b, group, x));
    }
    assert(rank_order::group_order(a, group, r) =~= rank_order::group_order(b, group, t));
}

proof fn lemma_moves_id(a: Seq<RankItem>, b: Seq<RankItem>, group: RankGroup, id: Seq<char>)
    requires
        all_alike(a, b),
        rank_order::moves_id(a, group, id),
    ensures
        rank_order::moves_id(b, group, id),
{
    let j = choose|j: int| rank_order::may_move(a, group, j) && (#[trigger] a[j]).id@ == id;
    lemma_may_move(a, b, group, j);
    lemma_alike_at(a, b, group, j);
    assert(b[j].id@ == id);
}

proof fn lemma_item_warnings(
    a: Seq<RankItem>,
    b: Seq<RankItem>,
    group: RankGroup,
    mods: Seq<ModEntry>,
    i: int,
    d: int,
)
    requires
        all_alike(a, b),
        0 <= i < a.len(),
    ensures
        rank_order::item_warnings(a, group, mods, i, d) == rank_order::item_warnings(
            b,
            group,
            mods,
            i,
            d,
        ),
    decreases d,
{
    if d > 0 {
        lemma_item_warnings(a, b, group, mods, i, d - 1);
        lemma_alike_at(a, b, group, i);
        lemma_back_all(a, b);
        let dep = rank_order::deps_of(a, i)[d - 1];
        if rank_order::moves_id(a, group, dep) {
            lemma_moves_id(a, b, group, dep);
        }
        if rank_order::moves_id(b, group, dep) {
            lemma_moves_id(b, a, group, dep);
        }
    }
}

proof fn lemma_skip_warnings(
    a: Seq<RankItem>,
    b: Seq<RankItem>,
    group: RankGroup,
    mods: Seq<ModEntry>,
    n: int,
)
    requires
        all_alike(a, b),
        n <= a.len(),
    ensures
        rank_order::skip_warnings(a, group, mods, n) == rank_order::skip_warnings(
            b,
            group,
            mods,
            n,
        ),
    decreases n,
{
    if n > 0 {
        lemma_skip_warnings(a, b, group, mods, n - 1);
        lemma_same_movers(a, b, group);
        lemma_alike_at(a, b, group, n - 1);
        assert(rank_order::may_move(a, group, n - 1) == rank_order::may_move(b, group, n - 1));
        let d = rank_order::deps_of(a, n - 1).len() as int;
        lemma_item_warnings(a, b, group, mods, n - 1, d);
    }
}

// ---------------------------------------------------------------------------
// The law
// ---------------------------------------------------------------------------

/// Two results that rank a load order, with the same readings of the mods, agree in the new
/// order, in the warnings, and in all that they report but the time.
pub proof fn law_rankings_agree(
    r: SmartRankResult,
    t: SmartRankResult,
    order: Seq<ProfileEntry>,
    mods: Seq<ModEntry>,
    scans: Seq<ModScan>,
)
    requires
        smart_rank::ranks_order(r, order, mods, scans),
        smart_rank::ranks_order(t, order, mods, scans),
    ensures
        r.order@ == t.order@,
        r.report == (SmartRankReport { elapsed_ms: r.report.elapsed_ms, ..t.report }),
        text::texts(r.warnings@) == text::texts(t.warnings@),
{
    let (bare, a, top, loose, pak) = choose|
        bare: Seq<RankItem>,
        items: Seq<RankItem>,
        top: Seq<ConflictPathInfo>,
        loose: Seq<int>,
        pak: Seq<int>,
    | #[trigger]
        smart_rank::follows(r, order, mods, scans, bare, items, top, loose, pak);
    let (bare2, b, top2, loose2, pak2) = choose|
        bare: Seq<RankItem>,
        items: Seq<RankItem>,
        top: Seq<ConflictPathInfo>,
        loose: Seq<int>,
        pak: Seq<int>,
    | #[trigger]
        smart_rank::follows(t, order, mods, scans, bare, items, top, loose, pak);
    lemma_built_alike(bare, bare2, order, mods, scans);
    lemma_conflicts_alike(bare, bare2, a, b);
    lemma_same_order(a, b, RankGroup::Loose, loose, loose2);
    lemma_same_order(a, b, RankGroup::Pak, pak, pak2);
    lemma_shared(bare, bare2, RankGroup::Loose);
    lemma_shared(bare, bare2, RankGroup::Pak);
    lemma_skip_warnings(a, b, RankGroup::Loose, mods, a.len() as int);
    lemma_skip_warnings(a, b, RankGroup::Pak, mods, a.len() as int);
    let places = smart_rank::new_places(a, loose, pak);
    assert(places == smart_rank::new_places(b, loose2, pak2));
    assert forall|k: int| 0 <= k < places.len() implies #[trigger] a[places[k]].id@
        == b[places[k]].id@ by {
        rank_order::lemma_group_order_inside(a, RankGroup::Loose, loose);
        rank_order::lemma_group_order_inside(a, RankGroup::Pak, pak);
        let x = rank_order::group_order(a, RankGroup::Loose, loose);
        let y = rank_order::group_order(a, RankGroup::Pak, pak);
        if k < x.len() {
            assert(places[k] == x[k]);
        } else {
            assert(places[k] == y[k - x.len()]);
        }
        lemma_alike_at(a, b, RankGroup::Loose, places[k]);
    }
    assert(r.order@ =~= t.order@);
}

/// Two rankings of the active profile, with the same readings of the mods, are both there
/// or both not, and agree in the new order, in the warnings, and in all that they report
/// but the time.
pub proof fn law_profile_rankings_agree(
    r: Option<SmartRankResult>,
    t: Option<SmartRankResult>,
    lib: Library,
    scans: Seq<ModScan>,
    elapsed_r: u64,
    elapsed_t: u64,
)
    requires
        smart_rank::ranks_profile(r, lib, scans, elapsed_r),
        smart_rank::ranks_profile(t, lib, scans, elapsed_t),
    ensures
        r is Some <==> t is Some,
        r is Some ==> r->0.order@ == t->0.order@,
        r is Some ==> r->0.report == (SmartRankReport { elapsed_ms: elapsed_r, ..t->0.report }),
        r is Some ==> text::texts(r->0.warnings@) == text::texts(t->0.warnings@),
{
    if r is Some && t is Some {
        let i = choose|i: int| #[trigger]
            library::is_first_named(lib.profiles@, lib.active_profile@, i)
                && smart_rank::ranks_order(r->0, lib.profiles@[i].order@, lib.mods@, scans)
                && r->0.report.elapsed_ms == elapsed_r;
        let j = choose|j: int| #[trigger]
            library::is_first_named(lib.profiles@, lib.active_profile@, j)
                && smart_rank::ranks_order(t->0, lib.profiles@[j].order@, lib.mods@, scans)
                && t->0.report.elapsed_ms == elapsed_t;
        assert(i == j);
        law_rankings_agree(r->0, t->0, lib.profiles@[i].order@, lib.mods@, scans);
    }
}

} // verus!
