//! Ranking the mods of a profile: a proposed load order, and a report on how it
//! came about.
use crate::library;
use crate::library::{Library, ModEntry, ProfileEntry};
use crate::rank_explain;
use crate::rank_explain::{build_explain_lines, SmartRankExplain};
use crate::rank_items;
use crate::rank_items::{count_conflicts, find_group, make_item, ConflictPathInfo, ModScan};
use crate::rank_order;
use crate::rank_order::{rank_group_order, RankGroup, RankItem};
use crate::text;
use crate::text::{push_text, same_text};
use vstd::hash_map::StringHashMap;
use vstd::prelude::*;

verus! {

#[derive(Debug, Clone, Copy)]
pub struct SmartRankReport {
    pub moved: usize,
    pub missing: usize,
    pub conflicts: usize,
    pub total: usize,
    pub missing_loose: usize,
    pub missing_pak: usize,
    pub scanned_loose: usize,
    pub scanned_pak: usize,
    pub enabled_loose: usize,
    pub enabled_pak: usize,
    pub conflicts_loose: usize,
    pub conflicts_pak: usize,
    pub elapsed_ms: u64,
}

#[derive(Debug, Clone, Copy, PartialEq, Eq, Structural)]
pub enum SmartRankGroup {
    Loose,
    Pak,
}

impl SmartRankGroup {
    pub fn label(self) -> (r: &'static str)
        ensures
            r@ == match self {
                SmartRankGroup::Loose => "Loose"@,
                SmartRankGroup::Pak => "Pak"@,
            },
    {
        match self {
            SmartRankGroup::Loose => "Loose",
            SmartRankGroup::Pak => "Pak",
        }
    }
}

#[derive(Debug)]
pub struct SmartRankProgress {
    pub group: SmartRankGroup,
    pub scanned: usize,
    pub total: usize,
    pub name: String,
}

#[derive(Debug)]
pub struct SmartRankResult {
    pub order: Vec<ProfileEntry>,
    pub report: SmartRankReport,
    pub warnings: Vec<String>,
    pub explain: SmartRankExplain,
}

// ---------------------------------------------------------------------------
// What is ranked
// ---------------------------------------------------------------------------

/// The mod of an entry, the last with its id.
pub open spec fn mod_of(mods: Seq<ModEntry>, entry: ProfileEntry) -> ModEntry {
    mods[library::last_index(mods, entry.id@)]
}

pub open spec fn is_known(mods: Seq<ModEntry>, entry: ProfileEntry) -> bool {
    library::last_index(mods, entry.id@) >= 0
}

/// The places among the first `n` whose entries are of known mods.
pub open spec fn known_places(
    order: Seq<ProfileEntry>,
    mods: Seq<ModEntry>,
    n: int,
) -> Seq<int>
    decreases n,
{
    if n <= 0 {
        Seq::empty()
    } else if is_known(mods, order[n - 1]) {
        known_places(order, mods, n - 1).push(n - 1)
    } else {
        known_places(order, mods, n - 1)
    }
}

/// Whether the items are what is known of the first `n` entries.
pub open spec fn items_built(
    items: Seq<RankItem>,
    order: Seq<ProfileEntry>,
    mods: Seq<ModEntry>,
    scans: Seq<ModScan>,
    n: int,
) -> bool {
    let places = known_places(order, mods, n);
    &&& items.len() == places.len()
    &&& forall|k: int|
        0 <= k < items.len() ==> rank_items::is_item(
            #[trigger] items[k],
            order[places[k]],
            places[k],
            mod_of(mods, order[places[k]]),
            scans[places[k]],
        )
}

/// Whether the dependencies of an entry count: it is enabled, and of a mod that brings
/// packages alone.
pub open spec fn is_described(order: Seq<ProfileEntry>, mods: Seq<ModEntry>, i: int) -> bool {
    is_known(mods, order[i]) && order[i].enabled && rank_items::group_of(mod_of(mods, order[i]))
        == RankGroup::Pak
}

/// What the mod of an entry names as dependencies.
pub open spec fn stated_needs(
    order: Seq<ProfileEntry>,
    mods: Seq<ModEntry>,
    scans: Seq<ModScan>,
    i: int,
) -> Seq<Seq<char>> {
    if is_described(order, mods, i) {
        text::texts(scans[i].dependencies@)
    } else {
        Seq::empty()
    }
}

/// Whether the entry at `i` names no dependencies, and none names its mod.
pub open spec fn entry_free(
    order: Seq<ProfileEntry>,
    mods: Seq<ModEntry>,
    scans: Seq<ModScan>,
    i: int,
) -> bool {
    &&& stated_needs(order, mods, scans, i).len() == 0
    &&& forall|m: int|
        0 <= m < order.len() ==> !(#[trigger] stated_needs(order, mods, scans, m)).contains(
            order[i].id@,
        )
}

/// Whether each known mod that has several entries takes no part in dependencies.
pub open spec fn doubles_free(
    order: Seq<ProfileEntry>,
    mods: Seq<ModEntry>,
    scans: Seq<ModScan>,
) -> bool {
    forall|i: int, j: int|
        0 <= i < j < order.len() && (#[trigger] order[i]).id@ == (#[trigger] order[j]).id@
            && is_known(mods, order[i]) ==> entry_free(order, mods, scans, i) && entry_free(
            order,
            mods,
            scans,
            j,
        )
}

/// What is counted of the enabled mods of a group.
pub enum Tally {
    Enabled,
    Scanned,
    Missing,
}

/// Whether files of a mod could be read.
pub open spec fn has_files(scan: ModScan) -> bool {
    scan.files matches Ok(files) && files@.len() > 0
}

pub open spec fn is_tallied(
    entry: ProfileEntry,
    mods: Seq<ModEntry>,
    scan: ModScan,
    group: RankGroup,
    what: Tally,
) -> bool {
    &&& is_known(mods, entry)
    &&& entry.enabled
    &&& rank_items::group_of(mod_of(mods, entry)) == group
    &&& match what {
        Tally::Enabled => true,
        Tally::Scanned => has_files(scan),
        Tally::Missing => !has_files(scan),
    }
}

pub open spec fn tally(
    order: Seq<ProfileEntry>,
    mods: Seq<ModEntry>,
    scans: Seq<ModScan>,
    group: RankGroup,
    what: Tally,
    n: int,
) -> nat
    decreases n,
{
    if n <= 0 {
        0
    } else {
        tally(order, mods, scans, group, what, n - 1) + if is_tallied(
            order[n - 1],
            mods,
            scans[n - 1],
            group,
            what,
        ) {
            1nat
        } else {
            0nat
        }
    }
}

/// The enabled mods of a group among the first `n` entries.
pub open spec fn enabled_count(
    order: Seq<ProfileEntry>,
    mods: Seq<ModEntry>,
    group: RankGroup,
    n: int,
) -> nat
    decreases n,
{
    if n <= 0 {
        0
    } else {
        enabled_count(order, mods, group, n - 1) + if is_known(mods, order[n - 1]) && order[n
            - 1].enabled && rank_items::group_of(mod_of(mods, order[n - 1])) == group {
            1nat
        } else {
            0nat
        }
    }
}

/// The warnings about files of the first `n` entries.
pub open spec fn scan_warnings(
    order: Seq<ProfileEntry>,
    mods: Seq<ModEntry>,
    scans: Seq<ModScan>,
    n: int,
) -> Seq<Seq<char>>
    decreases n,
{
    if n <= 0 {
        Seq::empty()
    } else {
        let before = scan_warnings(order, mods, scans, n - 1);
        let entry = order[n - 1];
        if !is_known(mods, entry) || !entry.enabled {
            before
        } else {
            let name = mod_of(mods, entry).shown_name();
            match scans[n - 1].files {
                Ok(files) => if files@.len() == 0 {
                    before.push("Smart rank scan empty for "@ + name)
                } else {
                    before
                },
                Err(e) => before.push("Smart rank scan failed for "@ + name + ": "@ + e@),
            }
        }
    }
}

pub open spec fn public_group(group: RankGroup) -> SmartRankGroup {
    match group {
        RankGroup::Loose => SmartRankGroup::Loose,
        RankGroup::Pak => SmartRankGroup::Pak,
    }
}

/// The progress after the entry at `i`, if its mod is known and enabled: how many
/// enabled mods of its group have been seen, and how many there are.
pub open spec fn progress_at(
    order: Seq<ProfileEntry>,
    mods: Seq<ModEntry>,
    i: int,
) -> Option<(SmartRankGroup, nat, nat, Seq<char>)> {
    if is_known(mods, order[i]) && order[i].enabled {
        let m = mod_of(mods, order[i]);
        let group = rank_items::group_of(m);
        Some(
            (
                public_group(group),
                enabled_count(order, mods, group, i + 1),
                enabled_count(order, mods, group, order.len() as int),
                m.shown_name(),
            ),
        )
    } else {
        None
    }
}

/// The progress after each of the first `n` entries.
pub open spec fn progress_upto(
    order: Seq<ProfileEntry>,
    mods: Seq<ModEntry>,
    n: int,
) -> Seq<(SmartRankGroup, nat, nat, Seq<char>)>
    decreases n,
{
    if n <= 0 {
        Seq::empty()
    } else {
        let before = progress_upto(order, mods, n - 1);
        match progress_at(order, mods, n - 1) {
            Some(p) => before.push(p),
            None => before,
        }
    }
}

impl SmartRankProgress {
    pub open spec fn shown(self) -> (SmartRankGroup, nat, nat, Seq<char>) {
        (self.group, self.scanned as nat, self.total as nat, self.name@)
    }
}

pub open spec fn progress_views(list: Seq<SmartRankProgress>) -> Seq<
    (SmartRankGroup, nat, nat, Seq<char>),
> {
    Seq::new(list.len(), |i: int| list[i].shown())
}

// ---------------------------------------------------------------------------
// The result
// ---------------------------------------------------------------------------

/// The items in their new order: loose mods first.
pub open spec fn new_places(items: Seq<RankItem>, loose: Seq<int>, pak: Seq<int>) -> Seq<int> {
    rank_order::group_order(items, RankGroup::Loose, loose) + rank_order::group_order(
        items,
        RankGroup::Pak,
        pak,
    )
}

/// How many of the first `n` places have another mod than before.
pub open spec fn moved_count(a: Seq<ProfileEntry>, b: Seq<ProfileEntry>, n: int) -> nat
    decreases n,
{
    if n <= 0 {
        0
    } else {
        moved_count(a, b, n - 1) + if a[n - 1].id@ != b[n - 1].id@ {
            1nat
        } else {
            0nat
        }
    }
}

/// The number of places that two load orders have in common.
pub open spec fn common_len(a: Seq<ProfileEntry>, b: Seq<ProfileEntry>) -> int {
    if a.len() <= b.len() {
        a.len() as int
    } else {
        b.len() as int
    }
}

/// Whether the report counts what it is to count.
pub open spec fn reports(
    r: SmartRankReport,
    order: Seq<ProfileEntry>,
    new_order: Seq<ProfileEntry>,
    mods: Seq<ModEntry>,
    scans: Seq<ModScan>,
    items: Seq<RankItem>,
) -> bool {
    let n = order.len() as int;
    &&& r.moved == moved_count(order, new_order, common_len(order, new_order))
    &&& r.missing == r.missing_loose + r.missing_pak
    &&& r.conflicts == if r.conflicts_loose + r.conflicts_pak <= usize::MAX {
        r.conflicts_loose + r.conflicts_pak
    } else {
        usize::MAX as int
    }
    &&& r.total == n
    &&& r.missing_loose == tally(order, mods, scans, RankGroup::Loose, Tally::Missing, n)
    &&& r.missing_pak == tally(order, mods, scans, RankGroup::Pak, Tally::Missing, n)
    &&& r.scanned_loose == tally(order, mods, scans, RankGroup::Loose, Tally::Scanned, n)
    &&& r.scanned_pak == tally(order, mods, scans, RankGroup::Pak, Tally::Scanned, n)
    &&& r.enabled_loose == enabled_count(order, mods, RankGroup::Loose, n)
    &&& r.enabled_pak == enabled_count(order, mods, RankGroup::Pak, n)
    &&& r.conflicts_loose == rank_items::shared_paths(items, RankGroup::Loose).len()
    &&& r.conflicts_pak == rank_items::shared_paths(items, RankGroup::Pak).len()
}

/// Whether the result follows from the items, first without and then with the
/// counts of conflicts, the files that most mods share, and the orders of the two
/// groups.
pub open spec fn follows(
    r: SmartRankResult,
    order: Seq<ProfileEntry>,
    mods: Seq<ModEntry>,
    scans: Seq<ModScan>,
    bare: Seq<RankItem>,
    items: Seq<RankItem>,
    top: Seq<ConflictPathInfo>,
    loose: Seq<int>,
    pak: Seq<int>,
) -> bool {
    let places = new_places(items, loose, pak);
    &&& items_built(bare, order, mods, scans, order.len() as int)
    &&& rank_items::with_conflicts(bare, items)
    &&& rank_items::lists_top(top, bare)
    &&& rank_order::ranks(items, RankGroup::Loose, loose)
    &&& rank_order::ranks(items, RankGroup::Pak, pak)
    &&& r.order@ == Seq::new(
        places.len(),
        |k: int| order[rank_explain::place_of(order, items[places[k]].id@) as int],
    )
    &&& reports(r.report, order, r.order@, mods, scans, bare)
    &&& text::texts(r.warnings@) == scan_warnings(order, mods, scans, order.len() as int)
        + rank_order::group_warnings(items, RankGroup::Loose, mods) + rank_order::group_warnings(
        items,
        RankGroup::Pak,
        mods,
    )
    &&& rank_explain::line_views(r.explain.lines@) == rank_explain::explanation(
        items,
        top,
        mods,
        order,
    )
}

/// Whether the result ranks a load order.
pub open spec fn ranks_order(
    r: SmartRankResult,
    order: Seq<ProfileEntry>,
    mods: Seq<ModEntry>,
    scans: Seq<ModScan>,
) -> bool {
    exists|
        bare: Seq<RankItem>,
        items: Seq<RankItem>,
        top: Seq<ConflictPathInfo>,
        loose: Seq<int>,
        pak: Seq<int>,
    | #[trigger]
        follows(r, order, mods, scans, bare, items, top, loose, pak)
}

pub proof fn lemma_known_places(order: Seq<ProfileEntry>, mods: Seq<ModEntry>, n: int)
    requires
        0 <= n <= order.len(),
    ensures
        forall|k: int|
            0 <= k < known_places(order, mods, n).len() ==> 0 <= #[trigger] known_places(
                order,
                mods,
                n,
            )[k] < n && is_known(mods, order[known_places(order, mods, n)[k]]),
        forall|i: int|
            0 <= i < n && is_known(mods, #[trigger] order[i]) ==> known_places(
                order,
                mods,
                n,
            ).contains(i),
        forall|a: int, b: int|
            0 <= a < b < known_places(order, mods, n).len() ==> #[trigger] known_places(
                order,
                mods,
                n,
            )[a] < #[trigger] known_places(order, mods, n)[b],
    decreases n,
{
    if n > 0 {
        lemma_known_places(order, mods, n - 1);
        let before = known_places(order, mods, n - 1);
        let now = known_places(order, mods, n);
        assert forall|i: int| 0 <= i < n && is_known(mods, #[trigger] order[i]) implies
            now.contains(i) by {
            if i < n - 1 {
                assert(before.contains(i));
                let k = choose|k: int| 0 <= k < before.len() && before[k] == i;
                assert(now[k] == i);
            } else {
                assert(now[before.len() as int] == i);
            }
        }
    }
}

pub proof fn lemma_items_in_order(
    items: Seq<RankItem>,
    order: Seq<ProfileEntry>,
    mods: Seq<ModEntry>,
    scans: Seq<ModScan>,
)
    requires
        items_built(items, order, mods, scans, order.len() as int),
    ensures
        rank_order::in_place_order(items),
        library::distinct_entries(order) ==> rank_order::distinct_ids(items),
        doubles_free(order, mods, scans) ==> rank_order::doubles_free(items),
        forall|i: int|
            0 <= i < items.len() ==> crate::sorting::ascending(
                #[trigger] rank_items::paths_of(items, i),
            ),
        forall|i: int|
            0 <= i < items.len() ==> (#[trigger] items[i]).original_index < order.len()
                && order[items[i].original_index as int].id == items[i].id,
{
    let places = known_places(order, mods, order.len() as int);
    lemma_known_places(order, mods, order.len() as int);
    assert forall|i: int, j: int| 0 <= i < j < items.len() implies (
    #[trigger] items[i]).original_index < (#[trigger] items[j]).original_index by {
        assert(places[i] < places[j]);
    }
    if library::distinct_entries(order) {
        assert forall|i: int, j: int| 0 <= i < j < items.len() implies (#[trigger] items[i]).id@ != (
        #[trigger] items[j]).id@ by {
            assert(places[i] < places[j]);
            assert(order[places[i]].id@ != order[places[j]].id@);
        }
    }
    assert forall|i: int| 0 <= i < items.len() implies #[trigger] rank_order::deps_of(items, i)
        == stated_needs(order, mods, scans, places[i]) by {
        assert(rank_items::is_item(
            items[i],
            order[places[i]],
            places[i],
            mod_of(mods, order[places[i]]),
            scans[places[i]],
        ));
        assert(rank_order::deps_of(items, i) =~= stated_needs(order, mods, scans, places[i]));
    }
    if doubles_free(order, mods, scans) {
        assert forall|i: int, j: int|
            0 <= i < j < items.len() && (#[trigger] items[i]).id@ == (#[trigger] items[j]).id@ implies
            rank_order::is_free(items, i) && rank_order::is_free(items, j) by {
            assert(places[i] < places[j]);
            assert(order[places[i]].id@ == order[places[j]].id@);
            assert(entry_free(order, mods, scans, places[i]));
            assert(entry_free(order, mods, scans, places[j]));
            assert(rank_order::deps_of(items, i).len() == items[i].dependencies@.len());
            assert(rank_order::deps_of(items, j).len() == items[j].dependencies@.len());
            assert forall|m: int| 0 <= m < items.len() implies !(#[trigger] rank_order::deps_of(
                items,
                m,
            )).contains(items[i].id@) by {
                assert(!stated_needs(order, mods, scans, places[m]).contains(
                    order[places[i]].id@,
                ));
            }
        }
    }
    assert forall|i: int| 0 <= i < items.len() implies crate::sorting::ascending(
        #[trigger] rank_items::paths_of(items, i),
    ) by {
        assert(rank_items::is_item(
            items[i],
            order[places[i]],
            places[i],
            mod_of(mods, order[places[i]]),
            scans[places[i]],
        ));
    }
}

/// A ranked load order holds every entry of a known mod once, with its switch as
/// it was, and nothing else.
pub proof fn law_ranking_keeps_entries(
    r: SmartRankResult,
    order: Seq<ProfileEntry>,
    mods: Seq<ModEntry>,
    scans: Seq<ModScan>,
)
    requires
        ranks_order(r, order, mods, scans),
        library::distinct_entries(order),
    ensures
        forall|e: ProfileEntry| #[trigger]
            r.order@.contains(e) <==> order.contains(e) && is_known(mods, e),
        library::distinct_entries(r.order@),
{
    let (bare, items, top, loose, pak) = choose|
        bare: Seq<RankItem>,
        items: Seq<RankItem>,
        top: Seq<ConflictPathInfo>,
        loose: Seq<int>,
        pak: Seq<int>,
    | #[trigger]
        follows(r, order, mods, scans, bare, items, top, loose, pak);
    lemma_known_places(order, mods, order.len() as int);
    lemma_items_in_order(bare, order, mods, scans);
    let known = known_places(order, mods, order.len() as int);
    let places = new_places(items, loose, pak);
    assert(rank_order::distinct_ids(items)) by {
        assert forall|i: int, j: int| 0 <= i < j < items.len() implies (#[trigger] items[i]).id@ != (
        #[trigger] items[j]).id@ by {
            assert(rank_items::same_item(bare[i], items[i]));
            assert(rank_items::same_item(bare[j], items[j]));
            assert(bare[i].id@ != bare[j].id@);
        }
    }
    rank_order::law_ranks_all(items, RankGroup::Loose, loose);
    rank_order::law_ranks_all(items, RankGroup::Pak, pak);
    law_new_places(items, loose, pak);
    assert forall|i: int| 0 <= i < items.len() implies rank_explain::place_of(
        order,
        (#[trigger] items[i]).id@,
    ) == known[i] by {
        assert(rank_items::same_item(bare[i], items[i]));
        rank_explain::lemma_place_of(order, known[i]);
        assert(rank_items::is_item(
            bare[i],
            order[known[i]],
            known[i],
            mod_of(mods, order[known[i]]),
            scans[known[i]],
        ));
    }
    assert forall|e: ProfileEntry| #[trigger] r.order@.contains(e) <==> order.contains(e)
        && is_known(mods, e) by {
        if r.order@.contains(e) {
            let k = choose|k: int| 0 <= k < r.order@.len() && r.order@[k] == e;
            assert(places.contains(places[k]));
            assert(order[known[places[k]]] == e);
        }
        if order.contains(e) && is_known(mods, e) {
            let i = choose|i: int| 0 <= i < order.len() && order[i] == e;
            assert(is_known(mods, order[i]));
            assert(known.contains(i));
            let m = choose|m: int| 0 <= m < known.len() && known[m] == i;
            assert(places.contains(m));
            let k = choose|k: int| 0 <= k < places.len() && places[k] == m;
            assert(r.order@[k] == e);
        }
    }
    assert forall|a: int, b: int| 0 <= a < b < r.order@.len() implies (#[trigger] r.order@[a]).id@
        != (#[trigger] r.order@[b]).id@ by {
        assert(places.contains(places[a]));
        assert(places.contains(places[b]));
        assert(places[a] != places[b]);
        let x = known[places[a]];
        let y = known[places[b]];
        assert(x != y) by {
            if places[a] < places[b] {
                assert(known[places[a]] < known[places[b]]);
            } else {
                assert(known[places[b]] < known[places[a]]);
            }
        }
        if x < y {
            assert(order[x].id@ != order[y].id@);
        } else {
            assert(order[y].id@ != order[x].id@);
        }
    }
}

proof fn lemma_tallies(
    order: Seq<ProfileEntry>,
    mods: Seq<ModEntry>,
    scans: Seq<ModScan>,
    group: RankGroup,
    n: int,
)
    ensures
        tally(order, mods, scans, group, Tally::Scanned, n) + tally(
            order,
            mods,
            scans,
            group,
            Tally::Missing,
            n,
        ) == enabled_count(order, mods, group, n),
    decreases n,
{
    if n > 0 {
        lemma_tallies(order, mods, scans, group, n - 1);
    }
}

/// In a report the files of each enabled mod were found or not, the numbers of the two
/// groups add up to those of both, and each entry is counted.
pub proof fn law_report_adds_up(
    r: SmartRankResult,
    order: Seq<ProfileEntry>,
    mods: Seq<ModEntry>,
    scans: Seq<ModScan>,
)
    requires
        ranks_order(r, order, mods, scans),
    ensures
        r.report.scanned_loose + r.report.missing_loose == r.report.enabled_loose,
        r.report.scanned_pak + r.report.missing_pak == r.report.enabled_pak,
        r.report.missing == r.report.missing_loose + r.report.missing_pak,
        r.report.conflicts_loose + r.report.conflicts_pak <= usize::MAX ==> r.report.conflicts
            == r.report.conflicts_loose + r.report.conflicts_pak,
        r.report.total == order.len(),
{
    let n = order.len() as int;
    lemma_tallies(order, mods, scans, RankGroup::Loose, n);
    lemma_tallies(order, mods, scans, RankGroup::Pak, n);
}

/// The new order holds every item once, where no mod is left out.
pub proof fn law_new_places(items: Seq<RankItem>, loose: Seq<int>, pak: Seq<int>)
    requires
        rank_order::ranks(items, RankGroup::Loose, loose),
        rank_order::ranks(items, RankGroup::Pak, pak),
        rank_order::covers(rank_order::movers(items, RankGroup::Loose), loose),
        rank_order::covers(rank_order::movers(items, RankGroup::Pak), pak),
    ensures
        new_places(items, loose, pak).no_duplicates(),
        forall|i: int| #[trigger]
            new_places(items, loose, pak).contains(i) <==> 0 <= i < items.len(),
{
    rank_order::law_group_order_permutes(items, RankGroup::Loose, loose);
    rank_order::law_group_order_permutes(items, RankGroup::Pak, pak);
    let a = rank_order::group_order(items, RankGroup::Loose, loose);
    let b = rank_order::group_order(items, RankGroup::Pak, pak);
    let whole = new_places(items, loose, pak);
    assert forall|i: int| #[trigger] whole.contains(i) <==> 0 <= i < items.len() by {
        if whole.contains(i) {
            let k = choose|k: int| 0 <= k < whole.len() && whole[k] == i;
            if k < a.len() {
                assert(a[k] == i);
                assert(a.contains(i));
                assert(rank_order::in_group(items, RankGroup::Loose, i));
            } else {
                assert(b[k - a.len()] == i);
                assert(b.contains(i));
                assert(rank_order::in_group(items, RankGroup::Pak, i));
            }
        }
        if 0 <= i < items.len() {
            if items[i].group == RankGroup::Loose {
                assert(rank_order::in_group(items, RankGroup::Loose, i));
                assert(a.contains(i));
                let k = choose|k: int| 0 <= k < a.len() && a[k] == i;
                assert(whole[k] == i);
            } else {
                assert(rank_order::in_group(items, RankGroup::Pak, i));
                assert(b.contains(i));
                let k = choose|k: int| 0 <= k < b.len() && b[k] == i;
                assert(whole[a.len() + k] == i);
            }
        }
    }
    assert forall|x: int, y: int| 0 <= x < y < whole.len() implies whole[x] != whole[y] by {
        if y < a.len() {
            assert(a[x] != a[y]);
        } else if x >= a.len() {
            assert(b[x - a.len()] != b[y - a.len()]);
        } else {
            assert(a.contains(a[x]));
            assert(b.contains(b[y - a.len()]));
            assert(rank_order::in_group(items, RankGroup::Loose, whole[x]));
            assert(rank_order::in_group(items, RankGroup::Pak, whole[y]));
        }
    }
}

// ---------------------------------------------------------------------------
// Ranking
// ---------------------------------------------------------------------------

/// How many enabled mods of a group the load order has among its first `upto`
/// entries.
fn count_enabled(
    order: &Vec<ProfileEntry>,
    mods: &[ModEntry],
    index: &StringHashMap<usize>,
    group: RankGroup,
    upto: usize,
) -> (r: usize)
    requires
        library::indexes(index@, mods@),
        upto <= order.len(),
    ensures
        r == enabled_count(order@, mods@, group, upto as int),
        r <= upto,
{
    let mut r: usize = 0;
    let mut i: usize = 0;
    while i < upto
        invariant
            i <= upto <= order.len(),
            r <= i,
            library::indexes(index@, mods@),
            r == enabled_count(order@, mods@, group, i as int),
        decreases upto - i,
    {
        proof {
            library::lemma_last_index(mods@, order@[i as int].id@);
        }
        if let Some(k) = index.get(order[i].id.as_str()) {
            assert(library::is_last_with_id(mods@, order@[i as int].id@, *k as int));
            if order[i].enabled && find_group(&mods[*k]) == group {
                r = r + 1;
            }
        }
        i = i + 1;
    }
    r
}

/// The progress after the entry at `at`.
pub fn scan_progress(
    order: &Vec<ProfileEntry>,
    mods: &[ModEntry],
    index: &StringHashMap<usize>,
    at: usize,
) -> (r: Option<SmartRankProgress>)
    requires
        library::indexes(index@, mods@),
        at < order.len(),
    ensures
        match r {
            Some(p) => progress_at(order@, mods@, at as int) == Some(p.shown()),
            None => progress_at(order@, mods@, at as int) is None,
        },
{
    proof {
        library::lemma_last_index(mods@, order@[at as int].id@);
    }
    if !order[at].enabled {
        return None;
    }
    match index.get(order[at].id.as_str()) {
        None => None,
        Some(k) => {
            assert(library::is_last_with_id(mods@, order@[at as int].id@, *k as int));
            let m = &mods[*k];
            let group = find_group(m);
            Some(
                SmartRankProgress {
                    group: match group {
                        RankGroup::Loose => SmartRankGroup::Loose,
                        RankGroup::Pak => SmartRankGroup::Pak,
                    },
                    scanned: count_enabled(order, mods, index, group, at + 1),
                    total: count_enabled(order, mods, index, group, order.len()),
                    name: m.display_name(),
                },
            )
        },
    }
}

/// The numbers of mods whose files were found and of those whose were not.
struct ScanCounts {
    missing_loose: usize,
    missing_pak: usize,
    scanned_loose: usize,
    scanned_pak: usize,
}

impl ScanCounts {
    spec fn of_first(
        self,
        order: Seq<ProfileEntry>,
        mods: Seq<ModEntry>,
        scans: Seq<ModScan>,
        n: int,
    ) -> bool {
        &&& self.missing_loose == tally(order, mods, scans, RankGroup::Loose, Tally::Missing, n)
        &&& self.missing_pak == tally(order, mods, scans, RankGroup::Pak, Tally::Missing, n)
        &&& self.scanned_loose == tally(order, mods, scans, RankGroup::Loose, Tally::Scanned, n)
        &&& self.scanned_pak == tally(order, mods, scans, RankGroup::Pak, Tally::Scanned, n)
        &&& self.missing_loose + self.missing_pak <= n
        &&& self.scanned_loose <= n
        &&& self.scanned_pak <= n
    }
}

/// Puts together what is known of the mods of a load order, counts whose files
/// were found, and warns of the others.
fn build_items(
    order: &Vec<ProfileEntry>,
    mods: &[ModEntry],
    index: &StringHashMap<usize>,
    scans: &Vec<ModScan>,
    warnings: &mut Vec<String>,
    progress: &mut Vec<SmartRankProgress>,
) -> (r: (Vec<RankItem>, ScanCounts))
    requires
        library::indexes(index@, mods@),
        scans.len() == order.len(),
        old(warnings)@.len() == 0,
    ensures
        items_built(r.0@, order@, mods@, scans@, order@.len() as int),
        r.1.of_first(order@, mods@, scans@, order@.len() as int),
        text::texts(final(warnings)@) == scan_warnings(order@, mods@, scans@, order@.len() as int),
        progress_views(final(progress)@) == progress_views(old(progress)@) + progress_upto(
            order@,
            mods@,
            order@.len() as int,
        ),
{
    let mut items: Vec<RankItem> = Vec::new();
    let mut counts = ScanCounts {
        missing_loose: 0,
        missing_pak: 0,
        scanned_loose: 0,
        scanned_pak: 0,
    };
    let ghost shown = progress_views(progress@);
    let mut i: usize = 0;
    assert(text::texts(warnings@) =~= Seq::empty());
    assert(shown + progress_upto(order@, mods@, 0) =~= shown);
    while i < order.len()
        invariant
            i <= order.len(),
            scans.len() == order.len(),
            library::indexes(index@, mods@),
            items_built(items@, order@, mods@, scans@, i as int),
            counts.of_first(order@, mods@, scans@, i as int),
            text::texts(warnings@) == scan_warnings(order@, mods@, scans@, i as int),
            progress_views(progress@) == shown + progress_upto(order@, mods@, i as int),
        decreases order.len() - i,
    {
        let entry = &order[i];
        proof {
            library::lemma_last_index(mods@, entry.id@);
            reveal_with_fuel(tally, 2);
        }
        if let Some(reached) = scan_progress(order, mods, index, i) {
            let ghost before = progress@;
            progress.push(reached);
            proof {
                let p = progress_upto(order@, mods@, i as int);
                assert(progress_views(progress@) =~= progress_views(before).push(reached.shown()));
                assert((shown + p).push(reached.shown()) =~= shown + p.push(reached.shown()));
            }
        }
        if let Some(k) = index.get(entry.id.as_str()) {
            assert(library::is_last_with_id(mods@, entry.id@, *k as int));
            let m = &mods[*k];
            let item = make_item(entry, i, m, &scans[i]);
            if entry.enabled {
                let found = item.has_data;
                match item.group {
                    RankGroup::Loose => {
                        if found {
                            counts.scanned_loose = counts.scanned_loose + 1;
                        } else {
                            counts.missing_loose = counts.missing_loose + 1;
                        }
                    },
                    RankGroup::Pak => {
                        if found {
                            counts.scanned_pak = counts.scanned_pak + 1;
                        } else {
                            counts.missing_pak = counts.missing_pak + 1;
                        }
                    },
                }
                if !found {
                    let name = m.display_name();
                    let line = match &scans[i].files {
                        Ok(_) => text::concat2("Smart rank scan empty for ", name.as_str()),
                        Err(e) => {
                            let mut line = text::concat3(
                                "Smart rank scan failed for ",
                                name.as_str(),
                                ": ",
                            );
                            push_text(&mut line, e.as_str());
                            line
                        },
                    };
                    proof {
                        text::lemma_texts_push(warnings@, line);
                    }
                    warnings.push(line);
                }
            }
            let ghost before = items@;
            items.push(item);
            proof {
                let places = known_places(order@, mods@, i + 1);
                assert forall|q: int| 0 <= q < items@.len() implies rank_items::is_item(
                    #[trigger] items@[q],
                    order@[places[q]],
                    places[q],
                    mod_of(mods@, order@[places[q]]),
                    scans@[places[q]],
                ) by {
                    if q < before.len() {
                        assert(items@[q] == before[q]);
                    }
                }
            }
        }
        i = i + 1;
    }
    (items, counts)
}

/// How many places have another mod than before.
fn count_moved(a: &Vec<ProfileEntry>, b: &Vec<ProfileEntry>) -> (r: usize)
    ensures
        r == moved_count(a@, b@, common_len(a@, b@)),
{
    let mut r: usize = 0;
    let mut i: usize = 0;
    while i < a.len() && i < b.len()
        invariant
            i <= a.len(),
            i <= b.len(),
            r <= i,
            r == moved_count(a@, b@, i as int),
        decreases a.len() - i,
    {
        if !same_text(a[i].id.as_str(), b[i].id.as_str()) {
            r = r + 1;
        }
        i = i + 1;
    }
    r
}

/// The place of the entry for a mod, the last where it has several.
fn find_place(
    entry_at: &StringHashMap<usize>,
    item: &RankItem,
    order: &Vec<ProfileEntry>,
) -> (r: usize)
    requires
        order.len() > 0,
        forall|id: Seq<char>|
            (#[trigger] entry_at@.contains_key(id) ==> entry_at@[id] == rank_explain::place_of(
                order@,
                id,
            )) && (!entry_at@.contains_key(id) ==> rank_explain::place_of(order@, id) == 0),
    ensures
        r == rank_explain::place_of(order@, item.id@),
        r < order.len(),
{
    proof {
        rank_explain::lemma_place_inside(order@, item.id@);
        assert(entry_at@.contains_key(item.id@) || !entry_at@.contains_key(item.id@));
    }
    match entry_at.get(item.id.as_str()) {
        Some(at) => *at,
        None => 0,
    }
}

/// Ranks a load order.
pub fn rank_order_of(
    order: &Vec<ProfileEntry>,
    mods: &Vec<ModEntry>,
    index: &StringHashMap<usize>,
    scans: &Vec<ModScan>,
    elapsed_ms: u64,
    progress: &mut Vec<SmartRankProgress>,
) -> (r: SmartRankResult)
    requires
        library::indexes(index@, mods@),
        scans.len() == order.len(),
        doubles_free(order@, mods@, scans@),
    ensures
        ranks_order(r, order@, mods@, scans@),
        r.report.elapsed_ms == elapsed_ms,
        progress_views(final(progress)@) == progress_views(old(progress)@) + progress_upto(
            order@,
            mods@,
            order@.len() as int,
        ),
{
    let mut warnings: Vec<String> = Vec::new();
    let (built, counts) = build_items(
        order,
        mods.as_slice(),
        index,
        scans,
        &mut warnings,
        progress,
    );
    let mut items = built;
    let ghost bare = items@;
    let ghost first = text::texts(warnings@);
    proof {
        lemma_items_in_order(bare, order@, mods@, scans@);
    }
    let mut top: Vec<ConflictPathInfo> = Vec::new();
    let shared = count_conflicts(&mut items, &mut top);
    proof {
        assert forall|i: int| 0 <= i < items@.len() implies (#[trigger] items@[i]).id
            == bare[i].id && items@[i].original_index == bare[i].original_index by {
            assert(rank_items::same_item(bare[i], items@[i]));
        }
        assert(rank_order::in_place_order(items@));
        assert forall|i: int| 0 <= i < items@.len() implies #[trigger] rank_order::deps_of(
            items@,
            i,
        ) == rank_order::deps_of(bare, i) && items@[i].id == bare[i].id by {
            assert(rank_items::same_item(bare[i], items@[i]));
        }
        assert forall|i: int, j: int|
            0 <= i < j < items@.len() && (#[trigger] items@[i]).id@ == (#[trigger] items@[j]).id@ implies
            rank_order::is_free(items@, i) && rank_order::is_free(items@, j) by {
            assert(rank_items::same_item(bare[i], items@[i]));
            assert(rank_items::same_item(bare[j], items@[j]));
            assert(bare[i].id@ == bare[j].id@);
            assert(rank_order::is_free(bare, i) && rank_order::is_free(bare, j));
            assert forall|m: int| 0 <= m < items@.len() implies !(#[trigger] rank_order::deps_of(
                items@,
                m,
            )).contains(items@[i].id@) by {
                assert(!rank_order::deps_of(bare, m).contains(bare[i].id@));
            }
        }
        assert(rank_order::doubles_free(items@));
    }
    let loose = rank_group_order(&items, RankGroup::Loose, mods.as_slice(), index, &mut warnings);
    let pak = rank_group_order(&items, RankGroup::Pak, mods.as_slice(), index, &mut warnings);
    let ghost r1 = choose|r: Seq<int>| #[trigger]
        rank_order::ranks(items@, RankGroup::Loose, r) && rank_order::as_ints(loose@)
            == rank_order::group_order(items@, RankGroup::Loose, r);
    let ghost r2 = choose|r: Seq<int>| #[trigger]
        rank_order::ranks(items@, RankGroup::Pak, r) && rank_order::as_ints(pak@)
            == rank_order::group_order(items@, RankGroup::Pak, r);
    let ghost places = new_places(items@, r1, r2);
    let entry_at = rank_explain::index_places(order);
    let mut new_order: Vec<ProfileEntry> = Vec::new();
    let mut a: usize = 0;
    while a < loose.len()
        invariant
            a <= loose.len(),
            rank_order::as_ints(loose@) == rank_order::group_order(items@, RankGroup::Loose, r1),
            places == new_places(items@, r1, r2),
            forall|k: int| 0 <= k < loose.len() ==> (#[trigger] loose@[k]) < items.len(),
            items.len() > 0 ==> order.len() > 0,
            forall|id: Seq<char>|
                (#[trigger] entry_at@.contains_key(id) ==> entry_at@[id] == rank_explain::place_of(
                    order@,
                    id,
                )) && (!entry_at@.contains_key(id) ==> rank_explain::place_of(order@, id) == 0),
            new_order.len() == a,
            forall|k: int|
                0 <= k < a ==> #[trigger] new_order@[k]
                    == order@[rank_explain::place_of(order@, items@[places[k]].id@) as int],
        decreases loose.len() - a,
    {
        assert(rank_order::as_ints(loose@)[a as int] == loose@[a as int]);
        assert(places[a as int] == loose@[a as int]);
        let place = find_place(&entry_at, &items[loose[a]], order);
        new_order.push(order[place].clone());
        a = a + 1;
    }
    let mut b: usize = 0;
    while b < pak.len()
        invariant
            b <= pak.len(),
            a == loose.len(),
            rank_order::as_ints(loose@) == rank_order::group_order(items@, RankGroup::Loose, r1),
            rank_order::as_ints(pak@) == rank_order::group_order(items@, RankGroup::Pak, r2),
            places == new_places(items@, r1, r2),
            forall|k: int| 0 <= k < pak.len() ==> (#[trigger] pak@[k]) < items.len(),
            items.len() > 0 ==> order.len() > 0,
            forall|id: Seq<char>|
                (#[trigger] entry_at@.contains_key(id) ==> entry_at@[id] == rank_explain::place_of(
                    order@,
                    id,
                )) && (!entry_at@.contains_key(id) ==> rank_explain::place_of(order@, id) == 0),
            new_order.len() == a + b,
            forall|k: int|
                0 <= k < new_order.len() ==> #[trigger] new_order@[k]
                    == order@[rank_explain::place_of(order@, items@[places[k]].id@) as int],
        decreases pak.len() - b,
    {
        assert(rank_order::as_ints(pak@)[b as int] == pak@[b as int]);
        assert(places[a + b] == pak@[b as int]);
        let place = find_place(&entry_at, &items[pak[b]], order);
        new_order.push(order[place].clone());
        b = b + 1;
    }
    assert(places.len() == a + b) by {
        assert(rank_order::as_ints(loose@).len() == a);
        assert(rank_order::as_ints(pak@).len() == b);
    }
    assert(new_order@ =~= Seq::new(
        places.len(),
        |k: int| order@[rank_explain::place_of(order@, items@[places[k]].id@) as int],
    ));
    let explain = build_explain_lines(&items, &top, mods.as_slice(), index, order);
    let report = SmartRankReport {
        moved: count_moved(order, &new_order),
        missing: counts.missing_loose + counts.missing_pak,
        conflicts: shared.loose.saturating_add(shared.pak),
        total: order.len(),
        missing_loose: counts.missing_loose,
        missing_pak: counts.missing_pak,
        scanned_loose: counts.scanned_loose,
        scanned_pak: counts.scanned_pak,
        enabled_loose: count_enabled(
            order,
            mods.as_slice(),
            index,
            RankGroup::Loose,
            order.len(),
        ),
        enabled_pak: count_enabled(order, mods.as_slice(), index, RankGroup::Pak, order.len()),
        conflicts_loose: shared.loose,
        conflicts_pak: shared.pak,
        elapsed_ms,
    };
    let r = SmartRankResult { order: new_order, report, warnings, explain };
    assert(follows(r, order@, mods@, scans@, bare, items@, top@, r1, r2));
    r
}

/// Whether the profile can be ranked: each entry was looked at, and a mod that has several
/// takes no part in dependencies. What is needed is counted by mod: with two entries of a
/// mod that is, the search for an order might never end.
pub open spec fn can_rank(lib: Library, scans: Seq<ModScan>) -> bool {
    forall|i: int| #[trigger]
        library::is_first_named(lib.profiles@, lib.active_profile@, i) ==> scans.len()
            == lib.profiles@[i].order@.len() && doubles_free(
            lib.profiles@[i].order@,
            lib.mods@,
            scans,
        )
}

/// Whether the result ranks the active profile; there is none without one.
pub open spec fn ranks_profile(
    r: Option<SmartRankResult>,
    lib: Library,
    scans: Seq<ModScan>,
    elapsed_ms: u64,
) -> bool {
    match r {
        None => !library::has_profile(lib.profiles@, lib.active_profile@),
        Some(result) => exists|i: int| #[trigger]
            library::is_first_named(lib.profiles@, lib.active_profile@, i) && ranks_order(
                result,
                lib.profiles@[i].order@,
                lib.mods@,
                scans,
            ) && result.report.elapsed_ms == elapsed_ms,
    }
}

fn check_described(
    order: &Vec<ProfileEntry>,
    mods: &Vec<ModEntry>,
    index: &StringHashMap<usize>,
    i: usize,
) -> (r: bool)
    requires
        library::indexes(index@, mods@),
        i < order.len(),
    ensures
        r == is_described(order@, mods@, i as int),
{
    proof {
        library::lemma_last_index(mods@, order@[i as int].id@);
    }
    match index.get(order[i].id.as_str()) {
        Some(k) => order[i].enabled && find_group(&mods[*k]) == RankGroup::Pak,
        None => false,
    }
}

/// Whether the entry at `i` takes no part in dependencies.
fn check_free(
    order: &Vec<ProfileEntry>,
    mods: &Vec<ModEntry>,
    index: &StringHashMap<usize>,
    scans: &Vec<ModScan>,
    i: usize,
) -> (r: bool)
    requires
        library::indexes(index@, mods@),
        scans.len() == order.len(),
        i < order.len(),
    ensures
        r == entry_free(order@, mods@, scans@, i as int),
{
    if check_described(order, mods, index, i) && scans[i].dependencies.len() > 0 {
        assert(stated_needs(order@, mods@, scans@, i as int).len() > 0);
        return false;
    }
    let mut m: usize = 0;
    while m < order.len()
        invariant
            m <= order.len(),
            i < order.len(),
            scans.len() == order.len(),
            library::indexes(index@, mods@),
            forall|k: int|
                0 <= k < m ==> !(#[trigger] stated_needs(order@, mods@, scans@, k)).contains(
                    order@[i as int].id@,
                ),
        decreases order.len() - m,
    {
        let ghost needs = stated_needs(order@, mods@, scans@, m as int);
        if check_described(order, mods, index, m) {
            let list = &scans[m].dependencies;
            let mut d: usize = 0;
            while d < list.len()
                invariant
                    d <= list.len(),
                    i < order.len(),
                    m < order.len(),
                    needs == text::texts(list@),
                    needs == stated_needs(order@, mods@, scans@, m as int),
                    forall|k: int| 0 <= k < d ==> (#[trigger] needs[k]) != order@[i as int].id@,
                decreases list.len() - d,
            {
                if same_text(list[d].as_str(), order[i].id.as_str()) {
                    assert(needs[d as int] == order@[i as int].id@);
                    assert(stated_needs(order@, mods@, scans@, m as int).contains(
                        order@[i as int].id@,
                    ));
                    return false;
                }
                d = d + 1;
            }
        }
        m = m + 1;
    }
    true
}

fn check_doubles(
    order: &Vec<ProfileEntry>,
    mods: &Vec<ModEntry>,
    index: &StringHashMap<usize>,
    scans: &Vec<ModScan>,
) -> (r: bool)
    requires
        library::indexes(index@, mods@),
        scans.len() == order.len(),
    ensures
        r == doubles_free(order@, mods@, scans@),
{
    let mut i: usize = 0;
    while i < order.len()
        invariant
            i <= order.len(),
            scans.len() == order.len(),
            library::indexes(index@, mods@),
            forall|a: int, b: int|
                0 <= a < b < order.len() && a < i && (#[trigger] order@[a]).id@ == (
                #[trigger] order@[b]).id@ && is_known(mods@, order@[a]) ==> entry_free(
                    order@,
                    mods@,
                    scans@,
                    a,
                ) && entry_free(order@, mods@, scans@, b),
        decreases order.len() - i,
    {
        proof {
            library::lemma_last_index(mods@, order@[i as int].id@);
        }
        if index.contains_key(order[i].id.as_str()) {
            let mut j: usize = i + 1;
            while j < order.len()
                invariant
                    i < j <= order.len(),
                    scans.len() == order.len(),
                    library::indexes(index@, mods@),
                    is_known(mods@, order@[i as int]),
                    forall|b: int|
                        i < b < j && (#[trigger] order@[b]).id@ == order@[i as int].id@
                            ==> entry_free(order@, mods@, scans@, i as int) && entry_free(
                            order@,
                            mods@,
                            scans@,
                            b,
                        ),
                decreases order.len() - j,
            {
                if same_text(order[i].id.as_str(), order[j].id.as_str()) {
                    if !check_free(order, mods, index, scans, i) || !check_free(
                        order,
                        mods,
                        index,
                        scans,
                        j,
                    ) {
                        assert(order@[i as int].id@ == order@[j as int].id@);
                        return false;
                    }
                }
                j = j + 1;
            }
        }
        i = i + 1;
    }
    true
}

/// Whether the active profile can be ranked.
pub fn check_ranking(library: &Library, scans: &Vec<ModScan>) -> (r: bool)
    ensures
        r == can_rank(*library, scans@),
{
    match library::find_profile(&library.profiles, library.active_profile.as_str()) {
        Some(i) => {
            proof {
                assert(library::is_first_named(
                    library.profiles@,
                    library.active_profile@,
                    i as int,
                ));
            }
            let order = &library.profiles[i].order;
            let index = library.index_by_id();
            scans.len() == order.len() && check_doubles(order, &library.mods, &index, scans)
        },
        None => true,
    }
}

/// Whether what was told of the active profile stands behind what was told before.
pub open spec fn tells_progress(
    after: Seq<SmartRankProgress>,
    before: Seq<SmartRankProgress>,
    lib: Library,
) -> bool {
    exists|i: int| #[trigger]
        library::is_first_named(lib.profiles@, lib.active_profile@, i) && progress_views(after)
            == progress_views(before) + progress_upto(
            lib.profiles@[i].order@,
            lib.mods@,
            lib.profiles@[i].order@.len() as int,
        )
}

/// What came of ranking the active profile.
#[derive(Debug)]
pub enum RankAttempt {
    /// It cannot be ranked.
    Refused,
    NoProfile,
    Ranked(SmartRankResult),
}

/// Ranks the active profile where that is possible.
pub fn try_smart_rank_profile(
    library: &Library,
    scans: &Vec<ModScan>,
    elapsed_ms: u64,
    progress: &mut Vec<SmartRankProgress>,
) -> (r: RankAttempt)
    ensures
        r is Refused <==> !can_rank(*library, scans@),
        r is Refused ==> final(progress)@ == old(progress)@,
        r is NoProfile ==> ranks_profile(None, *library, scans@, elapsed_ms)
            && final(progress)@ == old(progress)@,
        r matches RankAttempt::Ranked(result) ==> {
            &&& ranks_profile(Some(result), *library, scans@, elapsed_ms)
            &&& tells_progress(final(progress)@, old(progress)@, *library)
        },
{
    if !check_ranking(library, scans) {
        return RankAttempt::Refused;
    }
    match smart_rank_profile_with_progress(library, scans, elapsed_ms, progress) {
        Some(result) => RankAttempt::Ranked(result),
        None => RankAttempt::NoProfile,
    }
}

/// Ranks the active profile.
pub fn smart_rank_profile(library: &Library, scans: &Vec<ModScan>, elapsed_ms: u64) -> (r: Option<
    SmartRankResult,
>)
    requires
        can_rank(*library, scans@),
    ensures
        ranks_profile(r, *library, scans@, elapsed_ms),
{
    let mut progress: Vec<SmartRankProgress> = Vec::new();
    smart_rank_profile_with_progress(library, scans, elapsed_ms, &mut progress)
}

/// Ranks the active profile, and adds to `progress` how far the ranking was after
/// each enabled mod.
pub fn smart_rank_profile_with_progress(
    library: &Library,
    scans: &Vec<ModScan>,
    elapsed_ms: u64,
    progress: &mut Vec<SmartRankProgress>,
) -> (r: Option<SmartRankResult>)
    requires
        can_rank(*library, scans@),
    ensures
        ranks_profile(r, *library, scans@, elapsed_ms),
        r is None ==> final(progress)@ == old(progress)@,
        r is Some ==> tells_progress(final(progress)@, old(progress)@, *library),
{
    let place = match library::find_profile(
        &library.profiles,
        library.active_profile.as_str(),
    ) {
        Some(i) => i,
        None => return None,
    };
    assert(library::is_first_named(library.profiles@, library.active_profile@, place as int));
    let index = library.index_by_id();
    let order = &library.profiles[place].order;
    Some(rank_order_of(order, &library.mods, &index, scans, elapsed_ms, progress))
}

} // verus!
