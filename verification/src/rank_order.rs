//! The order that mods are ranked in: by what they share with others, behind the
//! mods that they depend on.
use crate::library;
use crate::library::{display_mod_name, ModEntry};
use crate::text;
use vstd::hash_map::StringHashMap;
use vstd::prelude::*;

verus! {

/// Mods with loose files are ranked apart from those that are packages alone, and
/// come first.
#[derive(Debug, Clone, Copy, PartialEq, Eq, Structural)]
pub enum RankGroup {
    Loose,
    Pak,
}

/// What is known of a mod that is to be ranked.
#[derive(Debug)]
pub struct RankItem {
    pub id: String,
    pub enabled: bool,
    pub group: RankGroup,
    /// The keys of its files, in ascending order.
    pub file_paths: Vec<String>,
    pub file_count: usize,
    pub total_bytes: u64,
    pub conflict_files: usize,
    pub conflict_partners: usize,
    pub original_index: usize,
    pub has_data: bool,
    pub patch_score: u8,
    pub patch_reasons: Vec<String>,
    pub dependencies: Vec<String>,
    pub date_hint: i64,
}

// ---------------------------------------------------------------------------
// The order by score
// ---------------------------------------------------------------------------

/// Whether `a` ranks before `b`: it shares files with more mods, shares more
/// files, looks less like a patch, is larger, has more files, is older, stood
/// earlier; the first difference decides.
pub open spec fn item_before(a: RankItem, b: RankItem) -> bool {
    if a.conflict_partners != b.conflict_partners {
        a.conflict_partners > b.conflict_partners
    } else if a.conflict_files != b.conflict_files {
        a.conflict_files > b.conflict_files
    } else if a.patch_score != b.patch_score {
        a.patch_score < b.patch_score
    } else if a.total_bytes != b.total_bytes {
        a.total_bytes > b.total_bytes
    } else if a.file_count != b.file_count {
        a.file_count > b.file_count
    } else if a.date_hint != b.date_hint {
        a.date_hint < b.date_hint
    } else {
        a.original_index < b.original_index
    }
}

pub fn compare_rank_items(a: &RankItem, b: &RankItem) -> (r: bool)
    ensures
        r == item_before(*a, *b),
{
    if a.conflict_partners != b.conflict_partners {
        a.conflict_partners > b.conflict_partners
    } else if a.conflict_files != b.conflict_files {
        a.conflict_files > b.conflict_files
    } else if a.patch_score != b.patch_score {
        a.patch_score < b.patch_score
    } else if a.total_bytes != b.total_bytes {
        a.total_bytes > b.total_bytes
    } else if a.file_count != b.file_count {
        a.file_count > b.file_count
    } else if a.date_hint != b.date_hint {
        a.date_hint < b.date_hint
    } else {
        a.original_index < b.original_index
    }
}

/// Of two items that stood in different places one ranks before the other, never
/// both; and the order is transitive.
pub proof fn law_score_order_total(a: RankItem, b: RankItem, c: RankItem)
    ensures
        a.original_index != b.original_index ==> item_before(a, b) != item_before(b, a),
        !(item_before(a, b) && item_before(b, a)),
        item_before(a, b) && item_before(b, c) ==> item_before(a, c),
{
}

/// The items stand in the order of their places.
pub open spec fn in_place_order(items: Seq<RankItem>) -> bool {
    forall|i: int, j: int|
        0 <= i < j < items.len() ==> (#[trigger] items[i]).original_index < (
        #[trigger] items[j]).original_index
}

/// No two items are of the same mod.
pub open spec fn distinct_ids(items: Seq<RankItem>) -> bool {
    forall|i: int, j: int|
        0 <= i < j < items.len() ==> (#[trigger] items[i]).id@ != (#[trigger] items[j]).id@
}

// ---------------------------------------------------------------------------
// Picking items one after the other
// ---------------------------------------------------------------------------

/// Whether the item at `i` can come next: it is to be placed, is not placed yet,
/// and all that it needs is.
pub open spec fn ready(
    eligible: Seq<bool>,
    needs: spec_fn(int, int) -> bool,
    placed: Seq<int>,
    i: int,
) -> bool {
    &&& 0 <= i < eligible.len()
    &&& eligible[i]
    &&& !placed.contains(i)
    &&& forall|j: int| #[trigger] needs(i, j) ==> placed.contains(j)
}

/// Whether the item at `i` is the first by score of those that can come next.
pub open spec fn comes_next(
    items: Seq<RankItem>,
    eligible: Seq<bool>,
    needs: spec_fn(int, int) -> bool,
    placed: Seq<int>,
    i: int,
) -> bool {
    &&& ready(eligible, needs, placed, i)
    &&& forall|j: int|
        #[trigger] ready(eligible, needs, placed, j) && j != i ==> item_before(items[i], items[j])
}

/// Whether `s` is the order in which items are picked until none can come next.
pub open spec fn picked(
    items: Seq<RankItem>,
    eligible: Seq<bool>,
    needs: spec_fn(int, int) -> bool,
    s: Seq<int>,
) -> bool {
    &&& forall|k: int|
        0 <= k < s.len() ==> comes_next(items, eligible, needs, s.take(k), #[trigger] s[k])
    &&& forall|i: int| !ready(eligible, needs, s, i)
}

/// Whether every item that is to be placed is.
pub open spec fn covers(eligible: Seq<bool>, s: Seq<int>) -> bool {
    forall|i: int| 0 <= i < eligible.len() && #[trigger] eligible[i] ==> s.contains(i)
}

pub open spec fn as_ints(v: Seq<usize>) -> Seq<int> {
    Seq::new(v.len(), |i: int| v[i] as int)
}

pub proof fn lemma_as_ints_push(v: Seq<usize>, x: usize)
    ensures
        as_ints(v.push(x)) == as_ints(v).push(x as int),
{
    assert(as_ints(v.push(x)) =~= as_ints(v).push(x as int));
}

/// Whether all of `needed` are marked.
fn all_marked(marks: &Vec<bool>, needed: &Vec<usize>) -> (r: bool)
    requires
        forall|k: int| 0 <= k < needed.len() ==> (#[trigger] needed@[k]) < marks.len(),
    ensures
        r == forall|k: int| 0 <= k < needed.len() ==> marks@[#[trigger] needed@[k] as int],
{
    let mut k: usize = 0;
    while k < needed.len()
        invariant
            k <= needed.len(),
            forall|j: int| 0 <= j < needed.len() ==> (#[trigger] needed@[j]) < marks.len(),
            forall|j: int| 0 <= j < k ==> marks@[#[trigger] needed@[j] as int],
        decreases needed.len() - k,
    {
        if !marks[needed[k]] {
            return false;
        }
        k = k + 1;
    }
    true
}

/// Whether the lists are what each item needs.
pub open spec fn lists_needs(
    lists: Seq<Vec<usize>>,
    needs: spec_fn(int, int) -> bool,
    n: int,
) -> bool {
    &&& lists.len() == n
    &&& forall|i: int, k: int|
        0 <= i < n && 0 <= k < lists[i]@.len() ==> (#[trigger] lists[i]@[k]) < n
    &&& forall|i: int, j: int|
        0 <= i < n ==> (#[trigger] needs(i, j) <==> exists|k: int|
            0 <= k < lists[i]@.len() && (#[trigger] lists[i]@[k]) as int == j)
}

/// Picks items one after the other until none can come next.
fn pick_all(
    items: &Vec<RankItem>,
    eligible: &Vec<bool>,
    lists: &Vec<Vec<usize>>,
    Ghost(needs): Ghost<spec_fn(int, int) -> bool>,
) -> (out: Vec<usize>)
    requires
        in_place_order(items@),
        eligible.len() == items.len(),
        lists_needs(lists@, needs, items@.len() as int),
    ensures
        picked(items@, eligible@, needs, as_ints(out@)),
        forall|k: int| 0 <= k < out.len() ==> (#[trigger] out@[k]) < items.len(),
{
    let n = items.len();
    let mut out: Vec<usize> = Vec::new();
    let mut marks: Vec<bool> = Vec::new();
    let mut m: usize = 0;
    while m < n
        invariant
            m <= n,
            marks.len() == m,
            forall|i: int| 0 <= i < m ==> !(#[trigger] marks@[i]),
        decreases n - m,
    {
        marks.push(false);
        m = m + 1;
    }
    let ghost mut left: int = n as int;
    loop
        invariant_except_break
            n == items.len(),
            n == eligible.len(),
            n == marks.len(),
            in_place_order(items@),
            lists_needs(lists@, needs, n as int),
            left == n - out.len(),
            left >= 0,
            forall|k: int| 0 <= k < out.len() ==> (#[trigger] out@[k]) < n,
            forall|i: int|
                0 <= i < n ==> (#[trigger] marks@[i] <==> as_ints(out@).contains(i)),
            as_ints(out@).no_duplicates(),
            forall|k: int|
                0 <= k < out.len() ==> comes_next(
                    items@,
                    eligible@,
                    needs,
                    as_ints(out@).take(k),
                    #[trigger] as_ints(out@)[k],
                ),
        ensures
            picked(items@, eligible@, needs, as_ints(out@)),
            forall|k: int| 0 <= k < out.len() ==> (#[trigger] out@[k]) < items.len(),
        decreases left,
    {
        let ghost placed = as_ints(out@);
        let mut best: Option<usize> = None;
        let mut i: usize = 0;
        while i < n
            invariant
                i <= n,
                n == items.len(),
                n == eligible.len(),
                n == marks.len(),
                in_place_order(items@),
                lists_needs(lists@, needs, n as int),
                placed == as_ints(out@),
                forall|k: int|
                    0 <= k < n ==> (#[trigger] marks@[k] <==> placed.contains(k)),
                match best {
                    None => forall|j: int| 0 <= j < i ==> !ready(eligible@, needs, placed, j),
                    Some(b) => {
                        &&& b < i
                        &&& ready(eligible@, needs, placed, b as int)
                        &&& forall|j: int|
                            0 <= j < i && j != b && #[trigger] ready(eligible@, needs, placed, j)
                                ==> item_before(items@[b as int], items@[j])
                    },
                },
            decreases n - i,
        {
            let free = eligible[i] && !marks[i] && all_marked(&marks, &lists[i]);
            proof {
                let list = lists@[i as int]@;
                if free {
                    assert forall|j: int| #[trigger] needs(i as int, j) implies placed.contains(
                        j,
                    ) by {
                        let k = choose|k: int|
                            0 <= k < list.len() && (#[trigger] list[k]) as int == j;
                        assert(marks@[list[k] as int]);
                    }
                    assert(ready(eligible@, needs, placed, i as int));
                } else if ready(eligible@, needs, placed, i as int) {
                    assert forall|k: int| 0 <= k < list.len() implies marks@[
                        #[trigger] list[k] as int
                    ] by {
                        assert(needs(i as int, list[k] as int));
                    }
                }
            }
            if free {
                match best {
                    None => {
                        best = Some(i);
                    },
                    Some(b) => {
                        proof {
                            law_score_order_total(
                                items@[b as int],
                                items@[i as int],
                                items@[i as int],
                            );
                            assert(items@[b as int].original_index
                                < items@[i as int].original_index);
                        }
                        if compare_rank_items(&items[i], &items[b]) {
                            proof {
                                assert forall|j: int|
                                    0 <= j < i + 1 && j != i && #[trigger] ready(
                                        eligible@,
                                        needs,
                                        placed,
                                        j,
                                    ) implies item_before(items@[i as int], items@[j]) by {
                                    if j != b {
                                        law_score_order_total(
                                            items@[i as int],
                                            items@[b as int],
                                            items@[j],
                                        );
                                    }
                                }
                            }
                            best = Some(i);
                        }
                    },
                }
            }
            i = i + 1;
        }
        match best {
            None => {
                assert forall|k: int| 0 <= k < as_ints(out@).len() implies comes_next(
                    items@,
                    eligible@,
                    needs,
                    as_ints(out@).take(k),
                    #[trigger] as_ints(out@)[k],
                ) by {}
                break;
            },
            Some(b) => {
                proof {
                    lemma_as_ints_push(out@, b);
                    lemma_room_left(placed, b as int, n as int);
                }
                out.push(b);
                marks.set(b, true);
                proof {
                    let now = as_ints(out@);
                    assert(now =~= placed.push(b as int));
                    assert(now.take(placed.len() as int) =~= placed);
                    assert forall|k: int| 0 <= k < out.len() implies comes_next(
                        items@,
                        eligible@,
                        needs,
                        now.take(k),
                        #[trigger] now[k],
                    ) by {
                        if k < placed.len() {
                            assert(now.take(k) =~= placed.take(k));
                            assert(now[k] == placed[k]);
                        }
                    }
                    assert forall|k: int| 0 <= k < n implies (#[trigger] marks@[k]
                        <==> now.contains(k)) by {
                        crate::lists::lemma_push_contains(placed, b as int, k);
                    }
                    left = left - 1;
                }
            },
        }
    }
    out
}

/// Distinct numbers below `n` and one more are at most `n`.
proof fn lemma_room_left(s: Seq<int>, x: int, n: int)
    requires
        s.no_duplicates(),
        !s.contains(x),
        0 <= x < n,
        forall|k: int| 0 <= k < s.len() ==> 0 <= #[trigger] s[k] < n,
    ensures
        s.len() + 1 <= n,
{
    let t = s.push(x);
    assert(t.no_duplicates());
    t.unique_seq_to_set();
    let all = vstd::set_lib::set_int_range(0, n);
    vstd::set_lib::lemma_int_range(0, n);
    assert(t.to_set().subset_of(all)) by {
        assert forall|v: int| t.to_set().contains(v) implies all.contains(v) by {
            let k = choose|k: int| 0 <= k < t.len() && t[k] == v;
            if k < s.len() {
                assert(t[k] == s[k]);
            }
        }
    }
    vstd::set_lib::lemma_len_subset(t.to_set(), all);
}

// ---------------------------------------------------------------------------
// One group
// ---------------------------------------------------------------------------

pub open spec fn in_group(items: Seq<RankItem>, group: RankGroup, i: int) -> bool {
    0 <= i < items.len() && items[i].group == group
}

/// What a mod names as dependencies.
pub open spec fn deps_of(items: Seq<RankItem>, i: int) -> Seq<Seq<char>> {
    text::texts(items[i].dependencies@)
}

/// Whether some mod of the group names the one at `i` as a dependency.
pub open spec fn is_needed(items: Seq<RankItem>, group: RankGroup, i: int) -> bool {
    exists|j: int| in_group(items, group, j) && #[trigger] deps_of(items, j).contains(items[i].id@)
}

/// Whether a mod shares files with others or has dependencies.
pub open spec fn is_involved(items: Seq<RankItem>, i: int) -> bool {
    (items[i].enabled && items[i].has_data && items[i].conflict_files > 0)
        || items[i].dependencies@.len() > 0
}

/// Whether an item of the group with the id is of a mod that shares files with others or
/// has dependencies.
pub open spec fn involves(items: Seq<RankItem>, group: RankGroup, id: Seq<char>) -> bool {
    exists|k: int|
        in_group(items, group, k) && items[k].id@ == id && #[trigger] is_involved(items, k)
}

/// Whether the mod at `i` may move: it shares files with others, has dependencies
/// or is one. All others keep their places.
pub open spec fn may_move(items: Seq<RankItem>, group: RankGroup, i: int) -> bool {
    &&& in_group(items, group, i)
    &&& involves(items, group, items[i].id@) || is_needed(items, group, i)
}

/// Whether the mod at `i` has no dependencies and is none.
pub open spec fn is_free(items: Seq<RankItem>, i: int) -> bool {
    &&& items[i].dependencies@.len() == 0
    &&& forall|m: int|
        0 <= m < items.len() ==> !(#[trigger] deps_of(items, m)).contains(items[i].id@)
}

/// Whether each mod that has several items takes no part in dependencies.
pub open spec fn doubles_free(items: Seq<RankItem>) -> bool {
    forall|i: int, j: int|
        0 <= i < j < items.len() && (#[trigger] items[i]).id@ == (#[trigger] items[j]).id@
            ==> is_free(items, i) && is_free(items, j)
}

/// How many mods among the first `n` items may move, each counted once.
pub open spec fn mover_kinds(items: Seq<RankItem>, group: RankGroup, n: int) -> nat
    decreases n,
{
    if n <= 0 {
        0
    } else {
        mover_kinds(items, group, n - 1) + if is_new_mover(items, group, n - 1) {
            1nat
        } else {
            0nat
        }
    }
}

/// Whether the mod at `i` may move, and none of the items before is of it.
pub open spec fn is_new_mover(items: Seq<RankItem>, group: RankGroup, i: int) -> bool {
    &&& may_move(items, group, i)
    &&& forall|m: int|
        0 <= m < i && #[trigger] may_move(items, group, m) ==> items[m].id@ != items[i].id@
}

pub open spec fn movers(items: Seq<RankItem>, group: RankGroup) -> Seq<bool> {
    Seq::new(items.len(), |i: int| may_move(items, group, i))
}

/// Whether the mod at `i` names the one at `j`, and both may move.
pub open spec fn must_follow(items: Seq<RankItem>, group: RankGroup, i: int, j: int) -> bool {
    may_move(items, group, i) && may_move(items, group, j) && deps_of(items, i).contains(
        items[j].id@,
    )
}

pub open spec fn needs_of(items: Seq<RankItem>, group: RankGroup) -> spec_fn(int, int) -> bool {
    |i: int, j: int| must_follow(items, group, i, j)
}

pub open spec fn needs_nothing() -> spec_fn(int, int) -> bool {
    |i: int, j: int| false
}

/// Whether the dependencies of the group are found to go round in a circle: picking one
/// item after the other ends with fewer than there are mods that may move.
pub open spec fn has_cycle(items: Seq<RankItem>, group: RankGroup) -> bool {
    exists|p: Seq<int>| #[trigger]
        picked(items, movers(items, group), needs_of(items, group), p) && p.len() < mover_kinds(
            items,
            group,
            items.len() as int,
        )
}

/// Whether `r` is the order of the mods that may move: each behind those it
/// depends on, else by score; by score alone where dependencies go round in a
/// circle.
pub open spec fn ranks(items: Seq<RankItem>, group: RankGroup, r: Seq<int>) -> bool {
    if has_cycle(items, group) {
        picked(items, movers(items, group), needs_nothing(), r)
    } else {
        picked(items, movers(items, group), needs_of(items, group), r)
    }
}

/// Whether the id is that of a mod that may move.
pub open spec fn moves_id(items: Seq<RankItem>, group: RankGroup, id: Seq<char>) -> bool {
    exists|j: int| may_move(items, group, j) && (#[trigger] items[j]).id@ == id
}

pub open spec fn skipped_text(mods: Seq<ModEntry>, id: Seq<char>, dep: Seq<char>) -> Seq<char> {
    "Smart rank dependency skipped for "@ + library::mod_name(mods, id) + ": "@
        + library::mod_name(mods, dep) + " in different group"@
}

/// The warnings about the first `d` dependencies of the mod at `i`: those that are
/// known mods outside the group.
pub open spec fn item_warnings(
    items: Seq<RankItem>,
    group: RankGroup,
    mods: Seq<ModEntry>,
    i: int,
    d: int,
) -> Seq<Seq<char>>
    decreases d,
{
    if d <= 0 {
        Seq::empty()
    } else {
        let before = item_warnings(items, group, mods, i, d - 1);
        let dep = deps_of(items, i)[d - 1];
        if !moves_id(items, group, dep) && library::last_index(mods, dep) >= 0 {
            before.push(skipped_text(mods, items[i].id@, dep))
        } else {
            before
        }
    }
}

/// The warnings about the dependencies of the first `n` mods.
pub open spec fn skip_warnings(
    items: Seq<RankItem>,
    group: RankGroup,
    mods: Seq<ModEntry>,
    n: int,
) -> Seq<Seq<char>>
    decreases n,
{
    if n <= 0 {
        Seq::empty()
    } else {
        let before = skip_warnings(items, group, mods, n - 1);
        if may_move(items, group, n - 1) {
            before + item_warnings(items, group, mods, n - 1, deps_of(items, n - 1).len() as int)
        } else {
            before
        }
    }
}

/// All warnings about the dependencies of a group.
pub open spec fn group_warnings(
    items: Seq<RankItem>,
    group: RankGroup,
    mods: Seq<ModEntry>,
) -> Seq<Seq<char>> {
    let skipped = skip_warnings(items, group, mods, items.len() as int);
    if has_cycle(items, group) {
        skipped.push("Smart rank dependency cycle detected; falling back to score order"@)
    } else {
        skipped
    }
}

/// How many mods before place `n` may move.
pub open spec fn movers_before(items: Seq<RankItem>, group: RankGroup, n: int) -> nat
    decreases n,
{
    if n <= 0 {
        0
    } else {
        movers_before(items, group, n - 1) + if may_move(items, group, n - 1) {
            1nat
        } else {
            0nat
        }
    }
}

/// The places of the group among the first `n`.
pub open spec fn group_places(items: Seq<RankItem>, group: RankGroup, n: int) -> Seq<int>
    decreases n,
{
    if n <= 0 {
        Seq::empty()
    } else if in_group(items, group, n - 1) {
        group_places(items, group, n - 1).push(n - 1)
    } else {
        group_places(items, group, n - 1)
    }
}

/// The mod that comes to stand at place `i` of the group: the next of the ranked
/// ones where a mod that may move stood, as long as there is one, the same one elsewhere.
pub open spec fn new_at(
    items: Seq<RankItem>,
    group: RankGroup,
    r: Seq<int>,
    i: int,
) -> int {
    if may_move(items, group, i) && movers_before(items, group, i) < r.len() {
        r[movers_before(items, group, i) as int]
    } else {
        i
    }
}

/// The mods of the group in their new order.
pub open spec fn group_order(items: Seq<RankItem>, group: RankGroup, r: Seq<int>) -> Seq<int> {
    let places = group_places(items, group, items.len() as int);
    Seq::new(places.len(), |k: int| new_at(items, group, r, places[k]))
}

// ---------------------------------------------------------------------------
// Facts about picking
// ---------------------------------------------------------------------------

/// There is one order of picking: two of them agree.
pub proof fn lemma_picked_unique(
    items: Seq<RankItem>,
    eligible: Seq<bool>,
    needs: spec_fn(int, int) -> bool,
    s: Seq<int>,
    t: Seq<int>,
)
    requires
        picked(items, eligible, needs, s),
        picked(items, eligible, needs, t),
    ensures
        s == t,
{
    if s.len() <= t.len() {
        lemma_picked_prefix(items, eligible, needs, s, t, s.len() as int);
        assert(s.take(s.len() as int) =~= s);
        if s.len() < t.len() {
            assert(comes_next(items, eligible, needs, t.take(s.len() as int), t[s.len() as int]));
            assert(ready(eligible, needs, s, t[s.len() as int]));
        }
        assert(t.take(t.len() as int) =~= t);
    } else {
        lemma_picked_prefix(items, eligible, needs, t, s, t.len() as int);
        assert(t.take(t.len() as int) =~= t);
        assert(comes_next(items, eligible, needs, s.take(t.len() as int), s[t.len() as int]));
        assert(ready(eligible, needs, t, s[t.len() as int]));
    }
}

proof fn lemma_picked_prefix(
    items: Seq<RankItem>,
    eligible: Seq<bool>,
    needs: spec_fn(int, int) -> bool,
    s: Seq<int>,
    t: Seq<int>,
    n: int,
)
    requires
        picked(items, eligible, needs, s),
        picked(items, eligible, needs, t),
        0 <= n <= s.len(),
        n <= t.len(),
    ensures
        s.take(n) == t.take(n),
    decreases n,
{
    if n > 0 {
        lemma_picked_prefix(items, eligible, needs, s, t, n - 1);
        let done = s.take(n - 1);
        let a = s[n - 1];
        let b = t[n - 1];
        assert(comes_next(items, eligible, needs, s.take(n - 1), s[n - 1]));
        assert(comes_next(items, eligible, needs, t.take(n - 1), t[n - 1]));
        if a != b {
            assert(ready(eligible, needs, done, a));
            assert(ready(eligible, needs, done, b));
            law_score_order_total(items[a], items[b], items[b]);
        }
        assert(s.take(n) =~= done.push(a));
        assert(t.take(n) =~= done.push(b));
    } else {
        assert(s.take(0) =~= t.take(0));
    }
}

/// What is picked is picked once, and is among what was to be placed.
proof fn lemma_picked_distinct(
    items: Seq<RankItem>,
    eligible: Seq<bool>,
    needs: spec_fn(int, int) -> bool,
    s: Seq<int>,
)
    requires
        picked(items, eligible, needs, s),
    ensures
        s.no_duplicates(),
        forall|k: int| 0 <= k < s.len() ==> 0 <= #[trigger] s[k] < eligible.len() && eligible[s[k]],
{
    assert forall|a: int, b: int| 0 <= a < b < s.len() implies s[a] != s[b] by {
        assert(comes_next(items, eligible, needs, s.take(b), s[b]));
        assert(s.take(b)[a] == s[a]);
        assert(s.take(b).contains(s[a]));
    }
    assert forall|k: int| 0 <= k < s.len() implies 0 <= #[trigger] s[k] < eligible.len()
        && eligible[s[k]] by {
        assert(comes_next(items, eligible, needs, s.take(k), s[k]));
    }
}

/// Where nothing is needed, everything that is to be placed is.
proof fn lemma_picked_covers(items: Seq<RankItem>, eligible: Seq<bool>, s: Seq<int>)
    requires
        picked(items, eligible, needs_nothing(), s),
    ensures
        covers(eligible, s),
{
    assert forall|i: int| 0 <= i < eligible.len() && #[trigger] eligible[i] implies s.contains(
        i,
    ) by {
        if !s.contains(i) {
            assert(ready(eligible, needs_nothing(), s, i));
        }
    }
}

/// What ranks the mods that may move names each of them once, where it leaves none out.
pub proof fn lemma_ranks(items: Seq<RankItem>, group: RankGroup, r: Seq<int>)
    requires
        ranks(items, group, r),
        covers(movers(items, group), r),
    ensures
        r.no_duplicates(),
        forall|k: int| 0 <= k < r.len() ==> may_move(items, group, #[trigger] r[k]),
        forall|i: int| #[trigger] may_move(items, group, i) ==> r.contains(i),
        r.len() == movers_before(items, group, items.len() as int),
{
    let eligible = movers(items, group);
    if has_cycle(items, group) {
        lemma_picked_distinct(items, eligible, needs_nothing(), r);
    } else {
        lemma_picked_distinct(items, eligible, needs_of(items, group), r);
    }
    assert forall|k: int| 0 <= k < r.len() implies may_move(items, group, #[trigger] r[k]) by {
        assert(eligible[r[k]]);
    }
    assert forall|i: int| #[trigger] may_move(items, group, i) implies r.contains(i) by {
        assert(eligible[i]);
    }
    lemma_count_movers(items, group, r, items.len() as int);
}

/// What is picked and leaves no mod out names as many as may move.
pub proof fn lemma_all_movers(items: Seq<RankItem>, group: RankGroup, p: Seq<int>)
    requires
        distinct_ids(items),
        picked(items, movers(items, group), needs_of(items, group), p),
        forall|i: int| #[trigger] may_move(items, group, i) ==> p.contains(i),
    ensures
        p.len() == mover_kinds(items, group, items.len() as int),
{
    let n = items.len() as int;
    let eligible = movers(items, group);
    lemma_picked_distinct(items, eligible, needs_of(items, group), p);
    lemma_kinds_distinct(items, group, n);
    assert forall|k: int| 0 <= k < p.len() implies may_move(items, group, #[trigger] p[k]) by {
        assert(eligible[p[k]]);
    }
    lemma_count_movers(items, group, p, n);
}

/// Where no mod has two items, or the dependencies are found to go round in a circle, no
/// mod is left out.
pub proof fn law_ranks_all(items: Seq<RankItem>, group: RankGroup, r: Seq<int>)
    requires
        ranks(items, group, r),
        distinct_ids(items) || has_cycle(items, group),
    ensures
        covers(movers(items, group), r),
{
    let eligible = movers(items, group);
    let n = items.len() as int;
    if has_cycle(items, group) {
        lemma_picked_covers(items, eligible, r);
    } else {
        lemma_picked_distinct(items, eligible, needs_of(items, group), r);
        lemma_kinds_distinct(items, group, n);
        assert forall|i: int| 0 <= i < eligible.len() && #[trigger] eligible[i] implies r.contains(
            i,
        ) by {
            if !r.contains(i) {
                let more = r.push(i);
                assert forall|k: int| 0 <= k < more.len() implies may_move(
                    items,
                    group,
                    #[trigger] more[k],
                ) && more[k] < n by {
                    if k < r.len() {
                        assert(more[k] == r[k]);
                        assert(eligible[r[k]]);
                    }
                }
                lemma_movers_most(items, group, more, n);
            }
        }
    }
}

proof fn lemma_kinds_distinct(items: Seq<RankItem>, group: RankGroup, n: int)
    requires
        distinct_ids(items),
        n <= items.len(),
    ensures
        mover_kinds(items, group, n) == movers_before(items, group, n),
    decreases n,
{
    if n > 0 {
        lemma_kinds_distinct(items, group, n - 1);
        if may_move(items, group, n - 1) {
            assert(is_new_mover(items, group, n - 1));
        }
    }
}

/// Distinct mods that may move are at most as many as there are.
proof fn lemma_movers_most(items: Seq<RankItem>, group: RankGroup, r: Seq<int>, n: int)
    requires
        0 <= n,
        r.no_duplicates(),
        forall|k: int| 0 <= k < r.len() ==> may_move(items, group, #[trigger] r[k]) && r[k] < n,
    ensures
        r.len() <= movers_before(items, group, n),
    decreases n,
{
    if n == 0 {
        if r.len() > 0 {
            assert(may_move(items, group, r[0]));
        }
    } else if r.contains(n - 1) {
        let at = r.index_of(n - 1);
        let rest = r.remove(at);
        assert(may_move(items, group, r[at]));
        assert forall|k: int| 0 <= k < rest.len() implies may_move(items, group, #[trigger] rest[k])
            && rest[k] < n - 1 by {
            let m = if k < at {
                k
            } else {
                k + 1
            };
            assert(rest[k] == r[m]);
            assert(may_move(items, group, r[m]));
        }
        assert(rest.no_duplicates()) by {
            assert forall|a: int, b: int| 0 <= a < b < rest.len() implies rest[a] != rest[b] by {
                let x = if a < at {
                    a
                } else {
                    a + 1
                };
                let y = if b < at {
                    b
                } else {
                    b + 1
                };
                assert(rest[a] == r[x] && rest[b] == r[y]);
            }
        }
        lemma_movers_most(items, group, rest, n - 1);
    } else {
        assert forall|k: int| 0 <= k < r.len() implies may_move(items, group, #[trigger] r[k])
            && r[k] < n - 1 by {
            assert(may_move(items, group, r[k]));
            assert(r.contains(r[k]));
        }
        lemma_movers_most(items, group, r, n - 1);
    }
}

proof fn lemma_count_movers(items: Seq<RankItem>, group: RankGroup, r: Seq<int>, n: int)
    requires
        0 <= n,
        r.no_duplicates(),
        forall|k: int| 0 <= k < r.len() ==> may_move(items, group, #[trigger] r[k]) && r[k] < n,
        forall|i: int| 0 <= i < n && #[trigger] may_move(items, group, i) ==> r.contains(i),
    ensures
        r.len() == movers_before(items, group, n),
    decreases n,
{
    if n == 0 {
        if r.len() > 0 {
            assert(may_move(items, group, r[0]));
        }
    } else if may_move(items, group, n - 1) {
        let at = r.index_of(n - 1);
        assert(r.contains(n - 1));
        let rest = r.remove(at);
        assert forall|k: int| 0 <= k < rest.len() implies may_move(items, group, #[trigger] rest[k])
            && rest[k] < n - 1 by {
            let m = if k < at {
                k
            } else {
                k + 1
            };
            assert(rest[k] == r[m]);
            assert(may_move(items, group, r[m]));
        }
        assert forall|i: int| 0 <= i < n - 1 && #[trigger] may_move(items, group, i) implies
            rest.contains(i) by {
            assert(r.contains(i));
            let m = choose|m: int| 0 <= m < r.len() && r[m] == i;
            if m < at {
                assert(rest[m] == i);
            } else {
                assert(rest[m - 1] == i);
            }
        }
        assert(rest.no_duplicates()) by {
            assert forall|a: int, b: int| 0 <= a < b < rest.len() implies rest[a] != rest[b] by {
                let x = if a < at {
                    a
                } else {
                    a + 1
                };
                let y = if b < at {
                    b
                } else {
                    b + 1
                };
                assert(rest[a] == r[x] && rest[b] == r[y]);
            }
        }
        lemma_count_movers(items, group, rest, n - 1);
    } else {
        assert forall|k: int| 0 <= k < r.len() implies may_move(items, group, #[trigger] r[k])
            && r[k] < n - 1 by {
            assert(may_move(items, group, r[k]));
        }
        lemma_count_movers(items, group, r, n - 1);
    }
}

proof fn lemma_movers_grow(items: Seq<RankItem>, group: RankGroup, i: int, j: int)
    requires
        0 <= i <= j,
    ensures
        movers_before(items, group, i) <= movers_before(items, group, j),
        i < j && may_move(items, group, i) ==> movers_before(items, group, i) < movers_before(
            items,
            group,
            j,
        ),
    decreases j - i,
{
    if i < j {
        lemma_movers_grow(items, group, i, j - 1);
    }
}

pub proof fn lemma_group_places(items: Seq<RankItem>, group: RankGroup, n: int)
    requires
        0 <= n <= items.len(),
    ensures
        forall|k: int|
            0 <= k < group_places(items, group, n).len() ==> in_group(
                items,
                group,
                #[trigger] group_places(items, group, n)[k],
            ) && group_places(items, group, n)[k] < n,
        forall|i: int|
            0 <= i < n && #[trigger] in_group(items, group, i) ==> group_places(
                items,
                group,
                n,
            ).contains(i),
        forall|a: int, b: int|
            0 <= a < b < group_places(items, group, n).len() ==> #[trigger] group_places(
                items,
                group,
                n,
            )[a] < #[trigger] group_places(items, group, n)[b],
    decreases n,
{
    if n > 0 {
        lemma_group_places(items, group, n - 1);
        let before = group_places(items, group, n - 1);
        let now = group_places(items, group, n);
        assert forall|i: int| 0 <= i < n && #[trigger] in_group(items, group, i) implies
            now.contains(i) by {
            if i < n - 1 {
                let k = choose|k: int| 0 <= k < before.len() && before[k] == i;
                assert(now[k] == i);
            } else {
                assert(now[before.len() as int] == i);
            }
        }
    }
}

proof fn lemma_mover_with_count(items: Seq<RankItem>, group: RankGroup, n: int, k: int)
    requires
        0 <= k < movers_before(items, group, n),
        0 <= n,
    ensures
        exists|i: int|
            0 <= i < n && may_move(items, group, i) && #[trigger] movers_before(items, group, i)
                == k,
    decreases n,
{
    if n > 0 {
        if k < movers_before(items, group, n - 1) {
            lemma_mover_with_count(items, group, n - 1, k);
        } else {
            assert(movers_before(items, group, n - 1) == k);
        }
    }
}

/// The new order of a group is one of items.
pub proof fn lemma_group_order_inside(items: Seq<RankItem>, group: RankGroup, r: Seq<int>)
    requires
        ranks(items, group, r),
    ensures
        forall|k: int|
            0 <= k < group_order(items, group, r).len() ==> 0 <= #[trigger] group_order(
                items,
                group,
                r,
            )[k] < items.len(),
{
    let n = items.len() as int;
    let eligible = movers(items, group);
    lemma_group_places(items, group, n);
    if has_cycle(items, group) {
        lemma_picked_distinct(items, eligible, needs_nothing(), r);
    } else {
        lemma_picked_distinct(items, eligible, needs_of(items, group), r);
    }
    let places = group_places(items, group, n);
    assert forall|k: int| 0 <= k < places.len() implies 0 <= #[trigger] new_at(
        items,
        group,
        r,
        places[k],
    ) < n by {
        assert(in_group(items, group, places[k]));
    }
}

/// Ranking a group neither adds nor loses a mod, unless it leaves one out: the new order
/// holds each mod of the group once, and nothing else.
pub proof fn law_group_order_permutes(items: Seq<RankItem>, group: RankGroup, r: Seq<int>)
    requires
        ranks(items, group, r),
        covers(movers(items, group), r),
    ensures
        group_order(items, group, r).no_duplicates(),
        forall|i: int| #[trigger]
            group_order(items, group, r).contains(i) <==> in_group(items, group, i),
        group_order(items, group, r).len() == group_places(items, group, items.len() as int).len(),
{
    let n = items.len() as int;
    let places = group_places(items, group, n);
    let out = group_order(items, group, r);
    lemma_ranks(items, group, r);
    lemma_group_places(items, group, n);
    assert forall|a: int, b: int| 0 <= a < b < out.len() implies out[a] != out[b] by {
        let x = places[a];
        let y = places[b];
        assert(x < y);
        if may_move(items, group, x) {
            lemma_movers_grow(items, group, x, y);
            lemma_movers_grow(items, group, y, n);
            lemma_movers_grow(items, group, x, n);
            assert(may_move(items, group, r[movers_before(items, group, x) as int]));
        }
        if may_move(items, group, y) {
            lemma_movers_grow(items, group, y, n);
            assert(may_move(items, group, r[movers_before(items, group, y) as int]));
        }
    }
    assert forall|i: int| #[trigger] out.contains(i) <==> in_group(items, group, i) by {
        if out.contains(i) {
            let k = choose|k: int| 0 <= k < out.len() && out[k] == i;
            let x = places[k];
            if may_move(items, group, x) {
                lemma_movers_grow(items, group, x, n);
                assert(may_move(items, group, r[movers_before(items, group, x) as int]));
            } else {
                assert(in_group(items, group, x));
            }
        }
        if in_group(items, group, i) {
            if may_move(items, group, i) {
                assert(r.contains(i));
                let k = choose|k: int| 0 <= k < r.len() && r[k] == i;
                lemma_mover_with_count(items, group, n, k);
                let x = choose|x: int|
                    0 <= x < n && may_move(items, group, x) && #[trigger] movers_before(
                        items,
                        group,
                        x,
                    ) == k;
                assert(in_group(items, group, x));
                assert(places.contains(x));
                let m = choose|m: int| 0 <= m < places.len() && places[m] == x;
                assert(out[m] == i);
            } else {
                assert(places.contains(i));
                let m = choose|m: int| 0 <= m < places.len() && places[m] == i;
                assert(out[m] == i);
            }
        }
    }
}

/// Where the dependencies of a group do not go round in a circle, and no mod is left out,
/// each mod stands behind the mods of the group that it depends on.
pub proof fn law_dependencies_first(
    items: Seq<RankItem>,
    group: RankGroup,
    r: Seq<int>,
    a: int,
    b: int,
)
    requires
        ranks(items, group, r),
        !has_cycle(items, group),
        covers(movers(items, group), r),
        0 <= a < group_order(items, group, r).len(),
        0 <= b < group_order(items, group, r).len(),
        must_follow(
            items,
            group,
            group_order(items, group, r)[a],
            group_order(items, group, r)[b],
        ),
    ensures
        b < a,
{
    let n = items.len() as int;
    let places = group_places(items, group, n);
    let out = group_order(items, group, r);
    lemma_ranks(items, group, r);
    lemma_group_places(items, group, n);
    let x = places[a];
    let y = places[b];
    // Both come from places of mods that may move.
    assert(may_move(items, group, x)) by {
        if !may_move(items, group, x) {
            assert(out[a] == x);
        }
    }
    assert(may_move(items, group, y)) by {
        if !may_move(items, group, y) {
            assert(out[b] == y);
        }
    }
    lemma_movers_grow(items, group, x, n);
    lemma_movers_grow(items, group, y, n);
    let p = movers_before(items, group, x) as int;
    let q = movers_before(items, group, y) as int;
    assert(comes_next(items, movers(items, group), needs_of(items, group), r.take(p), r[p]));
    assert(needs_of(items, group)(r[p], r[q]));
    assert(r.take(p).contains(r[q]));
    let k = choose|k: int| 0 <= k < p && r.take(p)[k] == r[q];
    assert(r[k] == r[q]);
    assert(k == q);
    if x <= y {
        lemma_movers_grow(items, group, x, y);
    }
    if a <= b {
        assert(places[a] <= places[b]);
    }
}

/// A mod that may move stands in the new order where the ranked order puts it.
proof fn lemma_mover_place(items: Seq<RankItem>, group: RankGroup, r: Seq<int>, k: int)
    requires
        ranks(items, group, r),
        covers(movers(items, group), r),
        0 <= k < group_order(items, group, r).len(),
        may_move(items, group, group_order(items, group, r)[k]),
    ensures
        ({
            let x = group_places(items, group, items.len() as int)[k];
            &&& 0 <= x < items.len()
            &&& may_move(items, group, x)
            &&& movers_before(items, group, x) < r.len()
            &&& r[movers_before(items, group, x) as int] == group_order(items, group, r)[k]
        }),
{
    let n = items.len() as int;
    lemma_ranks(items, group, r);
    lemma_group_places(items, group, n);
    let x = group_places(items, group, n)[k];
    if !may_move(items, group, x) {
        assert(group_order(items, group, r)[k] == x);
    }
    lemma_movers_grow(items, group, x, n);
}

/// The scores decide where mods come to stand that share files or have dependencies: of
/// two such mods of a group the one that shares files with more mods stands first; else the
/// one that shares more files; else the one that looks less like a patch, so that a patch
/// comes behind what it patches; else the larger; else the one with more files; else the
/// older; else the one that stood first. Only a mod that still waits for one of its own
/// dependencies lets another pass.
pub proof fn law_scores_decide(
    items: Seq<RankItem>,
    group: RankGroup,
    r: Seq<int>,
    a: int,
    b: int,
)
    requires
        ranks(items, group, r),
        covers(movers(items, group), r),
        0 <= a < group_order(items, group, r).len(),
        0 <= b < group_order(items, group, r).len(),
        a != b,
        ({
            let x = items[group_order(items, group, r)[a]];
            let y = items[group_order(items, group, r)[b]];
            &&& x.dependencies@.len() > 0 || (x.enabled && x.has_data && x.conflict_files > 0)
            &&& y.dependencies@.len() > 0 || (y.enabled && y.has_data && y.conflict_files > 0)
            &&& forall|k: int|
                0 <= k < group_order(items, group, r).len() && text::texts(
                    x.dependencies@,
                ).contains(items[#[trigger] group_order(items, group, r)[k]].id@) ==> k < b
        }),
    ensures
        ({
            let x = items[group_order(items, group, r)[a]];
            let y = items[group_order(items, group, r)[b]];
            &&& x.conflict_partners > y.conflict_partners ==> a < b
            &&& x.conflict_partners == y.conflict_partners ==> {
                &&& x.conflict_files > y.conflict_files ==> a < b
                &&& x.conflict_files == y.conflict_files ==> {
                    &&& x.patch_score < y.patch_score ==> a < b
                    &&& x.patch_score == y.patch_score ==> {
                        &&& x.total_bytes > y.total_bytes ==> a < b
                        &&& x.total_bytes == y.total_bytes ==> {
                            &&& x.file_count > y.file_count ==> a < b
                            &&& x.file_count == y.file_count ==> {
                                &&& x.date_hint < y.date_hint ==> a < b
                                &&& x.date_hint == y.date_hint && x.original_index
                                    < y.original_index ==> a < b
                            }
                        }
                    }
                }
            }
        }),
{
    let n = items.len() as int;
    let out = group_order(items, group, r);
    let places = group_places(items, group, n);
    let eligible = movers(items, group);
    lemma_ranks(items, group, r);
    lemma_group_places(items, group, n);
    lemma_group_order_inside(items, group, r);
    law_group_order_permutes(items, group, r);
    assert(out.contains(out[a]));
    assert(out.contains(out[b]));
    assert(is_involved(items, out[a]));
    assert(is_involved(items, out[b]));
    assert(may_move(items, group, out[a]));
    assert(may_move(items, group, out[b]));
    lemma_mover_place(items, group, r, a);
    lemma_mover_place(items, group, r, b);
    let p = movers_before(items, group, places[a]) as int;
    let q = movers_before(items, group, places[b]) as int;
    if b < a {
        assert(places[b] < places[a]);
        lemma_movers_grow(items, group, places[b], places[a]);
        assert(q < p);
        let needs = if has_cycle(items, group) {
            needs_nothing()
        } else {
            needs_of(items, group)
        };
        assert(comes_next(items, eligible, needs, r.take(q), r[q]));
        assert(ready(eligible, needs, r.take(q), r[p])) by {
            assert(eligible[r[p]]);
            if r.take(q).contains(r[p]) {
                let k = choose|k: int| 0 <= k < q && r.take(q)[k] == r[p];
                assert(r[k] == r[p]);
            }
            assert forall|j: int| #[trigger] needs(r[p], j) implies r.take(q).contains(j) by {
                assert(must_follow(items, group, r[p], j));
                assert(out.contains(j));
                let k = choose|k: int| 0 <= k < out.len() && out[k] == j;
                assert(k < b);
                lemma_mover_place(items, group, r, k);
                assert(places[k] < places[b]);
                lemma_movers_grow(items, group, places[k], places[b]);
                let m = movers_before(items, group, places[k]) as int;
                assert(r.take(q)[m] == j);
            }
        }
        assert(item_before(items[r[q]], items[r[p]]));
    }
}

/// A mod that shares no files, has no dependencies and is none keeps its place in
/// its group.
pub proof fn law_others_keep_places(
    items: Seq<RankItem>,
    group: RankGroup,
    r: Seq<int>,
    k: int,
)
    requires
        ranks(items, group, r),
        0 <= k < group_places(items, group, items.len() as int).len(),
        !may_move(items, group, group_places(items, group, items.len() as int)[k]),
    ensures
        group_order(items, group, r)[k] == group_places(items, group, items.len() as int)[k],
{
}

// ---------------------------------------------------------------------------
// Ranking a group
// ---------------------------------------------------------------------------

/// Where each id stands among the items.
fn index_items(items: &Vec<RankItem>) -> (r: StringHashMap<usize>)
    ensures
        forall|id: Seq<char>| #[trigger]
            r@.contains_key(id) <==> exists|j: int|
                0 <= j < items@.len() && (#[trigger] items@[j]).id@ == id,
        forall|id: Seq<char>| #[trigger]
            r@.contains_key(id) ==> r@[id] < items.len() && items@[r@[id] as int].id@ == id,
{
    let mut r: StringHashMap<usize> = StringHashMap::new();
    let mut i: usize = 0;
    while i < items.len()
        invariant
            i <= items.len(),
            forall|id: Seq<char>| #[trigger]
                r@.contains_key(id) <==> exists|j: int|
                    0 <= j < i && (#[trigger] items@[j]).id@ == id,
            forall|id: Seq<char>| #[trigger]
                r@.contains_key(id) ==> r@[id] < i && items@[r@[id] as int].id@ == id,
        decreases items.len() - i,
    {
        let ghost before = r@;
        r.insert(items[i].id.clone(), i);
        proof {
            assert forall|id: Seq<char>| #[trigger] r@.contains_key(id) <==> exists|j: int|
                0 <= j < i + 1 && (#[trigger] items@[j]).id@ == id by {
                if r@.contains_key(id) {
                    if id == items@[i as int].id@ {
                    } else {
                        assert(before.contains_key(id));
                        let j = choose|j: int| 0 <= j < i && (#[trigger] items@[j]).id@ == id;
                        assert(items@[j].id@ == id);
                    }
                }
                if exists|j: int| 0 <= j < i + 1 && (#[trigger] items@[j]).id@ == id {
                    let j = choose|j: int| 0 <= j < i + 1 && (#[trigger] items@[j]).id@ == id;
                    if j < i {
                        assert(before.contains_key(id));
                    }
                }
            }
        }
        i = i + 1;
    }
    r
}

/// The ids of the mods of a group that share files with others or have dependencies.
fn involved_ids(items: &Vec<RankItem>, group: RankGroup) -> (r: StringHashMap<usize>)
    ensures
        forall|id: Seq<char>| #[trigger]
            r@.contains_key(id) <==> involves(items@, group, id),
{
    let mut r: StringHashMap<usize> = StringHashMap::new();
    let mut i: usize = 0;
    while i < items.len()
        invariant
            i <= items.len(),
            forall|id: Seq<char>| #[trigger]
                r@.contains_key(id) <==> exists|k: int|
                    in_group(items@, group, k) && items@[k].id@ == id && k < i
                        && #[trigger] is_involved(items@, k),
        decreases items.len() - i,
    {
        let item = &items[i];
        let ghost before = r@;
        let wants = item.group == group && ((item.enabled && item.has_data && item.conflict_files
            > 0) || item.dependencies.len() > 0);
        assert(wants <==> in_group(items@, group, i as int) && is_involved(items@, i as int));
        if wants {
            r.insert(item.id.clone(), i);
        }
        proof {
            assert forall|id: Seq<char>| #[trigger] r@.contains_key(id) <==> exists|k: int|
                in_group(items@, group, k) && items@[k].id@ == id && k < i + 1
                    && #[trigger] is_involved(items@, k) by {
                if r@.contains_key(id) {
                    if before.contains_key(id) {
                        let k = choose|k: int|
                            in_group(items@, group, k) && items@[k].id@ == id && k < i
                                && #[trigger] is_involved(items@, k);
                        assert(is_involved(items@, k));
                    } else {
                        assert(is_involved(items@, i as int));
                    }
                }
                if exists|k: int|
                    in_group(items@, group, k) && items@[k].id@ == id && k < i + 1
                        && #[trigger] is_involved(items@, k) {
                    let k = choose|k: int|
                        in_group(items@, group, k) && items@[k].id@ == id && k < i + 1
                            && #[trigger] is_involved(items@, k);
                    if k < i {
                        assert(before.contains_key(id));
                    }
                }
            }
        }
        i = i + 1;
    }
    proof {
        assert forall|id: Seq<char>| #[trigger] r@.contains_key(id) <==> involves(
            items@,
            group,
            id,
        ) by {
            if involves(items@, group, id) {
                let k = choose|k: int|
                    in_group(items@, group, k) && items@[k].id@ == id && #[trigger] is_involved(
                        items@,
                        k,
                    );
                assert(k < i);
            }
        }
    }
    r
}

/// A mod that is a dependency has one item.
proof fn lemma_one_item(items: Seq<RankItem>, m: int, a: int, b: int)
    requires
        doubles_free(items),
        0 <= m < items.len(),
        0 <= a < items.len(),
        0 <= b < items.len(),
        deps_of(items, m).contains(items[a].id@),
        items[a].id@ == items[b].id@,
    ensures
        a == b,
{
    if a < b {
        assert(is_free(items, a));
    } else if b < a {
        assert(is_free(items, a));
    }
}

/// Which mods of the group may move.
fn mark_movers(items: &Vec<RankItem>, group: RankGroup, ids: &StringHashMap<usize>) -> (out: Vec<
    bool,
>)
    requires
        doubles_free(items@),
        forall|id: Seq<char>| #[trigger]
            ids@.contains_key(id) <==> exists|j: int|
                0 <= j < items@.len() && (#[trigger] items@[j]).id@ == id,
        forall|id: Seq<char>| #[trigger]
            ids@.contains_key(id) ==> ids@[id] < items.len() && items@[ids@[id] as int].id@ == id,
    ensures
        out@ == movers(items@, group),
{
    let n = items.len();
    let moving = involved_ids(items, group);
    let mut out: Vec<bool> = Vec::new();
    let mut i: usize = 0;
    while i < n
        invariant
            i <= n,
            n == items.len(),
            forall|id: Seq<char>| #[trigger]
                moving@.contains_key(id) <==> involves(items@, group, id),
            out.len() == i,
            forall|k: int|
                0 <= k < i ==> (#[trigger] out@[k] <==> in_group(items@, group, k) && involves(
                    items@,
                    group,
                    items@[k].id@,
                )),
        decreases n - i,
    {
        let item = &items[i];
        let known = moving.contains_key(item.id.as_str());
        assert(known <==> involves(items@, group, item.id@));
        out.push(item.group == group && known);
        i = i + 1;
    }
    let ghost first = out@;
    let mut j: usize = 0;
    while j < n
        invariant
            j <= n,
            n == items.len(),
            n == out.len(),
            n == first.len(),
            doubles_free(items@),
            forall|id: Seq<char>| #[trigger]
                ids@.contains_key(id) <==> exists|j: int|
                    0 <= j < items@.len() && (#[trigger] items@[j]).id@ == id,
            forall|id: Seq<char>| #[trigger]
                ids@.contains_key(id) ==> ids@[id] < n && items@[ids@[id] as int].id@ == id,
            forall|k: int|
                0 <= k < n ==> (#[trigger] out@[k] <==> first[k] || (in_group(items@, group, k)
                    && exists|m: int|
                    0 <= m < j && in_group(items@, group, m) && #[trigger] deps_of(
                        items@,
                        m,
                    ).contains(items@[k].id@))),
        decreases n - j,
    {
        let item = &items[j];
        let ghost before = out@;
        if item.group == group {
            let mut d: usize = 0;
            while d < item.dependencies.len()
                invariant
                    d <= item.dependencies.len(),
                    j < n,
                    n == items.len(),
                    n == out.len(),
                    *item == items@[j as int],
                    in_group(items@, group, j as int),
                    doubles_free(items@),
                    n == before.len(),
                    forall|id: Seq<char>| #[trigger]
                        ids@.contains_key(id) <==> exists|j: int|
                            0 <= j < items@.len() && (#[trigger] items@[j]).id@ == id,
                    forall|id: Seq<char>| #[trigger]
                        ids@.contains_key(id) ==> ids@[id] < n && items@[ids@[id] as int].id@
                            == id,
                    forall|k: int|
                        0 <= k < n ==> (#[trigger] out@[k] <==> before[k] || (in_group(
                            items@,
                            group,
                            k,
                        ) && deps_of(items@, j as int).take(d as int).contains(items@[k].id@))),
                decreases item.dependencies.len() - d,
            {
                let ghost deps = deps_of(items@, j as int);
                let ghost now = out@;
                proof {
                    assert(deps.take(d + 1) =~= deps.take(d as int).push(deps[d as int]));
                    assert(deps[d as int] == item.dependencies@[d as int]@);
                }
                match ids.get(item.dependencies[d].as_str()) {
                    Some(k) => {
                        if items[*k].group == group {
                            out.set(*k, true);
                        }
                        proof {
                            assert forall|m: int| 0 <= m < n implies (#[trigger] out@[m]
                                <==> before[m] || (in_group(items@, group, m) && deps.take(
                                d + 1,
                            ).contains(items@[m].id@))) by {
                                crate::lists::lemma_push_contains(
                                    deps.take(d as int),
                                    deps[d as int],
                                    items@[m].id@,
                                );
                                if items@[m].id@ == deps[d as int] {
                                    assert(items@[*k as int].id@ == items@[m].id@);
                                    assert(deps.contains(deps[d as int]));
                                    lemma_one_item(items@, j as int, m, *k as int);
                                }
                                assert(now[m] <==> before[m] || (in_group(items@, group, m)
                                    && deps.take(d as int).contains(items@[m].id@)));
                            }
                        }
                    },
                    None => {
                        proof {
                            assert forall|m: int| 0 <= m < n implies (#[trigger] out@[m]
                                <==> before[m] || (in_group(items@, group, m) && deps.take(
                                d + 1,
                            ).contains(items@[m].id@))) by {
                                crate::lists::lemma_push_contains(
                                    deps.take(d as int),
                                    deps[d as int],
                                    items@[m].id@,
                                );
                                assert(items@[m].id@ != deps[d as int]);
                            }
                        }
                    },
                }
                d = d + 1;
            }
            assert(deps_of(items@, j as int).take(d as int) =~= deps_of(items@, j as int));
        }
        proof {
            assert forall|k: int| 0 <= k < n implies (#[trigger] out@[k] <==> first[k] || (in_group(
                items@,
                group,
                k,
            ) && exists|m: int|
                0 <= m < j + 1 && in_group(items@, group, m) && #[trigger] deps_of(
                    items@,
                    m,
                ).contains(items@[k].id@))) by {
                assert(before[k] <==> first[k] || (in_group(items@, group, k) && exists|m: int|
                    0 <= m < j && in_group(items@, group, m) && #[trigger] deps_of(
                        items@,
                        m,
                    ).contains(items@[k].id@)));
                if out@[k] && !before[k] {
                    assert(deps_of(items@, j as int).contains(items@[k].id@));
                }
            }
        }
        j = j + 1;
    }
    proof {
        assert forall|k: int| 0 <= k < n implies out@[k] == movers(items@, group)[k] by {
            assert(out@[k] <==> first[k] || (in_group(items@, group, k) && exists|m: int|
                0 <= m < n && in_group(items@, group, m) && #[trigger] deps_of(
                    items@,
                    m,
                ).contains(items@[k].id@)));
            if is_needed(items@, group, k) {
                let m = choose|m: int|
                    in_group(items@, group, m) && #[trigger] deps_of(items@, m).contains(
                        items@[k].id@,
                    );
                assert(0 <= m < n);
            }
        }
        assert(out@ =~= movers(items@, group));
    }
    out
}

/// How many mods may move, each counted once.
fn count_kinds(items: &Vec<RankItem>, group: RankGroup, eligible: &Vec<bool>) -> (r: usize)
    requires
        eligible@ == movers(items@, group),
    ensures
        r == mover_kinds(items@, group, items@.len() as int),
{
    let mut seen: StringHashMap<usize> = StringHashMap::new();
    let mut r: usize = 0;
    let mut i: usize = 0;
    while i < items.len()
        invariant
            i <= items.len(),
            r <= i,
            eligible@ == movers(items@, group),
            forall|id: Seq<char>| #[trigger]
                seen@.contains_key(id) <==> exists|m: int|
                    0 <= m < i && #[trigger] may_move(items@, group, m) && items@[m].id@ == id,
            r == mover_kinds(items@, group, i as int),
        decreases items.len() - i,
    {
        let ghost before = seen@;
        assert(eligible@[i as int] <==> may_move(items@, group, i as int));
        if eligible[i] {
            let known = seen.contains_key(items[i].id.as_str());
            assert(known <==> before.contains_key(items@[i as int].id@));
            if !known {
                assert(is_new_mover(items@, group, i as int));
                r = r + 1;
            } else {
                assert(!is_new_mover(items@, group, i as int));
            }
            seen.insert(items[i].id.clone(), i);
        }
        proof {
            assert forall|id: Seq<char>| #[trigger] seen@.contains_key(id) <==> exists|m: int|
                0 <= m < i + 1 && #[trigger] may_move(items@, group, m) && items@[m].id@ == id by {
                if seen@.contains_key(id) && before.contains_key(id) {
                    let m = choose|m: int|
                        0 <= m < i && #[trigger] may_move(items@, group, m) && items@[m].id@ == id;
                    assert(may_move(items@, group, m));
                }
                if exists|m: int|
                    0 <= m < i + 1 && #[trigger] may_move(items@, group, m) && items@[m].id@
                        == id {
                    let m = choose|m: int|
                        0 <= m < i + 1 && #[trigger] may_move(items@, group, m) && items@[m].id@
                            == id;
                    if m < i {
                        assert(before.contains_key(id));
                    }
                }
            }
        }
        i = i + 1;
    }
    r
}

/// The text about a dependency outside the group.
fn show_skipped(
    id: &str,
    dep: &str,
    mods: &[ModEntry],
    index: &StringHashMap<usize>,
) -> (r: String)
    requires
        library::indexes(index@, mods@),
    ensures
        r@ == skipped_text(mods@, id@, dep@),
{
    let mut r = "Smart rank dependency skipped for ".to_owned();
    let first = display_mod_name(id, mods, index);
    let second = display_mod_name(dep, mods, index);
    text::push_text(&mut r, first.as_str());
    text::push_text(&mut r, ": ");
    text::push_text(&mut r, second.as_str());
    text::push_text(&mut r, " in different group");
    r
}

/// The order of the mods of a group that may move, and the warnings about their
/// dependencies.
pub fn topological_rank(
    items: &Vec<RankItem>,
    group: RankGroup,
    mods: &[ModEntry],
    index: &StringHashMap<usize>,
    warnings: &mut Vec<String>,
) -> (out: Vec<usize>)
    requires
        in_place_order(items@),
        doubles_free(items@),
        library::indexes(index@, mods@),
    ensures
        ranks(items@, group, as_ints(out@)),
        forall|k: int| 0 <= k < out.len() ==> (#[trigger] out@[k]) < items.len(),
        text::texts(final(warnings)@) == text::texts(old(warnings)@) + group_warnings(
            items@,
            group,
            mods@,
        ),
{
    let n = items.len();
    let ids = index_items(items);
    let eligible = mark_movers(items, group, &ids);
    let mut lists: Vec<Vec<usize>> = Vec::new();
    let mut nothing: Vec<Vec<usize>> = Vec::new();
    let ghost start = text::texts(warnings@);
    let ghost needs = needs_of(items@, group);
    assert(start + skip_warnings(items@, group, mods@, 0) =~= start);
    let mut i: usize = 0;
    while i < n
        invariant
            i <= n,
            n == items.len(),
            doubles_free(items@),
            library::indexes(index@, mods@),
            eligible@ == movers(items@, group),
            needs == needs_of(items@, group),
            forall|id: Seq<char>| #[trigger]
                ids@.contains_key(id) <==> exists|j: int|
                    0 <= j < items@.len() && (#[trigger] items@[j]).id@ == id,
            forall|id: Seq<char>| #[trigger]
                ids@.contains_key(id) ==> ids@[id] < n && items@[ids@[id] as int].id@ == id,
            lists.len() == i,
            nothing.len() == i,
            forall|a: int| 0 <= a < i ==> (#[trigger] nothing@[a])@.len() == 0,
            forall|a: int, k: int|
                0 <= a < i && 0 <= k < lists@[a]@.len() ==> (#[trigger] lists@[a]@[k]) < n,
            forall|a: int, j: int|
                0 <= a < i ==> (#[trigger] needs(a, j) <==> exists|k: int|
                    0 <= k < lists@[a]@.len() && (#[trigger] lists@[a]@[k]) as int == j),
            text::texts(warnings@) == start + skip_warnings(items@, group, mods@, i as int),
        decreases n - i,
    {
        let mut list: Vec<usize> = Vec::new();
        let item = &items[i];
        let ghost deps = deps_of(items@, i as int);
        if eligible[i] {
            assert(may_move(items@, group, i as int));
            let mut d: usize = 0;
            let ghost before = text::texts(warnings@);
            assert(before + item_warnings(items@, group, mods@, i as int, 0) =~= before);
            while d < item.dependencies.len()
                invariant
                    d <= item.dependencies.len(),
                    i < n,
                    n == items.len(),
                    *item == items@[i as int],
                    deps == deps_of(items@, i as int),
                    doubles_free(items@),
                    library::indexes(index@, mods@),
                    eligible@ == movers(items@, group),
                    may_move(items@, group, i as int),
                    forall|id: Seq<char>| #[trigger]
                        ids@.contains_key(id) <==> exists|j: int|
                            0 <= j < items@.len() && (#[trigger] items@[j]).id@ == id,
                    forall|id: Seq<char>| #[trigger]
                        ids@.contains_key(id) ==> ids@[id] < n && items@[ids@[id] as int].id@
                            == id,
                    forall|k: int| 0 <= k < list@.len() ==> (#[trigger] list@[k]) < n,
                    forall|k: int|
                        0 <= k < list@.len() ==> may_move(
                            items@,
                            group,
                            (#[trigger] list@[k]) as int,
                        ) && deps.contains(items@[list@[k] as int].id@),
                    forall|j: int|
                        0 <= j < n && may_move(items@, group, j) && #[trigger] deps.take(
                            d as int,
                        ).contains(items@[j].id@) ==> exists|k: int|
                            0 <= k < list@.len() && (#[trigger] list@[k]) as int == j,
                    text::texts(warnings@) == before + item_warnings(
                        items@,
                        group,
                        mods@,
                        i as int,
                        d as int,
                    ),
                decreases item.dependencies.len() - d,
            {
                let dep = item.dependencies[d].as_str();
                let ghost old_list = list@;
                proof {
                    assert(deps[d as int] == dep@);
                    assert(deps.take(d + 1) =~= deps.take(d as int).push(deps[d as int]));
                }
                let found: Option<usize> = match ids.get(dep) {
                    Some(k) => if eligible[*k] {
                        Some(*k)
                    } else {
                        None
                    },
                    None => None,
                };
                match found {
                    Some(k) => {
                        assert(may_move(items@, group, k as int));
                        assert(moves_id(items@, group, dep@)) by {
                            assert(items@[k as int].id@ == dep@);
                        }
                        list.push(k);
                    },
                    None => {
                        assert(!moves_id(items@, group, dep@)) by {
                            if moves_id(items@, group, dep@) {
                                let j = choose|j: int|
                                    may_move(items@, group, j) && (#[trigger] items@[j]).id@
                                        == dep@;
                                assert(0 <= j < items@.len());
                                assert(ids@.contains_key(dep@));
                                let k = ids@[dep@] as int;
                                assert(items@[k].id@ == items@[j].id@);
                                assert(deps.contains(deps[d as int]));
                                lemma_one_item(items@, i as int, k, j);
                                assert(eligible@[k]);
                            }
                        }
                        proof {
                            library::lemma_last_index(mods@, dep@);
                        }
                        if index.contains_key(dep) {
                            let line = show_skipped(item.id.as_str(), dep, mods, index);
                            proof {
                                text::lemma_texts_push(warnings@, line);
                                let w = item_warnings(items@, group, mods@, i as int, d as int);
                                assert((before + w).push(line@) =~= before + w.push(line@));
                            }
                            warnings.push(line);
                        }
                    },
                }
                proof {
                    assert forall|j: int|
                        0 <= j < n && may_move(items@, group, j) && #[trigger] deps.take(
                            d + 1,
                        ).contains(items@[j].id@) implies exists|k: int|
                        0 <= k < list@.len() && (#[trigger] list@[k]) as int == j by {
                        crate::lists::lemma_push_contains(
                            deps.take(d as int),
                            deps[d as int],
                            items@[j].id@,
                        );
                        if deps.take(d as int).contains(items@[j].id@) {
                            let k = choose|k: int|
                                0 <= k < old_list.len() && (#[trigger] old_list[k]) as int == j;
                            assert(list@[k] as int == j);
                        } else {
                            assert(moves_id(items@, group, dep@)) by {
                                assert(items@[j].id@ == dep@);
                            }
                            assert(items@[found->0 as int].id@ == items@[j].id@);
                            lemma_one_item(items@, i as int, j, found->0 as int);
                            assert(list@[old_list.len() as int] as int == j);
                        }
                    }
                }
                d = d + 1;
            }
            proof {
                assert(deps.take(d as int) =~= deps);
                let w = item_warnings(items@, group, mods@, i as int, d as int);
                let s = skip_warnings(items@, group, mods@, i as int);
                assert(start + s + w =~= start + (s + w));
            }
        } else {
            assert(!may_move(items@, group, i as int));
        }
        proof {
            assert forall|j: int| #[trigger] needs(i as int, j) <==> exists|k: int|
                0 <= k < list@.len() && (#[trigger] list@[k]) as int == j by {
                if needs(i as int, j) {
                    assert(deps.take(deps.len() as int) =~= deps);
                    assert(deps.take(deps.len() as int).contains(items@[j].id@));
                }
            }
        }
        let ghost old_lists = lists@;
        let ghost added = list@;
        lists.push(list);
        nothing.push(Vec::new());
        proof {
            assert forall|a: int, j: int| 0 <= a < i + 1 implies (#[trigger] needs(a, j)
                <==> exists|k: int|
                0 <= k < lists@[a]@.len() && (#[trigger] lists@[a]@[k]) as int == j) by {
                if a < i {
                    assert(lists@[a] == old_lists[a]);
                    assert(needs(a, j) <==> exists|k: int|
                        0 <= k < old_lists[a]@.len() && (#[trigger] old_lists[a]@[k]) as int
                            == j);
                } else {
                    assert(lists@[a]@ == added);
                }
            }
        }
        i = i + 1;
    }
    assert(lists_needs(lists@, needs, n as int));
    let order = pick_all(items, &eligible, &lists, Ghost(needs));
    let ghost p = as_ints(order@);
    if order.len() >= count_kinds(items, group, &eligible) {
        assert(!has_cycle(items@, group)) by {
            if has_cycle(items@, group) {
                let t = choose|t: Seq<int>| #[trigger]
                    picked(items@, movers(items@, group), needs_of(items@, group), t) && t.len()
                        < mover_kinds(items@, group, items@.len() as int);
                lemma_picked_unique(items@, movers(items@, group), needs_of(items@, group), t, p);
            }
        }
        return order;
    }
    assert(p.len() == order@.len());
    assert(has_cycle(items@, group));
    let line = "Smart rank dependency cycle detected; falling back to score order".to_owned();
    proof {
        text::lemma_texts_push(warnings@, line);
        let s = skip_warnings(items@, group, mods@, n as int);
        assert((start + s).push(line@) =~= start + s.push(line@));
    }
    warnings.push(line);
    let ghost none = needs_nothing();
    assert(lists_needs(nothing@, none, n as int));
    pick_all(items, &eligible, &nothing, Ghost(none))
}

/// The mods of a group in their new order, as places among the items.
pub fn rank_group_order(
    items: &Vec<RankItem>,
    group: RankGroup,
    mods: &[ModEntry],
    index: &StringHashMap<usize>,
    warnings: &mut Vec<String>,
) -> (out: Vec<usize>)
    requires
        in_place_order(items@),
        doubles_free(items@),
        library::indexes(index@, mods@),
    ensures
        exists|r: Seq<int>| #[trigger]
            ranks(items@, group, r) && as_ints(out@) == group_order(items@, group, r),
        forall|k: int| 0 <= k < out.len() ==> (#[trigger] out@[k]) < items.len(),
        text::texts(final(warnings)@) == text::texts(old(warnings)@) + group_warnings(
            items@,
            group,
            mods@,
        ),
{
    let ids = index_items(items);
    let eligible = mark_movers(items, group, &ids);
    let ranked = topological_rank(items, group, mods, index, warnings);
    let ghost r = as_ints(ranked@);
    let n = items.len();
    let mut out: Vec<usize> = Vec::new();
    let mut next: usize = 0;
    let mut i: usize = 0;
    while i < n
        invariant
            i <= n,
            n == items.len(),
            eligible@ == movers(items@, group),
            r == as_ints(ranked@),
            next <= i,
            forall|k: int| 0 <= k < ranked.len() ==> (#[trigger] ranked@[k]) < n,
            next == movers_before(items@, group, i as int),
            out.len() == group_places(items@, group, i as int).len(),
            forall|k: int|
                0 <= k < out.len() ==> (#[trigger] out@[k]) as int == new_at(
                    items@,
                    group,
                    r,
                    group_places(items@, group, i as int)[k],
                ) && out@[k] < n,
        decreases n - i,
    {
        if eligible[i] {
            assert(may_move(items@, group, i as int));
            assert(r.len() == ranked@.len());
            if next < ranked.len() {
                assert(r[next as int] == ranked@[next as int]);
                out.push(ranked[next]);
            } else {
                out.push(i);
            }
            next = next + 1;
        } else {
            assert(!may_move(items@, group, i as int));
            if items[i].group == group {
                out.push(i);
            }
        }
        i = i + 1;
    }
    assert(as_ints(out@) =~= group_order(items@, group, r));
    out
}

} // verus!
