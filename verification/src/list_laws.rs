//! What holds of the lists that are asked for: of mods and of what they lack.
use crate::cli;
use crate::cli::ModSortKey;
use crate::cli_lists;
use crate::cli_lists::{ItemView, MissingView};
use crate::library;
use crate::library::{ModEntry, ProfileEntry};
use crate::lists;
use crate::rank_state::SmartRankMode;
use crate::sorting;
use crate::tasks;
use crate::tasks::Tasks;
use crate::text;
use vstd::prelude::*;

verus! {

// ---------------------------------------------------------------------------
// Mods
// ---------------------------------------------------------------------------

/// What a list says of a mod: that it is on where its last entry in the load order is, and
/// its place there, counted from one; a mod without an entry is off and has no place.
pub proof fn law_item_says(m: ModEntry, order: Seq<ProfileEntry>)
    ensures
        ({
            let item = cli_lists::item_of(m, order);
            &&& item.id == m.id@
            &&& item.name == m.name@
            &&& item.display_name == m.shown_name()
            &&& item.created_at == m.created_at
            &&& item.added_at == m.added_at
            &&& match item.order {
                Some(p) => {
                    &&& 1 <= p <= order.len()
                    &&& order[p - 1].id@ == m.id@
                    &&& item.enabled == order[p - 1].enabled
                    &&& forall|j: int| p <= j < order.len() ==> (#[trigger] order[j]).id@ != m.id@
                },
                None => {
                    &&& !item.enabled
                    &&& forall|j: int| 0 <= j < order.len() ==> (#[trigger] order[j]).id@ != m.id@
                },
            }
        }),
{
    lemma_last(order, m.id@);
}

proof fn lemma_last(order: Seq<ProfileEntry>, id: Seq<char>)
    ensures
        ({
            let at = cli_lists::last_entry(order, id);
            &&& -1 <= at < order.len()
            &&& at >= 0 ==> order[at].id@ == id
            &&& forall|j: int| at < j < order.len() && 0 <= j ==> (#[trigger] order[j]).id@ != id
        }),
    decreases order.len(),
{
    if order.len() > 0 && order.last().id@ != id {
        let front = order.drop_last();
        lemma_last(front, id);
        assert(forall|j: int| 0 <= j < front.len() ==> front[j] == #[trigger] order[j]);
    }
}

/// A list has each mod whose shown name holds the filter, whatever the case, and no other.
pub proof fn law_listed_are_the_matching(
    mods: Seq<ModEntry>,
    order: Seq<ProfileEntry>,
    options: cli::ListView,
    item: ItemView,
)
    ensures
        cli_lists::listed_mods(mods, order, options).contains(item) <==> exists|k: int|
            0 <= k < mods.len() && item == cli_lists::item_of(#[trigger] mods[k], order) && (
            options.filter matches Some(f) ==> text::contains_text(
                text::ascii_lower(mods[k].shown_name()),
                text::ascii_lower(f),
            )),
{
    let all = cli_lists::items(mods, order, options.filter, mods.len() as int);
    let before = cli_lists::item_before(options.sort);
    let sorted = sorting::ranking_by(all, before);
    let list = cli_lists::listed_mods(mods, order, options);
    lemma_items(mods, order, options.filter, mods.len() as int, item);
    if list.contains(item) {
        let i = choose|i: int| 0 <= i < list.len() && list[i] == item;
        let j = if options.reverse {
            sorted.len() - 1 - i
        } else {
            i
        };
        assert(sorted[j] == item);
        sorting::lemma_ranking_members(all, before, j);
    }
    if all.contains(item) {
        sorting::lemma_in_ranking(all, before, item);
        let j = choose|j: int| 0 <= j < sorted.len() && sorted[j] == item;
        let i = if options.reverse {
            sorted.len() - 1 - j
        } else {
            j
        };
        assert(list[i] == item);
    }
}

proof fn lemma_items(
    mods: Seq<ModEntry>,
    order: Seq<ProfileEntry>,
    filter: Option<Seq<char>>,
    n: int,
    item: ItemView,
)
    requires
        0 <= n <= mods.len(),
    ensures
        cli_lists::items(mods, order, filter, n).contains(item) <==> exists|k: int|
            0 <= k < n && item == cli_lists::item_of(#[trigger] mods[k], order) && (
            filter matches Some(f) ==> text::contains_text(
                text::ascii_lower(mods[k].shown_name()),
                text::ascii_lower(f),
            )),
    decreases n,
{
    if n > 0 {
        lemma_items(mods, order, filter, n - 1, item);
        let before = cli_lists::items(mods, order, filter, n - 1);
        let here = cli_lists::item_of(mods[n - 1], order);
        lists::lemma_push_contains(before, here, item);
        if before.contains(item) {
            let k = choose|k: int|
                0 <= k < n - 1 && item == cli_lists::item_of(#[trigger] mods[k], order) && (
                filter matches Some(f) ==> text::contains_text(
                    text::ascii_lower(mods[k].shown_name()),
                    text::ascii_lower(f),
                ));
            assert(0 <= k < n && item == cli_lists::item_of(mods[k], order));
        }
        assert(mods[n - 1] == mods[n - 1]);
    }
}

/// A list is in order: by place, those without one last; by name; by time of making, an
/// unknown one first; by when they were added; or by what they are. A list that is turned
/// round is in the opposite order.
pub proof fn law_list_in_order(
    mods: Seq<ModEntry>,
    order: Seq<ProfileEntry>,
    options: cli::ListView,
    i: int,
    j: int,
)
    requires
        0 <= i < j < cli_lists::listed_mods(mods, order, options).len(),
    ensures
        ({
            let list = cli_lists::listed_mods(mods, order, options);
            let a = if options.reverse {
                list[j]
            } else {
                list[i]
            };
            let b = if options.reverse {
                list[i]
            } else {
                list[j]
            };
            &&& options.sort == ModSortKey::Order && a.order is Some && b.order is Some
                ==> a.order->0 <= b.order->0
            &&& options.sort == ModSortKey::Order && a.order is None && b.order is Some
                ==> b.order->0 >= usize::MAX
            &&& options.sort == ModSortKey::Name ==> !sorting::text_before(
                b.display_name,
                a.display_name,
            )
            &&& options.sort == ModSortKey::Created && a.created_at is Some && b.created_at is Some
                ==> a.created_at->0 <= b.created_at->0
            &&& options.sort == ModSortKey::Created && b.created_at is None && a.created_at is Some
                ==> a.created_at->0 <= 0
            &&& options.sort == ModSortKey::Added ==> a.added_at <= b.added_at
            &&& options.sort == ModSortKey::Kind ==> !sorting::text_before(b.kind, a.kind)
        }),
{
    let all = cli_lists::items(mods, order, options.filter, mods.len() as int);
    let before = cli_lists::item_before(options.sort);
    let sorted = sorting::ranking_by(all, before);
    let list = cli_lists::listed_mods(mods, order, options);
    assert forall|x: ItemView, y: ItemView| #[trigger] before(x, y) implies !before(y, x) by {
        lemma_apart(options.sort, x, y, x);
    }
    assert forall|x: ItemView, y: ItemView, z: ItemView|
        #![trigger before(x, z), before(z, y)]
        before(x, y) implies before(x, z) || before(z, y) by {
        lemma_apart(options.sort, x, y, z);
    }
    sorting::law_ranking_in_order(all, before);
    if options.reverse {
        let n = sorted.len() as int;
        assert(list[i] == sorted[n - 1 - i] && list[j] == sorted[n - 1 - j]);
        assert(!before(sorted[n - 1 - i], sorted[n - 1 - j]));
    } else {
        assert(!before(sorted[j], sorted[i]));
    }
}

proof fn lemma_apart(key: ModSortKey, a: ItemView, b: ItemView, c: ItemView)
    ensures
        ({
            let before = cli_lists::item_before(key);
            &&& before(a, b) ==> !before(b, a)
            &&& before(a, b) ==> before(a, c) || before(c, b)
        }),
{
    if sorting::text_before(a.display_name, b.display_name) {
        sorting::lemma_text_before_asymmetric(a.display_name, b.display_name);
        sorting::lemma_text_before_splits(a.display_name, b.display_name, c.display_name);
    }
    if sorting::text_before(a.kind, b.kind) {
        sorting::lemma_text_before_asymmetric(a.kind, b.kind);
        sorting::lemma_text_before_splits(a.kind, b.kind, c.kind);
    }
}

// ---------------------------------------------------------------------------
// What is missing
// ---------------------------------------------------------------------------

/// Whether a line says that the mod at `at`, which is on, needs what it names at `d`, and
/// why it has not got it: it is not installed, or it is off.
pub open spec fn says_missing(
    v: MissingView,
    mods: Seq<ModEntry>,
    order: Seq<ProfileEntry>,
    deps: Seq<Vec<String>>,
    at: int,
    d: int,
) -> bool {
    let m = mods[at];
    let id = deps[at]@[d]@;
    let found = library::last_index(mods, id);
    &&& 0 <= at < mods.len()
    &&& library::last_index(mods, m.id@) == at
    &&& cli_lists::enabled_in(order, m.id@)
    &&& at < deps.len()
    &&& 0 <= d < deps[at]@.len()
    &&& !(found >= 0 && cli_lists::enabled_in(order, id))
    &&& v.required_by == m.shown_name()
    &&& v.required_by_id == m.id@
    &&& v.dependency_id == id
    &&& found < 0 ==> v.reason == "not installed"@ && v.dependency == "Unknown"@
    &&& found >= 0 ==> v.reason == "disabled"@ && v.dependency == mods[found].shown_name()
}

/// The list of what is missing has a line for each thing that a mod which is on needs and
/// that is not installed or is off, and no other line.
pub proof fn law_missing_are_listed(
    mods: Seq<ModEntry>,
    order: Seq<ProfileEntry>,
    deps: Seq<Vec<String>>,
    v: MissingView,
)
    ensures
        cli_lists::missing_list(mods, order, deps, order.len() as int).contains(v) <==> exists|
            at: int,
            d: int,
        | says_missing(v, mods, order, deps, at, d),
{
    let n = order.len() as int;
    lemma_missing(mods, order, deps, n, v);
    if exists|at: int, d: int| says_missing(v, mods, order, deps, at, d) {
        let (at, d) = choose|at: int, d: int| says_missing(v, mods, order, deps, at, d);
        assert(order.take(n) =~= order);
        assert(cli_lists::enabled_in(order.take(n), mods[at].id@) && says_missing(
            v,
            mods,
            order,
            deps,
            at,
            d,
        ));
    }
    if exists|at: int, d: int|
        cli_lists::enabled_in(order.take(n), mods[at].id@) && says_missing(
            v,
            mods,
            order,
            deps,
            at,
            d,
        ) {
        let (at, d) = choose|at: int, d: int|
            cli_lists::enabled_in(order.take(n), mods[at].id@) && says_missing(
                v,
                mods,
                order,
                deps,
                at,
                d,
            );
        assert(says_missing(v, mods, order, deps, at, d));
    }
}

proof fn lemma_lacks(
    mods: Seq<ModEntry>,
    order: Seq<ProfileEntry>,
    deps: Seq<Vec<String>>,
    at: int,
    n: int,
    v: MissingView,
)
    requires
        0 <= at < mods.len(),
        library::last_index(mods, mods[at].id@) == at,
        cli_lists::enabled_in(order, mods[at].id@),
        0 <= n <= cli_lists::deps_at(deps, at).len(),
    ensures
        cli_lists::lacks(mods, order, mods[at], cli_lists::deps_at(deps, at), n).contains(v)
            <==> exists|d: int| d < n && says_missing(v, mods, order, deps, at, d),
    decreases n,
{
    if n > 0 {
        let needs = cli_lists::deps_at(deps, at);
        lemma_lacks(mods, order, deps, at, n - 1, v);
        let before = cli_lists::lacks(mods, order, mods[at], needs, n - 1);
        let id = needs[n - 1];
        assert(id == deps[at]@[n - 1]@);
        let found = library::last_index(mods, id);
        let here = MissingView {
            required_by: mods[at].shown_name(),
            required_by_id: mods[at].id@,
            dependency: if found >= 0 {
                mods[found].shown_name()
            } else {
                "Unknown"@
            },
            dependency_id: id,
            reason: if found >= 0 {
                "disabled"@
            } else {
                "not installed"@
            },
        };
        lists::lemma_push_contains(before, here, v);
        if before.contains(v) {
            let d = choose|d: int| d < n - 1 && says_missing(v, mods, order, deps, at, d);
            assert(d < n && says_missing(v, mods, order, deps, at, d));
        }
        if !(found >= 0 && cli_lists::enabled_in(order, id)) && here == v {
            assert(says_missing(v, mods, order, deps, at, n - 1));
        }
        if exists|d: int| d < n && says_missing(v, mods, order, deps, at, d) {
            let d = choose|d: int| d < n && says_missing(v, mods, order, deps, at, d);
            if d < n - 1 {
                assert(d < n - 1 && says_missing(v, mods, order, deps, at, d));
            } else {
                assert(v =~= here);
            }
        }
    }
}

proof fn lemma_missing(
    mods: Seq<ModEntry>,
    order: Seq<ProfileEntry>,
    deps: Seq<Vec<String>>,
    n: int,
    v: MissingView,
)
    requires
        0 <= n <= order.len(),
    ensures
        cli_lists::missing_list(mods, order, deps, n).contains(v) <==> exists|at: int, d: int|
            cli_lists::enabled_in(order.take(n), mods[at].id@) && says_missing(
                v,
                mods,
                order,
                deps,
                at,
                d,
            ),
    decreases n,
{
    if n > 0 {
        lemma_missing(mods, order, deps, n - 1, v);
        let before = cli_lists::missing_list(mods, order, deps, n - 1);
        let e = order[n - 1];
        let at = library::last_index(mods, e.id@);
        library::lemma_last_index(mods, e.id@);
        let needs = cli_lists::deps_at(deps, at);
        assert forall|id: Seq<char>| #[trigger]
            cli_lists::enabled_in(order.take(n), id) <==> cli_lists::enabled_in(
            order.take(n - 1),
            id,
        ) || (e.enabled && e.id@ == id) by {
            let a = order.take(n);
            let b = order.take(n - 1);
            if cli_lists::enabled_in(a, id) {
                let i = choose|i: int|
                    0 <= i < a.len() && (#[trigger] a[i]).enabled && a[i].id@ == id;
                if i < n - 1 {
                    assert(b[i] == a[i]);
                }
            }
            if cli_lists::enabled_in(b, id) {
                let i = choose|i: int|
                    0 <= i < b.len() && (#[trigger] b[i]).enabled && b[i].id@ == id;
                assert(a[i] == b[i]);
            }
            if e.enabled && e.id@ == id {
                assert(a[n - 1] == e);
            }
        }
        if before.contains(v) {
            let (k, d) = choose|k: int, d: int|
                cli_lists::enabled_in(order.take(n - 1), mods[k].id@) && says_missing(
                    v,
                    mods,
                    order,
                    deps,
                    k,
                    d,
                );
            assert(cli_lists::enabled_in(order.take(n), mods[k].id@) && says_missing(
                v,
                mods,
                order,
                deps,
                k,
                d,
            ));
        }
        let new = e.enabled && !cli_lists::enabled_in(order.take(n - 1), e.id@) && at >= 0;
        if new {
            assert(mods[at].id@ == e.id@);
            assert(order[n - 1] == e);
            assert(cli_lists::enabled_in(order, e.id@));
            lemma_lacks(mods, order, deps, at, needs.len() as int, v);
            let more = cli_lists::lacks(mods, order, mods[at], needs, needs.len() as int);
            lemma_sum(before, more, v);
            if more.contains(v) {
                let d = choose|d: int|
                    d < needs.len() && says_missing(v, mods, order, deps, at, d);
                assert(cli_lists::enabled_in(order.take(n), mods[at].id@) && says_missing(
                    v,
                    mods,
                    order,
                    deps,
                    at,
                    d,
                ));
            }
        }
        if exists|k: int, d: int|
            cli_lists::enabled_in(order.take(n), mods[k].id@) && says_missing(
                v,
                mods,
                order,
                deps,
                k,
                d,
            ) {
            let (k, d) = choose|k: int, d: int|
                cli_lists::enabled_in(order.take(n), mods[k].id@) && says_missing(
                    v,
                    mods,
                    order,
                    deps,
                    k,
                    d,
                );
            if cli_lists::enabled_in(order.take(n - 1), mods[k].id@) {
                assert(before.contains(v));
            } else {
                assert(mods[k].id@ == e.id@ && k == at);
                assert(d < needs.len() && says_missing(v, mods, order, deps, at, d));
            }
        }
    } else {
        assert(order.take(0).len() == 0);
    }
}

proof fn lemma_sum<T>(a: Seq<T>, b: Seq<T>, x: T)
    ensures
        (a + b).contains(x) <==> a.contains(x) || b.contains(x),
{
    let s = a + b;
    if a.contains(x) {
        let i = choose|i: int| 0 <= i < a.len() && a[i] == x;
        assert(s[i] == x);
    }
    if b.contains(x) {
        let i = choose|i: int| 0 <= i < b.len() && b[i] == x;
        assert(s[a.len() + i] == x);
    }
    if s.contains(x) {
        let i = choose|i: int| 0 <= i < s.len() && s[i] == x;
        if i < a.len() {
            assert(a[i] == x);
        } else {
            assert(b[i - a.len()] == x);
        }
    }
}

// ---------------------------------------------------------------------------
// What has to wait
// ---------------------------------------------------------------------------

/// A change has to wait just while mods are read, brought in, ranked or deployed. A ranking
/// that only warms up lets the small changes through: switching, reordering and removing.
pub proof fn law_what_has_to_wait(t: Tasks, action: Seq<char>)
    ensures
        tasks::obstacle(t, action) is Some <==> {
            ||| t.metadata_active
            ||| t.native_sync_active
            ||| t.deploy_active
            ||| t.import_active
            ||| t.smart_rank_active && t.smart_rank_mode != Some(SmartRankMode::Warmup)
            ||| t.smart_rank_active && !(action == "toggle"@ || action == "enable"@ || action
                == "disable"@ || action == "reorder"@ || action == "remove"@)
        },
{
}

} // verus!
