//! Switching mods on and off, together with what they need.
use crate::actions;
use crate::actions::{also, also_all, log, no_actions, say, Action, ActionView, LogLevel};
use crate::config::AppConfig;
use crate::dep_desk::DependencyDesk;
use crate::dep_keys;
use crate::dep_keys::is_unverified_dependency;
use crate::dep_lookup;
use crate::dep_lookup::DependencyLookup;
use crate::dep_missing;
use crate::dep_queue;
use crate::dep_queue::build_dependency_queue_at;
use crate::library;
use crate::library::{find_profile, Library, ModEntry, ProfileEntry};
use crate::lists;
use crate::lists::copy_strings;
use crate::mod_changes;
use crate::mod_changes::find_mod;
use crate::mod_view;
use crate::mod_view::ModView;
use crate::native_apply;
use crate::rank_order;
use crate::rank_state::SmartRankRefreshMode;
use crate::sorting;
use crate::sorting::sort_dedup;
use crate::tasks;
use crate::tasks::{block_mod_changes, Tasks};
use crate::text;
use crate::text::{concat3, show_usize};
use vstd::prelude::*;

verus! {

// ---------------------------------------------------------------------------
// Mods of the active profile
// ---------------------------------------------------------------------------

/// How many mods of the active profile change when these are switched.
pub open spec fn count_in_active(library: Library, ids: Seq<Seq<char>>, enabled: bool) -> nat {
    if mod_changes::active_place(library) < 0 {
        0
    } else {
        let order = mod_view::active_order(library);
        mod_changes::switch_count(order, ids, enabled, order.len() as int)
    }
}

/// Whether a library is another with mods of its active profile switched.
pub open spec fn switched_in_active(
    after: Library,
    before: Library,
    ids: Seq<Seq<char>>,
    enabled: bool,
) -> bool {
    if mod_changes::active_place(before) < 0 {
        after == before
    } else {
        mod_changes::with_active_order(
            after,
            before,
            mod_changes::switched(mod_view::active_order(before), ids, enabled),
            before.modsettings_sync_enabled && count_in_active(before, ids, enabled) == 0,
        )
    }
}

/// What follows where mods were switched.
pub open spec fn switch_says(enabled: bool, changed: nat) -> Seq<ActionView> {
    if changed > 0 {
        seq![
            ActionView::RefreshRanking(
                SmartRankRefreshMode::Incremental,
                if enabled {
                    "enable"@
                } else {
                    "disable"@
                },
            ),
            ActionView::SaveLibrary,
        ]
    } else {
        Seq::empty()
    }
}

pub(crate) fn switch_active(library: &mut Library, ids: &Vec<String>, enabled: bool) -> (r: (
    usize,
    Vec<Action>,
))
    ensures
        r.0 == count_in_active(*old(library), text::texts(ids@), enabled),
        switched_in_active(*final(library), *old(library), text::texts(ids@), enabled),
        actions::action_views(r.1@) == switch_says(enabled, r.0 as nat),
{
    let mut out = no_actions();
    let changed = library.set_mods_enabled_in_active(ids.as_slice(), enabled);
    if changed > 0 {
        also(
            &mut out,
            Action::RefreshRanking(
                SmartRankRefreshMode::Incremental,
                (if enabled {
                    "enable"
                } else {
                    "disable"
                }).to_owned(),
            ),
        );
        also(&mut out, Action::SaveLibrary);
    }
    assert(actions::action_views(out@) =~= switch_says(enabled, changed as nat));
    (changed, out)
}

// ---------------------------------------------------------------------------
// What is needed
// ---------------------------------------------------------------------------

/// Where the mods of the first `n` ids stand, those that there are.
pub open spec fn places_of(mods: Seq<ModEntry>, ids: Seq<Seq<char>>, n: int) -> Seq<int>
    decreases n,
{
    if n <= 0 {
        Seq::empty()
    } else {
        let at = native_apply::first_mod(mods, ids[n - 1]);
        if at < 0 {
            places_of(mods, ids, n - 1)
        } else {
            places_of(mods, ids, n - 1).push(at)
        }
    }
}

/// What the mods at the first `n` places need.
pub open spec fn needs_of(deps: Seq<Vec<String>>, places: Seq<int>, n: int) -> Seq<Seq<char>>
    decreases n,
{
    if n <= 0 {
        Seq::empty()
    } else {
        needs_of(deps, places, n - 1) + dep_missing::needs_at(deps, places[n - 1])
    }
}

/// Whether no mod answers to a dependency that one is expected for.
pub open spec fn is_unmet(mods: Seq<ModEntry>, dep: Seq<char>) -> bool {
    !dep_keys::is_unverified(dep) && forall|by: Seq<char>|
        !#[trigger] dep_missing::answers_to(mods, dep, by)
}

pub open spec fn some_unmet(mods: Seq<ModEntry>, needs: Seq<Seq<char>>) -> bool {
    exists|i: int| 0 <= i < needs.len() && is_unmet(mods, #[trigger] needs[i])
}

/// Whether a mod answers to one of the needs.
pub open spec fn is_needed(mods: Seq<ModEntry>, needs: Seq<Seq<char>>, id: Seq<char>) -> bool {
    exists|i: int| 0 <= i < needs.len() && dep_missing::answers_to(mods, #[trigger] needs[i], id)
}

/// Whether a list is that of some ids and of those that answer to their needs, each
/// once, in order.
pub open spec fn lists_needed(
    list: Seq<Seq<char>>,
    ids: Seq<Seq<char>>,
    mods: Seq<ModEntry>,
    needs: Seq<Seq<char>>,
) -> bool {
    &&& sorting::ascending(list)
    &&& forall|id: Seq<char>| #[trigger]
        list.contains(id) <==> ids.contains(id) || is_needed(mods, needs, id)
}

/// Some ids and those that answer to their needs, each once, in order.
pub open spec fn with_needed(
    ids: Seq<Seq<char>>,
    mods: Seq<ModEntry>,
    needs: Seq<Seq<char>>,
) -> Seq<Seq<char>> {
    choose|list: Seq<Seq<char>>| lists_needed(list, ids, mods, needs)
}

/// There is such a list.
pub proof fn lemma_with_needed_is(
    ids: Seq<Seq<char>>,
    mods: Seq<ModEntry>,
    needs: Seq<Seq<char>>,
)
    ensures
        lists_needed(with_needed(ids, mods, needs), ids, mods, needs),
{
    let keeps = |id: Seq<char>| is_needed(mods, needs, id);
    let found = library::mod_ids(mods).filter(keeps);
    let all = ids + found;
    sorting::lemma_sorted_set_is(all);
    let list = sorting::sorted_set(all);
    assert forall|id: Seq<char>| #[trigger] list.contains(id) <==> ids.contains(id) || is_needed(
        mods,
        needs,
        id,
    ) by {
        lemma_sum_contains(ids, found, id);
        lists::lemma_filter_contains(library::mod_ids(mods), keeps, id);
        assert(list.contains(id) <==> all.contains(id));
        if is_needed(mods, needs, id) {
            let i = choose|i: int|
                0 <= i < needs.len() && dep_missing::answers_to(mods, #[trigger] needs[i], id);
            let key = choose|key: Seq<char>|
                dep_lookup::match_keys(needs[i]).contains(key) && #[trigger] dep_lookup::answers(
                    mods,
                    id,
                    key,
                );
            let k = choose|k: int|
                0 <= k < mods.len() && (#[trigger] mods[k]).id@ == id && dep_lookup::mod_keys(
                    mods[k],
                ).contains(key);
            assert(library::mod_ids(mods)[k] == id);
        }
    }
    assert(lists_needed(list, ids, mods, needs));
}

/// There is only one such list.
pub proof fn lemma_with_needed(
    list: Seq<Seq<char>>,
    ids: Seq<Seq<char>>,
    mods: Seq<ModEntry>,
    needs: Seq<Seq<char>>,
)
    requires
        lists_needed(list, ids, mods, needs),
    ensures
        with_needed(ids, mods, needs) == list,
{
    let other = with_needed(ids, mods, needs);
    assert(lists_needed(other, ids, mods, needs));
    assert forall|t: Seq<char>| #[trigger] list.contains(t) <==> other.contains(t) by {
        assert(list.contains(t) <==> ids.contains(t) || is_needed(mods, needs, t));
        assert(other.contains(t) <==> ids.contains(t) || is_needed(mods, needs, t));
    }
    sorting::lemma_sorted_set_unique(list, other);
}

fn find_places(mods: &Vec<ModEntry>, ids: &Vec<String>) -> (out: Vec<usize>)
    ensures
        rank_order::as_ints(out@) == places_of(mods@, text::texts(ids@), ids@.len() as int),
        forall|i: int| 0 <= i < out@.len() ==> (#[trigger] out@[i]) < mods@.len(),
{
    let mut out: Vec<usize> = Vec::new();
    let mut i: usize = 0;
    assert(rank_order::as_ints(out@) =~= Seq::<int>::empty());
    while i < ids.len()
        invariant
            i <= ids.len(),
            rank_order::as_ints(out@) == places_of(mods@, text::texts(ids@), i as int),
            forall|k: int| 0 <= k < out@.len() ==> (#[trigger] out@[k]) < mods@.len(),
        decreases ids.len() - i,
    {
        proof {
            native_apply::lemma_first_mod(mods@, ids@[i as int]@);
        }
        if let Some(at) = find_mod(mods, ids[i].as_str()) {
            proof {
                rank_order::lemma_as_ints_push(out@, at);
            }
            out.push(at);
        }
        i = i + 1;
    }
    out
}

fn collect_needs(deps: &Vec<Vec<String>>, places: &Vec<usize>) -> (out: Vec<String>)
    requires
        forall|i: int| 0 <= i < places@.len() ==> (#[trigger] places@[i]) < deps@.len(),
    ensures
        text::texts(out@) == needs_of(
            deps@,
            rank_order::as_ints(places@),
            places@.len() as int,
        ),
{
    let ghost all = rank_order::as_ints(places@);
    let mut out: Vec<String> = Vec::new();
    let mut i: usize = 0;
    assert(text::texts(out@) =~= Seq::<Seq<char>>::empty());
    while i < places.len()
        invariant
            i <= places.len(),
            forall|k: int| 0 <= k < places@.len() ==> (#[trigger] places@[k]) < deps@.len(),
            all == rank_order::as_ints(places@),
            text::texts(out@) == needs_of(deps@, all, i as int),
        decreases places.len() - i,
    {
        let ghost before = out@;
        let mut more = copy_strings(deps[places[i]].as_slice());
        let ghost added = more@;
        out.append(&mut more);
        proof {
            assert(all[i as int] == places@[i as int]);
            assert(text::texts(out@) =~= text::texts(before) + text::texts(added));
        }
        i = i + 1;
    }
    out
}

/// The ids with those that answer to the needs, and whether a need is not met.
fn resolve_needs(mods: &Vec<ModEntry>, ids: &Vec<String>, needs: &Vec<String>) -> (r: (
    Vec<String>,
    bool,
))
    ensures
        text::texts(r.0@) == with_needed(text::texts(ids@), mods@, text::texts(needs@)),
        r.1 == some_unmet(mods@, text::texts(needs@)),
{
    let lookup = DependencyLookup::new(mods);
    let ghost all = text::texts(needs@);
    let ghost asked = text::texts(ids@);
    let mut list = copy_strings(ids.as_slice());
    let mut unmet = false;
    let mut i: usize = 0;
    assert(text::texts(list@) =~= asked);
    assert forall|id: Seq<char>| #[trigger]
        text::texts(list@).contains(id) <==> asked.contains(id) || is_needed(
            mods@,
            all.take(0),
            id,
        ) by {}
    while i < needs.len()
        invariant
            i <= needs.len(),
            lookup.is_of(mods@),
            all == text::texts(needs@),
            unmet == some_unmet(mods@, all.take(i as int)),
            forall|id: Seq<char>| #[trigger]
                text::texts(list@).contains(id) <==> asked.contains(id) || is_needed(
                    mods@,
                    all.take(i as int),
                    id,
                ),
        decreases needs.len() - i,
    {
        let ghost had = text::texts(list@);
        let ghost seen = all.take(i as int);
        let ghost next = all.take(i + 1);
        let ghost dep = needs@[i as int]@;
        let mut found = lookup.resolve_ids(needs[i].as_str());
        let ghost more = text::texts(found@);
        proof {
            assert(next =~= seen.push(dep));
            assert forall|id: Seq<char>| #[trigger] more.contains(id) <==> dep_missing::answers_to(
                mods@,
                dep,
                id,
            ) by {
                if more.contains(id) {
                    let key = choose|key: Seq<char>|
                        dep_lookup::match_keys(dep).contains(key) && #[trigger] lookup.means(key, id);
                    assert(dep_lookup::answers(mods@, id, key));
                }
                if dep_missing::answers_to(mods@, dep, id) {
                    let key = choose|key: Seq<char>|
                        dep_lookup::match_keys(dep).contains(key) && #[trigger] dep_lookup::answers(
                            mods@,
                            id,
                            key,
                        );
                    assert(lookup.means(key, id));
                }
            }
        }
        if found.is_empty() && !is_unverified_dependency(needs[i].as_str()) {
            unmet = true;
            proof {
                assert forall|by: Seq<char>| !#[trigger] dep_missing::answers_to(mods@, dep, by) by {
                    assert(!more.contains(by));
                }
                assert(is_unmet(mods@, next[i as int]));
            }
        } else {
            proof {
                if found@.len() > 0 {
                    assert(more.contains(more[0]));
                    assert(dep_missing::answers_to(mods@, dep, more[0]));
                }
                assert(!is_unmet(mods@, dep));
                if some_unmet(mods@, next) {
                    let k = choose|k: int| 0 <= k < next.len() && is_unmet(mods@, #[trigger] next[k]);
                    assert(k < i);
                    assert(is_unmet(mods@, seen[k]));
                }
            }
        }
        proof {
            if some_unmet(mods@, seen) {
                let k = choose|k: int| 0 <= k < seen.len() && is_unmet(mods@, #[trigger] seen[k]);
                assert(is_unmet(mods@, next[k]));
            }
        }
        let ghost before = list@;
        let ghost added = found@;
        list.append(&mut found);
        i = i + 1;
        proof {
            assert(text::texts(list@) =~= had + more);
            assert forall|id: Seq<char>| #[trigger]
                text::texts(list@).contains(id) <==> asked.contains(id) || is_needed(
                    mods@,
                    next,
                    id,
                ) by {
                lemma_sum_contains(had, more, id);
                assert(had.contains(id) <==> asked.contains(id) || is_needed(mods@, seen, id));
                if is_needed(mods@, seen, id) {
                    let k = choose|k: int|
                        0 <= k < seen.len() && dep_missing::answers_to(mods@, #[trigger] seen[k], id);
                    assert(dep_missing::answers_to(mods@, next[k], id));
                }
                if more.contains(id) {
                    assert(dep_missing::answers_to(mods@, next[i - 1], id));
                }
                if is_needed(mods@, next, id) {
                    let k = choose|k: int|
                        0 <= k < next.len() && dep_missing::answers_to(mods@, #[trigger] next[k], id);
                    if k < i - 1 {
                        assert(dep_missing::answers_to(mods@, seen[k], id));
                    } else {
                        assert(more.contains(id));
                    }
                }
            }
        }
    }
    let sorted = sort_dedup(list.as_slice());
    proof {
        assert(all.take(i as int) =~= all);
        assert forall|id: Seq<char>| #[trigger]
            text::texts(sorted@).contains(id) <==> asked.contains(id) || is_needed(
                mods@,
                all,
                id,
            ) by {
            assert(text::texts(sorted@).contains(id) <==> text::texts(list@).contains(id));
        }
        lemma_with_needed(text::texts(sorted@), asked, mods@, all);
    }
    (sorted, unmet)
}

proof fn lemma_sum_contains<T>(a: Seq<T>, b: Seq<T>, x: T)
    ensures
        (a + b).contains(x) <==> a.contains(x) || b.contains(x),
{
    if a.contains(x) {
        let k = choose|k: int| 0 <= k < a.len() && a[k] == x;
        assert((a + b)[k] == x);
    }
    if b.contains(x) {
        let k = choose|k: int| 0 <= k < b.len() && b[k] == x;
        assert((a + b)[a.len() + k] == x);
    }
    if (a + b).contains(x) {
        let k = choose|k: int| 0 <= k < (a + b).len() && (a + b)[k] == x;
        if k < a.len() {
            assert(a[k] == x);
        } else {
            assert(b[k - a.len()] == x);
        }
    }
}

// ---------------------------------------------------------------------------
// Switching on
// ---------------------------------------------------------------------------

pub open spec fn missing_says() -> Seq<ActionView> {
    seq![
        ActionView::Status("Missing dependencies detected"@),
        ActionView::Log(LogLevel::Warn, "Missing dependencies detected"@),
    ]
}

pub open spec fn enable_blocked_says() -> Seq<ActionView> {
    seq![
        ActionView::Status("Missing dependencies; enable blocked"@),
        ActionView::Log(LogLevel::Warn, "Missing dependencies; enable blocked"@),
    ]
}

pub open spec fn enabled_says(changed: nat) -> Seq<ActionView> {
    let line = "Enabled "@ + text::decimal(changed) + " mod(s)"@;
    if changed == 0 {
        seq![ActionView::Status("Mods already enabled"@)]
    } else {
        switch_says(true, changed) + seq![
            ActionView::Status(line),
            ActionView::Log(LogLevel::Info, line),
            ActionView::Deploy("enable dependencies"@),
        ]
    }
}

/// What comes of switching mods on: with all they need at hand, they and what they
/// need are on; else what is missing is listed, where the user wants that.
pub open spec fn enable_done(
    after: Library,
    desk_after: DependencyDesk,
    before: Library,
    desk: DependencyDesk,
    ids: Seq<Seq<char>>,
    deps: Seq<Vec<String>>,
    config: AppConfig,
    says: Seq<ActionView>,
) -> bool {
    let mods = before.mods@;
    let places = places_of(mods, ids, ids.len() as int);
    let needs = needs_of(deps, places, places.len() as int);
    let list = with_needed(ids, mods, needs);
    let items = dep_queue::missing_items_at(mods, places, deps, places.len() as int);
    if places.len() == 0 {
        &&& after == before
        &&& desk_after == desk
        &&& says == seq![ActionView::Status("No mods to enable"@)]
    } else if !some_unmet(mods, needs) {
        &&& switched_in_active(after, before, list, true)
        &&& desk_after == desk
        &&& says == enabled_says(count_in_active(before, list, true))
    } else if (config.offer_dependency_downloads || config.warn_missing_dependencies)
        && items.len() > 0 {
        &&& after == before
        &&& desk_after == (DependencyDesk {
            queue: desk_after.queue,
            pending_enable: desk_after.pending_enable,
            ..desk
        })
        &&& desk_after.queue matches Some(q) && dep_queue::lists_missing(
            q,
            dep_queue::settled_items(items),
        )
        &&& desk_after.pending_enable matches Some(p) && text::texts(p@) == list
        &&& says == missing_says()
    } else {
        &&& after == before
        &&& desk_after == desk
        &&& says == enable_blocked_says()
    }
}

/// Switches mods on, together with what they need. `deps` are the needs of the mods
/// of the library.
pub fn enable_mods_with_dependencies(
    library: &mut Library,
    desk: &mut DependencyDesk,
    ids: &Vec<String>,
    deps: &Vec<Vec<String>>,
    config: &AppConfig,
    t: &Tasks,
) -> (out: Vec<Action>)
    requires
        deps@.len() == old(library).mods@.len(),
    ensures
        if tasks::obstacle(*t, "enable"@) is Some {
            &&& *final(library) == *old(library)
            &&& *final(desk) == *old(desk)
            &&& actions::action_views(out@) == tasks::wait_says(*t, "enable"@)
        } else {
            enable_done(
                *final(library),
                *final(desk),
                *old(library),
                *old(desk),
                text::texts(ids@),
                deps@,
                *config,
                actions::action_views(out@),
            )
        },
{
    let (wait, notes) = block_mod_changes(t, "enable");
    if wait {
        return notes;
    }
    let mut out = no_actions();
    let places = find_places(&library.mods, ids);
    assert(rank_order::as_ints(places@).len() == places@.len());
    if places.is_empty() {
        say(&mut out, "No mods to enable");
        assert(actions::action_views(out@) =~= seq![ActionView::Status("No mods to enable"@)]);
        return out;
    }
    let needs = collect_needs(deps, &places);
    let (list, unmet) = resolve_needs(&library.mods, ids, &needs);
    if unmet {
        if config.offer_dependency_downloads || config.warn_missing_dependencies {
            if let Some(queue) = build_dependency_queue_at(&library.mods, &places, deps) {
                desk.pending_enable = Some(list);
                desk.queue = Some(queue);
                say(&mut out, "Missing dependencies detected");
                log(&mut out, LogLevel::Warn, "Missing dependencies detected");
                assert(actions::action_views(out@) =~= missing_says());
                return out;
            }
        }
        say(&mut out, "Missing dependencies; enable blocked");
        log(&mut out, LogLevel::Warn, "Missing dependencies; enable blocked");
        assert(actions::action_views(out@) =~= enable_blocked_says());
        return out;
    }
    let (changed, first) = switch_active(library, &list, true);
    if changed == 0 {
        say(&mut out, "Mods already enabled");
        assert(actions::action_views(out@) =~= enabled_says(0));
        return out;
    }
    also_all(&mut out, first);
    let line = concat3("Enabled ", show_usize(changed).as_str(), " mod(s)");
    say(&mut out, line.as_str());
    log(&mut out, LogLevel::Info, line.as_str());
    also(&mut out, Action::Deploy("enable dependencies".to_owned()));
    assert(actions::action_views(out@) =~= enabled_says(changed as nat));
    out
}

pub open spec fn pending_says(changed: nat) -> Seq<ActionView> {
    let line = "Enabled "@ + text::decimal(changed) + " dependency mod(s)"@;
    if changed == 0 {
        seq![ActionView::Status("Dependencies already enabled"@)]
    } else {
        switch_says(true, changed) + seq![
            ActionView::Status(line),
            ActionView::Log(LogLevel::Info, line),
            ActionView::Deploy("dependency enable"@),
        ]
    }
}

/// Switches on the mods that waited for what they need.
pub fn apply_pending_dependency_enable(library: &mut Library, desk: &mut DependencyDesk) -> (out:
    Vec<Action>)
    ensures
        *final(desk) == (DependencyDesk { pending_enable: None, ..*old(desk) }),
        match old(desk).pending_enable {
            Some(ids) => {
                &&& switched_in_active(*final(library), *old(library), text::texts(ids@), true)
                &&& actions::action_views(out@) == pending_says(
                    count_in_active(*old(library), text::texts(ids@), true),
                )
            },
            None => *final(library) == *old(library) && out@.len() == 0,
        },
{
    let mut out = no_actions();
    if let Some(ids) = desk.pending_enable.take() {
        let (changed, first) = switch_active(library, &ids, true);
        if changed == 0 {
            say(&mut out, "Dependencies already enabled");
            assert(actions::action_views(out@) =~= pending_says(0));
            return out;
        }
        also_all(&mut out, first);
        let line = concat3("Enabled ", show_usize(changed).as_str(), " dependency mod(s)");
        say(&mut out, line.as_str());
        log(&mut out, LogLevel::Info, line.as_str());
        also(&mut out, Action::Deploy("dependency enable".to_owned()));
        assert(actions::action_views(out@) =~= pending_says(changed as nat));
    }
    out
}

/// Ends the list of what is missing: the user goes on all the same, or gives up. The
/// result says whether the import that waits is to be given up.
pub fn finish_dependency_queue(
    library: &mut Library,
    desk: &mut DependencyDesk,
    import_waits: bool,
    proceed: bool,
) -> (r: (bool, Vec<Action>))
    ensures
        r.0 == (old(desk).queue is Some && !proceed && import_waits),
        if old(desk).queue is None || r.0 {
            &&& *final(desk) == (DependencyDesk { queue: None, ..*old(desk) })
            &&& *final(library) == *old(library)
            &&& r.1@.len() == 0
        } else if !proceed {
            &&& *final(desk) == (DependencyDesk { queue: None, pending_enable: None, ..*old(desk) })
            &&& *final(library) == *old(library)
            &&& actions::action_views(r.1@) == seq![
                ActionView::Status("Dependency check canceled"@),
            ]
        } else {
            &&& *final(desk) == (DependencyDesk { queue: None, pending_enable: None, ..*old(desk) })
            &&& match old(desk).pending_enable {
                Some(ids) => {
                    &&& switched_in_active(*final(library), *old(library), text::texts(ids@), true)
                    &&& actions::action_views(r.1@) == pending_says(
                        count_in_active(*old(library), text::texts(ids@), true),
                    )
                },
                None => *final(library) == *old(library) && r.1@.len() == 0,
            }
        },
{
    let mut out = no_actions();
    if desk.queue.is_none() {
        return (false, out);
    }
    desk.queue = None;
    if !proceed {
        if import_waits {
            return (true, out);
        }
        desk.pending_enable = None;
        say(&mut out, "Dependency check canceled");
        assert(actions::action_views(out@) =~= seq![
            ActionView::Status("Dependency check canceled"@),
        ]);
        return (false, out);
    }
    (false, apply_pending_dependency_enable(library, desk))
}

/// Once mods were switched on with all they need at hand, every mod that answers to
/// one of their needs is on.
pub proof fn law_needed_are_on(
    after: Library,
    before: Library,
    ids: Seq<Seq<char>>,
    needs: Seq<Seq<char>>,
    i: int,
)
    requires
        mod_changes::active_place(before) >= 0,
        switched_in_active(after, before, with_needed(ids, before.mods@, needs), true),
        0 <= i < mod_view::active_order(before).len(),
        ({
            let id = mod_view::active_order(before)[i].id@;
            ids.contains(id) || is_needed(before.mods@, needs, id)
        }),
    ensures
        mod_view::active_order(after)[i].enabled,
{
    let list = with_needed(ids, before.mods@, needs);
    lemma_with_needed_is(ids, before.mods@, needs);
    assert(list.contains(mod_view::active_order(before)[i].id@));
    let at = mod_changes::active_place(before);
    assert(forall|k: int| 0 <= k < before.profiles@.len() ==> (#[trigger] after.profiles@[k]).name
        == before.profiles@[k].name);
    lemma_same_names(after.profiles@, before.profiles@, before.active_profile@);
}

pub proof fn lemma_same_names(
    a: Seq<library::Profile>,
    b: Seq<library::Profile>,
    name: Seq<char>,
)
    requires
        a.len() == b.len(),
        forall|k: int| 0 <= k < b.len() ==> (#[trigger] a[k]).name == b[k].name,
    ensures
        library::profile_index(a, name) == library::profile_index(b, name),
    decreases a.len(),
{
    if a.len() > 0 {
        lemma_same_names(a.drop_last(), b.drop_last(), name);
    }
}

// ---------------------------------------------------------------------------
// What is selected and what is shown
// ---------------------------------------------------------------------------

/// Switches the selected mod.
pub fn toggle_selected(
    library: &mut Library,
    desk: &mut DependencyDesk,
    view: &ModView,
    loading: bool,
    deps: &Vec<Vec<String>>,
    config: &AppConfig,
    t: &Tasks,
) -> (out: Vec<Action>)
    requires
        deps@.len() == old(library).mods@.len(),
    ensures
        if tasks::obstacle(*t, "toggle"@) is Some {
            &&& *final(library) == *old(library)
            &&& *final(desk) == *old(desk)
            &&& actions::action_views(out@) == tasks::wait_says(*t, "toggle"@)
        } else {
            match view.chosen(*old(library), loading) {
                Some(i) => {
                    let e = mod_view::active_order(*old(library))[i];
                    if e.enabled {
                        &&& switched_in_active(*final(library), *old(library), seq![e.id@], false)
                        &&& *final(desk) == *old(desk)
                        &&& actions::action_views(out@) == switch_says(
                            false,
                            count_in_active(*old(library), seq![e.id@], false),
                        ) + seq![ActionView::Deploy("enable toggle"@)]
                    } else {
                        enable_done(
                            *final(library),
                            *final(desk),
                            *old(library),
                            *old(desk),
                            seq![e.id@],
                            deps@,
                            *config,
                            actions::action_views(out@),
                        )
                    }
                },
                None => *final(library) == *old(library) && *final(desk) == *old(desk)
                    && out@.len() == 0,
            }
        },
{
    let (wait, notes) = block_mod_changes(t, "toggle");
    if wait {
        return notes;
    }
    proof {
        library::lemma_profile_index(library.profiles@, library.active_profile@);
        lemma_no_obstacle(*t);
    }
    let index = match view.selected_profile_index(library, loading) {
        Some(i) => i,
        None => return no_actions(),
    };
    let at = match find_profile(&library.profiles, library.active_profile.as_str()) {
        Some(at) => at,
        None => return no_actions(),
    };
    let on = library.profiles[at].order[index].enabled;
    let mut ids: Vec<String> = Vec::new();
    ids.push(library.profiles[at].order[index].id.clone());
    assert(text::texts(ids@) =~= seq![library.profiles@[at as int].order@[index as int].id@]);
    if on {
        let (_, first) = switch_active(library, &ids, false);
        let mut out = first;
        let ghost begun = actions::action_views(out@);
        also(&mut out, Action::Deploy("enable toggle".to_owned()));
        assert(actions::action_views(out@) =~= begun + seq![ActionView::Deploy("enable toggle"@)]);
        out
    } else {
        enable_mods_with_dependencies(library, desk, &ids, deps, config, t)
    }
}

/// Where nothing stands in the way of one small change, nothing stands in the way of
/// another.
pub proof fn lemma_no_obstacle(t: Tasks)
    ensures
        tasks::obstacle(t, "toggle"@) is None <==> tasks::obstacle(t, "enable"@) is None,
        tasks::obstacle(t, "toggle"@) is None <==> tasks::obstacle(t, "disable"@) is None,
{
}

/// The ids of the entries in the first `n` rows that are on, or off.
pub open spec fn ids_in_rows(
    order: Seq<ProfileEntry>,
    rows: Seq<int>,
    on: bool,
    n: int,
) -> Seq<Seq<char>>
    decreases n,
{
    if n <= 0 {
        Seq::empty()
    } else if order[rows[n - 1]].enabled == on {
        ids_in_rows(order, rows, on, n - 1).push(order[rows[n - 1]].id@)
    } else {
        ids_in_rows(order, rows, on, n - 1)
    }
}

/// The ids of the mods that are shown and on, or off.
pub open spec fn shown_ids(library: Library, view: ModView, loading: bool, on: bool) -> Seq<
    Seq<char>,
> {
    let rows = view.shown(library, loading);
    ids_in_rows(mod_view::active_order(library), rows, on, rows.len() as int)
}

pub(crate) fn collect_shown(library: &Library, view: &ModView, loading: bool, on: bool) -> (out: Vec<String>)
    ensures
        text::texts(out@) == shown_ids(*library, *view, loading, on),
{
    let places = view.visible_profile_indices(library, loading);
    let ghost rows = view.shown(*library, loading);
    let mut out: Vec<String> = Vec::new();
    proof {
        library::lemma_profile_index(library.profiles@, library.active_profile@);
        assert(rows.len() == places@.len());
        assert(text::texts(out@) =~= Seq::<Seq<char>>::empty());
    }
    if let Some(at) = find_profile(&library.profiles, library.active_profile.as_str()) {
        let order = &library.profiles[at].order;
        let mut i: usize = 0;
        while i < places.len()
            invariant
                i <= places.len(),
                rows == rank_order::as_ints(places@),
                forall|k: int| 0 <= k < places@.len() ==> (#[trigger] places@[k]) < order@.len(),
                text::texts(out@) == ids_in_rows(order@, rows, on, i as int),
            decreases places.len() - i,
        {
            assert(rows[i as int] == places@[i as int]);
            let e = &order[places[i]];
            if e.enabled == on {
                let id = e.id.clone();
                proof {
                    text::lemma_texts_push(out@, id);
                }
                out.push(id);
            }
            i = i + 1;
        }
    }
    out
}

/// Switches all mods on that are shown.
pub fn enable_visible_mods(
    library: &mut Library,
    desk: &mut DependencyDesk,
    view: &ModView,
    loading: bool,
    deps: &Vec<Vec<String>>,
    config: &AppConfig,
    t: &Tasks,
) -> (out: Vec<Action>)
    requires
        deps@.len() == old(library).mods@.len(),
    ensures
        ({
            let offs = shown_ids(*old(library), *view, loading, false);
            if tasks::obstacle(*t, "enable"@) is None && offs.len() > 0 {
                enable_done(
                    *final(library),
                    *final(desk),
                    *old(library),
                    *old(desk),
                    offs,
                    deps@,
                    *config,
                    actions::action_views(out@),
                )
            } else {
                &&& *final(library) == *old(library)
                &&& *final(desk) == *old(desk)
                &&& actions::action_views(out@) == if tasks::obstacle(*t, "enable"@) is Some {
                    tasks::wait_says(*t, "enable"@)
                } else if view.shown(*old(library), loading).len() == 0 {
                    seq![ActionView::Status("No visible mods to enable"@)]
                } else {
                    seq![ActionView::Status("Visible mods already enabled"@)]
                }
            }
        }),
{
    let (wait, notes) = block_mod_changes(t, "enable");
    if wait {
        return notes;
    }
    let mut out = no_actions();
    let places = view.visible_profile_indices(library, loading);
    assert(rank_order::as_ints(places@).len() == places@.len());
    if places.is_empty() {
        say(&mut out, "No visible mods to enable");
        assert(actions::action_views(out@) =~= seq![
            ActionView::Status("No visible mods to enable"@),
        ]);
        return out;
    }
    let ids = collect_shown(library, view, loading, false);
    assert(text::texts(ids@).len() == ids@.len());
    if ids.is_empty() {
        say(&mut out, "Visible mods already enabled");
        assert(actions::action_views(out@) =~= seq![
            ActionView::Status("Visible mods already enabled"@),
        ]);
        return out;
    }
    enable_mods_with_dependencies(library, desk, &ids, deps, config, t)
}

pub open spec fn disabled_says(changed: nat) -> Seq<ActionView> {
    let line = "Disabled "@ + text::decimal(changed) + " mod(s)"@;
    if changed == 0 {
        seq![ActionView::Status("Visible mods already disabled"@)]
    } else {
        switch_says(false, changed) + seq![
            ActionView::Status(line),
            ActionView::Log(LogLevel::Info, line),
            ActionView::Deploy("disable all"@),
        ]
    }
}

/// Switches all mods off that are shown.
pub fn disable_visible_mods(library: &mut Library, view: &ModView, loading: bool, t: &Tasks) -> (out:
    Vec<Action>)
    ensures
        ({
            let ons = shown_ids(*old(library), *view, loading, true);
            if tasks::obstacle(*t, "disable"@) is Some {
                &&& *final(library) == *old(library)
                &&& actions::action_views(out@) == tasks::wait_says(*t, "disable"@)
            } else if view.shown(*old(library), loading).len() == 0 {
                &&& *final(library) == *old(library)
                &&& actions::action_views(out@) == seq![
                    ActionView::Status("No visible mods to disable"@),
                ]
            } else {
                &&& switched_in_active(*final(library), *old(library), ons, false)
                &&& actions::action_views(out@) == disabled_says(
                    count_in_active(*old(library), ons, false),
                )
            }
        }),
{
    let (wait, notes) = block_mod_changes(t, "disable");
    if wait {
        return notes;
    }
    let mut out = no_actions();
    let places = view.visible_profile_indices(library, loading);
    assert(rank_order::as_ints(places@).len() == places@.len());
    if places.is_empty() {
        say(&mut out, "No visible mods to disable");
        assert(actions::action_views(out@) =~= seq![
            ActionView::Status("No visible mods to disable"@),
        ]);
        return out;
    }
    let ids = collect_shown(library, view, loading, true);
    let (changed, first) = switch_active(library, &ids, false);
    if changed == 0 {
        say(&mut out, "Visible mods already disabled");
        assert(actions::action_views(out@) =~= disabled_says(0));
        return out;
    }
    also_all(&mut out, first);
    let line = concat3("Disabled ", show_usize(changed).as_str(), " mod(s)");
    say(&mut out, line.as_str());
    log(&mut out, LogLevel::Info, line.as_str());
    also(&mut out, Action::Deploy("disable all".to_owned()));
    assert(actions::action_views(out@) =~= disabled_says(changed as nat));
    out
}

} // verus!
