//! What the user does with the mods that are selected or shown.
use crate::actions;
use crate::actions::{also, also_all, log, no_actions, say, Action, ActionView, LogLevel};
use crate::config::AppConfig;
use crate::dep_desk::DependencyDesk;
use crate::library;
use crate::library::{Library, ModEntry, ProfileEntry, TargetKind};
use crate::mod_changes;
use crate::mod_changes::{find_mod, select_target};
use crate::mod_switches;
use crate::mod_switches::{collect_shown, enable_mods_with_dependencies, switch_active};
use crate::mod_table;
use crate::mod_table::target_kind_label;
use crate::mod_view;
use crate::mod_view::ModView;
use crate::native_apply;
use crate::rank_order;
use crate::sorting::has_string;
use crate::tasks;
use crate::tasks::{block_mod_changes, Tasks};
use crate::text;
use crate::text::{concat2, concat3, show_usize};
use vstd::prelude::*;

verus! {

// ---------------------------------------------------------------------------
// Turning the switches round
// ---------------------------------------------------------------------------

/// What is said once the switches are turned round.
pub open spec fn inverted_says(disabled: nat) -> Seq<ActionView> {
    seq![
        ActionView::Status("Toggled visible mods"@),
        ActionView::Log(LogLevel::Info, "Toggled visible mods"@),
    ] + invert_deploys(disabled)
}

pub open spec fn invert_deploys(disabled: nat) -> Seq<ActionView> {
    if disabled > 0 {
        seq![ActionView::Deploy("invert selection"@)]
    } else {
        Seq::empty()
    }
}

/// What comes of turning the switches round, over the library `mid` in which the mods
/// that were on are off, and over what switching the others on said.
pub open spec fn inverted_over(
    after: Library,
    desk_after: DependencyDesk,
    mid: Library,
    on_says: Seq<ActionView>,
    before: Library,
    desk: DependencyDesk,
    ons: Seq<Seq<char>>,
    offs: Seq<Seq<char>>,
    deps: Seq<Vec<String>>,
    config: AppConfig,
    says: Seq<ActionView>,
) -> bool {
    let disabled = mod_switches::count_in_active(before, ons, false);
    let first = mod_switches::switch_says(false, disabled);
    &&& mod_switches::switched_in_active(mid, before, ons, false)
    &&& if offs.len() == 0 {
        &&& after == mid
        &&& desk_after == desk
        &&& says == first + if disabled == 0 {
            seq![ActionView::Status("No visible mods to invert"@)]
        } else {
            inverted_says(disabled)
        }
    } else {
        &&& mod_switches::enable_done(
            after,
            desk_after,
            mid,
            desk,
            offs,
            deps,
            config,
            on_says,
        )
        &&& says == first + on_says + if desk_after.queue is Some || desk_after.pending_enable is Some {
            invert_deploys(disabled)
        } else {
            inverted_says(disabled)
        }
    }
}

pub open spec fn inverted(
    after: Library,
    desk_after: DependencyDesk,
    before: Library,
    desk: DependencyDesk,
    ons: Seq<Seq<char>>,
    offs: Seq<Seq<char>>,
    deps: Seq<Vec<String>>,
    config: AppConfig,
    says: Seq<ActionView>,
) -> bool {
    exists|mid: Library, on_says: Seq<ActionView>| #[trigger]
        inverted_over(
            after,
            desk_after,
            mid,
            on_says,
            before,
            desk,
            ons,
            offs,
            deps,
            config,
            says,
        )
}

/// Switches the shown mods off that are on, and on those that are off.
pub fn invert_visible_mods(
    library: &mut Library,
    desk: &mut DependencyDesk,
    view: &ModView,
    loading: bool,
    deps: &Vec<Vec<String>>,
    config: &AppConfig,
    t: &Tasks,
) -> (out: Vec<Action>)
    requires
        deps@.len() == old(library).mods@.len(),
    ensures
        if tasks::obstacle(*t, "toggle"@) is Some {
            &&& *final(library) == *old(library)
            &&& *final(desk) == *old(desk)
            &&& actions::action_views(out@) == tasks::wait_says(*t, "toggle"@)
        } else if view.shown(*old(library), loading).len() == 0 {
            &&& *final(library) == *old(library)
            &&& *final(desk) == *old(desk)
            &&& actions::action_views(out@) == seq![ActionView::Status("No visible mods to invert"@)]
        } else {
            inverted(
                *final(library),
                *final(desk),
                *old(library),
                *old(desk),
                mod_switches::shown_ids(*old(library), *view, loading, true),
                mod_switches::shown_ids(*old(library), *view, loading, false),
                deps@,
                *config,
                actions::action_views(out@),
            )
        },
{
    let ghost start = *library;
    let ghost start_desk = *desk;
    let (wait, notes) = block_mod_changes(t, "toggle");
    if wait {
        return notes;
    }
    proof {
        mod_switches::lemma_no_obstacle(*t);
    }
    let places = view.visible_profile_indices(library, loading);
    assert(rank_order::as_ints(places@).len() == places@.len());
    if places.is_empty() {
        let mut out = no_actions();
        say(&mut out, "No visible mods to invert");
        assert(actions::action_views(out@) =~= seq![
            ActionView::Status("No visible mods to invert"@),
        ]);
        return out;
    }
    let ons = collect_shown(library, view, loading, true);
    let offs = collect_shown(library, view, loading, false);
    let (disabled, first) = switch_active(library, &ons, false);
    let ghost mid = *library;
    let ghost first_says = actions::action_views(first@);
    let mut out = first;
    let mut waits = false;
    let ghost mut on_says = Seq::<ActionView>::empty();
    assert(text::texts(offs@).len() == offs@.len());
    if !offs.is_empty() {
        let more = enable_mods_with_dependencies(library, desk, &offs, deps, config, t);
        proof {
            on_says = actions::action_views(more@);
        }
        also_all(&mut out, more);
        waits = desk.queue.is_some() || desk.pending_enable.is_some();
    } else if disabled == 0 {
        say(&mut out, "No visible mods to invert");
        proof {
            assert(actions::action_views(out@) =~= first_says + seq![
                ActionView::Status("No visible mods to invert"@),
            ]);
            assert(inverted_over(
                *library,
                *desk,
                mid,
                on_says,
                start,
                start_desk,
                text::texts(ons@),
                text::texts(offs@),
                deps@,
                *config,
                actions::action_views(out@),
            ));
        }
        return out;
    }
    let ghost begun = actions::action_views(out@);
    if !waits {
        say(&mut out, "Toggled visible mods");
        log(&mut out, LogLevel::Info, "Toggled visible mods");
    }
    if disabled > 0 {
        also(&mut out, Action::Deploy("invert selection".to_owned()));
    }
    proof {
        assert(actions::action_views(out@) =~= begun + if waits {
            invert_deploys(disabled as nat)
        } else {
            inverted_says(disabled as nat)
        });
        assert(inverted_over(
            *library,
            *desk,
            mid,
            on_says,
            start,
            start_desk,
            text::texts(ons@),
            text::texts(offs@),
            deps@,
            *config,
            actions::action_views(out@),
        ));
    }
    out
}

// ---------------------------------------------------------------------------
// Targets
// ---------------------------------------------------------------------------

pub open spec fn target_line(selection: Option<TargetKind>) -> Seq<char> {
    "Target override: "@ + match selection {
        Some(kind) => mod_table::target_word(kind),
        None => "Auto"@,
    }
}

pub open spec fn target_says(line: Seq<char>) -> Seq<ActionView> {
    seq![
        ActionView::Status(line),
        ActionView::SaveLibrary,
        ActionView::Deploy("target override"@),
    ]
}

/// Whether a library is another with the switches of one mod's targets set.
pub open spec fn target_set(
    after: Library,
    before: Library,
    at: int,
    selection: Option<TargetKind>,
) -> bool {
    let m = before.mods@[at];
    &&& after == (Library { mods: after.mods, ..before })
    &&& after.mods@.len() == before.mods@.len()
    &&& after.mods@[at] == (ModEntry { target_overrides: after.mods@[at].target_overrides, ..m })
    &&& after.mods@[at].target_overrides@ == match selection {
        Some(kind) => mod_changes::only_kind(
            mod_table::kinds(m.targets@, m.targets@.len() as int),
            kind,
        ),
        None => Seq::empty(),
    }
    &&& forall|i: int|
        0 <= i < before.mods@.len() && i != at ==> #[trigger] after.mods@[i] == before.mods@[i]
}

/// Uses only one kind of targets of the selected mod, or what is there by itself.
pub fn select_target_override(
    library: &mut Library,
    view: &ModView,
    loading: bool,
    selection: Option<TargetKind>,
) -> (out: Vec<Action>)
    ensures
        ({
            let at = match view.chosen_id(*old(library), loading) {
                Some(id) => native_apply::first_mod(old(library).mods@, id),
                None => -1,
            };
            if at < 0 {
                *final(library) == *old(library) && out@.len() == 0
            } else if selection matches Some(kind) && !library::targets_have(
                old(library).mods@[at].targets@,
                kind,
            ) {
                &&& target_set_nothing(*final(library), *old(library), at)
                &&& actions::action_views(out@) == seq![
                    ActionView::Status("Target not present for this mod"@),
                ]
            } else {
                &&& target_set(*final(library), *old(library), at, selection)
                &&& actions::action_views(out@) == target_says(target_line(selection))
            }
        }),
{
    let mut out = no_actions();
    let id = match view.selected_profile_id(library, loading) {
        Some(id) => id,
        None => return out,
    };
    proof {
        native_apply::lemma_first_mod(library.mods@, id@);
    }
    let at = match find_mod(&library.mods, id.as_str()) {
        Some(at) => at,
        None => return out,
    };
    if !select_target(&mut library.mods[at], selection) {
        say(&mut out, "Target not present for this mod");
        assert(actions::action_views(out@) =~= seq![
            ActionView::Status("Target not present for this mod"@),
        ]);
        return out;
    }
    let word = match selection {
        Some(kind) => target_kind_label(kind),
        None => "Auto",
    };
    say(&mut out, concat2("Target override: ", word).as_str());
    also(&mut out, Action::SaveLibrary);
    also(&mut out, Action::Deploy("target override".to_owned()));
    assert(actions::action_views(out@) =~= target_says(target_line(selection)));
    out
}

/// Whether a library is another, with nothing changed in the mod at a place either.
pub open spec fn target_set_nothing(after: Library, before: Library, at: int) -> bool {
    &&& after == (Library { mods: after.mods, ..before })
    &&& after.mods@.len() == before.mods@.len()
    &&& after.mods@[at].same_as(before.mods@[at])
    &&& forall|i: int|
        0 <= i < before.mods@.len() && i != at ==> #[trigger] after.mods@[i] == before.mods@[i]
}

/// A mod whose targets are used as they are by themselves.
pub open spec fn is_cleared(after: ModEntry, before: ModEntry) -> bool {
    &&& after == (ModEntry { target_overrides: after.target_overrides, ..before })
    &&& after.target_overrides@.len() == 0
}

/// How many of the first `n` mods that changes.
pub open spec fn clear_count(mods: Seq<ModEntry>, ids: Seq<Seq<char>>, n: int) -> nat
    decreases n,
{
    if n <= 0 {
        0
    } else {
        clear_count(mods, ids, n - 1) + if ids.contains(mods[n - 1].id@)
            && mods[n - 1].target_overrides@.len() > 0 {
            1nat
        } else {
            0nat
        }
    }
}

fn clear_overrides(mods: &mut Vec<ModEntry>, ids: &Vec<String>) -> (changed: usize)
    ensures
        changed == clear_count(old(mods)@, text::texts(ids@), old(mods)@.len() as int),
        final(mods)@.len() == old(mods)@.len(),
        forall|i: int|
            0 <= i < old(mods)@.len() ==> if text::texts(ids@).contains(old(mods)@[i].id@) {
                is_cleared(#[trigger] final(mods)@[i], old(mods)@[i])
            } else {
                final(mods)@[i] == old(mods)@[i]
            },
{
    let ghost start = mods@;
    let mut changed: usize = 0;
    let mut i: usize = 0;
    while i < mods.len()
        invariant
            i <= mods.len(),
            start == old(mods)@,
            mods@.len() == start.len(),
            changed <= i,
            changed == clear_count(start, text::texts(ids@), i as int),
            forall|k: int| i <= k < start.len() ==> #[trigger] mods@[k] == start[k],
            forall|k: int|
                0 <= k < i ==> if text::texts(ids@).contains(start[k].id@) {
                    is_cleared(#[trigger] mods@[k], start[k])
                } else {
                    mods@[k] == start[k]
                },
        decreases mods.len() - i,
    {
        if has_string(ids, mods[i].id.as_str()) && mods[i].target_overrides.len() > 0 {
            mods[i].target_overrides = Vec::new();
            changed = changed + 1;
        }
        i = i + 1;
    }
    changed
}

/// The ids of the mods in the rows.
pub open spec fn all_ids_in_rows(order: Seq<ProfileEntry>, rows: Seq<int>) -> Seq<Seq<char>> {
    Seq::new(rows.len(), |i: int| order[rows[i]].id@)
}

pub open spec fn cleared_says(changed: nat) -> Seq<ActionView> {
    let line = "Cleared overrides on "@ + text::decimal(changed) + " mod(s)"@;
    if changed == 0 {
        seq![ActionView::Status("No overrides to clear"@)]
    } else {
        seq![
            ActionView::SaveLibrary,
            ActionView::Status(line),
            ActionView::Log(LogLevel::Info, line),
            ActionView::Deploy("clear overrides"@),
        ]
    }
}

/// Uses the targets of all mods that are shown as they are by themselves.
pub fn clear_visible_overrides(library: &mut Library, view: &ModView, loading: bool) -> (out: Vec<
    Action,
>)
    ensures
        ({
            let rows = view.shown(*old(library), loading);
            let ids = all_ids_in_rows(mod_view::active_order(*old(library)), rows);
            &&& *final(library) == (Library { mods: final(library).mods, ..*old(library) })
            &&& final(library).mods@.len() == old(library).mods@.len()
            &&& forall|i: int|
                0 <= i < old(library).mods@.len() ==> if ids.contains(old(library).mods@[i].id@) {
                    is_cleared(#[trigger] final(library).mods@[i], old(library).mods@[i])
                } else {
                    final(library).mods@[i] == old(library).mods@[i]
                }
            &&& actions::action_views(out@) == if rows.len() == 0 {
                seq![ActionView::Status("No visible mods to clear overrides"@)]
            } else {
                cleared_says(clear_count(old(library).mods@, ids, old(library).mods@.len() as int))
            }
        }),
{
    let mut out = no_actions();
    let shown = view.visible_profile_entries(library, loading);
    let ghost ids = all_ids_in_rows(
        mod_view::active_order(*library),
        view.shown(*library, loading),
    );
    if shown.is_empty() {
        say(&mut out, "No visible mods to clear overrides");
        assert(actions::action_views(out@) =~= seq![
            ActionView::Status("No visible mods to clear overrides"@),
        ]);
        return out;
    }
    let mut list: Vec<String> = Vec::new();
    let mut i: usize = 0;
    assert(text::texts(list@) =~= ids.take(0));
    while i < shown.len()
        invariant
            i <= shown.len() == ids.len(),
            text::texts(list@) == ids.take(i as int),
            forall|k: int| 0 <= k < shown@.len() ==> (#[trigger] shown@[k]).1.id@ == ids[k],
        decreases shown.len() - i,
    {
        let id = shown[i].1.id.clone();
        proof {
            text::lemma_texts_push(list@, id);
            assert(shown@[i as int].1.id@ == ids[i as int]);
        }
        list.push(id);
        i = i + 1;
        assert(ids.take(i as int) =~= ids.take(i - 1).push(ids[i - 1]));
    }
    assert(ids.take(i as int) =~= ids);
    let changed = clear_overrides(&mut library.mods, &list);
    if changed == 0 {
        say(&mut out, "No overrides to clear");
        assert(actions::action_views(out@) =~= cleared_says(0));
        return out;
    }
    also(&mut out, Action::SaveLibrary);
    let line = concat3("Cleared overrides on ", show_usize(changed).as_str(), " mod(s)");
    say(&mut out, line.as_str());
    log(&mut out, LogLevel::Info, line.as_str());
    also(&mut out, Action::Deploy("clear overrides".to_owned()));
    assert(actions::action_views(out@) =~= cleared_says(changed as nat));
    out
}

} // verus!
