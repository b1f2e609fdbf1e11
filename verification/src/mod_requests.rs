//! Removing the selected mod, and the look at what is missing when the program starts.
use crate::actions;
use crate::actions::{
    also, also_all, log, no_actions, say, toast, Action, ActionView, LogLevel, ToastLevel,
};
use crate::config::AppConfig;
use crate::dep_missing;
use crate::dep_missing::find_dependents;
use crate::dialogs;
use crate::dialogs::{prompt_delete_mod, prompt_startup_dependency_notice};
use crate::library;
use crate::library::{find_profile, Library, ModEntry, ModSource, ProfileEntry};
use crate::mod_changes;
use crate::mod_changes::find_mod;
use crate::mod_removal;
use crate::mod_switches;
use crate::mod_switches::switch_active;
use crate::mod_view;
use crate::mod_view::ModView;
use crate::native_apply;
use crate::rank_state::SmartRankRefreshMode;
use crate::sorting;
use crate::sorting::has_string;
use crate::tasks;
use crate::tasks::{block_mod_changes, Tasks};
use crate::text;
use crate::text::{concat3, show_usize};
use vstd::prelude::*;

verus! {

// ---------------------------------------------------------------------------
// Removing
// ---------------------------------------------------------------------------

/// What a request to remove a mod comes to.
pub enum Removal {
    /// It has been dealt with.
    Done(Vec<Action>),
    /// Who needs the mod has to be found out first.
    Check { id: String, name: String },
}

/// The mods that need a mod, by name.
pub open spec fn needing(library: Library, deps: Seq<Vec<String>>, id: Seq<char>) -> Seq<
    (Seq<char>, Seq<char>),
> {
    sorting::ranking_by(
        dep_missing::dependents(library.mods@, deps, id, library.mods@.len() as int),
        dep_missing::name_order(),
    )
}

pub open spec fn ids_of(list: Seq<(Seq<char>, Seq<char>)>) -> Seq<Seq<char>> {
    Seq::new(list.len(), |i: int| list[i].0)
}

/// Whether a mod has been removed and those that need it switched off.
pub open spec fn is_removed(
    after: Library,
    before: Library,
    id: Seq<char>,
    ids: Seq<Seq<char>>,
    says: Seq<ActionView>,
) -> bool {
    exists|mid: Library| #[trigger]
        mod_removal::deleted(
            after,
            mid,
            before,
            id,
            false,
            ids,
            "Mod removed from library"@,
            says,
        )
}

/// Where the selected mod stands among the mods, or -1.
pub open spec fn chosen_mod(library: Library, view: ModView, loading: bool) -> int {
    match view.chosen_id(library, loading) {
        Some(id) => native_apply::first_mod(library.mods@, id),
        None => -1,
    }
}

/// What comes of removing the selected mod; `unread` says that who needs it is not
/// known yet.
pub open spec fn removal_done(
    r: Removal,
    after: Library,
    before: Library,
    view: ModView,
    loading: bool,
    deps: Seq<Vec<String>>,
    unread: bool,
) -> bool {
    let at = chosen_mod(before, view, loading);
    if at < 0 {
        &&& after == before
        &&& r matches Removal::Done(out) && out@.len() == 0
    } else if unread {
        &&& after == before
        &&& r matches Removal::Check { id, name } && id@ == before.mods@[at].id@ && name@ == before.mods@[at].shown_name()
    } else {
        let id = before.mods@[at].id@;
        r matches Removal::Done(out) && is_removed(
            after,
            before,
            id,
            ids_of(needing(before, deps, id)),
            actions::action_views(out@),
        )
    }
}

fn find_chosen(library: &Library, view: &ModView, loading: bool) -> (r: Option<usize>)
    ensures
        match r {
            Some(at) => at == chosen_mod(*library, *view, loading) && at < library.mods@.len()
                && mod_changes::has_mod(library.mods@, library.mods@[at as int].id@),
            None => chosen_mod(*library, *view, loading) < 0,
        },
{
    let id = match view.selected_profile_id(library, loading) {
        Some(id) => id,
        None => return None,
    };
    proof {
        native_apply::lemma_first_mod(library.mods@, id@);
    }
    find_mod(&library.mods, id.as_str())
}

/// Removes the selected mod. `deps` are the needs of the mods, `unread` says that they
/// are not known yet.
pub fn remove_selected(
    library: &mut Library,
    view: &ModView,
    loading: bool,
    deps: &Vec<Vec<String>>,
    unread: bool,
) -> (r: Removal)
    requires
        deps@.len() == old(library).mods@.len(),
    ensures
        removal_done(r, *final(library), *old(library), *view, loading, deps@, unread),
{
    let ghost start = *library;
    let at = match find_chosen(library, view, loading) {
        Some(at) => at,
        None => return Removal::Done(no_actions()),
    };
    let id = library.mods[at].id.clone();
    if unread {
        return Removal::Check { id, name: library.mods[at].display_name() };
    }
    let dependents = find_dependents(&library.mods, deps, id.as_str());
    let out = library.delete_mod(id.as_str(), "Mod removed from library", false, &dependents);
    proof {
        assert(mod_removal::dependent_ids(dependents@) =~= ids_of(needing(start, deps@, id@))) by {
            assert(actions::dependent_views(dependents@) == needing(start, deps@, id@));
            assert(forall|i: int|
                0 <= i < dependents@.len() ==> #[trigger] actions::dependent_views(dependents@)[i].0
                    == dependents@[i].id@);
        }
        assert(is_removed(
            *library,
            start,
            id@,
            ids_of(needing(start, deps@, id@)),
            actions::action_views(out@),
        ));
    }
    Removal::Done(out)
}

/// Removes the selected mod, or asks first: where it is of the game, where others need
/// it, or where the settings say so.
pub fn request_remove_selected(
    library: &mut Library,
    view: &ModView,
    loading: bool,
    deps: &Vec<Vec<String>>,
    unread: bool,
    config: &AppConfig,
    t: &Tasks,
) -> (r: Removal)
    requires
        deps@.len() == old(library).mods@.len(),
    ensures
        ({
            let at = chosen_mod(*old(library), *view, loading);
            let m = old(library).mods@[at];
            let others = needing(*old(library), deps@, m.id@);
            if tasks::obstacle(*t, "remove"@) is Some {
                &&& *final(library) == *old(library)
                &&& r matches Removal::Done(out) && actions::action_views(out@) == tasks::wait_says(
                    *t,
                    "remove"@,
                )
            } else if at >= 0 && !unread && (m.source == ModSource::Native
                || config.confirm_mod_delete || others.len() > 0) {
                &&& *final(library) == *old(library)
                &&& r matches Removal::Done(out) && actions::action_views(out@) == seq![
                    ActionView::Ask(
                        dialogs::delete_dialog(
                            m.id@,
                            m.shown_name(),
                            m.source == ModSource::Native,
                            others,
                        ),
                    ),
                ]
            } else {
                removal_done(r, *final(library), *old(library), *view, loading, deps@, unread)
            }
        }),
{
    let (wait, notes) = block_mod_changes(t, "remove");
    if wait {
        return Removal::Done(notes);
    }
    let at = match find_chosen(library, view, loading) {
        Some(at) => at,
        None => return Removal::Done(no_actions()),
    };
    if !unread {
        let id = library.mods[at].id.clone();
        let native = library.mods[at].is_native();
        let dependents = find_dependents(&library.mods, deps, id.as_str());
        assert(actions::dependent_views(dependents@).len() == dependents@.len());
        if native || config.confirm_mod_delete || !dependents.is_empty() {
            let name = library.mods[at].display_name();
            let mut out = no_actions();
            let d = prompt_delete_mod(id.as_str(), name.as_str(), native, dependents);
            let ghost asked = d.shown();
            also(&mut out, Action::Ask(d));
            assert(actions::action_views(out@) =~= seq![ActionView::Ask(asked)]);
            return Removal::Done(out);
        }
    }
    remove_selected(library, view, loading, deps, unread)
}

pub open spec fn check_says() -> Seq<ActionView> {
    seq![
        ActionView::Status("Checking dependencies..."@),
        ActionView::Toast(ToastLevel::Info, "Checking dependencies..."@, 2),
    ]
}

/// A mod that is to be removed once it is known who needs it.
pub struct PendingDelete {
    pub waiting: Option<(String, String)>,
}

impl PendingDelete {
    /// Puts a mod off. The result says whether the mods have to be read now.
    pub fn queue_pending_delete(
        &mut self,
        id: String,
        name: String,
        metadata_active: bool,
        ready: bool,
    ) -> (r: (bool, Vec<Action>))
        ensures
            final(self).waiting == Some((id, name)),
            r.0 == (!metadata_active && !ready),
            actions::action_views(r.1@) == check_says(),
    {
        self.waiting = Some((id, name));
        let mut out = no_actions();
        say(&mut out, "Checking dependencies...");
        toast(&mut out, ToastLevel::Info, "Checking dependencies...", 2);
        assert(actions::action_views(out@) =~= check_says());
        (!metadata_active && !ready, out)
    }

    /// Asks about the mod that was put off, if it is still there.
    pub fn maybe_prompt_pending_delete(
        &mut self,
        library: &Library,
        deps: &Vec<Vec<String>>,
        dialog_open: bool,
    ) -> (out: Vec<Action>)
        requires
            deps@.len() == library.mods@.len(),
        ensures
            dialog_open ==> *final(self) == *old(self),
            !dialog_open ==> final(self).waiting is None,
            actions::action_views(out@) == match old(self).waiting {
                Some((id, name)) => {
                    let at = native_apply::first_mod(library.mods@, id@);
                    if dialog_open || at < 0 {
                        Seq::empty()
                    } else {
                        seq![
                            ActionView::Ask(
                                dialogs::delete_dialog(
                                    id@,
                                    name@,
                                    library.mods@[at].source == ModSource::Native,
                                    needing(*library, deps@, id@),
                                ),
                            ),
                        ]
                    }
                },
                None => Seq::empty(),
            },
    {
        let mut out = no_actions();
        if dialog_open {
            return out;
        }
        if let Some((id, name)) = self.waiting.take() {
            proof {
                native_apply::lemma_first_mod(library.mods@, id@);
            }
            if let Some(at) = find_mod(&library.mods, id.as_str()) {
                let dependents = find_dependents(&library.mods, deps, id.as_str());
                let d = prompt_delete_mod(
                    id.as_str(),
                    name.as_str(),
                    library.mods[at].is_native(),
                    dependents,
                );
                let ghost asked = d.shown();
                also(&mut out, Action::Ask(d));
                assert(actions::action_views(out@) =~= seq![ActionView::Ask(asked)]);
            }
        }
        out
    }
}

// ---------------------------------------------------------------------------
// At the start
// ---------------------------------------------------------------------------

/// The ids and names of those of the first `n` entries that are on and held back.
pub open spec fn held_back(
    order: Seq<ProfileEntry>,
    mods: Seq<ModEntry>,
    blocked: Seq<Seq<char>>,
    n: int,
) -> Seq<(Seq<char>, Seq<char>)>
    decreases n,
{
    if n <= 0 {
        Seq::empty()
    } else {
        let e = order[n - 1];
        let at = native_apply::first_mod(mods, e.id@);
        let before = held_back(order, mods, blocked, n - 1);
        if e.enabled && at >= 0 && blocked.contains(e.id@) {
            before.push((e.id@, mods[at].shown_name()))
        } else {
            before
        }
    }
}

fn collect_held_back(library: &Library) -> (r: (Vec<String>, Vec<String>))
    requires
        mod_changes::active_place(*library) >= 0,
    ensures
        ({
            let order = mod_view::active_order(*library);
            let held = held_back(
                order,
                library.mods@,
                text::texts(library.dependency_blocks@),
                order.len() as int,
            );
            &&& text::texts(r.0@) == ids_of(held)
            &&& text::texts(r.1@) == dialogs::names_of(held)
        }),
{
    let ghost blocked = text::texts(library.dependency_blocks@);
    let mut ids: Vec<String> = Vec::new();
    let mut names: Vec<String> = Vec::new();
    proof {
        library::lemma_profile_index(library.profiles@, library.active_profile@);
        assert(text::texts(ids@) =~= ids_of(Seq::empty()));
        assert(text::texts(names@) =~= dialogs::names_of(Seq::empty()));
    }
    if let Some(p) = find_profile(&library.profiles, library.active_profile.as_str()) {
        let order = &library.profiles[p].order;
        let mut i: usize = 0;
        while i < order.len()
            invariant
                i <= order.len(),
                blocked == text::texts(library.dependency_blocks@),
                text::texts(ids@) == ids_of(held_back(order@, library.mods@, blocked, i as int)),
                text::texts(names@) == dialogs::names_of(
                    held_back(order@, library.mods@, blocked, i as int),
                ),
            decreases order.len() - i,
        {
            let e = &order[i];
            let ghost held = held_back(order@, library.mods@, blocked, i as int);
            proof {
                native_apply::lemma_first_mod(library.mods@, e.id@);
            }
            if e.enabled && has_string(&library.dependency_blocks, e.id.as_str()) {
                if let Some(at) = find_mod(&library.mods, e.id.as_str()) {
                    let id = e.id.clone();
                    let name = library.mods[at].display_name();
                    proof {
                        text::lemma_texts_push(ids@, id);
                        text::lemma_texts_push(names@, name);
                        assert(ids_of(held.push((id@, name@))) =~= ids_of(held).push(id@));
                        assert(dialogs::names_of(held.push((id@, name@))) =~= dialogs::names_of(
                            held,
                        ).push(name@));
                    }
                    ids.push(id);
                    names.push(name);
                }
            }
            i = i + 1;
        }
    }
    (ids, names)
}

pub open spec fn block_says(changed: bool) -> Seq<ActionView> {
    if changed {
        seq![ActionView::SaveLibrary]
    } else {
        Seq::empty()
    }
}

pub open spec fn startup_says(
    changed: nat,
    names: Seq<Seq<char>>,
    notice: bool,
) -> Seq<ActionView> {
    let line = "Startup: disabled "@ + text::decimal(changed) + " mod(s) missing dependencies"@;
    if changed == 0 {
        Seq::empty()
    } else {
        mod_switches::switch_says(false, changed) + seq![
            ActionView::Status(line),
            ActionView::Log(LogLevel::Warn, line),
            ActionView::RefreshRanking(
                SmartRankRefreshMode::Incremental,
                "startup dependency disable"@,
            ),
            ActionView::Deploy("startup dependency disable"@),
        ] + if notice {
            seq![ActionView::Ask(dialogs::notice_dialog(names))]
        } else {
            Seq::empty()
        }
    }
}

/// What the look at the start does: mods that lack something are held back, over the
/// library `mid`, and those of them that are on are switched off.
pub open spec fn startup_checked(
    after: Library,
    mid: Library,
    before: Library,
    deps: Seq<Vec<String>>,
    notice: bool,
    says: Seq<ActionView>,
) -> bool {
    let blocked = dep_missing::blocked_ids(before.mods@, deps, before.mods@.len() as int);
    let changed = !dep_missing::same_members(text::texts(before.dependency_blocks@), blocked);
    let order = mod_view::active_order(before);
    let held = held_back(
        order,
        before.mods@,
        text::texts(mid.dependency_blocks@),
        order.len() as int,
    );
    &&& mid == (Library { dependency_blocks: mid.dependency_blocks, ..before })
    &&& changed ==> text::texts(mid.dependency_blocks@) == blocked
    &&& !changed ==> mid == before
    &&& if mod_changes::active_place(before) < 0 {
        after == mid && says == block_says(changed)
    } else {
        &&& mod_switches::switched_in_active(after, mid, ids_of(held), false)
        &&& says == block_says(changed) + startup_says(
            mod_switches::count_in_active(mid, ids_of(held), false),
            dialogs::names_of(held),
            notice,
        )
    }
}

pub open spec fn startup_looked(
    after: Library,
    before: Library,
    deps: Seq<Vec<String>>,
    notice: bool,
    says: Seq<ActionView>,
) -> bool {
    exists|mid: Library| #[trigger] startup_checked(after, mid, before, deps, notice, says)
}

/// Switches off the mods that lack something, once after the start and once it is known
/// what mods need. `deps` are those needs.
pub fn run_startup_dependency_check(
    library: &mut Library,
    pending: &mut bool,
    ready: bool,
    deps: &Vec<Vec<String>>,
    config: &AppConfig,
) -> (out: Vec<Action>)
    requires
        deps@.len() == old(library).mods@.len(),
    ensures
        *final(pending) == (*old(pending) && !ready),
        if *old(pending) && ready {
            startup_looked(
                *final(library),
                *old(library),
                deps@,
                config.show_startup_dependency_notice,
                actions::action_views(out@),
            )
        } else {
            *final(library) == *old(library) && out@.len() == 0
        },
{
    let mut out = no_actions();
    if !*pending || !ready {
        return out;
    }
    let ghost start = *library;
    *pending = false;
    let blocks = library.refresh_dependency_blocks(deps, true);
    let ghost mid = *library;
    if blocks {
        also(&mut out, Action::SaveLibrary);
    }
    assert(actions::action_views(out@) =~= block_says(blocks));
    let ghost first = actions::action_views(out@);
    proof {
        library::lemma_profile_index(library.profiles@, library.active_profile@);
    }
    if find_profile(&library.profiles, library.active_profile.as_str()).is_none() {
        assert(startup_checked(
            *library,
            mid,
            start,
            deps@,
            config.show_startup_dependency_notice,
            first,
        ));
        return out;
    }
    let (ids, names) = collect_held_back(library);
    let (changed, more) = switch_active(library, &ids, false);
    if changed > 0 {
        let ghost second = actions::action_views(more@);
        also_all(&mut out, more);
        let line = concat3(
            "Startup: disabled ",
            show_usize(changed).as_str(),
            " mod(s) missing dependencies",
        );
        say(&mut out, line.as_str());
        log(&mut out, LogLevel::Warn, line.as_str());
        also(
            &mut out,
            Action::RefreshRanking(
                SmartRankRefreshMode::Incremental,
                "startup dependency disable".to_owned(),
            ),
        );
        also(&mut out, Action::Deploy("startup dependency disable".to_owned()));
        if config.show_startup_dependency_notice {
            also(&mut out, Action::Ask(prompt_startup_dependency_notice(&names)));
        }
    }
    proof {
        assert(actions::action_views(out@) =~= first + startup_says(
            changed as nat,
            text::texts(names@),
            config.show_startup_dependency_notice,
        ));
        assert(startup_checked(
            *library,
            mid,
            start,
            deps@,
            config.show_startup_dependency_notice,
            actions::action_views(out@),
        ));
    }
    out
}

} // verus!
