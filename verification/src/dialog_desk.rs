//! What is done once a question was answered.
use crate::actions;
use crate::actions::{also, also_all, log, no_actions, say, Action, ActionView, LogLevel};
use crate::config::{AppConfig, GameConfig};
use crate::dep_desk;
use crate::dialogs::DialogOutcome;
use crate::library::Library;
use crate::mod_changes;
use crate::mod_removal;
use crate::mod_table::{ModSort, ModSortColumn, SortDirection};
use crate::mod_view;
use crate::mod_view::ModView;
use crate::profile_messages;
use crate::profile_messages::{say_profile_deleted, show_active_profile};
use crate::profiles;
use crate::profiles::ProfileChange;
use crate::text;
use crate::text::{concat2, same_text};
use vstd::prelude::*;

verus! {

/// What is left for an import or for the list of what is missing.
#[derive(Debug)]
pub enum DialogNext {
    Nothing,
    Duplicate { overwrite: bool, apply_all: bool },
    /// Stage a mod of its own for a layout that was not recognized.
    StageUnrecognized { path: String, label: String },
    NextBatch,
    /// Close the list of what is missing, and give up the import.
    CancelImport { keep_files: bool },
    /// Go on without what is missing.
    Proceed,
}

/// The settings are stored where they were changed.
pub open spec fn stored(changed: bool) -> Seq<ActionView> {
    if changed {
        seq![ActionView::SaveAppConfig]
    } else {
        Seq::empty()
    }
}

/// Whether the table is shown in the load order again, all of it where the search was to
/// go, with the same mod selected; `resume` lets the arrows move mods, or no longer.
pub open spec fn order_restored(
    after: ModView,
    before: ModView,
    library: Library,
    loading: bool,
    resume: bool,
    clear: bool,
) -> bool {
    &&& after == (ModView {
        selected: after.selected,
        filter: after.filter,
        snapshot: after.snapshot,
        sort: after.sort,
        move_mode: before.move_mode != resume,
        move_dirty: before.move_dirty && !resume,
        ..before
    })
    &&& after.sort == (ModSort { column: ModSortColumn::Order, direction: SortDirection::Asc })
    &&& if clear {
        after.filter@.len() == 0 && after.snapshot is None
    } else {
        after.filter == before.filter && after.snapshot == before.snapshot
    }
    &&& mod_view::selects(
        after.selected as int,
        after.shown(library, loading),
        mod_view::active_order(library),
        before.chosen_id(library, loading),
    )
}

pub open spec fn restored_says(before: ModView, resume: bool) -> Seq<ActionView> {
    if !resume {
        seq![ActionView::Status("Order view restored"@)]
    } else if !before.move_mode {
        seq![ActionView::Status("Move mode: use arrows to reorder, Enter/Esc to exit"@)]
    } else if before.move_dirty {
        seq![ActionView::Status("Move mode disabled"@)] + mod_view::reorder_says()
    } else {
        seq![ActionView::Status("Move mode disabled"@)]
    }
}

/// What answers are about.
pub struct AnswerDesk {
    pub library: Library,
    pub view: ModView,
    pub config: GameConfig,
    pub settings: AppConfig,
}

/// Whether a profile was deleted, and the active one is shown where it was that.
pub open spec fn profile_gone(
    after: AnswerDesk,
    before: AnswerDesk,
    name: Seq<char>,
    stop: bool,
) -> bool {
    let done = before.library.profiles@.len() > 1 && crate::library::has_profile(
        before.library.profiles@,
        name,
    );
    let was_active = before.library.active_profile@ == name;
    &&& after.settings == (AppConfig {
        confirm_profile_delete: before.settings.confirm_profile_delete && !stop,
        ..before.settings
    })
    &&& if done {
        profiles::profile_deleted(before.library, after.library, name)
    } else {
        after.library == before.library
    }
    &&& if done && was_active {
        &&& after.config == (GameConfig {
            active_profile: after.config.active_profile,
            ..before.config
        })
        &&& after.config.active_profile@ == after.library.active_profile@
        &&& after.view == (ModView { selected: 0, move_mode: false, ..before.view })
    } else {
        after.config == before.config && after.view == before.view
    }
}

pub open spec fn deletion_of(before: Library, name: Seq<char>) -> ProfileChange {
    if before.profiles@.len() <= 1 {
        ProfileChange::LastProfile
    } else if !crate::library::has_profile(before.profiles@, name) {
        ProfileChange::NotFound
    } else {
        ProfileChange::Done
    }
}

/// Whether a mod was removed, with those switched off that need it, and the selection kept
/// inside the table.
pub open spec fn mod_gone(
    after: AnswerDesk,
    before: AnswerDesk,
    loading: bool,
    id: Seq<char>,
    name: Seq<char>,
    native_files: bool,
    ids: Seq<Seq<char>>,
    says: Seq<ActionView>,
) -> bool {
    if mod_changes::has_mod(before.library.mods@, id) {
        &&& exists|mid: Library| #[trigger]
            mod_removal::deleted(
                after.library,
                mid,
                before.library,
                id,
                native_files,
                ids,
                "Mod removed: "@ + name,
                says,
            )
        &&& after.view == (ModView { selected: after.view.selected, ..before.view })
        &&& after.view.selected == dep_desk::clamped(
            before.view.selected as int,
            before.view.shown(after.library, loading).len() as int,
        )
    } else {
        &&& after.library == before.library
        &&& after.view == before.view
        &&& says == mod_removal::removal_says(before.library.mods@, id, native_files) + seq![
            ActionView::Status("No mod removed"@),
        ]
    }
}

/// Whether a mod was removed as was asked for, and the settings keep whether to ask again.
pub open spec fn deletion_settled(
    after: AnswerDesk,
    before: AnswerDesk,
    loading: bool,
    id: Seq<char>,
    name: Seq<char>,
    native_files: bool,
    stop: bool,
    ids: Seq<Seq<char>>,
    says: Seq<ActionView>,
) -> bool {
    let first = stored(stop);
    &&& after.config == before.config
    &&& after.settings == (AppConfig {
        confirm_mod_delete: before.settings.confirm_mod_delete && !stop,
        ..before.settings
    })
    &&& says.take(first.len() as int) == first
    &&& mod_gone(
        after,
        before,
        loading,
        id,
        name,
        native_files,
        ids,
        says.skip(first.len() as int),
    )
}

/// Whether an answer was carried out: what is left to do, what became of the library, the
/// table and the settings, and what is said.
pub open spec fn is_settled(
    outcome: DialogOutcome,
    next: DialogNext,
    after: AnswerDesk,
    before: AnswerDesk,
    loading: bool,
    says: Seq<ActionView>,
) -> bool {
    match outcome {
        DialogOutcome::Nothing => next is Nothing && after == before && says.len() == 0,
        DialogOutcome::Duplicate { overwrite, apply_all } => {
            &&& next == DialogNext::Duplicate { overwrite, apply_all }
            &&& after == before
            &&& says.len() == 0
        },
        DialogOutcome::ImportUnrecognized { path, label } => {
            &&& next == DialogNext::StageUnrecognized { path, label }
            &&& after == before
            &&& says == seq![
                ActionView::Log(LogLevel::Warn, "Importing unknown layout: "@ + label@),
            ]
        },
        DialogOutcome::SkipUnrecognized { label } => {
            &&& next is NextBatch
            &&& after == before
            &&& says == seq![
                ActionView::Log(LogLevel::Warn, "Skipped unrecognized layout: "@ + label@),
            ]
        },
        DialogOutcome::DeleteProfile { name, stop_asking } => {
            &&& next is Nothing
            &&& profile_gone(after, before, name@, stop_asking)
            &&& says == stored(stop_asking) + profile_messages::deletion_says(
                deletion_of(before.library, name@),
                name@,
                before.library.active_profile@ == name@,
            )
        },
        DialogOutcome::DeleteMod { id, name, native_files, stop_asking, dependents } => {
            &&& next is Nothing
            &&& deletion_settled(
                after,
                before,
                loading,
                id@,
                name@,
                native_files,
                stop_asking,
                mod_removal::dependent_ids(dependents@),
                says,
            )
        },
        DialogOutcome::RestoreOrder { resume_move_mode, clear_filter } => {
            &&& next is Nothing
            &&& after == (AnswerDesk { view: after.view, ..before })
            &&& order_restored(
                after.view,
                before.view,
                before.library,
                loading,
                resume_move_mode,
                clear_filter,
            )
            &&& says == restored_says(before.view, resume_move_mode)
        },
        DialogOutcome::CancelImport { keep_files } => {
            &&& next == DialogNext::CancelImport { keep_files }
            &&& after == before
            &&& says.len() == 0
        },
        DialogOutcome::ProceedWithoutDependencies => {
            next is Proceed && after == before && says.len() == 0
        },
        DialogOutcome::KeepDependencies => {
            &&& next is Nothing
            &&& after == before
            &&& says == seq![ActionView::Status("Dependency override canceled"@)]
        },
        DialogOutcome::SearchLink { link, copy, remember } => {
            &&& next is Nothing
            &&& after == (AnswerDesk {
                settings: AppConfig {
                    dependency_search_copy_preference: if remember {
                        Some(copy)
                    } else {
                        before.settings.dependency_search_copy_preference
                    },
                    ..before.settings
                },
                ..before
            })
            &&& says == stored(remember).push(
                if copy {
                    ActionView::Copy(link@, "Search link copied"@)
                } else {
                    ActionView::Status("Search link skipped"@)
                },
            )
        },
        DialogOutcome::HideStartupNotice => {
            &&& next is Nothing
            &&& after == (AnswerDesk {
                settings: AppConfig { show_startup_dependency_notice: false, ..before.settings },
                ..before
            })
            &&& says == seq![
                ActionView::SaveAppConfig,
                ActionView::Status("Startup dependency notice hidden"@),
            ]
        },
    }
}

impl AnswerDesk {
    fn delete_named(&mut self, name: &str, stop_asking: bool) -> (out: Vec<Action>)
        ensures
            profile_gone(*final(self), *old(self), name@, stop_asking),
            actions::action_views(out@) == stored(stop_asking) + profile_messages::deletion_says(
                deletion_of(old(self).library, name@),
                name@,
                old(self).library.active_profile@ == name@,
            ),
    {
        let mut out = no_actions();
        if stop_asking {
            self.settings.confirm_profile_delete = false;
            also(&mut out, Action::SaveAppConfig);
        }
        assert(actions::action_views(out@) =~= stored(stop_asking));
        let was_active = same_text(self.library.active_profile.as_str(), name);
        let r = self.library.delete_profile(name);
        if matches!(r, ProfileChange::Done) && was_active {
            show_active_profile(&self.library, &mut self.config, &mut self.view);
        }
        also_all(&mut out, say_profile_deleted(r, name, was_active));
        out
    }

    fn remove_named(
        &mut self,
        loading: bool,
        id: &str,
        name: &str,
        native_files: bool,
        dependents: &Vec<actions::DependentMod>,
    ) -> (out: Vec<Action>)
        ensures
            final(self).config == old(self).config,
            final(self).settings == old(self).settings,
            mod_gone(
                *final(self),
                *old(self),
                loading,
                id@,
                name@,
                native_files,
                mod_removal::dependent_ids(dependents@),
                actions::action_views(out@),
            ),
    {
        let known = mod_changes::find_mod(&self.library.mods, id).is_some();
        let status = concat2("Mod removed: ", name);
        let out = self.library.delete_mod(id, status.as_str(), native_files, dependents);
        if known {
            self.view.clamp_selection(&self.library, loading);
        }
        out
    }

    fn delete_asked(
        &mut self,
        loading: bool,
        id: &str,
        name: &str,
        native_files: bool,
        stop_asking: bool,
        dependents: &Vec<actions::DependentMod>,
    ) -> (out: Vec<Action>)
        ensures
            deletion_settled(
                *final(self),
                *old(self),
                loading,
                id@,
                name@,
                native_files,
                stop_asking,
                mod_removal::dependent_ids(dependents@),
                actions::action_views(out@),
            ),
    {
        let mut out = no_actions();
        if stop_asking {
            self.settings.confirm_mod_delete = false;
            also(&mut out, Action::SaveAppConfig);
        }
        let ghost first = actions::action_views(out@);
        assert(first =~= stored(stop_asking));
        let more = self.remove_named(loading, id, name, native_files, dependents);
        let ghost rest = actions::action_views(more@);
        also_all(&mut out, more);
        proof {
            let says = actions::action_views(out@);
            assert(says.take(first.len() as int) =~= first);
            assert(says.skip(first.len() as int) =~= rest);
        }
        out
    }

    fn restore_order(&mut self, loading: bool, resume: bool, clear: bool) -> (out: Vec<Action>)
        ensures
            *final(self) == (AnswerDesk { view: final(self).view, ..*old(self) }),
            order_restored(
                final(self).view,
                old(self).view,
                old(self).library,
                loading,
                resume,
                clear,
            ),
            actions::action_views(out@) == restored_says(old(self).view, resume),
    {
        let id = self.view.selected_profile_id(&self.library, loading);
        if clear {
            self.view.snapshot = None;
            self.view.apply_mod_filter(&self.library, loading, "", false);
            proof {
                reveal_strlit("");
                assert(text::trimmed(""@) =~= Seq::<char>::empty());
            }
        }
        self.view.sort = ModSort::default();
        self.view.reselect_mod_by_id(&self.library, loading, &id);
        let mut out = no_actions();
        if resume {
            out = self.view.toggle_move_mode();
        } else {
            say(&mut out, "Order view restored");
        }
        assert(actions::action_views(out@) =~= restored_says(old(self).view, resume));
        out
    }

    /// Carries out an answer.
    #[verifier::spinoff_prover]
    #[verifier::rlimit(40)]
    pub fn settle(&mut self, outcome: DialogOutcome, loading: bool) -> (r: (
        DialogNext,
        Vec<Action>,
    ))
        ensures
            is_settled(
                outcome,
                r.0,
                *final(self),
                *old(self),
                loading,
                actions::action_views(r.1@),
            ),
    {
        let mut out = no_actions();
        match outcome {
            DialogOutcome::Nothing => (DialogNext::Nothing, out),
            DialogOutcome::Duplicate { overwrite, apply_all } => (
                DialogNext::Duplicate { overwrite, apply_all },
                out,
            ),
            DialogOutcome::ImportUnrecognized { path, label } => {
                log(
                    &mut out,
                    LogLevel::Warn,
                    concat2("Importing unknown layout: ", label.as_str()).as_str(),
                );
                assert(actions::action_views(out@) =~= seq![
                    ActionView::Log(LogLevel::Warn, "Importing unknown layout: "@ + label@),
                ]);
                (DialogNext::StageUnrecognized { path, label }, out)
            },
            DialogOutcome::SkipUnrecognized { label } => {
                log(
                    &mut out,
                    LogLevel::Warn,
                    concat2("Skipped unrecognized layout: ", label.as_str()).as_str(),
                );
                assert(actions::action_views(out@) =~= seq![
                    ActionView::Log(LogLevel::Warn, "Skipped unrecognized layout: "@ + label@),
                ]);
                (DialogNext::NextBatch, out)
            },
            DialogOutcome::DeleteProfile { name, stop_asking } => (
                DialogNext::Nothing,
                self.delete_named(name.as_str(), stop_asking),
            ),
            DialogOutcome::DeleteMod { id, name, native_files, stop_asking, dependents } => (
                DialogNext::Nothing,
                self.delete_asked(
                    loading,
                    id.as_str(),
                    name.as_str(),
                    native_files,
                    stop_asking,
                    &dependents,
                ),
            ),
            DialogOutcome::RestoreOrder { resume_move_mode, clear_filter } => (
                DialogNext::Nothing,
                self.restore_order(loading, resume_move_mode, clear_filter),
            ),
            DialogOutcome::CancelImport { keep_files } => (
                DialogNext::CancelImport { keep_files },
                out,
            ),
            DialogOutcome::ProceedWithoutDependencies => (DialogNext::Proceed, out),
            DialogOutcome::KeepDependencies => {
                say(&mut out, "Dependency override canceled");
                assert(actions::action_views(out@) =~= seq![
                    ActionView::Status("Dependency override canceled"@),
                ]);
                (DialogNext::Nothing, out)
            },
            DialogOutcome::SearchLink { link, copy, remember } => {
                if remember {
                    self.settings.dependency_search_copy_preference = Some(copy);
                    also(&mut out, Action::SaveAppConfig);
                }
                assert(actions::action_views(out@) =~= stored(remember));
                if copy {
                    also(&mut out, Action::Copy(link, "Search link copied".to_owned()));
                } else {
                    say(&mut out, "Search link skipped");
                }
                (DialogNext::Nothing, out)
            },
            DialogOutcome::HideStartupNotice => {
                self.settings.show_startup_dependency_notice = false;
                also(&mut out, Action::SaveAppConfig);
                say(&mut out, "Startup dependency notice hidden");
                assert(actions::action_views(out@) =~= seq![
                    ActionView::SaveAppConfig,
                    ActionView::Status("Startup dependency notice hidden"@),
                ]);
                (DialogNext::Nothing, out)
            },
        }
    }
}

/// An answer that removes nothing leaves the mods and the profiles as they are.
pub proof fn law_library_stays(
    outcome: DialogOutcome,
    next: DialogNext,
    after: AnswerDesk,
    before: AnswerDesk,
    loading: bool,
    says: Seq<ActionView>,
)
    requires
        is_settled(outcome, next, after, before, loading, says),
        outcome !is DeleteProfile,
        outcome !is DeleteMod,
    ensures
        after.library == before.library,
        after.config == before.config,
{
}

} // verus!
