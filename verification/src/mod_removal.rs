//! Taking mods out of the library.
use crate::actions;
use crate::actions::{also, also_all, log, no_actions, say, Action, ActionView, DependentMod, LogLevel};
use crate::duplicates::{DuplicateDecision, DuplicateKind};
use crate::fingerprint;
use crate::fingerprint::{metadata_cache_key, METADATA_CACHE_VERSION};
use crate::library::{Library, ModEntry, ModSource};
use crate::mod_changes;
use crate::mod_changes::find_mod;
use crate::native_apply;
use crate::rank_state::SmartRankRefreshMode;
use crate::text;
use crate::text::{concat3, same_text, show_usize};
use vstd::prelude::*;

verus! {

/// Whether a library is another without a mod, with the key of what is known of the
/// mods brought up to date.
pub open spec fn taken_out(after: Library, before: Library, id: Seq<char>) -> bool {
    &&& mod_changes::mod_removed(
        (Library {
            metadata_cache_key: before.metadata_cache_key,
            metadata_cache_version: before.metadata_cache_version,
            ..after
        }),
        before,
        id,
    )
    &&& after.metadata_cache_version == METADATA_CACHE_VERSION
    &&& text::text_opt(after.metadata_cache_key) == Some(fingerprint::mods_key(after.mods@))
}

/// What is done when a mod is taken out.
pub open spec fn removal_says(mods: Seq<ModEntry>, id: Seq<char>, native_files: bool) -> Seq<
    ActionView,
> {
    let k = native_apply::first_mod(mods, id);
    seq![ActionView::RefreshRanking(SmartRankRefreshMode::Incremental, "remove"@)] + if k < 0 {
        Seq::empty()
    } else {
        (if native_files && mods[k].source == ModSource::Native {
            seq![ActionView::RemoveNativeFiles(id)]
        } else {
            Seq::empty()
        }) + seq![
            ActionView::TrashModRoot(id),
            ActionView::ForgetNeeds(id),
            ActionView::SaveLibrary,
            ActionView::ScanConflicts("mod removed"@),
        ]
    }
}

impl Library {
    /// Takes a mod out of the library and of all profiles. `delete_native_files` says
    /// that the package of a mod of the game is removed as well.
    pub fn remove_mod_by_id_with_options(&mut self, id: &str, delete_native_files: bool) -> (r: (
        bool,
        Vec<Action>,
    ))
        ensures
            r.0 == mod_changes::has_mod(old(self).mods@, id@),
            r.0 ==> taken_out(*final(self), *old(self), id@),
            !r.0 ==> *final(self) == *old(self),
            actions::action_views(r.1@) == removal_says(old(self).mods@, id@, delete_native_files),
    {
        let ghost start = *self;
        let mut out = no_actions();
        also(
            &mut out,
            Action::RefreshRanking(SmartRankRefreshMode::Incremental, "remove".to_owned()),
        );
        proof {
            native_apply::lemma_first_mod(self.mods@, id@);
        }
        let native = match find_mod(&self.mods, id) {
            Some(k) => self.mods[k].is_native(),
            None => {
                assert(actions::action_views(out@) =~= removal_says(
                    start.mods@,
                    id@,
                    delete_native_files,
                ));
                return (false, out);
            },
        };
        if delete_native_files && native {
            also(&mut out, Action::RemoveNativeFiles(id.to_owned()));
        }
        let removed = self.remove_mod_by_id(id);
        assert(removed);
        let ghost mid = *self;
        also(&mut out, Action::TrashModRoot(id.to_owned()));
        also(&mut out, Action::ForgetNeeds(id.to_owned()));
        self.metadata_cache_key = Some(metadata_cache_key(&self.mods));
        self.metadata_cache_version = METADATA_CACHE_VERSION;
        also(&mut out, Action::SaveLibrary);
        also(&mut out, Action::ScanConflicts("mod removed".to_owned()));
        proof {
            assert((Library {
                metadata_cache_key: start.metadata_cache_key,
                metadata_cache_version: start.metadata_cache_version,
                ..*self
            }) == mid);
            assert(actions::action_views(out@) =~= removal_says(
                start.mods@,
                id@,
                delete_native_files,
            ));
        }
        (true, out)
    }
}

// ---------------------------------------------------------------------------
// Mods that are there already
// ---------------------------------------------------------------------------

pub open spec fn duplicate_word(kind: DuplicateKind) -> Seq<char> {
    match kind {
        DuplicateKind::Exact => "duplicate"@,
        DuplicateKind::Similar { .. } => "similar"@,
    }
}

/// What is said and done when a mod takes the place of another.
pub open spec fn overwrite_says(mods: Seq<ModEntry>, d: DuplicateDecision) -> Seq<ActionView> {
    if d.existing_id@ == d.mod_entry.id@ {
        seq![
            ActionView::Log(
                LogLevel::Info,
                "Overwriting "@ + duplicate_word(d.kind) + " mod \""@ + d.existing_label@
                    + "\" (keeping files)"@,
            ),
        ]
    } else {
        removal_says(mods, d.existing_id@, false) + if mod_changes::has_mod(mods, d.existing_id@) {
            seq![
                ActionView::Log(
                    LogLevel::Info,
                    "Overwriting "@ + duplicate_word(d.kind) + " mod \""@ + d.existing_label@ + "\""@,
                ),
            ]
        } else {
            Seq::empty()
        }
    }
}

/// What is said and done when a mod is left out.
pub open spec fn skip_says(d: DuplicateDecision) -> Seq<ActionView> {
    seq![
        ActionView::Log(
            LogLevel::Warn,
            "Skipped "@ + duplicate_word(d.kind) + " \""@ + d.mod_entry.shown_name() + "\""@,
        ),
        ActionView::RemoveModRoot(d.mod_entry.id@),
    ]
}

/// Whether a library is another after a decision: the mod that is to be overwritten is
/// gone, unless the new one has its id.
pub open spec fn after_decision(
    after: Library,
    before: Library,
    d: DuplicateDecision,
    overwrite: bool,
) -> bool {
    if overwrite && d.existing_id@ != d.mod_entry.id@ && mod_changes::has_mod(
        before.mods@,
        d.existing_id@,
    ) {
        taken_out(after, before, d.existing_id@)
    } else {
        after == before
    }
}

pub open spec fn decision_says(mods: Seq<ModEntry>, d: DuplicateDecision, overwrite: bool) -> Seq<
    ActionView,
> {
    if overwrite {
        overwrite_says(mods, d)
    } else {
        skip_says(d)
    }
}

/// Carries a decision out. The result is the mod, where it is taken in, and what is to
/// be said and done.
pub fn apply_duplicate_decision(
    library: &mut Library,
    decision: DuplicateDecision,
    overwrite: bool,
) -> (r: (Option<ModEntry>, Vec<Action>))
    ensures
        after_decision(*final(library), *old(library), decision, overwrite),
        r.0 == if overwrite {
            Some(decision.mod_entry)
        } else {
            None
        },
        actions::action_views(r.1@) == decision_says(old(library).mods@, decision, overwrite),
{
    let ghost mods = library.mods@;
    let mut out = no_actions();
    let word = match &decision.kind {
        DuplicateKind::Exact => "duplicate",
        DuplicateKind::Similar { .. } => "similar",
    };
    if overwrite {
        let mut line = concat3("Overwriting ", word, " mod \"");
        line.append(decision.existing_label.as_str());
        if same_text(decision.existing_id.as_str(), decision.mod_entry.id.as_str()) {
            line.append("\" (keeping files)");
            log(&mut out, LogLevel::Info, line.as_str());
        } else {
            let (removed, more) = library.remove_mod_by_id_with_options(
                decision.existing_id.as_str(),
                false,
            );
            also_all(&mut out, more);
            if removed {
                line.append("\"");
                log(&mut out, LogLevel::Info, line.as_str());
            }
        }
        assert(actions::action_views(out@) =~= overwrite_says(mods, decision));
        (Some(decision.mod_entry), out)
    } else {
        let mut line = concat3("Skipped ", word, " \"");
        line.append(decision.mod_entry.display_name().as_str());
        line.append("\"");
        log(&mut out, LogLevel::Warn, line.as_str());
        also(&mut out, Action::RemoveModRoot(decision.mod_entry.id.clone()));
        assert(actions::action_views(out@) =~= skip_says(decision));
        (None, out)
    }
}

// ---------------------------------------------------------------------------
// Mods that the user removes
// ---------------------------------------------------------------------------

/// Whether a library is another with mods switched off in all profiles.
pub open spec fn switched_off(after: Library, before: Library, ids: Seq<Seq<char>>) -> bool {
    &&& after == (Library { profiles: after.profiles, ..before })
    &&& after.profiles@.len() == before.profiles@.len()
    &&& forall|i: int|
        0 <= i < before.profiles@.len() ==> {
            &&& (#[trigger] after.profiles@[i]).name == before.profiles@[i].name
            &&& after.profiles@[i].file_overrides == before.profiles@[i].file_overrides
            &&& after.profiles@[i].order@ == mod_changes::switched(
                before.profiles@[i].order@,
                ids,
                false,
            )
        }
}

pub open spec fn dependent_ids(list: Seq<DependentMod>) -> Seq<Seq<char>> {
    Seq::new(list.len(), |i: int| list[i].id@)
}

/// What is said and done once a mod is gone and those that need it are switched off.
pub open spec fn gone_says(status: Seq<char>, off: int) -> Seq<ActionView> {
    let note = "Disabled "@ + text::decimal(off as nat) + " dependent mod(s)"@;
    seq![ActionView::Status(status), ActionView::Log(LogLevel::Info, status)] + (if off > 0 {
        seq![
            ActionView::SaveLibrary,
            ActionView::Status(note),
            ActionView::Log(LogLevel::Warn, note),
            ActionView::Deploy("dependency disabled"@),
        ]
    } else {
        Seq::empty()
    }) + seq![ActionView::Deploy("mod removed"@)]
}

/// Whether a mod was taken out, over `mid`, and those that need it switched off.
pub open spec fn deleted(
    after: Library,
    mid: Library,
    before: Library,
    id: Seq<char>,
    native_files: bool,
    ids: Seq<Seq<char>>,
    status: Seq<char>,
    says: Seq<ActionView>,
) -> bool {
    &&& taken_out(mid, before, id)
    &&& switched_off(after, mid, ids)
    &&& says == removal_says(before.mods@, id, native_files) + gone_says(
        status,
        mod_changes::off_count(mid.profiles@, ids, mid.profiles@.len() as int),
    )
}

fn collect_dependent_ids(list: &Vec<DependentMod>) -> (out: Vec<String>)
    ensures
        text::texts(out@) == dependent_ids(list@),
{
    let mut out: Vec<String> = Vec::new();
    let mut i: usize = 0;
    assert(text::texts(out@) =~= dependent_ids(list@).take(0));
    while i < list.len()
        invariant
            i <= list.len(),
            text::texts(out@) == dependent_ids(list@).take(i as int),
        decreases list.len() - i,
    {
        let id = list[i].id.clone();
        proof {
            text::lemma_texts_push(out@, id);
        }
        out.push(id);
        i = i + 1;
        assert(text::texts(out@) =~= dependent_ids(list@).take(i as int));
    }
    assert(dependent_ids(list@).take(i as int) =~= dependent_ids(list@));
    out
}

impl Library {
    /// Removes a mod, and switches off those that need it. `status` is what is then
    /// said.
    pub fn delete_mod(
        &mut self,
        id: &str,
        status: &str,
        native_files: bool,
        dependents: &Vec<DependentMod>,
    ) -> (out: Vec<Action>)
        ensures
            if mod_changes::has_mod(old(self).mods@, id@) {
                exists|mid: Library| #[trigger]
                    deleted(
                        *final(self),
                        mid,
                        *old(self),
                        id@,
                        native_files,
                        dependent_ids(dependents@),
                        status@,
                        actions::action_views(out@),
                    )
            } else {
                &&& *final(self) == *old(self)
                &&& actions::action_views(out@) == removal_says(old(self).mods@, id@, native_files)
                    + seq![ActionView::Status("No mod removed"@)]
            },
    {
        let ghost start = *self;
        let (removed, first) = self.remove_mod_by_id_with_options(id, native_files);
        let ghost mid = *self;
        let mut out = first;
        let ghost begun = actions::action_views(out@);
        if !removed {
            say(&mut out, "No mod removed");
            assert(actions::action_views(out@) =~= begun + seq![
                ActionView::Status("No mod removed"@),
            ]);
            return out;
        }
        say(&mut out, status);
        log(&mut out, LogLevel::Info, status);
        let ids = collect_dependent_ids(dependents);
        let off = self.disable_mods_by_id(ids.as_slice());
        if off > 0 {
            also(&mut out, Action::SaveLibrary);
            let note = concat3("Disabled ", show_usize(off).as_str(), " dependent mod(s)");
            say(&mut out, note.as_str());
            log(&mut out, LogLevel::Warn, note.as_str());
            also(&mut out, Action::Deploy("dependency disabled".to_owned()));
        }
        also(&mut out, Action::Deploy("mod removed".to_owned()));
        proof {
            assert(actions::action_views(out@) =~= begun + gone_says(status@, off as int));
            assert(deleted(
                *self,
                mid,
                start,
                id@,
                native_files,
                dependent_ids(dependents@),
                status@,
                actions::action_views(out@),
            ));
        }
        out
    }
}

} // verus!
