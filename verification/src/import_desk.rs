//! Imports that wait, run, and are taken in.
use crate::actions;
use crate::actions::{
    also, also_all, log, no_actions, say, toast, Action, ActionView, LogLevel, ToastLevel,
};
use crate::dialogs;
use crate::dialogs::{prompt_import_summary, prompt_unrecognized};
use crate::duplicates;
use crate::duplicates::{ask_duplicate, stage_imports, DuplicateDecision};
use crate::importer::{ImportFailure, ImportSource};
use crate::input_text;
use crate::input_text::{display_path, summarize_error};
use crate::library::{Library, ModEntry};
use crate::mod_removal;
use crate::mod_removal::apply_duplicate_decision;
use crate::text;
use crate::text::{concat2, concat3, show_usize};
use vstd::prelude::*;

verus! {

/// Mods from one source.
#[derive(Debug)]
pub struct ModBatch {
    pub label: String,
    pub mods: Vec<ModEntry>,
}

/// Where the imports stand.
pub struct ImportDesk {
    /// The paths that wait.
    pub queue: Vec<String>,
    pub active: Option<String>,
    pub batches: Vec<ModBatch>,
    /// The batch that waits for its dependencies.
    pub pending_batch: Option<ModBatch>,
    pub failures: Vec<ImportFailure>,
    pub summary_pending: bool,
    pub duplicates: Vec<DuplicateDecision>,
    pub pending_duplicate: Option<DuplicateDecision>,
    pub apply_all: Option<bool>,
    pub approved: Vec<ModEntry>,
}

/// What comes next.
pub enum ImportStep {
    /// Nothing, until something else happens.
    Wait,
    /// Mods are to be taken into the library. The label says where they come from, if
    /// from one source.
    Apply { mods: Vec<ModEntry>, label: Option<String> },
    /// Decisions are to be made on mods that are there already.
    Decide,
    /// The next batch.
    Next,
}

impl ImportDesk {
    pub fn new() -> (r: Self)
        ensures
            r.queue@.len() == 0,
            r.active is None,
            r.batches@.len() == 0,
            r.pending_batch is None,
            r.failures@.len() == 0,
            !r.summary_pending,
            r.duplicates@.len() == 0,
            r.pending_duplicate is None,
            r.apply_all is None,
            r.approved@.len() == 0,
            r.well_formed(),
    {
        ImportDesk {
            queue: Vec::new(),
            active: None,
            batches: Vec::new(),
            pending_batch: None,
            failures: Vec::new(),
            summary_pending: false,
            duplicates: Vec::new(),
            pending_duplicate: None,
            apply_all: None,
            approved: Vec::new(),
        }
    }

    /// The likeness that each decision states can be put in numbers.
    pub open spec fn well_formed(self) -> bool {
        &&& forall|i: int|
            0 <= i < self.duplicates@.len() ==> duplicates::can_show(#[trigger] self.duplicates@[i])
        &&& self.pending_duplicate matches Some(d) ==> duplicates::can_show(d)
    }

    /// Whether decisions are outstanding.
    pub open spec fn is_deciding(self) -> bool {
        self.pending_duplicate is Some || self.duplicates@.len() > 0
    }
}

// ---------------------------------------------------------------------------
// Asking for an import
// ---------------------------------------------------------------------------

pub open spec fn not_found_says(path: Seq<char>) -> Seq<ActionView> {
    let line = "Import failed: "@ + input_text::shown_path(path) + " (not found)"@;
    seq![
        ActionView::Status(line),
        ActionView::Log(LogLevel::Warn, "Import path not found: "@ + path),
        ActionView::Toast(ToastLevel::Warn, line, 3),
    ]
}

pub open spec fn queued_says(active: Option<String>, path: Seq<char>, waiting: nat) -> Seq<
    ActionView,
> {
    seq![
        ActionView::Log(LogLevel::Info, "Queued import: "@ + path),
        ActionView::Status(
            match active {
                Some(a) => "Importing "@ + input_text::shown_path(a@) + " (queued "@
                    + text::decimal(waiting) + ")"@,
                None => "Queued import: "@ + input_text::shown_path(path),
            },
        ),
    ]
}

pub open spec fn started_says(path: Seq<char>) -> Seq<ActionView> {
    seq![
        ActionView::Status("Importing "@ + input_text::shown_path(path)),
        ActionView::Log(LogLevel::Info, "Import started: "@ + path),
    ]
}

impl ImportDesk {
    /// Puts a path at the end of those that wait, if there is something there.
    pub fn import_mod(&mut self, path: &str, found: bool) -> (out: Vec<Action>)
        ensures
            *final(self) == (ImportDesk { queue: final(self).queue, ..*old(self) }),
            text::texts(final(self).queue@) == if found {
                text::texts(old(self).queue@).push(path@)
            } else {
                text::texts(old(self).queue@)
            },
            actions::action_views(out@) == if found {
                queued_says(old(self).active, path@, old(self).queue@.len() + 1)
            } else {
                not_found_says(path@)
            },
    {
        let mut out = no_actions();
        if !found {
            let line = concat3("Import failed: ", display_path(path).as_str(), " (not found)");
            say(&mut out, line.as_str());
            log(&mut out, LogLevel::Warn, concat2("Import path not found: ", path).as_str());
            toast(&mut out, ToastLevel::Warn, line.as_str(), 3);
            assert(actions::action_views(out@) =~= not_found_says(path@));
            return out;
        }
        let owned = path.to_owned();
        proof {
            text::lemma_texts_push(self.queue@, owned);
        }
        self.queue.push(owned);
        log(&mut out, LogLevel::Info, concat2("Queued import: ", path).as_str());
        match &self.active {
            Some(a) => {
                let mut line = concat3("Importing ", display_path(a.as_str()).as_str(), " (queued ");
                line.append(show_usize(self.queue.len()).as_str());
                line.append(")");
                say(&mut out, line.as_str());
            },
            None => {
                say(&mut out, concat2("Queued import: ", display_path(path).as_str()).as_str());
            },
        }
        assert(actions::action_views(out@) =~= queued_says(
            old(self).active,
            path@,
            old(self).queue@.len() + 1,
        ));
        out
    }

    /// Whether the next import can start. `held` says that a dialog or the list of
    /// missing dependencies is open.
    pub open spec fn can_start(self, held: bool) -> bool {
        self.active is None && !held && !self.is_deciding() && self.batches@.len() == 0
            && self.queue@.len() > 0
    }

    /// Starts the next import. The result is the path to import.
    pub fn start_next_import(&mut self, held: bool) -> (r: (Option<String>, Vec<Action>))
        ensures
            if old(self).can_start(held) {
                let path = old(self).queue@[0];
                &&& r.0 matches Some(p) && p@ == path@
                &&& *final(self) == (ImportDesk {
                    queue: final(self).queue,
                    active: Some(path),
                    ..*old(self)
                })
                &&& final(self).queue@ == old(self).queue@.skip(1)
                &&& actions::action_views(r.1@) == started_says(path@)
            } else {
                r.0 is None && *final(self) == *old(self) && r.1@.len() == 0
            },
    {
        let mut out = no_actions();
        if self.active.is_some() || held || self.pending_duplicate.is_some()
            || self.duplicates.len() > 0 || self.batches.len() > 0 || self.queue.len() == 0 {
            return (None, out);
        }
        let path = self.queue.remove(0);
        assert(self.queue@ =~= old(self).queue@.skip(1));
        say(&mut out, concat2("Importing ", display_path(path.as_str()).as_str()).as_str());
        log(&mut out, LogLevel::Info, concat2("Import started: ", path.as_str()).as_str());
        assert(actions::action_views(out@) =~= started_says(path@));
        self.active = Some(path.clone());
        (Some(path), out)
    }
}

// ---------------------------------------------------------------------------
// What went wrong
// ---------------------------------------------------------------------------

pub open spec fn summary_dialog(failures: Seq<ImportFailure>) -> actions::DialogView {
    actions::DialogView {
        title: "Import Summary"@,
        message: dialogs::summary_message(failures),
        yes_label: "Close"@,
        no_label: "Close"@,
        choice: actions::DialogChoice::Yes,
        kind: actions::KindView::ImportSummary,
        toggle: None,
        scroll: 0,
    }
}

impl ImportDesk {
    /// Whether all imports are over, and something is to be said of them.
    pub open spec fn can_sum_up(self, dialog_open: bool) -> bool {
        self.summary_pending && self.active is None && self.batches@.len() == 0
            && self.queue@.len() == 0 && !self.is_deciding() && !dialog_open
    }

    /// Tells what went wrong, once all imports are over.
    pub fn maybe_show_import_summary(&mut self, dialog_open: bool) -> (out: Vec<Action>)
        ensures
            if old(self).can_sum_up(dialog_open) {
                &&& *final(self) == (ImportDesk {
                    summary_pending: false,
                    failures: final(self).failures,
                    ..*old(self)
                })
                &&& final(self).failures@.len() == 0
                &&& actions::action_views(out@) == if old(self).failures@.len() == 0 {
                    Seq::empty()
                } else {
                    seq![ActionView::Ask(summary_dialog(old(self).failures@))]
                }
            } else {
                *final(self) == *old(self) && out@.len() == 0
            },
            old(self).well_formed() ==> final(self).well_formed(),
    {
        let mut out = no_actions();
        if !self.summary_pending || self.active.is_some() || self.batches.len() > 0
            || self.queue.len() > 0 || self.pending_duplicate.is_some() || self.duplicates.len() > 0
            || dialog_open {
            return out;
        }
        self.summary_pending = false;
        if self.failures.len() == 0 {
            return out;
        }
        also(&mut out, Action::Ask(prompt_import_summary(&self.failures)));
        self.failures = Vec::new();
        out
    }
}

// ---------------------------------------------------------------------------
// What an import reports
// ---------------------------------------------------------------------------

/// The failures as log entries.
pub open spec fn failure_logs(failures: Seq<ImportFailure>) -> Seq<ActionView> {
    Seq::new(
        failures.len(),
        |i: int|
            ActionView::Log(
                LogLevel::Error,
                "Import failed: "@ + failures[i].source.label@ + " ("@ + failures[i].error@ + ")"@,
            ),
    )
}

pub open spec fn import_failed_line(label: Seq<char>, error: Seq<char>) -> Seq<char> {
    "Import failed: "@ + label + " ("@ + input_text::summary(error) + ")"@
}

fn show_import_failed(label: &str, error: &str) -> (r: String)
    ensures
        r@ == import_failed_line(label@, error@),
{
    let mut r = concat3("Import failed: ", label, " (");
    r.append(summarize_error(error).as_str());
    r.append(")");
    r
}

fn log_failures(out: &mut Vec<Action>, failures: &Vec<ImportFailure>)
    ensures
        actions::action_views(final(out)@) == actions::action_views(old(out)@) + failure_logs(
            failures@,
        ),
{
    let ghost start = actions::action_views(out@);
    let ghost all = failure_logs(failures@);
    let mut i: usize = 0;
    assert(start =~= start + all.take(0));
    while i < failures.len()
        invariant
            i <= failures.len(),
            start == actions::action_views(old(out)@),
            all == failure_logs(failures@),
            actions::action_views(out@) == start + all.take(i as int),
        decreases failures.len() - i,
    {
        let mut line = concat3("Import failed: ", failures[i].source.label.as_str(), " (");
        line.append(failures[i].error.as_str());
        line.append(")");
        log(out, LogLevel::Error, line.as_str());
        i = i + 1;
        assert(actions::action_views(out@) =~= start + all.take(i as int));
    }
    assert(all.take(i as int) =~= all);
}

fn move_failures(out: &mut Vec<ImportFailure>, more: Vec<ImportFailure>)
    ensures
        final(out)@ == old(out)@ + more@,
{
    let mut rest = more;
    out.append(&mut rest);
}

impl ImportDesk {
    /// Takes in what an import found.
    pub fn import_completed(
        &mut self,
        path: &str,
        batches: Vec<ModBatch>,
        failures: Vec<ImportFailure>,
        unrecognized: bool,
    ) -> (out: Vec<Action>)
        ensures
            *final(self) == (ImportDesk {
                active: None,
                failures: final(self).failures,
                summary_pending: old(self).summary_pending || failures@.len() > 0,
                batches: final(self).batches,
                ..*old(self)
            }),
            final(self).failures@ == old(self).failures@ + failures@,
            final(self).batches@ == old(self).batches@ + batches@,
            actions::action_views(out@) == failure_logs(failures@) + if batches@.len() > 0 {
                Seq::empty()
            } else if unrecognized {
                seq![ActionView::Ask(unrecognized_dialog(path@))]
            } else {
                seq![
                    ActionView::Status("No mods found to import"@),
                    ActionView::Log(LogLevel::Warn, "No mods detected in "@ + path@),
                ]
            },
    {
        let mut out = no_actions();
        self.active = None;
        log_failures(&mut out, &failures);
        let ghost first = actions::action_views(out@);
        assert(first =~= failure_logs(failures@));
        if failures.len() > 0 {
            self.summary_pending = true;
        }
        move_failures(&mut self.failures, failures);
        if batches.len() == 0 {
            if unrecognized {
                also(&mut out, Action::Ask(prompt_unrecognized(path)));
            } else {
                say(&mut out, "No mods found to import");
                log(&mut out, LogLevel::Warn, concat2("No mods detected in ", path).as_str());
            }
            assert(actions::action_views(out@) =~= first + if unrecognized {
                seq![ActionView::Ask(unrecognized_dialog(path@))]
            } else {
                seq![
                    ActionView::Status("No mods found to import"@),
                    ActionView::Log(LogLevel::Warn, "No mods detected in "@ + path@),
                ]
            });
        } else {
            assert(first =~= first + Seq::<ActionView>::empty());
        }
        let mut more = batches;
        self.batches.append(&mut more);
        out
    }

    /// Takes in that an import failed.
    pub fn import_failed(&mut self, path: &str, error: &str) -> (out: Vec<Action>)
        ensures
            *final(self) == (ImportDesk {
                active: None,
                failures: final(self).failures,
                summary_pending: true,
                ..*old(self)
            }),
            final(self).failures@.len() == old(self).failures@.len() + 1,
            final(self).failures@.drop_last() == old(self).failures@,
            final(self).failures@.last().source.label@ == input_text::shown_path(path@),
            final(self).failures@.last().error@ == error@,
            ({
                let line = import_failed_line(input_text::shown_path(path@), error@);
                actions::action_views(out@) == seq![
                    ActionView::Status(line),
                    ActionView::Log(LogLevel::Error, "Import failed for "@ + path@ + ": "@ + error@),
                    ActionView::Toast(ToastLevel::Error, line, 4),
                ]
            }),
    {
        let mut out = no_actions();
        self.active = None;
        let display = display_path(path);
        let line = show_import_failed(display.as_str(), error);
        say(&mut out, line.as_str());
        let mut note = concat3("Import failed for ", path, ": ");
        note.append(error);
        log(&mut out, LogLevel::Error, note.as_str());
        toast(&mut out, ToastLevel::Error, line.as_str(), 4);
        self.failures.push(
            ImportFailure { source: ImportSource { label: display }, error: error.to_owned() },
        );
        assert(self.failures@.drop_last() =~= old(self).failures@);
        self.summary_pending = true;
        assert(actions::action_views(out@) =~= seq![
            ActionView::Status(line@),
            ActionView::Log(LogLevel::Error, note@),
            ActionView::Toast(ToastLevel::Error, line@, 4),
        ]);
        out
    }
}

pub open spec fn unrecognized_dialog(path: Seq<char>) -> actions::DialogView {
    actions::DialogView {
        title: "Unrecognized Layout"@,
        message: dialogs::unrecognized_message(input_text::shown_path(path)),
        yes_label: "Import"@,
        no_label: "Cancel"@,
        choice: actions::DialogChoice::No,
        kind: actions::KindView::Unrecognized { path, label: input_text::shown_path(path) },
        toggle: None,
        scroll: 0,
    }
}

// ---------------------------------------------------------------------------
// Batches
// ---------------------------------------------------------------------------

/// What is said when a batch holds mods that are there already.
pub open spec fn awaiting_line(label: Seq<char>) -> Seq<char> {
    "Duplicate or similar mods found in "@ + label + ". Awaiting confirmation."@
}

/// What staging mods does: where none clashes with one that is there, they are to be
/// taken in; else those that do wait for decisions, and the others with them.
pub open spec fn staged(
    after: ImportDesk,
    before: ImportDesk,
    mods: Seq<ModEntry>,
    new: Seq<ModEntry>,
    label: Seq<char>,
    step: ImportStep,
    says: Seq<ActionView>,
) -> bool {
    let n = new.len() as int;
    let clashing = duplicates::clashing_mods(mods, new, n);
    if clashing.len() > 0 {
        &&& after == (ImportDesk {
            approved: after.approved,
            duplicates: after.duplicates,
            ..before
        })
        &&& after.approved@ == before.approved@ + duplicates::free_mods(mods, new, n)
        &&& after.duplicates@.len() == before.duplicates@.len() + clashing.len()
        &&& after.duplicates@.take(before.duplicates@.len() as int) == before.duplicates@
        &&& duplicates::are_decisions(
            after.duplicates@.skip(before.duplicates@.len() as int),
            mods,
            clashing,
        )
        &&& step is Decide
        &&& says == seq![ActionView::Log(LogLevel::Warn, awaiting_line(label))]
    } else {
        &&& after == before
        &&& step matches ImportStep::Apply { mods: list, label: from }
        &&& list@ == duplicates::free_mods(mods, new, n)
        &&& text::text_opt(from) == Some(label)
        &&& says == Seq::<ActionView>::empty()
    }
}

impl ImportDesk {
    /// Takes mods in hand, unless decisions are to be made on some of them first.
    pub fn stage(&mut self, mods: &Vec<ModEntry>, new: Vec<ModEntry>, label: &str) -> (r: (
        ImportStep,
        Vec<Action>,
    ))
        requires
            old(self).well_formed(),
        ensures
            final(self).well_formed(),
            staged(
                *final(self),
                *old(self),
                mods@,
                new@,
                label@,
                r.0,
                actions::action_views(r.1@),
            ),
    {
        let mut out = no_actions();
        let ghost n = new@.len() as int;
        let (free, waiting) = stage_imports(mods, new);
        if waiting.len() == 0 {
            return (ImportStep::Apply { mods: free, label: Some(label.to_owned()) }, out);
        }
        let ghost fresh = waiting@;
        let ghost known = self.duplicates@;
        let mut free = free;
        let mut waiting = waiting;
        self.approved.append(&mut free);
        self.duplicates.append(&mut waiting);
        log(
            &mut out,
            LogLevel::Warn,
            concat3("Duplicate or similar mods found in ", label, ". Awaiting confirmation.").as_str(),
        );
        proof {
            assert(self.duplicates@ =~= known + fresh);
            assert(self.duplicates@.take(known.len() as int) =~= known);
            assert(self.duplicates@.skip(known.len() as int) =~= fresh);
            assert forall|i: int| 0 <= i < self.duplicates@.len() implies duplicates::can_show(
                #[trigger] self.duplicates@[i],
            ) by {
                if i < known.len() {
                    assert(self.duplicates@[i] == known[i]);
                } else {
                    assert(self.duplicates@[i] == fresh[i - known.len()]);
                    assert(duplicates::is_decision(
                        fresh[i - known.len()],
                        mods@,
                        duplicates::clashing_mods(mods@, new@, n)[i - known.len()],
                    ));
                }
            }
        }
        (ImportStep::Decide, out)
    }

    /// Whether the next batch can be taken in hand. `held` says that a dialog or the
    /// list of missing dependencies is open.
    pub open spec fn can_proceed(self, held: bool) -> bool {
        self.active is None && !held && !self.is_deciding()
    }

    /// Takes the next batch in hand, or sums up where there is none.
    pub fn process_next_import_batch(&mut self, mods: &Vec<ModEntry>, held: bool) -> (r: (
        ImportStep,
        Vec<Action>,
    ))
        requires
            old(self).well_formed(),
        ensures
            final(self).well_formed(),
            if !old(self).can_proceed(held) {
                *final(self) == *old(self) && r.0 is Wait && r.1@.len() == 0
            } else if old(self).batches@.len() == 0 {
                &&& r.0 is Wait
                &&& if old(self).can_sum_up(false) {
                    &&& *final(self) == (ImportDesk {
                        summary_pending: false,
                        failures: final(self).failures,
                        ..*old(self)
                    })
                    &&& final(self).failures@.len() == 0
                    &&& actions::action_views(r.1@) == if old(self).failures@.len() == 0 {
                        Seq::empty()
                    } else {
                        seq![ActionView::Ask(summary_dialog(old(self).failures@))]
                    }
                } else {
                    *final(self) == *old(self) && r.1@.len() == 0
                }
            } else {
                let batch = old(self).batches@[0];
                &&& final(self).batches@ == old(self).batches@.skip(1)
                &&& staged(
                    *final(self),
                    (ImportDesk { batches: final(self).batches, ..*old(self) }),
                    mods@,
                    batch.mods@,
                    batch.label@,
                    r.0,
                    actions::action_views(r.1@),
                )
            },
    {
        if self.active.is_some() || held || self.pending_duplicate.is_some()
            || self.duplicates.len() > 0 {
            return (ImportStep::Wait, no_actions());
        }
        if self.batches.len() == 0 {
            let out = self.maybe_show_import_summary(false);
            return (ImportStep::Wait, out);
        }
        let batch = self.batches.remove(0);
        assert(self.batches@ =~= old(self).batches@.skip(1));
        self.stage(mods, batch.mods, batch.label.as_str())
    }
}

// ---------------------------------------------------------------------------
// Decisions
// ---------------------------------------------------------------------------

/// What the first `n` decisions say and do, one after the other.
pub open spec fn decisions_says(
    libs: Seq<Library>,
    list: Seq<DuplicateDecision>,
    overwrite: bool,
    n: int,
) -> Seq<ActionView>
    decreases n,
{
    if n <= 0 {
        Seq::empty()
    } else {
        decisions_says(libs, list, overwrite, n - 1) + mod_removal::decision_says(
            libs[n - 1].mods@,
            list[n - 1],
            overwrite,
        )
    }
}

/// Whether the library went through decisions, one after the other.
pub open spec fn went_through(
    libs: Seq<Library>,
    list: Seq<DuplicateDecision>,
    overwrite: bool,
) -> bool {
    &&& libs.len() == list.len() + 1
    &&& forall|i: int|
        0 <= i < list.len() ==> mod_removal::after_decision(
            libs[i + 1],
            libs[i],
            #[trigger] list[i],
            overwrite,
        )
}

/// The mods that decisions are on.
pub open spec fn decided_mods(list: Seq<DuplicateDecision>) -> Seq<ModEntry> {
    Seq::new(list.len(), |i: int| list[i].mod_entry)
}

/// The mods that decisions take in.
pub open spec fn taken_in(list: Seq<DuplicateDecision>, overwrite: bool) -> Seq<ModEntry> {
    if overwrite {
        decided_mods(list)
    } else {
        Seq::empty()
    }
}

impl ImportDesk {
    /// Makes all decisions that wait alike.
    fn decide_all(&mut self, library: &mut Library, overwrite: bool) -> (out: Vec<Action>)
        ensures
            *final(self) == (ImportDesk {
                duplicates: final(self).duplicates,
                approved: final(self).approved,
                ..*old(self)
            }),
            final(self).duplicates@.len() == 0,
            final(self).approved@ == old(self).approved@ + taken_in(old(self).duplicates@, overwrite),
            exists|libs: Seq<Library>| #[trigger]
                went_through(libs, old(self).duplicates@, overwrite) && libs[0] == *old(library)
                    && libs.last() == *final(library) && actions::action_views(out@)
                    == decisions_says(
                    libs,
                    old(self).duplicates@,
                    overwrite,
                    old(self).duplicates@.len() as int,
                ),
    {
        let mut out = no_actions();
        let ghost start = *self;
        let ghost all = self.duplicates@;
        let ghost mut libs: Seq<Library> = seq![*library];
        assert(self.duplicates@ =~= all.skip(0));
        assert(self.approved@ =~= start.approved@ + taken_in(all.take(0), overwrite));
        assert(went_through(libs, all.take(0), overwrite));
        while self.duplicates.len() > 0
            invariant
                self.duplicates@.len() <= all.len(),
                all == start.duplicates@,
                *self == (ImportDesk {
                    duplicates: self.duplicates,
                    approved: self.approved,
                    ..start
                }),
                self.duplicates@ == all.skip(all.len() - self.duplicates@.len()),
                self.approved@ == start.approved@ + taken_in(
                    all.take(all.len() - self.duplicates@.len()),
                    overwrite,
                ),
                went_through(libs, all.take(all.len() - self.duplicates@.len()), overwrite),
                libs[0] == *old(library),
                libs.last() == *library,
                actions::action_views(out@) == decisions_says(
                    libs,
                    all,
                    overwrite,
                    all.len() - self.duplicates@.len(),
                ),
            decreases self.duplicates.len(),
        {
            let ghost at = all.len() - self.duplicates@.len();
            assert(self.duplicates@[0] == all[at]);
            let d = self.duplicates.remove(0);
            let (taken, more) = apply_duplicate_decision(library, d, overwrite);
            also_all(&mut out, more);
            let ghost before = libs;
            proof {
                libs = libs.push(*library);
                assert(all.take(at + 1) =~= all.take(at).push(all[at]));
                assert(went_through(libs, all.take(at + 1), overwrite)) by {
                    assert forall|i: int| 0 <= i < at + 1 implies mod_removal::after_decision(
                        libs[i + 1],
                        libs[i],
                        #[trigger] all.take(at + 1)[i],
                        overwrite,
                    ) by {
                        if i < at {
                            assert(all.take(at)[i] == all[i]);
                            assert(libs[i + 1] == before[i + 1] && libs[i] == before[i]);
                        } else {
                            assert(libs[at] == before.last());
                        }
                    }
                }
                lemma_says_kept(before, libs, all, overwrite, at);
                assert(self.duplicates@ =~= all.skip(at + 1));
            }
            if let Some(m) = taken {
                self.approved.push(m);
            }
            assert(self.approved@ =~= start.approved@ + taken_in(all.take(at + 1), overwrite));
        }
        assert(all.take(all.len() as int) =~= all);
        out
    }
}

proof fn lemma_says_kept(
    before: Seq<Library>,
    libs: Seq<Library>,
    list: Seq<DuplicateDecision>,
    overwrite: bool,
    n: int,
)
    requires
        0 <= n <= before.len() <= libs.len(),
        forall|i: int| 0 <= i < n ==> before[i] == libs[i],
    ensures
        decisions_says(before, list, overwrite, n) == decisions_says(libs, list, overwrite, n),
    decreases n,
{
    if n > 0 {
        lemma_says_kept(before, libs, list, overwrite, n - 1);
    }
}

/// What the next decision is: the question, or, where none is left, the mods that are
/// to be taken in.
pub open spec fn next_decision(
    after: ImportDesk,
    before: ImportDesk,
    step: ImportStep,
    says: Seq<ActionView>,
) -> bool {
    if before.duplicates@.len() > 0 {
        &&& step is Wait
        &&& after == (ImportDesk {
            duplicates: after.duplicates,
            pending_duplicate: Some(before.duplicates@[0]),
            ..before
        })
        &&& after.duplicates@ == before.duplicates@.skip(1)
        &&& says == seq![ActionView::Ask(duplicates::duplicate_dialog(before.duplicates@[0]))]
    } else {
        &&& after == (ImportDesk { apply_all: None, approved: after.approved, ..before })
        &&& after.approved@.len() == 0
        &&& says == Seq::<ActionView>::empty()
        &&& if before.approved@.len() == 0 {
            step is Next
        } else {
            step matches ImportStep::Apply { mods, label } && mods@ == before.approved@
                && label is None
        }
    }
}

/// What goes on with the decisions: where one was made for all, all are made.
pub open spec fn decisions_go_on(
    after: ImportDesk,
    before: ImportDesk,
    library: Library,
    old_library: Library,
    step: ImportStep,
    says: Seq<ActionView>,
    mid: ImportDesk,
    libs: Seq<Library>,
) -> bool {
    match before.apply_all {
        Some(overwrite) => {
            let n = before.duplicates@.len() as int;
            let first = decisions_says(libs, before.duplicates@, overwrite, n);
            &&& went_through(libs, before.duplicates@, overwrite)
            &&& libs[0] == old_library
            &&& libs.last() == library
            &&& mid == (ImportDesk {
                duplicates: mid.duplicates,
                approved: mid.approved,
                ..before
            })
            &&& mid.duplicates@.len() == 0
            &&& mid.approved@ == before.approved@ + taken_in(before.duplicates@, overwrite)
            &&& next_decision(after, mid, step, says.skip(first.len() as int))
            &&& says.take(first.len() as int) == first
        },
        None => library == old_library && next_decision(after, before, step, says),
    }
}

/// What goes on with the decisions, over a state of the desk and of the library.
pub open spec fn go_on(
    after: ImportDesk,
    before: ImportDesk,
    library: Library,
    old_library: Library,
    step: ImportStep,
    says: Seq<ActionView>,
) -> bool {
    exists|mid: ImportDesk, libs: Seq<Library>| #[trigger]
        decisions_go_on(after, before, library, old_library, step, says, mid, libs)
}

impl ImportDesk {
    /// Asks for the next decision, or goes on where none is left.
    pub fn prompt_next_duplicate(&mut self, library: &mut Library, dialog_open: bool) -> (r: (
        ImportStep,
        Vec<Action>,
    ))
        requires
            old(self).well_formed(),
        ensures
            final(self).well_formed(),
            if old(self).pending_duplicate is Some || dialog_open {
                &&& *final(self) == *old(self)
                &&& *final(library) == *old(library)
                &&& r.0 is Wait
                &&& r.1@.len() == 0
            } else {
                go_on(
                    *final(self),
                    *old(self),
                    *final(library),
                    *old(library),
                    r.0,
                    actions::action_views(r.1@),
                )
            },
    {
        let mut out = no_actions();
        if self.pending_duplicate.is_some() || dialog_open {
            return (ImportStep::Wait, out);
        }
        let ghost start = *self;
        let ghost mut libs: Seq<Library> = seq![*library];
        if let Some(overwrite) = self.apply_all {
            let more = self.decide_all(library, overwrite);
            proof {
                libs = choose|libs: Seq<Library>| #[trigger]
                    went_through(libs, start.duplicates@, overwrite) && libs[0] == *old(library)
                        && libs.last() == *library && actions::action_views(more@)
                        == decisions_says(
                        libs,
                        start.duplicates@,
                        overwrite,
                        start.duplicates@.len() as int,
                    );
            }
            out = more;
        }
        let ghost mid = *self;
        let ghost first = actions::action_views(out@);
        if self.duplicates.len() == 0 {
            self.apply_all = None;
            let mut approved: Vec<ModEntry> = Vec::new();
            approved.append(&mut self.approved);
            assert(approved@ =~= mid.approved@);
            let step = if approved.len() == 0 {
                ImportStep::Next
            } else {
                ImportStep::Apply { mods: approved, label: None }
            };
            proof {
                assert(first.take(first.len() as int) =~= first);
                assert(first.skip(first.len() as int) =~= Seq::<ActionView>::empty());
                assert(next_decision(*self, mid, step, Seq::<ActionView>::empty()));
                assert(decisions_go_on(*self, start, *library, *old(library), step, first, mid, libs));
                assert(go_on(*self, start, *library, *old(library), step, first));
            }
            return (step, out);
        }
        let next = self.duplicates.remove(0);
        assert(self.duplicates@ =~= mid.duplicates@.skip(1));
        assert(next == mid.duplicates@[0]);
        also(&mut out, Action::Ask(ask_duplicate(&next)));
        self.pending_duplicate = Some(next);
        proof {
            let says = actions::action_views(out@);
            assert(says.skip(first.len() as int) =~= seq![
                ActionView::Ask(duplicates::duplicate_dialog(next)),
            ]);
            assert(says.take(first.len() as int) =~= first);
            assert(says =~= seq![ActionView::Ask(duplicates::duplicate_dialog(next))]
                || start.apply_all is Some);
            assert(decisions_go_on(
                *self,
                start,
                *library,
                *old(library),
                ImportStep::Wait,
                says,
                mid,
                libs,
            ));
        }
        (ImportStep::Wait, out)
    }

    /// Carries the decision out that was asked for; `apply_all` says that the same is
    /// decided of the others. The result is what is to be said and done.
    pub fn confirm_duplicate(&mut self, library: &mut Library, overwrite: bool, apply_all: bool) -> (
    out: Vec<Action>)
        requires
            old(self).well_formed(),
        ensures
            final(self).well_formed(),
            match old(self).pending_duplicate {
                Some(d) => {
                    &&& *final(self) == (ImportDesk {
                        pending_duplicate: None,
                        apply_all: if apply_all {
                            Some(overwrite)
                        } else {
                            old(self).apply_all
                        },
                        approved: final(self).approved,
                        ..*old(self)
                    })
                    &&& final(self).approved@ == if overwrite {
                        old(self).approved@.push(d.mod_entry)
                    } else {
                        old(self).approved@
                    }
                    &&& mod_removal::after_decision(*final(library), *old(library), d, overwrite)
                    &&& actions::action_views(out@) == mod_removal::decision_says(
                        old(library).mods@,
                        d,
                        overwrite,
                    )
                },
                None => {
                    &&& *final(self) == *old(self)
                    &&& *final(library) == *old(library)
                    &&& out@.len() == 0
                },
            },
    {
        match self.pending_duplicate.take() {
            Some(d) => {
                if apply_all {
                    self.apply_all = Some(overwrite);
                }
                let (taken, out) = apply_duplicate_decision(library, d, overwrite);
                if let Some(m) = taken {
                    self.approved.push(m);
                }
                out
            },
            None => no_actions(),
        }
    }
}

// ---------------------------------------------------------------------------
// The end of an import
// ---------------------------------------------------------------------------

/// What is said once mods are in the library.
pub open spec fn imported_says(count: nat, label: Option<Seq<char>>) -> Seq<ActionView> {
    seq![
        ActionView::Status("Imported "@ + text::decimal(count) + " mod(s)"@),
        ActionView::Log(
            LogLevel::Info,
            "Import complete: "@ + text::decimal(count) + " mod(s)"@ + match label {
                Some(l) => " from "@ + l,
                None => Seq::empty(),
            },
        ),
    ]
}

pub fn show_imported(count: usize, label: &Option<String>) -> (out: Vec<Action>)
    ensures
        actions::action_views(out@) == imported_says(count as nat, text::text_opt(*label)),
{
    let mut out = no_actions();
    let shown = show_usize(count);
    say(&mut out, concat3("Imported ", shown.as_str(), " mod(s)").as_str());
    let mut line = concat3("Import complete: ", shown.as_str(), " mod(s)");
    let ghost first = line@;
    match label {
        Some(l) => {
            let tail = concat2(" from ", l.as_str());
            line.append(tail.as_str());
        },
        None => {
            assert(first =~= first + Seq::<char>::empty());
        },
    }
    log(&mut out, LogLevel::Info, line.as_str());
    assert(actions::action_views(out@) =~= imported_says(count as nat, text::text_opt(*label)));
    out
}

impl ImportDesk {
    /// Takes in that mods could not be taken into the library.
    pub fn apply_failed(&mut self, label: &Option<String>, error: &str) -> (out: Vec<Action>)
        ensures
            *final(self) == (ImportDesk {
                failures: final(self).failures,
                summary_pending: true,
                ..*old(self)
            }),
            final(self).failures@.len() == old(self).failures@.len() + 1,
            final(self).failures@.drop_last() == old(self).failures@,
            final(self).failures@.last().error@ == error@,
            final(self).failures@.last().source.label@ == match *label {
                Some(l) => l@,
                None => "Import batch"@,
            },
            actions::action_views(out@) == apply_failed_says(text::text_opt(*label), error@),
    {
        let mut out = no_actions();
        let (line, note, source) = match label {
            Some(l) => (
                show_import_failed(l.as_str(), error),
                concat3("Import apply failed for ", l.as_str(), ": "),
                l.clone(),
            ),
            None => (
                concat2("Import failed: ", summarize_error(error).as_str()),
                "Import apply failed: ".to_owned(),
                "Import batch".to_owned(),
            ),
        };
        let mut note = note;
        note.append(error);
        say(&mut out, line.as_str());
        log(&mut out, LogLevel::Error, note.as_str());
        toast(&mut out, ToastLevel::Error, line.as_str(), 4);
        self.failures.push(
            ImportFailure { source: ImportSource { label: source }, error: error.to_owned() },
        );
        assert(self.failures@.drop_last() =~= old(self).failures@);
        self.summary_pending = true;
        assert(actions::action_views(out@) =~= apply_failed_says(text::text_opt(*label), error@));
        out
    }

    /// Whether nothing else is going on with imports.
    pub open spec fn is_idle(self) -> bool {
        self.active is None && self.queue@.len() == 0 && self.batches@.len() == 0
            && self.pending_duplicate is None && self.duplicates@.len() == 0
    }

    /// The batch that waited for its dependencies, once its time has come. `held` says
    /// that what is missing is still listed, or that a dialog is open.
    pub fn resume_pending_import_batch(&mut self, held: bool) -> (r: Option<ModBatch>)
        ensures
            r == if held || !old(self).is_idle() {
                None
            } else {
                old(self).pending_batch
            },
            *final(self) == if r is Some {
                ImportDesk { pending_batch: None, ..*old(self) }
            } else {
                *old(self)
            },
    {
        if held || self.active.is_some() || self.queue.len() > 0 || self.batches.len() > 0
            || self.pending_duplicate.is_some() || self.duplicates.len() > 0 {
            return None;
        }
        self.pending_batch.take()
    }

    /// Gives up the batch that waits for its dependencies.
    pub fn cancel_pending_import(&mut self, keep_files: bool) -> (out: Vec<Action>)
        ensures
            match old(self).pending_batch {
                Some(b) => {
                    &&& *final(self) == (ImportDesk {
                        pending_batch: None,
                        summary_pending: true,
                        ..*old(self)
                    })
                    &&& actions::action_views(out@) == (if keep_files {
                        Seq::empty()
                    } else {
                        Seq::new(b.mods@.len(), |i: int| ActionView::RemoveModRoot(b.mods@[i].id@))
                    }) + seq![
                        ActionView::Status("Import canceled"@),
                        ActionView::Log(LogLevel::Warn, "Import canceled during dependency check"@),
                    ]
                },
                None => *final(self) == *old(self) && out@.len() == 0,
            },
    {
        let mut out = no_actions();
        let batch = match self.pending_batch.take() {
            Some(b) => b,
            None => return out,
        };
        let ghost all = if keep_files {
            Seq::empty()
        } else {
            Seq::new(batch.mods@.len(), |i: int| ActionView::RemoveModRoot(batch.mods@[i].id@))
        };
        if !keep_files {
            let mut i: usize = 0;
            assert(actions::action_views(out@) =~= all.take(0));
            while i < batch.mods.len()
                invariant
                    i <= batch.mods.len(),
                    all == Seq::new(
                        batch.mods@.len(),
                        |i: int| ActionView::RemoveModRoot(batch.mods@[i].id@),
                    ),
                    actions::action_views(out@) == all.take(i as int),
                decreases batch.mods.len() - i,
            {
                also(&mut out, Action::RemoveModRoot(batch.mods[i].id.clone()));
                i = i + 1;
                assert(actions::action_views(out@) =~= all.take(i as int));
            }
            assert(all.take(i as int) =~= all);
        }
        assert(actions::action_views(out@) =~= all);
        say(&mut out, "Import canceled");
        log(&mut out, LogLevel::Warn, "Import canceled during dependency check");
        assert(actions::action_views(out@) =~= all + seq![
            ActionView::Status("Import canceled"@),
            ActionView::Log(LogLevel::Warn, "Import canceled during dependency check"@),
        ]);
        self.summary_pending = true;
        out
    }
}

pub open spec fn apply_failed_says(label: Option<Seq<char>>, error: Seq<char>) -> Seq<ActionView> {
    let line = match label {
        Some(l) => import_failed_line(l, error),
        None => "Import failed: "@ + input_text::summary(error),
    };
    seq![
        ActionView::Status(line),
        ActionView::Log(
            LogLevel::Error,
            match label {
                Some(l) => "Import apply failed for "@ + l + ": "@ + error,
                None => "Import apply failed: "@ + error,
            },
        ),
        ActionView::Toast(ToastLevel::Error, line, 4),
    ]
}

} // verus!
