//! Keeping up with the mods of the game.
use crate::actions;
use crate::actions::{also, log, no_actions, say, Action, ActionView, LogLevel};
use crate::library::Library;
use crate::native_apply;
use crate::native_apply::NativeSyncOutcome;
use crate::native_sync::NativeSyncDelta;
use crate::rank_state::SmartRankRefreshMode;
use crate::tasks;
use crate::tasks::{show_sync, NativeSyncProgress};
use crate::text;
use crate::text::{concat2, show_usize};
use vstd::prelude::*;

verus! {

/// What looking at the mods of the game reports.
#[derive(Debug)]
pub enum NativeSyncMessage {
    Progress(NativeSyncProgress),
    Completed(NativeSyncDelta),
    Skipped(String),
}

/// Whether the mods of the game are being looked at, and how far that has come.
#[derive(Debug)]
pub struct NativeSyncDesk {
    pub active: bool,
    pub progress: Option<NativeSyncProgress>,
}

/// A count that is worth a line.
pub open spec fn count_line(line: Seq<char>, n: usize) -> Seq<ActionView> {
    if n > 0 {
        seq![ActionView::Log(LogLevel::Info, line + text::decimal(n as nat))]
    } else {
        Seq::empty()
    }
}

/// What is done and said once the mods of the game are known.
pub open spec fn synced_says(r: NativeSyncOutcome, updated: usize, adopted: usize) -> Seq<
    ActionView,
> {
    if r.changed {
        seq![
            ActionView::SaveLibrary,
            ActionView::RefreshRanking(SmartRankRefreshMode::Incremental, "native sync"@),
        ] + count_line("Native mods added: "@, r.added) + count_line(
            "Native mod filenames updated: "@,
            updated,
        ) + count_line("Native mods reconciled: "@, adopted) + (if r.reordered {
            seq![ActionView::Log(LogLevel::Info, "Native mod order synced"@)]
        } else {
            Seq::empty()
        }) + seq![ActionView::Status("Native mods synced"@)]
    } else {
        seq![ActionView::Status("Native mods already synced"@)]
    }
}

fn log_count(out: &mut Vec<Action>, line: &str, n: usize)
    ensures
        actions::action_views(final(out)@) == actions::action_views(old(out)@) + count_line(
            line@,
            n,
        ),
{
    if n > 0 {
        log(out, LogLevel::Info, concat2(line, show_usize(n).as_str()).as_str());
    }
    assert(actions::action_views(out@) =~= actions::action_views(old(out)@) + count_line(line@, n));
}

pub fn say_synced(r: &NativeSyncOutcome, updated: usize, adopted: usize) -> (out: Vec<Action>)
    ensures
        actions::action_views(out@) == synced_says(*r, updated, adopted),
{
    let mut out = no_actions();
    if r.changed {
        also(&mut out, Action::SaveLibrary);
        also(
            &mut out,
            Action::RefreshRanking(SmartRankRefreshMode::Incremental, "native sync".to_owned()),
        );
        log_count(&mut out, "Native mods added: ", r.added);
        log_count(&mut out, "Native mod filenames updated: ", updated);
        log_count(&mut out, "Native mods reconciled: ", adopted);
        if r.reordered {
            log(&mut out, LogLevel::Info, "Native mod order synced");
        }
        say(&mut out, "Native mods synced");
    } else {
        say(&mut out, "Native mods already synced");
    }
    assert(actions::action_views(out@) =~= synced_says(*r, updated, adopted));
    out
}

impl NativeSyncDesk {
    pub fn new() -> (r: Self)
        ensures
            r == (NativeSyncDesk { active: false, progress: None }),
    {
        NativeSyncDesk { active: false, progress: None }
    }

    /// Begins to look at the mods of the game, unless that is going on.
    pub fn start_native_sync(&mut self) -> (r: (bool, Vec<Action>))
        ensures
            r.0 == !old(self).active,
            *final(self) == if r.0 {
                NativeSyncDesk { active: true, progress: None }
            } else {
                *old(self)
            },
            actions::action_views(r.1@) == if r.0 {
                seq![ActionView::Status("Syncing native mods..."@)]
            } else {
                Seq::empty()
            },
    {
        let mut out = no_actions();
        if self.active {
            assert(actions::action_views(out@) =~= Seq::<ActionView>::empty());
            return (false, out);
        }
        self.active = true;
        self.progress = None;
        say(&mut out, "Syncing native mods...");
        assert(actions::action_views(out@) =~= seq![ActionView::Status("Syncing native mods..."@)]);
        (true, out)
    }

    /// Takes in a report. The manager keeps files of the mods whose ids are in `rooted`.
    /// The result is what came of it once all is known.
    pub fn take_message(
        &mut self,
        library: &mut Library,
        rooted: &Vec<String>,
        message: NativeSyncMessage,
    ) -> (r: (Option<NativeSyncOutcome>, Vec<Action>))
        ensures
            match message {
                NativeSyncMessage::Progress(p) => {
                    &&& *final(self) == (NativeSyncDesk { progress: Some(p), ..*old(self) })
                    &&& *final(library) == *old(library)
                    &&& r.0 is None
                    &&& actions::action_views(r.1@) == seq![ActionView::Status(tasks::sync_line(p))]
                },
                NativeSyncMessage::Completed(delta) => {
                    &&& *final(self) == (NativeSyncDesk { active: false, progress: None })
                    &&& r.0 matches Some(o) && native_apply::delta_applied(
                        *final(library),
                        *old(library),
                        delta,
                        text::texts(rooted@),
                        o,
                    ) && actions::action_views(r.1@) == synced_says(
                        o,
                        delta.updated_native_files,
                        delta.adopted_native,
                    )
                },
                NativeSyncMessage::Skipped(reason) => {
                    &&& *final(self) == (NativeSyncDesk { active: false, progress: None })
                    &&& *final(library) == *old(library)
                    &&& r.0 is None
                    &&& actions::action_views(r.1@) == seq![
                        ActionView::Status("Native mod sync skipped: "@ + reason@),
                        ActionView::Log(LogLevel::Warn, "Native mod sync skipped: "@ + reason@),
                    ]
                },
            },
    {
        let mut out = no_actions();
        match message {
            NativeSyncMessage::Progress(p) => {
                say(&mut out, show_sync(&p).as_str());
                assert(actions::action_views(out@) =~= seq![
                    ActionView::Status(tasks::sync_line(p)),
                ]);
                self.progress = Some(p);
                (None, out)
            },
            NativeSyncMessage::Completed(delta) => {
                self.active = false;
                self.progress = None;
                let updated = delta.updated_native_files;
                let adopted = delta.adopted_native;
                let outcome = library.apply_native_sync_delta(delta, rooted);
                let said = say_synced(&outcome, updated, adopted);
                (Some(outcome), said)
            },
            NativeSyncMessage::Skipped(reason) => {
                self.active = false;
                self.progress = None;
                let line = concat2("Native mod sync skipped: ", reason.as_str());
                say(&mut out, line.as_str());
                log(&mut out, LogLevel::Warn, line.as_str());
                assert(actions::action_views(out@) =~= seq![
                    ActionView::Status(line@),
                    ActionView::Log(LogLevel::Warn, line@),
                ]);
                (None, out)
            },
        }
    }
}

} // verus!
