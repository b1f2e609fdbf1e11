//! When mods are brought into the game.
use crate::actions;
use crate::actions::{also, log, no_actions, say, toast, Action, ActionView, LogLevel, ToastLevel};
use crate::deploy::DeployReport;
use crate::text;
use crate::text::{concat2, concat3, show_usize};
use vstd::prelude::*;

verus! {

/// Where the deployment of mods stands.
pub struct DeployDesk {
    pub active: bool,
    pub pending: bool,
    pub reason: Option<String>,
    /// Whether what is there is kept for a way back.
    pub backup: bool,
}

pub open spec fn no_paths_says() -> Seq<ActionView> {
    seq![
        ActionView::Status("Game paths not set: open Menu (Esc) to configure"@),
        ActionView::Log(LogLevel::Warn, "Deploy skipped: game paths not set"@),
    ]
}

pub open spec fn queued_line(reason: Seq<char>) -> Seq<char> {
    "Deploy queued ("@ + reason + ")"@
}

pub open spec fn queued_says(reason: Seq<char>) -> Seq<ActionView> {
    seq![
        ActionView::Status(queued_line(reason)),
        ActionView::Log(LogLevel::Info, queued_line(reason)),
    ]
}

fn say_no_paths() -> (out: Vec<Action>)
    ensures
        actions::action_views(out@) == no_paths_says(),
{
    let mut out = no_actions();
    say(&mut out, "Game paths not set: open Menu (Esc) to configure");
    log(&mut out, LogLevel::Warn, "Deploy skipped: game paths not set");
    assert(actions::action_views(out@) =~= no_paths_says());
    out
}

fn say_queued(reason: &str) -> (out: Vec<Action>)
    ensures
        actions::action_views(out@) == queued_says(reason@),
{
    let mut out = no_actions();
    let line = concat3("Deploy queued (", reason, ")");
    say(&mut out, line.as_str());
    log(&mut out, LogLevel::Info, line.as_str());
    assert(actions::action_views(out@) =~= queued_says(reason@));
    out
}

/// What asking for a deployment does. One that is asked for while another waits or
/// runs is made one with it.
pub open spec fn deploy_queued(
    after: DeployDesk,
    before: DeployDesk,
    reason: Seq<char>,
    paths_ready: bool,
    says: Seq<ActionView>,
) -> bool {
    if !paths_ready {
        after == before && says == no_paths_says()
    } else if before.pending || before.active {
        &&& after == (DeployDesk { pending: true, reason: after.reason, ..before })
        &&& text::text_opt(after.reason) == match before.reason {
            Some(r) => Some(r@),
            None => Some(reason),
        }
        &&& says == Seq::<ActionView>::empty()
    } else {
        &&& after == (DeployDesk { pending: true, reason: after.reason, backup: true, ..before })
        &&& text::text_opt(after.reason) == Some(reason)
        &&& says == queued_says(reason)
    }
}

pub open spec fn started_says(reason: Seq<char>) -> Seq<ActionView> {
    seq![
        ActionView::Status("Deploying ("@ + reason + ")"@),
        ActionView::Log(LogLevel::Info, "Deploy started ("@ + reason + ")"@),
    ]
}

/// What is said of mods whose packages were gone.
pub open spec fn healed_says(healed: usize) -> Seq<ActionView> {
    if healed > 0 {
        seq![
            ActionView::Log(
                LogLevel::Warn,
                "Self-heal: disabled missing pak(s) for "@ + text::decimal(healed as nat)
                    + " mod(s)"@,
            ),
            ActionView::Toast(
                ToastLevel::Warn,
                "Self-heal: disabled "@ + text::decimal(healed as nat) + " missing mod(s)"@,
                3,
            ),
        ]
    } else {
        Seq::empty()
    }
}

pub fn say_healed(healed: usize) -> (out: Vec<Action>)
    ensures
        actions::action_views(out@) == healed_says(healed),
{
    let mut out = no_actions();
    if healed > 0 {
        let n = show_usize(healed);
        log(
            &mut out,
            LogLevel::Warn,
            concat3("Self-heal: disabled missing pak(s) for ", n.as_str(), " mod(s)").as_str(),
        );
        toast(
            &mut out,
            ToastLevel::Warn,
            concat3("Self-heal: disabled ", n.as_str(), " missing mod(s)").as_str(),
            3,
        );
    }
    assert(actions::action_views(out@) =~= healed_says(healed));
    out
}

impl DeployDesk {
    pub fn new() -> (r: Self)
        ensures
            r == (DeployDesk { active: false, pending: false, reason: None, backup: true }),
    {
        DeployDesk { active: false, pending: false, reason: None, backup: true }
    }

    /// Asks for a deployment.
    pub fn queue_deploy(&mut self, reason: &str, paths_ready: bool) -> (out: Vec<Action>)
        ensures
            deploy_queued(
                *final(self),
                *old(self),
                reason@,
                paths_ready,
                actions::action_views(out@),
            ),
    {
        if !paths_ready {
            return say_no_paths();
        }
        if self.pending || self.active {
            self.pending = true;
            if self.reason.is_none() {
                self.reason = Some(reason.to_owned());
            }
            return no_actions();
        }
        self.pending = true;
        self.reason = Some(reason.to_owned());
        self.backup = true;
        say_queued(reason)
    }

    /// Asks for a deployment that the user wants.
    pub fn deploy(&mut self, paths_ready: bool) -> (out: Vec<Action>)
        ensures
            deploy_queued(
                *final(self),
                *old(self),
                "manual deploy"@,
                paths_ready,
                actions::action_views(out@),
            ),
    {
        self.queue_deploy("manual deploy", paths_ready)
    }

    /// Asks for a deployment after a change.
    pub fn queue_auto_deploy(&mut self, reason: &str, paths_ready: bool) -> (out: Vec<Action>)
        ensures
            deploy_queued(
                *final(self),
                *old(self),
                "auto: "@ + reason@,
                paths_ready,
                actions::action_views(out@),
            ),
    {
        self.queue_deploy(concat2("auto: ", reason).as_str(), paths_ready)
    }

    /// Asks for a deployment with or without a way back, unless one waits or runs.
    pub fn queue_deploy_with_options(&mut self, reason: &str, backup: bool, paths_ready: bool) -> (
    out: Vec<Action>)
        ensures
            if !paths_ready {
                *final(self) == *old(self) && actions::action_views(out@) == no_paths_says()
            } else if old(self).pending || old(self).active {
                *final(self) == *old(self) && out@.len() == 0
            } else {
                &&& *final(self) == (DeployDesk {
                    pending: true,
                    reason: final(self).reason,
                    backup,
                    ..*old(self)
                })
                &&& text::text_opt(final(self).reason) == Some(reason@)
                &&& actions::action_views(out@) == queued_says(reason@)
            },
    {
        if !paths_ready {
            return say_no_paths();
        }
        if self.pending || self.active {
            return no_actions();
        }
        self.pending = true;
        self.reason = Some(reason.to_owned());
        self.backup = backup;
        say_queued(reason)
    }

    /// Whether a deployment can start. `held` says that an import runs, a dialog is
    /// open, or decisions on mods are outstanding.
    pub open spec fn can_start(self, held: bool) -> bool {
        self.pending && !self.active && !held
    }

    /// Whether a deployment can start, so that packages are to be looked after first.
    pub fn is_ready(&self, held: bool) -> (r: bool)
        ensures
            r == self.can_start(held),
    {
        self.pending && !self.active && !held
    }

    /// Starts the deployment that waits. The result is its reason, and whether there
    /// is to be a way back.
    pub fn start_deploy(&mut self) -> (r: (String, bool, Vec<Action>))
        requires
            old(self).can_start(false),
        ensures
            *final(self) == (DeployDesk { pending: false, active: true, reason: None, ..*old(self) }),
            r.0@ == match old(self).reason {
                Some(t) => t@,
                None => "deploy"@,
            },
            r.1 == old(self).backup,
            actions::action_views(r.2@) == started_says(r.0@),
    {
        let mut out = no_actions();
        let reason = match self.reason.take() {
            Some(t) => t,
            None => "deploy".to_owned(),
        };
        self.pending = false;
        self.active = true;
        say(&mut out, concat3("Deploying (", reason.as_str(), ")").as_str());
        log(&mut out, LogLevel::Info, concat3("Deploy started (", reason.as_str(), ")").as_str());
        assert(actions::action_views(out@) =~= started_says(reason@));
        (reason, self.backup, out)
    }

    /// Takes in that a deployment is done.
    pub fn deploy_completed(&mut self, report: &DeployReport) -> (out: Vec<Action>)
        ensures
            *final(self) == (DeployDesk { active: false, ..*old(self) }),
            actions::action_views(out@) == completed_says(*report),
    {
        self.active = false;
        let mut out = no_actions();
        let pak = show_usize(report.pak_count);
        let loose = show_usize(report.loose_count);
        let files = show_usize(report.file_count);
        let over = show_usize(report.overridden_files);
        let mut status = concat3("Deployed: ", pak.as_str(), " pak, ");
        status.append(loose.as_str());
        status.append(" loose | Files: ");
        status.append(files.as_str());
        status.append(" | Overrides: ");
        status.append(over.as_str());
        say(&mut out, status.as_str());
        if report.removed_count > 0 {
            log(
                &mut out,
                LogLevel::Info,
                concat3(
                    "Cleanup: removed ",
                    show_usize(report.removed_count).as_str(),
                    " previous files",
                ).as_str(),
            );
        }
        let mut line = concat3("Deploy complete: ", pak.as_str(), " pak, ");
        line.append(loose.as_str());
        line.append(" loose, ");
        line.append(files.as_str());
        line.append(" files, ");
        line.append(over.as_str());
        line.append(" overrides");
        log(&mut out, LogLevel::Info, line.as_str());
        also(&mut out, Action::SaveLibrary);
        assert(actions::action_views(out@) =~= completed_says(*report));
        out
    }

    /// Takes in that a deployment failed.
    pub fn deploy_failed(&mut self, error: &str) -> (out: Vec<Action>)
        ensures
            *final(self) == (DeployDesk { active: false, ..*old(self) }),
            actions::action_views(out@) == seq![
                ActionView::Status("Deploy failed: "@ + error@),
                ActionView::Log(LogLevel::Error, "Deploy failed: "@ + error@),
                ActionView::Toast(ToastLevel::Error, "Deploy failed"@, 3),
            ],
    {
        self.active = false;
        let mut out = no_actions();
        let line = concat2("Deploy failed: ", error);
        say(&mut out, line.as_str());
        log(&mut out, LogLevel::Error, line.as_str());
        toast(&mut out, ToastLevel::Error, "Deploy failed", 3);
        assert(actions::action_views(out@) =~= seq![
            ActionView::Status(line@),
            ActionView::Log(LogLevel::Error, line@),
            ActionView::Toast(ToastLevel::Error, "Deploy failed"@, 3),
        ]);
        out
    }
}

pub open spec fn completed_says(r: DeployReport) -> Seq<ActionView> {
    let pak = text::decimal(r.pak_count as nat);
    let loose = text::decimal(r.loose_count as nat);
    let files = text::decimal(r.file_count as nat);
    let over = text::decimal(r.overridden_files as nat);
    seq![
        ActionView::Status(
            "Deployed: "@ + pak + " pak, "@ + loose + " loose | Files: "@ + files
                + " | Overrides: "@ + over,
        ),
    ] + (if r.removed_count > 0 {
        seq![
            ActionView::Log(
                LogLevel::Info,
                "Cleanup: removed "@ + text::decimal(r.removed_count as nat) + " previous files"@,
            ),
        ]
    } else {
        Seq::empty()
    }) + seq![
        ActionView::Log(
            LogLevel::Info,
            "Deploy complete: "@ + pak + " pak, "@ + loose + " loose, "@ + files + " files, "@
                + over + " overrides"@,
        ),
        ActionView::SaveLibrary,
    ]
}

/// A deployment that was asked for with the paths set waits or runs: it is not lost.
pub proof fn law_deploy_is_not_lost(
    after: DeployDesk,
    before: DeployDesk,
    reason: Seq<char>,
    says: Seq<ActionView>,
)
    requires
        deploy_queued(after, before, reason, true, says),
    ensures
        after.pending,
        after.reason is Some,
{
}

} // verus!
