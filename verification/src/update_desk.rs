//! Newer versions of the program.
use crate::actions;
use crate::actions::{log, no_actions, say, toast, Action, ActionView, LogLevel, ToastLevel};
use crate::inputs;
use crate::inputs::is_past;
use crate::text::{concat2, concat3};
use vstd::prelude::*;

verus! {

/// How long an answer is waited for, in milliseconds.
pub const UPDATE_TIMEOUT_MS: u64 = 15_000;

/// A version of the program.
#[derive(Debug)]
pub struct UpdateInfo {
    pub version: String,
    /// What sort of package it comes in.
    pub kind: String,
    pub asset_name: String,
}

/// What is known of newer versions.
#[derive(Debug)]
pub enum UpdateStatus {
    Idle,
    Checking,
    UpToDate { version: String },
    Available { info: UpdateInfo, path: String, instructions: String },
    Applied { info: UpdateInfo },
    Skipped { version: String, reason: String },
    Failed { error: String },
}

/// What a look for newer versions found.
#[derive(Debug)]
pub enum UpdateResult {
    UpToDate,
    Applied(UpdateInfo),
    Ready { info: UpdateInfo, path: String, instructions: String },
    Skipped { version: String, reason: String },
}

/// What a look for newer versions reports.
#[derive(Debug)]
pub enum UpdateMessage {
    Completed(UpdateResult),
    Failed { error: String },
}

/// What putting a newer version in place came to.
#[derive(Debug)]
pub enum ApplyOutcome {
    Applied,
    /// The user has to do it.
    Manual { instructions: String },
    Failed { error: String },
}

/// The look for newer versions.
#[derive(Debug)]
pub struct UpdateDesk {
    pub status: UpdateStatus,
    pub active: bool,
    pub started_at: Option<u64>,
}

pub open spec fn details(info: UpdateInfo, place: Seq<char>) -> Seq<char> {
    info.version@ + " ("@ + info.kind@ + ", "@ + place + ")"@
}

fn show_details(prefix: &str, info: &UpdateInfo, place: &str) -> (r: String)
    ensures
        r@ == prefix@ + details(*info, place@),
{
    let mut r = concat3(info.version.as_str(), " (", info.kind.as_str());
    r.append(", ");
    r.append(place);
    r.append(")");
    concat2(prefix, r.as_str())
}

pub open spec fn result_says(result: UpdateResult) -> Seq<ActionView> {
    match result {
        UpdateResult::UpToDate => seq![
            ActionView::Log(LogLevel::Info, "Update check: up to date"@),
        ],
        UpdateResult::Applied(info) => seq![
            ActionView::Status("Update applied: v"@ + info.version@),
            ActionView::Log(
                LogLevel::Info,
                "Update applied: v"@ + details(info, info.asset_name@),
            ),
            ActionView::Toast(
                ToastLevel::Info,
                "Updated to v"@ + info.version@ + " (restart to use)"@,
                4,
            ),
        ],
        UpdateResult::Ready { info, path, instructions } => seq![
            ActionView::Status("Update ready: v"@ + info.version@),
            ActionView::Log(LogLevel::Info, "Update ready: v"@ + details(info, path@)),
            ActionView::Log(LogLevel::Info, instructions@),
            ActionView::Toast(
                ToastLevel::Info,
                "Update ready: v"@ + info.version@ + " (see log)"@,
                4,
            ),
        ],
        UpdateResult::Skipped { version, reason } => seq![
            ActionView::Log(
                LogLevel::Warn,
                "Update available (v"@ + version@ + ") skipped: "@ + reason@,
            ),
        ],
    }
}

/// What is then known.
pub open spec fn result_status(after: UpdateStatus, result: UpdateResult, current: Seq<char>) -> bool {
    match result {
        UpdateResult::UpToDate => after matches UpdateStatus::UpToDate { version } && version@
            == current,
        UpdateResult::Applied(info) => after == (UpdateStatus::Applied { info }),
        UpdateResult::Ready { info, path, instructions } => after == (UpdateStatus::Available {
            info,
            path,
            instructions,
        }),
        UpdateResult::Skipped { version, reason } => after == (UpdateStatus::Skipped {
            version,
            reason,
        }),
    }
}

pub open spec fn ready_says(path: Seq<char>, instructions: Seq<char>) -> Seq<ActionView> {
    seq![
        ActionView::Log(LogLevel::Info, "Update package ready: "@ + path),
        ActionView::Log(LogLevel::Info, instructions),
        ActionView::Toast(ToastLevel::Info, "Update ready: see log"@, 3),
    ]
}

impl UpdateDesk {
    pub fn new() -> (r: Self)
        ensures
            r == (UpdateDesk { status: UpdateStatus::Idle, active: false, started_at: None }),
    {
        UpdateDesk { status: UpdateStatus::Idle, active: false, started_at: None }
    }

    /// Looks for a newer version, unless that is going on.
    pub fn start_update_check(&mut self, now: u64) -> (starts: bool)
        ensures
            starts == !old(self).active,
            *final(self) == if starts {
                UpdateDesk { status: UpdateStatus::Checking, active: true, started_at: Some(now) }
            } else {
                *old(self)
            },
    {
        if self.active {
            return false;
        }
        self.status = UpdateStatus::Checking;
        self.active = true;
        self.started_at = Some(now);
        true
    }

    /// Looks for a newer version for the user, who is told of one that is ready.
    pub fn request_update_check(&mut self, now: u64) -> (r: (bool, Vec<Action>))
        ensures
            r.0 == !old(self).active,
            *final(self) == if r.0 {
                UpdateDesk { status: UpdateStatus::Checking, active: true, started_at: Some(now) }
            } else {
                *old(self)
            },
            actions::action_views(r.1@) == (match old(self).status {
                UpdateStatus::Available { path, instructions, .. } => ready_says(
                    path@,
                    instructions@,
                ),
                _ => Seq::empty(),
            }).push(ActionView::Status("Checking for updates..."@)),
    {
        let mut out = no_actions();
        if let UpdateStatus::Available { path, instructions, .. } = &self.status {
            log(
                &mut out,
                LogLevel::Info,
                concat2("Update package ready: ", path.as_str()).as_str(),
            );
            log(&mut out, LogLevel::Info, instructions.as_str());
            toast(&mut out, ToastLevel::Info, "Update ready: see log", 3);
        }
        let starts = self.start_update_check(now);
        say(&mut out, "Checking for updates...");
        assert(actions::action_views(out@) =~= (match old(self).status {
            UpdateStatus::Available { path, instructions, .. } => ready_says(path@, instructions@),
            _ => Seq::empty(),
        }).push(ActionView::Status("Checking for updates..."@)));
        (starts, out)
    }

    /// Takes in what a look for newer versions found. `current` is the version of this
    /// program.
    pub fn take_message(&mut self, message: UpdateMessage, current: &str) -> (out: Vec<Action>)
        ensures
            !final(self).active,
            final(self).started_at is None,
            match message {
                UpdateMessage::Completed(result) => result_status(
                    final(self).status,
                    result,
                    current@,
                ) && actions::action_views(out@) == result_says(result),
                UpdateMessage::Failed { error } => final(self).status == (UpdateStatus::Failed {
                    error,
                }) && actions::action_views(out@) == seq![
                    ActionView::Log(LogLevel::Warn, "Update check failed: "@ + error@),
                ],
            },
    {
        self.active = false;
        self.started_at = None;
        let mut out = no_actions();
        match message {
            UpdateMessage::Completed(result) => {
                match &result {
                    UpdateResult::UpToDate => {
                        log(&mut out, LogLevel::Info, "Update check: up to date");
                    },
                    UpdateResult::Applied(info) => {
                        say(&mut out, concat2("Update applied: v", info.version.as_str()).as_str());
                        log(
                            &mut out,
                            LogLevel::Info,
                            show_details(
                                "Update applied: v",
                                info,
                                info.asset_name.as_str(),
                            ).as_str(),
                        );
                        toast(
                            &mut out,
                            ToastLevel::Info,
                            concat3(
                                "Updated to v",
                                info.version.as_str(),
                                " (restart to use)",
                            ).as_str(),
                            4,
                        );
                    },
                    UpdateResult::Ready { info, path, instructions } => {
                        say(&mut out, concat2("Update ready: v", info.version.as_str()).as_str());
                        log(
                            &mut out,
                            LogLevel::Info,
                            show_details("Update ready: v", info, path.as_str()).as_str(),
                        );
                        log(&mut out, LogLevel::Info, instructions.as_str());
                        toast(
                            &mut out,
                            ToastLevel::Info,
                            concat3(
                                "Update ready: v",
                                info.version.as_str(),
                                " (see log)",
                            ).as_str(),
                            4,
                        );
                    },
                    UpdateResult::Skipped { version, reason } => {
                        let mut line = concat3(
                            "Update available (v",
                            version.as_str(),
                            ") skipped: ",
                        );
                        line.append(reason.as_str());
                        log(&mut out, LogLevel::Warn, line.as_str());
                    },
                }
                assert(actions::action_views(out@) =~= result_says(result));
                self.status = match result {
                    UpdateResult::UpToDate => UpdateStatus::UpToDate {
                        version: current.to_owned(),
                    },
                    UpdateResult::Applied(info) => UpdateStatus::Applied { info },
                    UpdateResult::Ready { info, path, instructions } => UpdateStatus::Available {
                        info,
                        path,
                        instructions,
                    },
                    UpdateResult::Skipped { version, reason } => UpdateStatus::Skipped {
                        version,
                        reason,
                    },
                };
            },
            UpdateMessage::Failed { error } => {
                log(
                    &mut out,
                    LogLevel::Warn,
                    concat2("Update check failed: ", error.as_str()).as_str(),
                );
                assert(actions::action_views(out@) =~= seq![
                    ActionView::Log(LogLevel::Warn, "Update check failed: "@ + error@),
                ]);
                self.status = UpdateStatus::Failed { error };
            },
        }
        out
    }

    /// Whether an answer has been waited for long enough.
    pub open spec fn times_out(self, now: u64) -> bool {
        &&& self.active
        &&& self.started_at matches Some(t) && inputs::has_passed(t, now, UPDATE_TIMEOUT_MS)
    }

    /// Gives a look for newer versions up that takes too long.
    pub fn tick(&mut self, now: u64) -> (out: Vec<Action>)
        ensures
            if old(self).times_out(now) {
                &&& !final(self).active
                &&& final(self).started_at is None
                &&& final(self).status matches UpdateStatus::Failed { error } && error@ == "timeout"@
                &&& actions::action_views(out@) == seq![
                    ActionView::Log(LogLevel::Warn, "Update check timed out"@),
                ]
            } else {
                *final(self) == *old(self) && out@.len() == 0
            },
    {
        let mut out = no_actions();
        if self.active {
            if let Some(t) = self.started_at {
                if is_past(t, now, UPDATE_TIMEOUT_MS) {
                    self.active = false;
                    self.started_at = None;
                    self.status = UpdateStatus::Failed { error: "timeout".to_owned() };
                    log(&mut out, LogLevel::Warn, "Update check timed out");
                    assert(actions::action_views(out@) =~= seq![
                        ActionView::Log(LogLevel::Warn, "Update check timed out"@),
                    ]);
                }
            }
        }
        out
    }

    /// What is said before a newer version is put in place, if one is ready.
    pub fn begin_apply(&self) -> (r: Option<Vec<Action>>)
        ensures
            match self.status {
                UpdateStatus::Available { info, .. } => r matches Some(out)
                    && actions::action_views(out@) == seq![
                    ActionView::Status("Applying update..."@),
                    ActionView::Log(LogLevel::Info, "Applying update v"@ + info.version@),
                ],
                _ => r is None,
            },
    {
        match &self.status {
            UpdateStatus::Available { info, .. } => {
                let mut out = no_actions();
                say(&mut out, "Applying update...");
                log(
                    &mut out,
                    LogLevel::Info,
                    concat2("Applying update v", info.version.as_str()).as_str(),
                );
                assert(actions::action_views(out@) =~= seq![
                    ActionView::Status("Applying update..."@),
                    ActionView::Log(LogLevel::Info, "Applying update v"@ + info.version@),
                ]);
                Some(out)
            },
            _ => None,
        }
    }

    /// Takes in what putting the newer version in place came to. The result says whether
    /// the program starts anew.
    pub fn finish_apply(&mut self, outcome: ApplyOutcome) -> (r: (bool, Vec<Action>))
        requires
            old(self).status is Available,
        ensures
            final(self).active == old(self).active,
            final(self).started_at == old(self).started_at,
            r.0 == (outcome is Applied),
            ({
                let info = old(self).status->Available_info;
                match outcome {
                    ApplyOutcome::Applied => {
                        &&& final(self).status == (UpdateStatus::Applied { info })
                        &&& actions::action_views(r.1@) == seq![
                            ActionView::Status(
                                "Update applied: v"@ + info.version@ + " (restarting)"@,
                            ),
                            ActionView::Toast(
                                ToastLevel::Info,
                                "Updated to v"@ + info.version@ + " (restarting)"@,
                                3,
                            ),
                        ]
                    },
                    ApplyOutcome::Manual { instructions } => {
                        &&& final(self).status == old(self).status
                        &&& actions::action_views(r.1@) == seq![
                            ActionView::Log(LogLevel::Info, instructions@),
                            ActionView::Toast(ToastLevel::Info, "Update ready: see log"@, 3),
                        ]
                    },
                    ApplyOutcome::Failed { error } => {
                        &&& final(self).status == (UpdateStatus::Failed { error })
                        &&& actions::action_views(r.1@) == seq![
                            ActionView::Status("Update apply failed: "@ + error@),
                            ActionView::Log(LogLevel::Error, "Update apply failed: "@ + error@),
                        ]
                    },
                }
            }),
    {
        let mut out = no_actions();
        match outcome {
            ApplyOutcome::Applied => {
                let mut status = UpdateStatus::Idle;
                std::mem::swap(&mut status, &mut self.status);
                if let UpdateStatus::Available { info, .. } = status {
                    say(
                        &mut out,
                        concat3(
                            "Update applied: v",
                            info.version.as_str(),
                            " (restarting)",
                        ).as_str(),
                    );
                    toast(
                        &mut out,
                        ToastLevel::Info,
                        concat3("Updated to v", info.version.as_str(), " (restarting)").as_str(),
                        3,
                    );
                    assert(actions::action_views(out@) =~= seq![
                        ActionView::Status("Update applied: v"@ + info.version@ + " (restarting)"@),
                        ActionView::Toast(
                            ToastLevel::Info,
                            "Updated to v"@ + info.version@ + " (restarting)"@,
                            3,
                        ),
                    ]);
                    self.status = UpdateStatus::Applied { info };
                }
                (true, out)
            },
            ApplyOutcome::Manual { instructions } => {
                log(&mut out, LogLevel::Info, instructions.as_str());
                toast(&mut out, ToastLevel::Info, "Update ready: see log", 3);
                assert(actions::action_views(out@) =~= seq![
                    ActionView::Log(LogLevel::Info, instructions@),
                    ActionView::Toast(ToastLevel::Info, "Update ready: see log"@, 3),
                ]);
                (false, out)
            },
            ApplyOutcome::Failed { error } => {
                let line = concat2("Update apply failed: ", error.as_str());
                say(&mut out, line.as_str());
                log(&mut out, LogLevel::Error, line.as_str());
                assert(actions::action_views(out@) =~= seq![
                    ActionView::Status(line@),
                    ActionView::Log(LogLevel::Error, line@),
                ]);
                self.status = UpdateStatus::Failed { error };
                (false, out)
            },
        }
    }
}

/// How starting the new version went.
#[derive(Debug)]
pub enum Restart {
    /// It is not known where the program is.
    NoProgram,
    Started,
    Failed { error: String },
}

pub open spec fn restart_says(outcome: Restart) -> Seq<ActionView> {
    seq![
        match outcome {
            Restart::NoProgram => ActionView::Log(
                LogLevel::Warn,
                "Restart failed: no executable path"@,
            ),
            Restart::Started => ActionView::Log(LogLevel::Info, "Restarting after update"@),
            Restart::Failed { error } => ActionView::Log(
                LogLevel::Warn,
                "Restart failed: "@ + error@,
            ),
        },
    ]
}

/// What is said once the new version was to be started. The first result says whether
/// this one is to end.
pub fn say_restarted(outcome: &Restart) -> (r: (bool, Vec<Action>))
    ensures
        r.0 == (outcome is Started),
        actions::action_views(r.1@) == restart_says(*outcome),
{
    let mut out = no_actions();
    let quits = match outcome {
        Restart::NoProgram => {
            log(&mut out, LogLevel::Warn, "Restart failed: no executable path");
            false
        },
        Restart::Started => {
            log(&mut out, LogLevel::Info, "Restarting after update");
            true
        },
        Restart::Failed { error } => {
            log(&mut out, LogLevel::Warn, concat2("Restart failed: ", error.as_str()).as_str());
            false
        },
    };
    assert(actions::action_views(out@) =~= restart_says(*outcome));
    (quits, out)
}

} // verus!
