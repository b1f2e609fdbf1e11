//! What the manager tells the user and what it has done for it: messages, questions
//! and the work that is not its own.
use crate::rank_state::SmartRankRefreshMode;
use crate::text::concat3;
use vstd::prelude::*;

verus! {

// ---------------------------------------------------------------------------
// Messages
// ---------------------------------------------------------------------------

#[derive(Debug, Clone, Copy, PartialEq, Eq, Structural)]
pub enum LogLevel {
    Info,
    Warn,
    Error,
}

#[derive(Debug)]
pub struct LogEntry {
    pub level: LogLevel,
    pub message: String,
}

#[derive(Debug, Clone, Copy, PartialEq, Eq, Structural)]
pub enum ToastLevel {
    Info,
    Warn,
    Error,
}

/// A message that goes away by itself. Times are in milliseconds.
#[derive(Debug)]
pub struct Toast {
    pub message: String,
    pub level: ToastLevel,
    pub expires_at: u64,
}

// ---------------------------------------------------------------------------
// Questions
// ---------------------------------------------------------------------------

#[derive(Debug, Clone, Copy, PartialEq, Eq, Structural)]
pub enum DialogChoice {
    Yes,
    No,
}

#[derive(Debug)]
pub struct DialogToggle {
    pub label: String,
    pub checked: bool,
}

/// A mod that needs another.
#[derive(Debug)]
pub struct DependentMod {
    pub id: String,
    pub name: String,
}

/// What a dialog asks.
#[derive(Debug)]
pub enum DialogKind {
    Overwrite,
    Similar,
    Unrecognized { path: String, label: String },
    DeleteProfile { name: String },
    DeleteMod { id: String, name: String, native: bool, dependents: Vec<DependentMod> },
    MoveBlocked { resume_move_mode: bool, clear_filter: bool },
    CancelImport,
    OverrideDependencies,
    ImportSummary,
    CopyDependencySearchLink { link: String },
    StartupDependencyNotice,
    EnableAllVisible,
    DisableAllVisible,
    InvertVisible,
}

#[derive(Debug)]
pub struct Dialog {
    pub title: String,
    pub message: String,
    pub yes_label: String,
    pub no_label: String,
    pub choice: DialogChoice,
    pub kind: DialogKind,
    pub toggle: Option<DialogToggle>,
    pub scroll: usize,
}

pub enum KindView {
    Overwrite,
    Similar,
    Unrecognized { path: Seq<char>, label: Seq<char> },
    DeleteProfile { name: Seq<char> },
    DeleteMod {
        id: Seq<char>,
        name: Seq<char>,
        native: bool,
        dependents: Seq<(Seq<char>, Seq<char>)>,
    },
    MoveBlocked { resume_move_mode: bool, clear_filter: bool },
    CancelImport,
    OverrideDependencies,
    ImportSummary,
    CopyDependencySearchLink { link: Seq<char> },
    StartupDependencyNotice,
    EnableAllVisible,
    DisableAllVisible,
    InvertVisible,
}

pub struct DialogView {
    pub title: Seq<char>,
    pub message: Seq<char>,
    pub yes_label: Seq<char>,
    pub no_label: Seq<char>,
    pub choice: DialogChoice,
    pub kind: KindView,
    pub toggle: Option<(Seq<char>, bool)>,
    pub scroll: nat,
}

pub open spec fn dependent_views(list: Seq<DependentMod>) -> Seq<(Seq<char>, Seq<char>)> {
    Seq::new(list.len(), |i: int| (list[i].id@, list[i].name@))
}

impl DialogKind {
    pub open spec fn shown(self) -> KindView {
        match self {
            DialogKind::Overwrite => KindView::Overwrite,
            DialogKind::Similar => KindView::Similar,
            DialogKind::Unrecognized { path, label } => KindView::Unrecognized {
                path: path@,
                label: label@,
            },
            DialogKind::DeleteProfile { name } => KindView::DeleteProfile { name: name@ },
            DialogKind::DeleteMod { id, name, native, dependents } => KindView::DeleteMod {
                id: id@,
                name: name@,
                native,
                dependents: dependent_views(dependents@),
            },
            DialogKind::MoveBlocked { resume_move_mode, clear_filter } => KindView::MoveBlocked {
                resume_move_mode,
                clear_filter,
            },
            DialogKind::CancelImport => KindView::CancelImport,
            DialogKind::OverrideDependencies => KindView::OverrideDependencies,
            DialogKind::ImportSummary => KindView::ImportSummary,
            DialogKind::CopyDependencySearchLink { link } => KindView::CopyDependencySearchLink {
                link: link@,
            },
            DialogKind::StartupDependencyNotice => KindView::StartupDependencyNotice,
            DialogKind::EnableAllVisible => KindView::EnableAllVisible,
            DialogKind::DisableAllVisible => KindView::DisableAllVisible,
            DialogKind::InvertVisible => KindView::InvertVisible,
        }
    }
}

pub open spec fn toggle_view(t: Option<DialogToggle>) -> Option<(Seq<char>, bool)> {
    match t {
        Some(x) => Some((x.label@, x.checked)),
        None => None,
    }
}

impl Dialog {
    pub open spec fn shown(self) -> DialogView {
        DialogView {
            title: self.title@,
            message: self.message@,
            yes_label: self.yes_label@,
            no_label: self.no_label@,
            choice: self.choice,
            kind: self.kind.shown(),
            toggle: toggle_view(self.toggle),
            scroll: self.scroll as nat,
        }
    }
}

// ---------------------------------------------------------------------------
// Work for others
// ---------------------------------------------------------------------------

/// What is to be said or done after a step.
#[derive(Debug)]
pub enum Action {
    Status(String),
    Log(LogLevel, String),
    /// A message that goes away after some seconds.
    Toast(ToastLevel, String, u64),
    Ask(Dialog),
    SaveLibrary,
    SaveConfig,
    SaveAppConfig,
    /// Remove the files that the manager keeps of a mod.
    RemoveModRoot(String),
    /// Move the files that the manager keeps of a mod out of the way.
    TrashModRoot(String),
    /// Remove the package of a mod of the game.
    RemoveNativeFiles(String),
    /// Bring the mods into the game, for a reason.
    Deploy(String),
    /// Look for files that several mods bring, for a reason.
    ScanConflicts(String),
    OpenLink(String),
    /// Copy a text to the clipboard, and say so where that went well.
    Copy(String, String),
    /// Store what is known from the last ranking, or forget what is stored.
    SaveRanking,
    ForgetRanking,
    /// Read the mods and rank them; the number tells rankings apart.
    Rank(u64, SmartRankRefreshMode),
    /// Ask for a ranking once changes have settled, for a reason.
    RefreshRanking(SmartRankRefreshMode, String),
    /// Forget what a mod is known to need.
    ForgetNeeds(String),
    /// See to it that there is a ranking at hand.
    WarmRanking,
    /// Read the files of the mods.
    ReadMods,
}

pub enum ActionView {
    Status(Seq<char>),
    Log(LogLevel, Seq<char>),
    Toast(ToastLevel, Seq<char>, u64),
    Ask(DialogView),
    SaveLibrary,
    SaveConfig,
    SaveAppConfig,
    RemoveModRoot(Seq<char>),
    TrashModRoot(Seq<char>),
    RemoveNativeFiles(Seq<char>),
    Deploy(Seq<char>),
    ScanConflicts(Seq<char>),
    OpenLink(Seq<char>),
    Copy(Seq<char>, Seq<char>),
    SaveRanking,
    ForgetRanking,
    Rank(u64, SmartRankRefreshMode),
    RefreshRanking(SmartRankRefreshMode, Seq<char>),
    ForgetNeeds(Seq<char>),
    WarmRanking,
    ReadMods,
}

impl Action {
    pub open spec fn shown(self) -> ActionView {
        match self {
            Action::Status(t) => ActionView::Status(t@),
            Action::Log(level, t) => ActionView::Log(level, t@),
            Action::Toast(level, t, secs) => ActionView::Toast(level, t@, secs),
            Action::Ask(d) => ActionView::Ask(d.shown()),
            Action::SaveLibrary => ActionView::SaveLibrary,
            Action::SaveConfig => ActionView::SaveConfig,
            Action::SaveAppConfig => ActionView::SaveAppConfig,
            Action::RemoveModRoot(t) => ActionView::RemoveModRoot(t@),
            Action::TrashModRoot(t) => ActionView::TrashModRoot(t@),
            Action::RemoveNativeFiles(t) => ActionView::RemoveNativeFiles(t@),
            Action::Deploy(t) => ActionView::Deploy(t@),
            Action::ScanConflicts(t) => ActionView::ScanConflicts(t@),
            Action::OpenLink(t) => ActionView::OpenLink(t@),
            Action::Copy(t, done) => ActionView::Copy(t@, done@),
            Action::SaveRanking => ActionView::SaveRanking,
            Action::ForgetRanking => ActionView::ForgetRanking,
            Action::Rank(id, mode) => ActionView::Rank(id, mode),
            Action::RefreshRanking(mode, t) => ActionView::RefreshRanking(mode, t@),
            Action::ForgetNeeds(t) => ActionView::ForgetNeeds(t@),
            Action::WarmRanking => ActionView::WarmRanking,
            Action::ReadMods => ActionView::ReadMods,
        }
    }
}

pub open spec fn action_views(list: Seq<Action>) -> Seq<ActionView> {
    Seq::new(list.len(), |i: int| list[i].shown())
}

pub proof fn lemma_action_views_push(list: Seq<Action>, a: Action)
    ensures
        action_views(list.push(a)) == action_views(list).push(a.shown()),
{
    assert(action_views(list.push(a)) =~= action_views(list).push(a.shown()));
}

/// One more thing to do.
pub fn also(out: &mut Vec<Action>, a: Action)
    ensures
        action_views(final(out)@) == action_views(old(out)@).push(a.shown()),
        final(out)@ == old(out)@.push(a),
{
    proof {
        lemma_action_views_push(out@, a);
    }
    out.push(a);
}

pub fn no_actions() -> (out: Vec<Action>)
    ensures
        action_views(out@) == Seq::<ActionView>::empty(),
        out@.len() == 0,
{
    let out: Vec<Action> = Vec::new();
    assert(action_views(out@) =~= Seq::<ActionView>::empty());
    out
}

/// All of `more` as well.
pub fn also_all(out: &mut Vec<Action>, more: Vec<Action>)
    ensures
        action_views(final(out)@) == action_views(old(out)@) + action_views(more@),
{
    let ghost start = out@;
    let ghost all = more@;
    let mut left = more;
    assert(left@ =~= all.skip(0));
    assert(out@ =~= start + all.take(0));
    while left.len() > 0
        invariant
            left.len() <= all.len(),
            start == old(out)@,
            left@ == all.skip(all.len() - left.len()),
            out@ == start + all.take(all.len() - left.len()),
        decreases left.len(),
    {
        let ghost at = all.len() - left.len();
        assert(left@[0] == all[at]);
        let a = left.remove(0);
        out.push(a);
        assert(left@ =~= all.skip(at + 1));
        assert(out@ =~= start + all.take(at + 1));
    }
    assert(all.take(all.len() as int) =~= all);
    assert(action_views(out@) =~= action_views(start) + action_views(all));
}

pub fn say(out: &mut Vec<Action>, status: &str)
    ensures
        action_views(final(out)@) == action_views(old(out)@).push(ActionView::Status(status@)),
{
    also(out, Action::Status(status.to_owned()));
}

pub fn log(out: &mut Vec<Action>, level: LogLevel, message: &str)
    ensures
        action_views(final(out)@) == action_views(old(out)@).push(ActionView::Log(level, message@)),
{
    also(out, Action::Log(level, message.to_owned()));
}

pub fn toast(out: &mut Vec<Action>, level: ToastLevel, message: &str, secs: u64)
    ensures
        action_views(final(out)@) == action_views(old(out)@).push(
            ActionView::Toast(level, message@, secs),
        ),
{
    also(out, Action::Toast(level, message.to_owned(), secs));
}

// ---------------------------------------------------------------------------
// What the user sees
// ---------------------------------------------------------------------------

/// How many log entries are kept.
pub const LOG_CAPACITY: usize = 200;

/// The status line, the log and the passing message.
#[derive(Debug)]
pub struct Desk {
    pub status: String,
    pub logs: Vec<LogEntry>,
    pub log_scroll: usize,
    pub toast: Option<Toast>,
}

pub open spec fn log_views(list: Seq<LogEntry>) -> Seq<(LogLevel, Seq<char>)> {
    Seq::new(list.len(), |i: int| (list[i].level, list[i].message@))
}

/// The last entries that are kept.
pub open spec fn kept_logs<T>(list: Seq<T>) -> Seq<T> {
    if list.len() > LOG_CAPACITY {
        list.skip(list.len() - LOG_CAPACITY)
    } else {
        list
    }
}

/// One more, where that can be counted.
pub open spec fn one_more(n: usize) -> int {
    if n < usize::MAX {
        n + 1
    } else {
        n as int
    }
}

/// How far the log is scrolled back after another entry: while it is scrolled, what
/// is in view stays in view.
pub open spec fn next_scroll(scroll: usize, len: nat) -> int {
    let moved = if scroll > 0 {
        one_more(scroll)
    } else {
        0
    };
    let over = if len + 1 > LOG_CAPACITY {
        len + 1 - LOG_CAPACITY
    } else {
        0
    };
    if moved > over {
        moved - over
    } else {
        0
    }
}

impl Desk {
    /// No more log entries than are kept.
    pub open spec fn well_formed(self) -> bool {
        self.logs@.len() <= LOG_CAPACITY
    }

    pub fn new(status: &str) -> (r: Self)
        ensures
            r.well_formed(),
            r.status@ == status@,
            r.logs@.len() == 0,
            r.log_scroll == 0,
            r.toast is None,
    {
        Desk { status: status.to_owned(), logs: Vec::new(), log_scroll: 0, toast: None }
    }

    /// Adds a log entry.
    pub fn push_log(&mut self, level: LogLevel, message: &str)
        ensures
            final(self).well_formed(),
            log_views(final(self).logs@) == kept_logs(
                log_views(old(self).logs@).push((level, message@)),
            ),
            final(self).log_scroll == next_scroll(old(self).log_scroll, old(self).logs@.len()),
            *final(self) == (Desk {
                logs: final(self).logs,
                log_scroll: final(self).log_scroll,
                ..*old(self)
            }),
    {
        let ghost before = self.logs@;
        if self.log_scroll > 0 {
            self.log_scroll = self.log_scroll.saturating_add(1);
        }
        self.logs.push(LogEntry { level, message: message.to_owned() });
        let ghost all = self.logs@;
        assert(log_views(all) =~= log_views(before).push((level, message@)));
        if self.logs.len() > LOG_CAPACITY {
            let over: usize = self.logs.len() - LOG_CAPACITY;
            let mut i: usize = 0;
            assert(self.logs@ =~= all.skip(0));
            while i < over
                invariant
                    i <= over,
                    over == all.len() - LOG_CAPACITY,
                    self.logs@ == all.skip(i as int),
                    self.log_scroll == (if old(self).log_scroll > 0 {
                        one_more(old(self).log_scroll)
                    } else {
                        0
                    }),
                    *self == (Desk {
                        logs: self.logs,
                        log_scroll: self.log_scroll,
                        ..*old(self)
                    }),
                decreases over - i,
            {
                self.logs.remove(0);
                i = i + 1;
                assert(self.logs@ =~= all.skip(i as int));
            }
            self.log_scroll = self.log_scroll.saturating_sub(over);
            assert(log_views(self.logs@) =~= log_views(all).skip(over as int));
        }
    }

    pub fn log_info(&mut self, message: &str)
        ensures
            final(self).well_formed(),
            log_views(final(self).logs@) == kept_logs(
                log_views(old(self).logs@).push((LogLevel::Info, message@)),
            ),
            final(self).log_scroll == next_scroll(old(self).log_scroll, old(self).logs@.len()),
            *final(self) == (Desk {
                logs: final(self).logs,
                log_scroll: final(self).log_scroll,
                ..*old(self)
            }),
    {
        self.push_log(LogLevel::Info, message);
    }

    pub fn log_warn(&mut self, message: &str)
        ensures
            final(self).well_formed(),
            log_views(final(self).logs@) == kept_logs(
                log_views(old(self).logs@).push((LogLevel::Warn, message@)),
            ),
            final(self).log_scroll == next_scroll(old(self).log_scroll, old(self).logs@.len()),
            *final(self) == (Desk {
                logs: final(self).logs,
                log_scroll: final(self).log_scroll,
                ..*old(self)
            }),
    {
        self.push_log(LogLevel::Warn, message);
    }

    pub fn log_error(&mut self, message: &str)
        ensures
            final(self).well_formed(),
            log_views(final(self).logs@) == kept_logs(
                log_views(old(self).logs@).push((LogLevel::Error, message@)),
            ),
            final(self).log_scroll == next_scroll(old(self).log_scroll, old(self).logs@.len()),
            *final(self) == (Desk {
                logs: final(self).logs,
                log_scroll: final(self).log_scroll,
                ..*old(self)
            }),
    {
        self.push_log(LogLevel::Error, message);
    }

    /// Shows a message for a while.
    pub fn set_toast(&mut self, message: &str, level: ToastLevel, millis: u64, now: u64)
        ensures
            *final(self) == (Desk { toast: final(self).toast, ..*old(self) }),
            final(self).toast matches Some(t) && t.message@ == message@ && t.level == level
                && t.expires_at == (if now + millis > u64::MAX {
                u64::MAX as int
            } else {
                now + millis
            }),
    {
        self.toast = Some(
            Toast { message: message.to_owned(), level, expires_at: now.saturating_add(millis) },
        );
    }

    /// Takes the passing message away when its time is over.
    pub fn expire_toast(&mut self, now: u64)
        ensures
            *final(self) == (Desk { toast: final(self).toast, ..*old(self) }),
            final(self).toast == match old(self).toast {
                Some(t) => if t.expires_at <= now {
                    None
                } else {
                    old(self).toast
                },
                None => None,
            },
    {
        let over = match &self.toast {
            Some(t) => t.expires_at <= now,
            None => false,
        };
        if over {
            self.toast = None;
        }
    }

    pub fn scroll_log_up(&mut self, lines: usize)
        ensures
            *final(self) == (Desk { log_scroll: final(self).log_scroll, ..*old(self) }),
            final(self).log_scroll == if old(self).log_scroll + lines > usize::MAX {
                usize::MAX as int
            } else {
                old(self).log_scroll + lines
            },
    {
        self.log_scroll = self.log_scroll.saturating_add(lines);
    }

    pub fn scroll_log_down(&mut self, lines: usize)
        ensures
            *final(self) == (Desk { log_scroll: final(self).log_scroll, ..*old(self) }),
            final(self).log_scroll == if old(self).log_scroll > lines {
                old(self).log_scroll - lines
            } else {
                0
            },
    {
        self.log_scroll = self.log_scroll.saturating_sub(lines);
    }
}

/// The word for a level in the log file.
pub open spec fn level_tag(level: LogLevel) -> Seq<char> {
    match level {
        LogLevel::Info => "INFO"@,
        LogLevel::Warn => "WARN"@,
        LogLevel::Error => "ERROR"@,
    }
}

/// The line that the log file gets for an entry.
pub fn log_file_line(level: LogLevel, message: &str) -> (r: String)
    ensures
        r@ == "["@ + level_tag(level) + "] "@ + message@,
{
    let label = match level {
        LogLevel::Info => "INFO",
        LogLevel::Warn => "WARN",
        LogLevel::Error => "ERROR",
    };
    let mut r = concat3("[", label, "] ");
    r.append(message);
    r
}

/// The newest log entry is always kept.
pub proof fn law_newest_log_stays<T>(list: Seq<T>, x: T)
    ensures
        kept_logs(list.push(x)).len() > 0,
        kept_logs(list.push(x)).last() == x,
        kept_logs(list.push(x)).len() <= LOG_CAPACITY,
{
}

} // verus!
