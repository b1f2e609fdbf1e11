//! What is going on, and what has to wait for it.
use crate::actions;
use crate::actions::{no_actions, say, toast, Action, ActionView, ToastLevel};
use crate::rank_preview;
use crate::rank_preview::show_pair;
use crate::rank_scan;
use crate::rank_scan::show_progress;
use crate::rank_state::SmartRankMode;
use crate::smart_rank::SmartRankProgress;
use crate::sorting::has_string;
use crate::text;
use crate::text::{concat2, concat3, same_text};
use vstd::prelude::*;

verus! {

/// What is going on.
#[derive(Debug, Clone, Copy, PartialEq, Eq, Structural)]
pub struct Tasks {
    pub startup_pending: bool,
    pub native_sync_active: bool,
    pub import_active: bool,
    pub deploy_active: bool,
    pub deploy_pending: bool,
    pub conflict_active: bool,
    pub conflict_pending: bool,
    pub smart_rank_active: bool,
    pub smart_rank_mode: Option<SmartRankMode>,
    pub metadata_active: bool,
}

impl Tasks {
    pub open spec fn busy(self) -> bool {
        self.startup_pending || self.native_sync_active || self.import_active || self.deploy_active
            || self.deploy_pending || self.conflict_active || self.conflict_pending
            || self.smart_rank_active || self.metadata_active
    }

    pub fn is_busy(&self) -> (r: bool)
        ensures
            r == self.busy(),
    {
        self.startup_pending || self.native_sync_active || self.import_active || self.deploy_active
            || self.deploy_pending || self.conflict_active || self.conflict_pending
            || self.smart_rank_active || self.metadata_active
    }
}

// ---------------------------------------------------------------------------
// What may change mods
// ---------------------------------------------------------------------------

/// Whether a change may be made while a ranking runs that is only to be at hand.
pub open spec fn is_small_change(action: Seq<char>) -> bool {
    action == "toggle"@ || action == "enable"@ || action == "disable"@ || action == "reorder"@
        || action == "remove"@
}

/// What stands in the way of a change.
pub enum Obstacle {
    Metadata,
    StartupSync,
    Ranking(Option<SmartRankMode>),
    Deploy,
    Import,
}

/// What stands in the way of a change, if anything does.
pub open spec fn obstacle(t: Tasks, action: Seq<char>) -> Option<Obstacle> {
    if t.metadata_active {
        Some(Obstacle::Metadata)
    } else if t.native_sync_active {
        Some(Obstacle::StartupSync)
    } else if t.smart_rank_active && !(t.smart_rank_mode == Some(SmartRankMode::Warmup)
        && is_small_change(action)) {
        Some(Obstacle::Ranking(t.smart_rank_mode))
    } else if t.deploy_active {
        Some(Obstacle::Deploy)
    } else if t.import_active {
        Some(Obstacle::Import)
    } else {
        None
    }
}

pub open spec fn obstacle_name(o: Obstacle) -> Seq<char> {
    match o {
        Obstacle::Metadata => "Metadata scan"@,
        Obstacle::StartupSync => "Startup sync"@,
        Obstacle::Ranking(Some(SmartRankMode::Warmup)) => "Smart rank warmup"@,
        Obstacle::Ranking(Some(SmartRankMode::Preview)) => "Smart rank preview"@,
        Obstacle::Ranking(None) => "Smart ranking"@,
        Obstacle::Deploy => "Deploy"@,
        Obstacle::Import => "Import"@,
    }
}

pub open spec fn obstacle_note(o: Obstacle) -> Seq<char> {
    match o {
        Obstacle::Metadata => "Metadata scan in progress - please wait"@,
        Obstacle::StartupSync => "Startup sync in progress - please wait"@,
        Obstacle::Ranking(_) => "Smart ranking in progress - please wait"@,
        Obstacle::Deploy => "Deploy in progress - please wait"@,
        Obstacle::Import => "Import in progress - please wait"@,
    }
}

fn find_obstacle(t: &Tasks, action: &str) -> (r: Option<Obstacle>)
    ensures
        r == obstacle(*t, action@),
{
    if t.metadata_active {
        return Some(Obstacle::Metadata);
    }
    if t.native_sync_active {
        return Some(Obstacle::StartupSync);
    }
    if t.smart_rank_active {
        let small = same_text(action, "toggle") || same_text(action, "enable") || same_text(
            action,
            "disable",
        ) || same_text(action, "reorder") || same_text(action, "remove");
        if !(matches!(t.smart_rank_mode, Some(SmartRankMode::Warmup)) && small) {
            return Some(Obstacle::Ranking(t.smart_rank_mode));
        }
    }
    if t.deploy_active {
        return Some(Obstacle::Deploy);
    }
    if t.import_active {
        return Some(Obstacle::Import);
    }
    None
}

/// What is said where a change has to wait.
pub open spec fn wait_says(t: Tasks, action: Seq<char>) -> Seq<ActionView> {
    match obstacle(t, action) {
        Some(o) => seq![
            ActionView::Status(obstacle_name(o) + " running: "@ + action + " blocked"@),
            ActionView::Toast(ToastLevel::Warn, obstacle_note(o), 2),
        ],
        None => Seq::empty(),
    }
}

/// Whether a change has to wait, and what is then said.
pub fn block_mod_changes(t: &Tasks, action: &str) -> (r: (bool, Vec<Action>))
    ensures
        r.0 == (obstacle(*t, action@) is Some),
        actions::action_views(r.1@) == wait_says(*t, action@),
{
    let mut out = no_actions();
    let o = match find_obstacle(t, action) {
        Some(o) => o,
        None => return (false, out),
    };
    let (name, note) = match &o {
        Obstacle::Metadata => ("Metadata scan", "Metadata scan in progress - please wait"),
        Obstacle::StartupSync => ("Startup sync", "Startup sync in progress - please wait"),
        Obstacle::Ranking(mode) => (
            match mode {
                Some(SmartRankMode::Warmup) => "Smart rank warmup",
                Some(SmartRankMode::Preview) => "Smart rank preview",
                None => "Smart ranking",
            },
            "Smart ranking in progress - please wait",
        ),
        Obstacle::Deploy => ("Deploy", "Deploy in progress - please wait"),
        Obstacle::Import => ("Import", "Import in progress - please wait"),
    };
    let mut line = concat3(name, " running: ", action);
    line.append(" blocked");
    say(&mut out, line.as_str());
    toast(&mut out, ToastLevel::Warn, note, 2);
    assert(actions::action_views(out@) =~= wait_says(*t, action@));
    (true, out)
}

/// While nothing is going on, no change has to wait.
pub proof fn law_idle_blocks_nothing(t: Tasks, action: Seq<char>)
    requires
        !t.busy(),
    ensures
        obstacle(t, action) is None,
{
}

// ---------------------------------------------------------------------------
// What is being read
// ---------------------------------------------------------------------------

/// What is being done with the mods of the game.
#[derive(Debug, Clone, Copy, PartialEq, Eq, Structural)]
pub enum NativeSyncStage {
    NativeFiles,
    AdoptNative,
    AddMissing,
}

impl NativeSyncStage {
    pub open spec fn name(self) -> Seq<char> {
        match self {
            NativeSyncStage::NativeFiles => "Native mods prepass"@,
            NativeSyncStage::AdoptNative => "Native mods adopt"@,
            NativeSyncStage::AddMissing => "Native mods add"@,
        }
    }

    pub fn label(self) -> (r: &'static str)
        ensures
            r@ == self.name(),
    {
        match self {
            NativeSyncStage::NativeFiles => "Native mods prepass",
            NativeSyncStage::AdoptNative => "Native mods adopt",
            NativeSyncStage::AddMissing => "Native mods add",
        }
    }
}

#[derive(Debug, Clone, Copy, PartialEq, Eq, Structural)]
pub struct NativeSyncProgress {
    pub stage: NativeSyncStage,
    pub current: usize,
    pub total: usize,
}

pub open spec fn sync_line(p: NativeSyncProgress) -> Seq<char> {
    if p.total > 0 {
        p.stage.name() + ": "@ + rank_preview::pair(p.current, p.total)
    } else {
        p.stage.name() + ": working..."@
    }
}

pub fn show_sync(p: &NativeSyncProgress) -> (r: String)
    ensures
        r@ == sync_line(*p),
{
    if p.total > 0 {
        concat3(p.stage.label(), ": ", show_pair(p.current, p.total).as_str())
    } else {
        concat2(p.stage.label(), ": working...")
    }
}

/// What is being read, and how far it is.
pub struct Readings {
    pub native_sync_active: bool,
    pub native_sync_progress: Option<NativeSyncProgress>,
    pub metadata_active: bool,
    pub metadata_processed: usize,
    pub metadata_total: usize,
    /// The ids of the mods that were read.
    pub metadata_processed_ids: Vec<String>,
    pub startup_dependency_check_pending: bool,
    /// Whether it is known what the mods need.
    pub dependency_cache_ready: bool,
    /// Whether a ranking runs that is only to be at hand.
    pub warmup_active: bool,
}

impl Readings {
    /// Whether the list of mods is not complete yet.
    pub fn mod_list_loading(&self) -> (r: bool)
        ensures
            r == (self.metadata_active || self.native_sync_active
                || self.startup_dependency_check_pending || !self.dependency_cache_ready),
    {
        self.metadata_active || self.native_sync_active || self.startup_dependency_check_pending
            || !self.dependency_cache_ready
    }

    /// Whether the line of a mod is not complete yet.
    pub fn mod_row_loading(&self, mod_id: &str) -> (r: bool)
        ensures
            r == if self.metadata_active {
                !text::texts(self.metadata_processed_ids@).contains(mod_id@)
            } else {
                self.native_sync_active || self.startup_dependency_check_pending
                    || !self.dependency_cache_ready
            },
    {
        if self.metadata_active {
            return !has_string(&self.metadata_processed_ids, mod_id);
        }
        self.native_sync_active || self.startup_dependency_check_pending
            || !self.dependency_cache_ready
    }

    /// The status line: what is being read, else what was said last.
    pub open spec fn shown_status(
        self,
        progress: Option<SmartRankProgress>,
        status: Seq<char>,
    ) -> Seq<char> {
        if self.native_sync_active {
            match self.native_sync_progress {
                Some(p) => sync_line(p),
                None => "Native mods prepass: working..."@,
            }
        } else if self.metadata_active {
            if self.metadata_total > 0 {
                "Metadata scan: "@ + rank_preview::pair(
                    self.metadata_processed,
                    self.metadata_total,
                )
            } else {
                "Metadata scan: working..."@
            }
        } else if self.warmup_active {
            match progress {
                Some(p) => rank_scan::progress_line(p),
                None => "Smart ranking: warmup..."@,
            }
        } else {
            status
        }
    }

    pub fn status_line(&self, progress: &Option<SmartRankProgress>, status: &str) -> (r: String)
        ensures
            r@ == self.shown_status(*progress, status@),
    {
        if self.native_sync_active {
            return match &self.native_sync_progress {
                Some(p) => show_sync(p),
                None => "Native mods prepass: working...".to_owned(),
            };
        }
        if self.metadata_active {
            return if self.metadata_total > 0 {
                concat2(
                    "Metadata scan: ",
                    show_pair(self.metadata_processed, self.metadata_total).as_str(),
                )
            } else {
                "Metadata scan: working...".to_owned()
            };
        }
        if self.warmup_active {
            return match progress {
                Some(p) => show_progress(p),
                None => "Smart ranking: warmup...".to_owned(),
            };
        }
        status.to_owned()
    }
}

// ---------------------------------------------------------------------------
// What has the focus
// ---------------------------------------------------------------------------

#[derive(Debug, Clone, Copy, PartialEq, Eq, Structural)]
pub enum Focus {
    Explorer,
    Mods,
    Conflicts,
    Log,
}

/// What comes next.
pub open spec fn focus_after(f: Focus) -> Focus {
    match f {
        Focus::Explorer => Focus::Mods,
        Focus::Mods => Focus::Conflicts,
        Focus::Conflicts => Focus::Log,
        Focus::Log => Focus::Explorer,
    }
}

pub open spec fn focus_name(f: Focus) -> Seq<char> {
    match f {
        Focus::Explorer => "Focus: explorer"@,
        Focus::Mods => "Focus: mod stack"@,
        Focus::Conflicts => "Focus: overrides"@,
        Focus::Log => "Focus: log"@,
    }
}

/// How long the keys that are shown wait for the focus to settle, and how long they
/// fade, in milliseconds.
pub const HOTKEY_DEBOUNCE_MS: u64 = 200;

pub const HOTKEY_FADE_MS: u64 = 200;

/// What has the focus, and whose keys are shown. Times are in milliseconds.
#[derive(Debug, Clone, Copy, PartialEq, Eq, Structural)]
pub struct FocusState {
    pub focus: Focus,
    pub hotkey_focus: Focus,
    pub pending: Option<Focus>,
    pub transition_at: Option<u64>,
    pub fade_until: Option<u64>,
}

/// The state once something has the focus.
pub open spec fn focused(s: FocusState, f: Focus, now: u64) -> FocusState {
    if s.focus == f {
        s
    } else {
        FocusState {
            focus: f,
            pending: Some(f),
            transition_at: Some(now),
            fade_until: None,
            ..s
        }
    }
}

impl FocusState {
    pub fn new() -> (r: Self)
        ensures
            r == (FocusState {
                focus: Focus::Mods,
                hotkey_focus: Focus::Mods,
                pending: None,
                transition_at: None,
                fade_until: None,
            }),
    {
        FocusState {
            focus: Focus::Mods,
            hotkey_focus: Focus::Mods,
            pending: None,
            transition_at: None,
            fade_until: None,
        }
    }

    pub fn set_focus(&mut self, focus: Focus, now: u64)
        ensures
            *final(self) == focused(*old(self), focus, now),
    {
        if self.focus != focus {
            self.pending = Some(focus);
            self.transition_at = Some(now);
            self.fade_until = None;
        }
        self.focus = focus;
    }

    pub fn focus_mods(&mut self, now: u64)
        ensures
            *final(self) == focused(*old(self), Focus::Mods, now),
    {
        self.set_focus(Focus::Mods, now);
    }

    /// Gives the focus to what comes next.
    pub fn cycle_focus(&mut self, now: u64) -> (out: Vec<Action>)
        ensures
            *final(self) == focused(*old(self), focus_after(old(self).focus), now),
            actions::action_views(out@) == seq![
                ActionView::Status(focus_name(focus_after(old(self).focus))),
            ],
    {
        let mut out = no_actions();
        let next = match self.focus {
            Focus::Explorer => Focus::Mods,
            Focus::Mods => Focus::Conflicts,
            Focus::Conflicts => Focus::Log,
            Focus::Log => Focus::Explorer,
        };
        self.set_focus(next, now);
        say(
            &mut out,
            match next {
                Focus::Explorer => "Focus: explorer",
                Focus::Mods => "Focus: mod stack",
                Focus::Conflicts => "Focus: overrides",
                Focus::Log => "Focus: log",
            },
        );
        out
    }

    /// Whether the keys of what has the focus are to be shown from now on.
    pub open spec fn settles(self, now: u64) -> bool {
        self.pending is Some && self.transition_at is Some && now - self.transition_at->Some_0
            >= HOTKEY_DEBOUNCE_MS
    }

    pub fn update_hotkey_transition(&mut self, now: u64)
        ensures
            *final(self) == if old(self).settles(now) {
                FocusState {
                    hotkey_focus: old(self).pending->Some_0,
                    pending: None,
                    transition_at: None,
                    fade_until: Some(rank_scan::later_by(now, HOTKEY_FADE_MS)),
                    ..*old(self)
                }
            } else {
                *old(self)
            },
    {
        if let (Some(pending), Some(at)) = (self.pending, self.transition_at) {
            if now >= at && now - at >= HOTKEY_DEBOUNCE_MS {
                self.hotkey_focus = pending;
                self.pending = None;
                self.transition_at = None;
                self.fade_until = Some(now.saturating_add(HOTKEY_FADE_MS));
            }
        }
    }

    pub fn hotkey_fade_active(&self, now: u64) -> (r: bool)
        ensures
            r == (self.fade_until matches Some(t) && t > now),
    {
        match self.fade_until {
            Some(t) => t > now,
            None => false,
        }
    }
}

/// The focus goes round.
pub proof fn law_focus_goes_round(f: Focus)
    ensures
        focus_after(focus_after(focus_after(focus_after(f)))) == f,
        focus_after(f) != f,
{
}

} // verus!
