//! Trials of the ranking, step by step: what is done in turn, and what is reported.
use crate::actions;
use crate::actions::{no_actions, Action, ActionView};
use crate::fingerprint;
use crate::fingerprint::smart_rank_profile_key_for;
use crate::library;
use crate::library::{find_profile, Library, Profile};
use crate::mod_changes;
use crate::mod_view;
use crate::rank_flow;
use crate::rank_flow::{pick_archives, ScanLog};
use crate::rank_report;
use crate::rank_report::show_truth;
use crate::rank_scan;
use crate::rank_scan::SmartRankState;
use crate::rank_scenario;
use crate::rank_scenario::{show_mode, RankRun};
use crate::rank_state::{
    CachedMod, SmartRankCache, SmartRankMode, SmartRankRefreshMode, SMART_RANK_CACHE_VERSION,
};
use crate::smart_rank::SmartRankResult;
use crate::sorting;
use crate::text;
use crate::text::{add_line, concat2, concat3, join_texts, push_text, show_u64, show_usize};
use vstd::hash_map::StringHashMap;
use vstd::prelude::*;

verus! {

// ---------------------------------------------------------------------------
// Words
// ---------------------------------------------------------------------------

pub open spec fn mode_opt_word(mode: Option<SmartRankRefreshMode>) -> Seq<char> {
    match mode {
        Some(m) => "Some("@ + rank_scenario::mode_word(m) + ")"@,
        None => "None"@,
    }
}

fn show_mode_opt(mode: Option<SmartRankRefreshMode>) -> (r: String)
    ensures
        r@ == mode_opt_word(mode),
{
    match mode {
        Some(m) => concat3("Some(", show_mode(m), ")"),
        None => "None".to_owned(),
    }
}

pub open spec fn number_opt_word(n: Option<u64>) -> Seq<char> {
    match n {
        Some(k) => "Some("@ + text::decimal(k as nat) + ")"@,
        None => "None"@,
    }
}

fn show_number_opt(n: Option<u64>) -> (r: String)
    ensures
        r@ == number_opt_word(n),
{
    match n {
        Some(k) => concat3("Some(", show_u64(k).as_str(), ")"),
        None => "None".to_owned(),
    }
}

// ---------------------------------------------------------------------------
// Rankings until none is left
// ---------------------------------------------------------------------------

/// How long the rankings of a trial are waited for, in milliseconds.
pub const TRIAL_TIMEOUT_MS: u64 = 60000;

/// How far the rankings of a trial are.
#[derive(Debug, Clone, Copy, PartialEq, Eq, Structural)]
pub enum RunEnd {
    Waits,
    Settled,
    TimedOut,
}

/// The rankings of a trial. Times are in milliseconds.
pub struct ScanRun {
    pub log: ScanLog,
    pub started: u64,
}

/// Rankings are waited for until none runs and none is asked for, or for too long.
pub open spec fn run_end(s: SmartRankState, started: u64, now: u64) -> RunEnd {
    if !s.active && s.refresh_pending is None {
        RunEnd::Settled
    } else if now - started > TRIAL_TIMEOUT_MS {
        RunEnd::TimedOut
    } else {
        RunEnd::Waits
    }
}

impl ScanRun {
    pub fn new(now: u64) -> (r: Self)
        ensures
            r.log.events@.len() == 0,
            r.log.full_rebuilds == 0,
            r.log.last_scan_id is None,
            r.started == now,
    {
        ScanRun { log: ScanLog::new(), started: now }
    }

    /// Looks at the rankings: starts the one that was asked for once its time has come,
    /// notes the one that runs, and tells whether there is more to wait for.
    pub fn step(
        &mut self,
        state: &mut SmartRankState,
        library: &Library,
        keys: &Vec<String>,
        now: u64,
    ) -> (r: (RunEnd, Vec<Action>))
        requires
            keys@.len() == library.mods@.len(),
            old(self).log.full_rebuilds < usize::MAX,
        ensures
            rank_scan::restart_step(
                *final(state),
                *old(state),
                *library,
                keys@,
                false,
                now,
                actions::action_views(r.1@),
            ),
            rank_flow::saw(
                final(self).log,
                old(self).log,
                final(state).scan_active,
                final(state).refresh_kind,
            ),
            final(self).started == old(self).started,
            r.0 == run_end(*final(state), old(self).started, now),
    {
        let out = state.maybe_restart_smart_rank(library, keys, false, true, now);
        self.log.see(state.scan_active, state.refresh_kind);
        let end = if !state.active && state.refresh_pending.is_none() {
            RunEnd::Settled
        } else if now > self.started && now - self.started > TRIAL_TIMEOUT_MS {
            RunEnd::TimedOut
        } else {
            RunEnd::Waits
        };
        (end, out)
    }
}

// ---------------------------------------------------------------------------
// A ranking of a changed order
// ---------------------------------------------------------------------------

/// The lines on what the ranking of a changed order came to.
pub open spec fn outcome_lines(run: RankRun) -> Seq<Seq<char>> {
    match run {
        RankRun::Done { scanned, mods, result } => seq![
            "Scanned mods: "@ + text::decimal(scanned as nat),
            "Moved entries: "@ + text::decimal(result.report.moved as nat),
            "Warnings: "@ + text::decimal(result.warnings@.len()),
        ],
        RankRun::Failed(err) => seq!["Simulation failed: "@ + err@],
    }
}

/// Ends the report on a ranking of a changed order.
pub fn end_simulation(lines: &mut Vec<String>, run: &RankRun) -> (r: String)
    ensures
        text::texts(final(lines)@) == text::texts(old(lines)@) + outcome_lines(*run),
        r@ == text::join(text::texts(final(lines)@), "\n"@),
{
    match run {
        RankRun::Done { scanned, mods: _, result } => {
            add_line(lines, concat2("Scanned mods: ", show_usize(*scanned).as_str()));
            add_line(lines, concat2("Moved entries: ", show_usize(result.report.moved).as_str()));
            add_line(lines, concat2("Warnings: ", show_usize(result.warnings.len()).as_str()));
        },
        RankRun::Failed(err) => {
            add_line(lines, concat2("Simulation failed: ", err.as_str()));
        },
    }
    assert(text::texts(lines@) =~= text::texts(old(lines)@) + outcome_lines(*run));
    join_texts(lines, "\n")
}

// ---------------------------------------------------------------------------
// A full ranking at once
// ---------------------------------------------------------------------------

/// Why a full ranking is not made.
pub open spec fn warmup_obstacle(paths_ready: bool) -> Option<Seq<char>> {
    if paths_ready {
        None
    } else {
        Some("Paths not set (configure game root + Larian dir)"@)
    }
}

pub fn check_warmup(paths_ready: bool) -> (r: Option<String>)
    ensures
        text::text_opt(r) == warmup_obstacle(paths_ready),
{
    if paths_ready {
        None
    } else {
        Some("Paths not set (configure game root + Larian dir)".to_owned())
    }
}

/// Takes in a full ranking, and stores it.
pub fn take_warmup(
    state: &mut SmartRankState,
    library: &Library,
    mods: StringHashMap<CachedMod>,
    result: SmartRankResult,
    now: u64,
) -> (out: Vec<Action>)
    ensures
        *final(state) == (SmartRankState {
            cache: final(state).cache,
            cache_last_saved: Some(now),
            ..*old(state)
        }),
        rank_scan::finished_cache(final(state).cache, *library, mods@, result),
        actions::action_views(out@) == if mods@.is_empty() {
            Seq::<ActionView>::empty()
        } else {
            seq![ActionView::SaveRanking]
        },
{
    state.cache = Some(
        SmartRankCache {
            version: SMART_RANK_CACHE_VERSION,
            profile_key: smart_rank_profile_key_for(library),
            mods,
            result: Some(result),
        },
    );
    state.maybe_save_smart_rank_cache(true, now)
}

// ---------------------------------------------------------------------------
// Changes while mods are ranked
// ---------------------------------------------------------------------------

/// What a trial of changes does next.
#[derive(Debug, Clone, Copy, PartialEq, Eq, Structural)]
pub enum WarmupStage {
    /// The first mod is switched.
    Toggle,
    /// The first mod is moved down.
    Reorder,
    /// The first mod is removed.
    Remove,
    /// Rankings are waited for.
    Scans,
    Done,
}

/// A trial of changes that are made while a ranking runs.
pub struct WarmupFlow {
    pub lines: Vec<String>,
    pub stage: WarmupStage,
}

pub open spec fn warmup_title() -> Seq<char> {
    "Smart rank warmup flow (app edits)"@
}

/// The state before the first ranking: what is known of mods stays, no ranking does.
pub open spec fn is_seeded(
    after: SmartRankState,
    before: SmartRankState,
    library: Library,
) -> bool {
    &&& after == (SmartRankState { cache: after.cache, ..before })
    &&& after.cache matches Some(c)
    &&& c.version == SMART_RANK_CACHE_VERSION
    &&& c.profile_key@ == fingerprint::profile_key(library)
    &&& c.mods@ == rank_scan::known_mods(before)
    &&& c.result is None
}

pub open spec fn warmup_started_over(
    after: SmartRankState,
    mid: SmartRankState,
    before: SmartRankState,
    library: Library,
    keys: Seq<String>,
    says: Seq<ActionView>,
) -> bool {
    &&& is_seeded(mid, before, library)
    &&& rank_scan::start_step(
        after,
        mid,
        library,
        keys,
        SmartRankMode::Warmup,
        SmartRankRefreshMode::Full,
        says,
    )
}

/// Whether a full ranking has been started over what is known of mods.
pub open spec fn warmup_started(
    after: SmartRankState,
    before: SmartRankState,
    library: Library,
    keys: Seq<String>,
    says: Seq<ActionView>,
) -> bool {
    exists|mid: SmartRankState| #[trigger]
        warmup_started_over(after, mid, before, library, keys, says)
}

/// The lines at the start of a trial of changes.
pub open spec fn warmup_lines(s: SmartRankState) -> Seq<Seq<char>> {
    seq![
        warmup_title(),
        "warmup active: "@ + rank_report::truth(
            s.active && s.mode == Some(SmartRankMode::Warmup),
        ),
        "start scan id="@ + number_opt_word(s.scan_active) + " kind="@ + mode_opt_word(
            s.refresh_kind,
        ),
    ]
}

/// The change that is made, in words.
pub open spec fn change_word(stage: WarmupStage) -> Option<Seq<char>> {
    match stage {
        WarmupStage::Toggle => Some("toggle"@),
        WarmupStage::Reorder => Some("reorder"@),
        WarmupStage::Remove => Some("remove"@),
        _ => None,
    }
}

pub open spec fn stage_after(stage: WarmupStage) -> WarmupStage {
    match stage {
        WarmupStage::Toggle => WarmupStage::Reorder,
        WarmupStage::Reorder => WarmupStage::Remove,
        WarmupStage::Remove => WarmupStage::Scans,
        _ => WarmupStage::Done,
    }
}

pub open spec fn timeout_line(s: SmartRankState) -> Seq<char> {
    "timeout waiting for warmup flow scans (active="@ + rank_report::truth(s.active)
        + " pending="@ + mode_opt_word(s.refresh_pending) + " interrupt="@ + rank_report::truth(
        s.interrupt,
    ) + " scan_id="@ + number_opt_word(s.scan_active) + ")"@
}

fn show_timeout(s: &SmartRankState) -> (r: String)
    ensures
        r@ == timeout_line(*s),
{
    let mut r = concat2(
        "timeout waiting for warmup flow scans (active=",
        show_truth(s.active),
    );
    push_text(&mut r, " pending=");
    push_text(&mut r, show_mode_opt(s.refresh_pending).as_str());
    push_text(&mut r, " interrupt=");
    push_text(&mut r, show_truth(s.interrupt));
    push_text(&mut r, " scan_id=");
    push_text(&mut r, show_number_opt(s.scan_active).as_str());
    push_text(&mut r, ")");
    r
}

impl WarmupFlow {
    /// Begins a trial on a library that was made smaller: a full ranking is started.
    /// There must be an active profile, with two mods at least.
    pub fn begin(state: &mut SmartRankState, library: &Library, keys: &Vec<String>) -> (r: (
        Self,
        Vec<Action>,
    ))
        requires
            keys@.len() == library.mods@.len(),
        ensures
            ({
                let refusal = if mod_changes::active_place(*library) < 0 {
                    Some("No active profile"@)
                } else if mod_view::active_order(*library).len() < 2 {
                    Some("Need at least 2 mods for warmup flow"@)
                } else {
                    None
                };
                match refusal {
                    Some(line) => {
                        &&& *final(state) == *old(state)
                        &&& r.1@.len() == 0
                        &&& r.0.stage == WarmupStage::Done
                        &&& text::texts(r.0.lines@) == seq![warmup_title(), line]
                    },
                    None => {
                        &&& warmup_started(
                            *final(state),
                            *old(state),
                            *library,
                            keys@,
                            actions::action_views(r.1@),
                        )
                        &&& r.0.stage == WarmupStage::Toggle
                        &&& text::texts(r.0.lines@) == warmup_lines(*final(state))
                    },
                }
            }),
    {
        let mut lines: Vec<String> = Vec::new();
        assert(text::texts(lines@) =~= Seq::<Seq<char>>::empty());
        add_line(&mut lines, "Smart rank warmup flow (app edits)".to_owned());
        proof {
            library::lemma_profile_index(library.profiles@, library.active_profile@);
        }
        let refusal = match find_profile(&library.profiles, library.active_profile.as_str()) {
            Some(at) => if library.profiles[at].order.len() < 2 {
                Some("Need at least 2 mods for warmup flow")
            } else {
                None
            },
            None => Some("No active profile"),
        };
        if let Some(line) = refusal {
            add_line(&mut lines, line.to_owned());
            assert(text::texts(lines@) =~= seq![warmup_title(), line@]);
            return (WarmupFlow { lines, stage: WarmupStage::Done }, no_actions());
        }
        let known = match state.cache.take() {
            Some(c) => c.mods,
            None => StringHashMap::new(),
        };
        state.cache = Some(
            SmartRankCache {
                version: SMART_RANK_CACHE_VERSION,
                profile_key: smart_rank_profile_key_for(library),
                mods: known,
                result: None,
            },
        );
        let ghost mid = *state;
        let out = state.start_smart_rank_scan(
            SmartRankMode::Warmup,
            SmartRankRefreshMode::Full,
            library,
            keys,
        );
        assert(warmup_started_over(
            *state,
            mid,
            *old(state),
            *library,
            keys@,
            actions::action_views(out@),
        ));
        let running = state.smart_rank_warmup_active();
        add_line(&mut lines, concat2("warmup active: ", show_truth(running)));
        let mut line = concat2("start scan id=", show_number_opt(state.scan_active).as_str());
        push_text(&mut line, " kind=");
        push_text(&mut line, show_mode_opt(state.refresh_kind).as_str());
        add_line(&mut lines, line);
        assert(text::texts(lines@) =~= warmup_lines(*state));
        (WarmupFlow { lines, stage: WarmupStage::Toggle }, out)
    }

    /// Notes what is asked for after a change.
    pub fn note_change(&mut self, pending: Option<SmartRankRefreshMode>)
        ensures
            match change_word(old(self).stage) {
                Some(word) => {
                    &&& final(self).stage == stage_after(old(self).stage)
                    &&& text::texts(final(self).lines@) == text::texts(old(self).lines@).push(
                        "after "@ + word + " pending="@ + mode_opt_word(pending),
                    )
                },
                None => *final(self) == *old(self),
            },
    {
        let (word, next) = match self.stage {
            WarmupStage::Toggle => ("toggle", WarmupStage::Reorder),
            WarmupStage::Reorder => ("reorder", WarmupStage::Remove),
            WarmupStage::Remove => ("remove", WarmupStage::Scans),
            _ => return,
        };
        let mut line = concat3("after ", word, " pending=");
        push_text(&mut line, show_mode_opt(pending).as_str());
        add_line(&mut self.lines, line);
        self.stage = next;
    }

    /// Ends the trial once its rankings are done or were waited for too long.
    pub fn note_scans(&mut self, run: &ScanRun, end: RunEnd, state: &SmartRankState)
        ensures
            if old(self).stage == WarmupStage::Scans && end != RunEnd::Waits {
                &&& final(self).stage == WarmupStage::Done
                &&& text::texts(final(self).lines@) == text::texts(old(self).lines@) + (if end
                    == RunEnd::TimedOut {
                    seq![timeout_line(*state)]
                } else {
                    Seq::empty()
                }) + run.log.lines(Seq::empty())
            } else {
                *final(self) == *old(self)
            },
    {
        if !matches!(self.stage, WarmupStage::Scans) || matches!(end, RunEnd::Waits) {
            return;
        }
        let ghost start = text::texts(self.lines@);
        if matches!(end, RunEnd::TimedOut) {
            add_line(&mut self.lines, show_timeout(state));
        }
        assert(text::texts(self.lines@) =~= start + (if end == RunEnd::TimedOut {
            seq![timeout_line(*state)]
        } else {
            Seq::empty()
        }));
        proof {
            reveal_strlit("");
            assert(""@ =~= Seq::<char>::empty());
        }
        run.log.add_to(&mut self.lines, "");
        self.stage = WarmupStage::Done;
    }

    /// The report on the trial.
    pub fn report(&self) -> (r: String)
        ensures
            r@ == text::join(text::texts(self.lines@), "\n"@),
    {
        join_texts(&self.lines, "\n")
    }
}

/// Each change brings a trial nearer to its end, and none but the rankings is left after
/// the last.
pub proof fn law_changes_come_to_an_end(stage: WarmupStage)
    ensures
        change_word(stage) is Some ==> changes_left(stage_after(stage)) == changes_left(stage) - 1,
        changes_left(stage) == 0 <==> change_word(stage) is None,
{
}

pub open spec fn changes_left(stage: WarmupStage) -> nat {
    match stage {
        WarmupStage::Toggle => 3,
        WarmupStage::Reorder => 2,
        WarmupStage::Remove => 1,
        _ => 0,
    }
}

// ---------------------------------------------------------------------------
// Imports and a removal
// ---------------------------------------------------------------------------

/// What a trial of imports does next.
#[derive(Debug, Clone, Copy, PartialEq, Eq, Structural)]
pub enum ZipStage {
    /// The archives are listed.
    Source,
    /// A place for the trial is made.
    Workspace,
    /// An archive is imported.
    Import(usize),
    /// The mods of an archive are taken in, batch by batch: the archive, and how many
    /// batches are left.
    Apply(usize, usize),
    /// The rankings that follow are waited for.
    Scan(usize, usize),
    /// The first mod is removed.
    Remove,
    /// The rankings that follow are waited for.
    RemoveScan,
    Done,
}

/// What became of what a trial of imports did.
pub enum ZipEvent {
    SourceMissing(String),
    SourceUnreadable(String),
    SourceRead(Vec<String>),
    WorkspaceFailed(String),
    WorkspaceMade,
    ImportFailed(String),
    /// So many batches came of an archive.
    Imported(usize),
    ApplyFailed(String),
    /// So many mods of a batch were taken in.
    Applied(usize),
    /// The rankings are done, or were waited for too long.
    Scanned(ScanLog, RunEnd),
    Removed { removed: bool, id: String },
    NothingToRemove,
}

/// A trial of imports, on a library of its own.
pub struct ZipFlow {
    pub lines: Vec<String>,
    pub archives: Vec<String>,
    pub stage: ZipStage,
}

/// A library without mods.
pub open spec fn is_fresh(l: Library) -> bool {
    &&& l.mods@.len() == 0
    &&& l.profiles@.len() == 1
    &&& l.profiles@[0].name@ == "Default"@
    &&& l.profiles@[0].order@.len() == 0
    &&& l.profiles@[0].file_overrides@.len() == 0
    &&& l.active_profile@ == "Default"@
    &&& l.dependency_blocks@.len() == 0
    &&& l.metadata_cache_version == 0
    &&& l.metadata_cache_key is None
    &&& l.modsettings_hash is None
    &&& l.modsettings_sync_enabled
}

/// The library of a trial of imports.
pub fn fresh_library() -> (r: Library)
    ensures
        is_fresh(r),
{
    let mut profiles: Vec<Profile> = Vec::new();
    profiles.push(Profile::new("Default"));
    Library {
        mods: Vec::new(),
        profiles,
        active_profile: "Default".to_owned(),
        dependency_blocks: Vec::new(),
        metadata_cache_version: 0,
        metadata_cache_key: None,
        modsettings_hash: None,
        modsettings_sync_enabled: true,
    }
}

/// The state of rankings for a trial of imports: nothing is known or asked for.
pub open spec fn forgotten(s: SmartRankState) -> SmartRankState {
    SmartRankState {
        cache: None,
        refresh_pending: None,
        refresh_kind: None,
        refresh_at: None,
        cache_last_saved: None,
        scan_id: 0,
        scan_active: None,
        scan_profile_key: None,
        ..s
    }
}

pub fn forget_rankings(s: &mut SmartRankState)
    ensures
        *final(s) == forgotten(*old(s)),
{
    s.cache = None;
    s.refresh_pending = None;
    s.refresh_kind = None;
    s.refresh_at = None;
    s.cache_last_saved = None;
    s.scan_id = 0;
    s.scan_active = None;
    s.scan_profile_key = None;
}

/// The archives that are tried, of those that were found.
pub open spec fn chosen(found: Seq<Seq<char>>) -> Seq<Seq<char>> {
    let all = sorting::sorted_texts(found.filter(rank_flow::archives_only()));
    all.take(
        if all.len() < rank_flow::TRIED_ARCHIVES {
            all.len() as int
        } else {
            rank_flow::TRIED_ARCHIVES as int
        },
    )
}

/// The stage at which the archive at a place is imported, or at which none is left.
pub open spec fn archive_stage(archives: Seq<Seq<char>>, i: int) -> ZipStage {
    if i < archives.len() {
        ZipStage::Import(i as usize)
    } else {
        ZipStage::Remove
    }
}

/// What is said of an archive before it is imported.
pub open spec fn archive_lines(archives: Seq<Seq<char>>, i: int) -> Seq<Seq<char>> {
    if i < archives.len() {
        seq!["import "@ + text::decimal((i + 1) as nat) + ": "@ + archives[i]]
    } else {
        Seq::empty()
    }
}

/// The lines on the rankings that were waited for.
pub open spec fn scan_lines(log: ScanLog, end: RunEnd, label: Seq<char>) -> Seq<Seq<char>> {
    let events = text::texts(log.events@) + if end == RunEnd::TimedOut {
        seq!["timeout waiting for scans"@]
    } else {
        Seq::empty()
    };
    seq![label + " refresh events: "@ + text::decimal(events.len())] + events + seq![
        label + " full rebuilds: "@ + text::decimal(log.full_rebuilds as nat),
    ]
}

/// The next stage and the lines on the way there. What does not belong to a stage changes
/// nothing.
pub open spec fn zip_next(
    stage: ZipStage,
    archives: Seq<Seq<char>>,
    event: ZipEvent,
) -> (ZipStage, Seq<Seq<char>>) {
    match (stage, event) {
        (ZipStage::Source, ZipEvent::SourceMissing(path)) => (
            ZipStage::Done,
            seq!["Source dir missing: "@ + path@],
        ),
        (ZipStage::Source, ZipEvent::SourceUnreadable(err)) => (
            ZipStage::Done,
            seq!["Read source dir failed: "@ + err@],
        ),
        (ZipStage::Source, ZipEvent::SourceRead(found)) => {
            let n = chosen(text::texts(found@)).len();
            if n == 0 {
                (ZipStage::Done, seq!["No mod archives found"@])
            } else {
                (ZipStage::Workspace, seq!["Using "@ + text::decimal(n) + " archive(s)"@])
            }
        },
        (ZipStage::Workspace, ZipEvent::WorkspaceFailed(err)) => (
            ZipStage::Done,
            seq!["Create temp dir failed: "@ + err@],
        ),
        (ZipStage::Workspace, ZipEvent::WorkspaceMade) => (
            archive_stage(archives, 0),
            archive_lines(archives, 0),
        ),
        (ZipStage::Import(i), ZipEvent::ImportFailed(err)) => (
            archive_stage(archives, i + 1),
            seq!["  import failed: "@ + err@] + archive_lines(archives, i + 1),
        ),
        (ZipStage::Import(i), ZipEvent::Imported(batches)) => if batches == 0 {
            (
                archive_stage(archives, i + 1),
                seq!["  no mods found"@] + archive_lines(archives, i + 1),
            )
        } else {
            (ZipStage::Apply(i, batches), Seq::empty())
        },
        (ZipStage::Apply(i, left), ZipEvent::ApplyFailed(err)) => (
            ZipStage::Scan(i, (left - 1) as usize),
            seq!["  apply failed: "@ + err@, "  applied mods: "@ + text::decimal(0)],
        ),
        (ZipStage::Apply(i, left), ZipEvent::Applied(count)) => (
            ZipStage::Scan(i, (left - 1) as usize),
            seq!["  applied mods: "@ + text::decimal(count as nat)],
        ),
        (ZipStage::Scan(i, left), ZipEvent::Scanned(log, end)) => if left == 0 {
            (
                archive_stage(archives, i + 1),
                scan_lines(log, end, "post-import"@) + archive_lines(archives, i + 1),
            )
        } else {
            (ZipStage::Apply(i, left), scan_lines(log, end, "post-import"@))
        },
        (ZipStage::Remove, ZipEvent::Removed { removed, id }) => (
            ZipStage::RemoveScan,
            seq!["remove: "@ + rank_report::truth(removed) + " ("@ + id@ + ")"@],
        ),
        (ZipStage::Remove, ZipEvent::NothingToRemove) => (
            ZipStage::Done,
            seq!["remove: skipped (no mods)"@],
        ),
        (ZipStage::RemoveScan, ZipEvent::Scanned(log, end)) => (
            ZipStage::Done,
            scan_lines(log, end, "post-remove"@),
        ),
        _ => (stage, Seq::empty()),
    }
}

fn add_scans(lines: &mut Vec<String>, log: ScanLog, end: RunEnd, label: &str)
    ensures
        text::texts(final(lines)@) == text::texts(old(lines)@) + scan_lines(log, end, label@),
{
    let ghost events = text::texts(log.events@) + if end == RunEnd::TimedOut {
        seq!["timeout waiting for scans"@]
    } else {
        Seq::empty()
    };
    let mut all = log;
    if matches!(end, RunEnd::TimedOut) {
        add_line(&mut all.events, "timeout waiting for scans".to_owned());
    }
    assert(text::texts(all.events@) =~= events);
    let head = concat2(label, " ");
    all.add_to(lines, head.as_str());
    proof {
        reveal_strlit(" ");
        reveal_strlit("refresh events: ");
        reveal_strlit(" refresh events: ");
        reveal_strlit("full rebuilds: ");
        reveal_strlit(" full rebuilds: ");
        assert(head@ + "refresh events: "@ =~= label@ + " refresh events: "@);
        assert(head@ + "full rebuilds: "@ =~= label@ + " full rebuilds: "@);
        assert(all.lines(head@) =~= scan_lines(log, end, label@));
    }
}

impl ZipFlow {
    /// A trial that has a place for each stage.
    pub open spec fn valid(self) -> bool {
        match self.stage {
            ZipStage::Import(i) => i < self.archives.len(),
            ZipStage::Apply(i, left) => i < self.archives.len() && left > 0,
            ZipStage::Scan(i, _) => i < self.archives.len(),
            _ => true,
        }
    }

    pub fn new() -> (r: Self)
        ensures
            text::texts(r.lines@) == seq!["Smart rank zip flow (real imports)"@],
            r.archives@.len() == 0,
            r.stage == ZipStage::Source,
            r.valid(),
    {
        let mut lines: Vec<String> = Vec::new();
        lines.push("Smart rank zip flow (real imports)".to_owned());
        assert(text::texts(lines@) =~= seq!["Smart rank zip flow (real imports)"@]);
        ZipFlow { lines, archives: Vec::new(), stage: ZipStage::Source }
    }

    /// Goes on to the archive at a place, if there is one.
    fn enter(&mut self, i: usize)
        requires
            i <= old(self).archives@.len(),
        ensures
            final(self).archives == old(self).archives,
            final(self).stage == archive_stage(text::texts(old(self).archives@), i as int),
            text::texts(final(self).lines@) == text::texts(old(self).lines@) + archive_lines(
                text::texts(old(self).archives@),
                i as int,
            ),
    {
        if i < self.archives.len() {
            let mut line = concat3("import ", show_usize(i + 1).as_str(), ": ");
            push_text(&mut line, self.archives[i].as_str());
            add_line(&mut self.lines, line);
            self.stage = ZipStage::Import(i);
        } else {
            self.stage = ZipStage::Remove;
        }
        assert(text::texts(self.lines@) =~= text::texts(old(self).lines@) + archive_lines(
            text::texts(old(self).archives@),
            i as int,
        ));
    }

    /// Takes in what became of a stage.
    #[verifier::rlimit(60)]
    pub fn advance(&mut self, event: ZipEvent)
        requires
            old(self).valid(),
        ensures
            ({
                let next = zip_next(
                    old(self).stage,
                    text::texts(old(self).archives@),
                    event,
                );
                &&& final(self).valid()
                &&& final(self).stage == next.0
                &&& text::texts(final(self).lines@) == text::texts(old(self).lines@) + next.1
                &&& match (old(self).stage, event) {
                    (ZipStage::Source, ZipEvent::SourceRead(found)) => text::texts(
                        final(self).archives@,
                    ) == chosen(text::texts(found@)),
                    _ => final(self).archives == old(self).archives,
                }
            }),
    {
        let ghost start = text::texts(self.lines@);
        let ghost next = zip_next(self.stage, text::texts(self.archives@), event);
        match (self.stage, event) {
            (ZipStage::Source, ZipEvent::SourceMissing(path)) => {
                add_line(&mut self.lines, concat2("Source dir missing: ", path.as_str()));
                self.stage = ZipStage::Done;
            },
            (ZipStage::Source, ZipEvent::SourceUnreadable(err)) => {
                add_line(&mut self.lines, concat2("Read source dir failed: ", err.as_str()));
                self.stage = ZipStage::Done;
            },
            (ZipStage::Source, ZipEvent::SourceRead(found)) => {
                self.archives = pick_archives(&found);
                let n = self.archives.len();
                assert(n == chosen(text::texts(found@)).len());
                if n == 0 {
                    add_line(&mut self.lines, "No mod archives found".to_owned());
                    self.stage = ZipStage::Done;
                } else {
                    let line = concat3("Using ", show_usize(n).as_str(), " archive(s)");
                    add_line(&mut self.lines, line);
                    self.stage = ZipStage::Workspace;
                }
            },
            (ZipStage::Workspace, ZipEvent::WorkspaceFailed(err)) => {
                add_line(&mut self.lines, concat2("Create temp dir failed: ", err.as_str()));
                self.stage = ZipStage::Done;
            },
            (ZipStage::Workspace, ZipEvent::WorkspaceMade) => {
                self.enter(0);
            },
            (ZipStage::Import(i), ZipEvent::ImportFailed(err)) => {
                add_line(&mut self.lines, concat2("  import failed: ", err.as_str()));
                self.enter(i + 1);
            },
            (ZipStage::Import(i), ZipEvent::Imported(batches)) => {
                if batches == 0 {
                    add_line(&mut self.lines, "  no mods found".to_owned());
                    self.enter(i + 1);
                } else {
                    self.stage = ZipStage::Apply(i, batches);
                }
            },
            (ZipStage::Apply(i, left), ZipEvent::ApplyFailed(err)) => {
                add_line(&mut self.lines, concat2("  apply failed: ", err.as_str()));
                add_line(&mut self.lines, concat2("  applied mods: ", show_usize(0).as_str()));
                self.stage = ZipStage::Scan(i, left - 1);
            },
            (ZipStage::Apply(i, left), ZipEvent::Applied(count)) => {
                add_line(
                    &mut self.lines,
                    concat2("  applied mods: ", show_usize(count).as_str()),
                );
                self.stage = ZipStage::Scan(i, left - 1);
            },
            (ZipStage::Scan(i, left), ZipEvent::Scanned(log, end)) => {
                add_scans(&mut self.lines, log, end, "post-import");
                if left == 0 {
                    self.enter(i + 1);
                } else {
                    self.stage = ZipStage::Apply(i, left);
                }
            },
            (ZipStage::Remove, ZipEvent::Removed { removed, id }) => {
                let mut line = concat3("remove: ", show_truth(removed), " (");
                push_text(&mut line, id.as_str());
                push_text(&mut line, ")");
                add_line(&mut self.lines, line);
                self.stage = ZipStage::RemoveScan;
            },
            (ZipStage::Remove, ZipEvent::NothingToRemove) => {
                add_line(&mut self.lines, "remove: skipped (no mods)".to_owned());
                self.stage = ZipStage::Done;
            },
            (ZipStage::RemoveScan, ZipEvent::Scanned(log, end)) => {
                add_scans(&mut self.lines, log, end, "post-remove");
                self.stage = ZipStage::Done;
            },
            _ => {},
        }
        assert(text::texts(self.lines@) =~= start + next.1);
    }

    /// The report on the trial.
    pub fn report(&self) -> (r: String)
        ensures
            r@ == text::join(text::texts(self.lines@), "\n"@),
    {
        join_texts(&self.lines, "\n")
    }
}

/// How much of a trial of imports is left: by archives first, by batches next.
pub open spec fn zip_left(stage: ZipStage, archives: int) -> (int, int) {
    match stage {
        ZipStage::Source => (archives + 4, 0),
        ZipStage::Workspace => (archives + 3, 0),
        ZipStage::Import(i) => (archives - i + 2, 0),
        ZipStage::Apply(i, left) => (archives - i + 1, 2 * left + 1),
        ZipStage::Scan(i, left) => (archives - i + 1, 2 * left + 2),
        ZipStage::Remove => (1, 1),
        ZipStage::RemoveScan => (1, 0),
        ZipStage::Done => (0, 0),
    }
}

/// Each stage that is done brings a trial of imports nearer to its end.
pub proof fn law_imports_come_to_an_end(flow: ZipFlow, event: ZipEvent)
    requires
        flow.valid(),
        flow.stage !is Source,
    ensures
        ({
            let n = flow.archives.len() as int;
            let next = zip_next(flow.stage, text::texts(flow.archives@), event).0;
            let (a, b) = zip_left(flow.stage, n);
            let (c, d) = zip_left(next, n);
            next == flow.stage || (0 <= c < a) || (c == a && 0 <= d < b)
        }),
{
}

} // verus!
