//! Rankings that are asked for, under way, put off or done.
use crate::actions;
use crate::actions::{also, also_all, log, no_actions, say, Action, ActionView, LogLevel};
use crate::fingerprint;
use crate::fingerprint::smart_rank_profile_key_for;
use crate::library::Library;
use crate::profiles::copy_order;
use crate::rank_explain::{SmartRankExplain, SmartRankExplainLine};
use crate::rank_preview;
use crate::rank_preview::{finalize_smart_rank_preview, show_pair, SmartRankPreview, SmartRankView};
use crate::rank_state;
use crate::rank_state::{
    merge_smart_rank_refresh_kind, plan_warmup, resolve_smart_rank_refresh_kind,
    smart_rank_cache_ready_for, CachedMod, SmartRankCache, SmartRankMode, SmartRankRefreshMode,
    SMART_RANK_CACHE_SAVE_DEBOUNCE_MS, SMART_RANK_CACHE_VERSION, SMART_RANK_DEBOUNCE_MS,
};
use crate::smart_rank::{SmartRankGroup, SmartRankProgress, SmartRankReport, SmartRankResult};
use crate::text;
use crate::text::{concat2, push_text, same_text, show_u64, show_usize};
use vstd::hash_map::StringHashMap;
use vstd::prelude::*;

verus! {

/// Where the ranking of mods stands. Times are in milliseconds.
pub struct SmartRankState {
    pub cache: Option<SmartRankCache>,
    pub active: bool,
    pub mode: Option<SmartRankMode>,
    /// Whether the ranking that is under way has become useless.
    pub interrupt: bool,
    pub refresh_pending: Option<SmartRankRefreshMode>,
    pub refresh_kind: Option<SmartRankRefreshMode>,
    pub refresh_at: Option<u64>,
    pub cache_last_saved: Option<u64>,
    pub scan_id: u64,
    pub scan_active: Option<u64>,
    pub scan_profile_key: Option<String>,
    pub progress: Option<SmartRankProgress>,
    pub preview: Option<SmartRankPreview>,
    pub scroll: usize,
    pub view: SmartRankView,
}

/// What a ranking that is under way reports.
pub enum SmartRankMessage {
    Progress {
        scan_id: u64,
        progress: SmartRankProgress,
        mod_id: String,
        /// What was read of the mod.
        cached: Option<CachedMod>,
    },
    Finished {
        scan_id: u64,
        result: SmartRankResult,
        mods: StringHashMap<CachedMod>,
        scanned_mods: usize,
    },
    Failed { scan_id: u64, error: String },
}

// ---------------------------------------------------------------------------
// Copies
// ---------------------------------------------------------------------------

pub open spec fn same_result(a: SmartRankResult, b: SmartRankResult) -> bool {
    &&& a.order@ == b.order@
    &&& a.report == b.report
    &&& a.warnings@ == b.warnings@
    &&& a.explain.lines@ == b.explain.lines@
}

fn copy_lines(lines: &Vec<SmartRankExplainLine>) -> (out: Vec<SmartRankExplainLine>)
    ensures
        out@ == lines@,
{
    let mut out: Vec<SmartRankExplainLine> = Vec::new();
    let mut i: usize = 0;
    while i < lines.len()
        invariant
            i <= lines.len(),
            out@ == lines@.take(i as int),
        decreases lines.len() - i,
    {
        out.push(SmartRankExplainLine { kind: lines[i].kind, text: lines[i].text.clone() });
        i = i + 1;
        assert(out@ =~= lines@.take(i as int));
    }
    assert(out@ =~= lines@);
    out
}

fn copy_warnings(list: &Vec<String>) -> (out: Vec<String>)
    ensures
        out@ == list@,
{
    let mut out: Vec<String> = Vec::new();
    let mut i: usize = 0;
    while i < list.len()
        invariant
            i <= list.len(),
            out@ == list@.take(i as int),
        decreases list.len() - i,
    {
        out.push(list[i].clone());
        i = i + 1;
        assert(out@ =~= list@.take(i as int));
    }
    assert(out@ =~= list@);
    out
}

fn copy_report(r: &SmartRankReport) -> (out: SmartRankReport)
    ensures
        out == *r,
{
    SmartRankReport {
        moved: r.moved,
        missing: r.missing,
        conflicts: r.conflicts,
        total: r.total,
        missing_loose: r.missing_loose,
        missing_pak: r.missing_pak,
        scanned_loose: r.scanned_loose,
        scanned_pak: r.scanned_pak,
        enabled_loose: r.enabled_loose,
        enabled_pak: r.enabled_pak,
        conflicts_loose: r.conflicts_loose,
        conflicts_pak: r.conflicts_pak,
        elapsed_ms: r.elapsed_ms,
    }
}

pub fn copy_result(r: &SmartRankResult) -> (out: SmartRankResult)
    ensures
        same_result(out, *r),
{
    SmartRankResult {
        order: copy_order(&r.order),
        report: copy_report(&r.report),
        warnings: copy_warnings(&r.warnings),
        explain: SmartRankExplain { lines: copy_lines(&r.explain.lines) },
    }
}

// ---------------------------------------------------------------------------
// Asking for a ranking
// ---------------------------------------------------------------------------

/// A time that is a while off.
pub open spec fn later_by(now: u64, millis: u64) -> u64 {
    if now + millis > u64::MAX {
        u64::MAX
    } else {
        (now + millis) as u64
    }
}

/// The state once no ranking is under way.
pub open spec fn scan_cleared(s: SmartRankState) -> SmartRankState {
    SmartRankState {
        active: false,
        progress: None,
        mode: None,
        refresh_kind: None,
        interrupt: false,
        scan_active: None,
        scan_profile_key: None,
        ..s
    }
}

/// The state once a ranking that was under way has become useless.
pub open spec fn interrupted(s: SmartRankState) -> SmartRankState {
    if s.active {
        SmartRankState { interrupt: true, progress: None, ..s }
    } else {
        s
    }
}

pub open spec fn interrupt_says(s: SmartRankState, reason: Seq<char>) -> Seq<ActionView> {
    if s.active {
        seq![
            ActionView::Status("Smart ranking paused for changes"@),
            ActionView::Log(LogLevel::Info, "Smart rank interrupted: "@ + reason),
        ]
    } else {
        Seq::empty()
    }
}

/// The state once a ranking is asked for.
pub open spec fn scheduled(
    s: SmartRankState,
    kind: SmartRankRefreshMode,
    debounce: bool,
    now: u64,
) -> SmartRankState {
    let kept = if kind is Full {
        SmartRankState { cache: None, ..s }
    } else {
        s
    };
    SmartRankState {
        refresh_pending: Some(
            match s.refresh_pending {
                Some(current) => rank_state::merged(current, kind),
                None => kind,
            },
        ),
        refresh_at: if debounce {
            Some(later_by(now, SMART_RANK_DEBOUNCE_MS))
        } else {
            None
        },
        ..interrupted(kept)
    }
}

/// What is said and done when a ranking is asked for.
pub open spec fn schedule_says(
    s: SmartRankState,
    kind: SmartRankRefreshMode,
    reason: Seq<char>,
) -> Seq<ActionView> {
    (if kind is Full {
        seq![ActionView::ForgetRanking]
    } else {
        Seq::empty()
    }) + interrupt_says(s, reason)
}

impl SmartRankState {
    pub fn new() -> (r: Self)
        ensures
            r == (SmartRankState {
                cache: None,
                active: false,
                mode: None,
                interrupt: false,
                refresh_pending: None,
                refresh_kind: None,
                refresh_at: None,
                cache_last_saved: None,
                scan_id: 0,
                scan_active: None,
                scan_profile_key: None,
                progress: None,
                preview: None,
                scroll: 0,
                view: SmartRankView::Changes,
            }),
    {
        SmartRankState {
            cache: None,
            active: false,
            mode: None,
            interrupt: false,
            refresh_pending: None,
            refresh_kind: None,
            refresh_at: None,
            cache_last_saved: None,
            scan_id: 0,
            scan_active: None,
            scan_profile_key: None,
            progress: None,
            preview: None,
            scroll: 0,
            view: SmartRankView::Changes,
        }
    }

    /// Whether a ranking runs that is only to be at hand.
    pub fn smart_rank_warmup_active(&self) -> (r: bool)
        ensures
            r == (self.active && self.mode == Some(SmartRankMode::Warmup)),
    {
        self.active && matches!(self.mode, Some(SmartRankMode::Warmup))
    }

    pub fn interrupt_smart_rank(&mut self, reason: &str) -> (out: Vec<Action>)
        ensures
            *final(self) == interrupted(*old(self)),
            actions::action_views(out@) == interrupt_says(*old(self), reason@),
    {
        let mut out = no_actions();
        if self.active {
            self.interrupt = true;
            self.progress = None;
            say(&mut out, "Smart ranking paused for changes");
            log(&mut out, LogLevel::Info, concat2("Smart rank interrupted: ", reason).as_str());
            assert(actions::action_views(out@) =~= interrupt_says(*old(self), reason@));
        }
        out
    }

    pub fn clear_smart_rank_scan_state(&mut self)
        ensures
            *final(self) == scan_cleared(*old(self)),
    {
        self.active = false;
        self.progress = None;
        self.mode = None;
        self.refresh_kind = None;
        self.interrupt = false;
        self.scan_active = None;
        self.scan_profile_key = None;
    }

    /// Asks for a ranking.
    pub fn schedule_smart_rank_refresh(
        &mut self,
        kind: SmartRankRefreshMode,
        reason: &str,
        debounce: bool,
        now: u64,
    ) -> (out: Vec<Action>)
        ensures
            *final(self) == scheduled(*old(self), kind, debounce, now),
            actions::action_views(out@) == schedule_says(*old(self), kind, reason@),
    {
        let mut out = no_actions();
        if matches!(kind, SmartRankRefreshMode::Full) {
            self.cache = None;
            also(&mut out, Action::ForgetRanking);
        }
        let more = self.interrupt_smart_rank(reason);
        also_all(&mut out, more);
        assert(actions::action_views(out@) =~= schedule_says(*old(self), kind, reason@));
        let next = match self.refresh_pending {
            Some(current) => merge_smart_rank_refresh_kind(current, kind),
            None => kind,
        };
        self.refresh_pending = Some(next);
        self.refresh_at = if debounce {
            Some(now.saturating_add(SMART_RANK_DEBOUNCE_MS))
        } else {
            None
        };
        out
    }

    /// Asks for what a start asks for.
    pub fn schedule_smart_rank_warmup(&mut self, library: &Library, keys: &Vec<String>) -> (out:
        Vec<Action>)
        requires
            keys@.len() == library.mods@.len(),
        ensures
            ({
                let mode = rank_state::warmup_mode(*library, old(self).cache, keys@);
                &&& *final(self) == (SmartRankState {
                    refresh_pending: mode,
                    refresh_at: None,
                    ..*old(self)
                })
                &&& actions::action_views(out@) == if mode is None {
                    seq![
                        ActionView::Status("Smart ranking warmup cached"@),
                        ActionView::Log(LogLevel::Info, "Smart rank warmup: cache hit"@),
                    ]
                } else {
                    Seq::empty()
                }
            }),
    {
        let mut out = no_actions();
        self.refresh_pending = plan_warmup(library, &self.cache, keys);
        self.refresh_at = None;
        if self.refresh_pending.is_none() {
            say(&mut out, "Smart ranking warmup cached");
            log(&mut out, LogLevel::Info, "Smart rank warmup: cache hit");
        }
        out
    }
}

/// No request is lost: what was asked for before is done at least as thoroughly.
pub proof fn law_requests_add_up(
    s: SmartRankState,
    kind: SmartRankRefreshMode,
    debounce: bool,
    now: u64,
)
    ensures
        ({
            let after = scheduled(s, kind, debounce, now).refresh_pending;
            &&& after is Some
            &&& rank_state::thoroughness(after->Some_0) >= rank_state::thoroughness(kind)
            &&& s.refresh_pending matches Some(p) ==> rank_state::thoroughness(after->Some_0)
                >= rank_state::thoroughness(p)
        }),
{
}

// ---------------------------------------------------------------------------
// Starting a ranking
// ---------------------------------------------------------------------------

/// Whether the last ranking is of the load order as it is.
pub open spec fn is_hit(s: SmartRankState, library: Library, keys: Seq<String>) -> bool {
    s.cache matches Some(c) && c.profile_key@ == fingerprint::profile_key(library)
        && rank_state::cache_ready(library, c, keys)
}

/// The state once a ranking has been shown, where there is something to be shown.
pub open spec fn previewed(
    after: SmartRankState,
    before: SmartRankState,
    library: Library,
    result: SmartRankResult,
) -> bool {
    if rank_preview::shows_ranking(library, result) {
        &&& after == (SmartRankState {
            preview: after.preview,
            scroll: 0,
            view: SmartRankView::Changes,
            ..scan_cleared(before)
        })
        &&& after.preview matches Some(p) && is_preview(p, library, result)
    } else {
        after == scan_cleared(before)
    }
}

/// Whether a preview shows a ranking.
pub open spec fn is_preview(
    p: SmartRankPreview,
    library: Library,
    result: SmartRankResult,
) -> bool {
    let order = library.profiles@[crate::mod_changes::active_place(library)].order@;
    &&& p.proposed@ == result.order@
    &&& p.report == result.report
    &&& p.warnings@ == result.warnings@
    &&& p.explain.lines@ == result.explain.lines@
    &&& rank_preview::move_views(p.moves@) == rank_preview::moves(
        order,
        result.order@,
        library.mods@,
        order.len() as int,
    )
}

pub open spec fn preview_actions(library: Library, result: SmartRankResult) -> Seq<ActionView> {
    seq![ActionView::Log(LogLevel::Info, rank_preview::scan_line(result.report))]
        + rank_preview::preview_says(library, result)
}

pub open spec fn next_id(id: u64) -> u64 {
    if id == u64::MAX {
        0
    } else {
        (id + 1) as u64
    }
}

/// The state once a ranking has been started.
pub open spec fn started(
    after: SmartRankState,
    before: SmartRankState,
    library: Library,
    mode: SmartRankMode,
    refresh: SmartRankRefreshMode,
) -> bool {
    &&& after == (SmartRankState {
        scan_id: next_id(before.scan_id),
        scan_active: Some(next_id(before.scan_id)),
        scan_profile_key: after.scan_profile_key,
        mode: Some(mode),
        active: true,
        refresh_kind: Some(refresh),
        progress: None,
        view: SmartRankView::Changes,
        scroll: 0,
        ..before
    })
    &&& text::text_opt(after.scan_profile_key) == Some(fingerprint::profile_key(library))
}

pub open spec fn start_says(
    s: SmartRankState,
    mode: SmartRankMode,
    refresh: SmartRankRefreshMode,
) -> Seq<ActionView> {
    (if s.cache is Some {
        seq![ActionView::Log(LogLevel::Info, "Smart rank cache miss (profile change)"@)]
    } else {
        Seq::empty()
    }) + seq![
        ActionView::Status(
            match mode {
                SmartRankMode::Preview => "Smart ranking: scanning..."@,
                SmartRankMode::Warmup => "Smart ranking: warmup scan..."@,
            },
        ),
        ActionView::Log(LogLevel::Info, "Smart ranking scan started"@),
        ActionView::Rank(next_id(s.scan_id), refresh),
    ]
}

/// What starting a ranking does: nothing while one is under way; where the last one
/// will do, it is shown.
pub open spec fn start_step(
    after: SmartRankState,
    before: SmartRankState,
    library: Library,
    keys: Seq<String>,
    mode: SmartRankMode,
    refresh: SmartRankRefreshMode,
    says: Seq<ActionView>,
) -> bool {
    if before.active {
        after == before && says == Seq::<ActionView>::empty()
    } else if is_hit(before, library, keys) {
        let result = before.cache->Some_0.result->Some_0;
        match mode {
            SmartRankMode::Preview => {
                &&& previewed(after, before, library, result)
                &&& says == preview_actions(library, result)
            },
            SmartRankMode::Warmup => {
                &&& after == scan_cleared(before)
                &&& says == seq![
                    ActionView::Log(LogLevel::Info, "Smart rank warmup: cache hit"@),
                    ActionView::Status("Smart ranking warmup cached"@),
                ]
            },
        }
    } else {
        started(after, before, library, mode, refresh) && says == start_says(before, mode, refresh)
    }
}

/// What starting the ranking that was asked for does: nothing before its time, nor while
/// something else is going on.
pub open spec fn restart_step(
    after: SmartRankState,
    before: SmartRankState,
    library: Library,
    keys: Seq<String>,
    held_up: bool,
    now: u64,
    says: Seq<ActionView>,
) -> bool {
    let waits = before.refresh_at matches Some(t) && now < t;
    match before.refresh_pending {
        Some(pending) if !waits && !before.active && !held_up => start_step(
            after,
            SmartRankState { refresh_pending: None, refresh_at: None, ..before },
            library,
            keys,
            SmartRankMode::Warmup,
            rank_state::resolved_mode(pending, library, before.cache, keys),
            says,
        ),
        _ => after == before && says == Seq::<ActionView>::empty(),
    }
}

impl SmartRankState {
    /// Shows a ranking.
    fn show_result(&mut self, library: &Library, result: &SmartRankResult) -> (out: Vec<Action>)
        ensures
            previewed(*final(self), *old(self), *library, *result),
            actions::action_views(out@) == preview_actions(*library, *result),
    {
        self.clear_smart_rank_scan_state();
        let copy = copy_result(result);
        assert(rank_preview::preview_says(*library, copy) == rank_preview::preview_says(
            *library,
            *result,
        ));
        let (preview, out) = finalize_smart_rank_preview(library, copy);
        if preview.is_some() {
            self.preview = preview;
            self.scroll = 0;
            self.view = SmartRankView::Changes;
        }
        out
    }

    /// Starts a ranking.
    pub fn start_smart_rank_scan(
        &mut self,
        mode: SmartRankMode,
        refresh: SmartRankRefreshMode,
        library: &Library,
        keys: &Vec<String>,
    ) -> (out: Vec<Action>)
        requires
            keys@.len() == library.mods@.len(),
        ensures
            start_step(
                *final(self),
                *old(self),
                *library,
                keys@,
                mode,
                refresh,
                actions::action_views(out@),
            ),
    {
        let mut out = no_actions();
        if self.active {
            return out;
        }
        let key = smart_rank_profile_key_for(library);
        let hit = match &self.cache {
            Some(c) => if same_text(c.profile_key.as_str(), key.as_str())
                && smart_rank_cache_ready_for(library, c, keys) {
                match &c.result {
                    Some(r) => Some(copy_result(r)),
                    None => None,
                }
            } else {
                None
            },
            None => None,
        };
        if let Some(result) = hit {
            assert(is_hit(*old(self), *library, keys@));
            let ghost kept = old(self).cache->Some_0.result->Some_0;
            assert(same_result(result, kept));
            match mode {
                SmartRankMode::Preview => {
                    assert(rank_preview::preview_says(*library, result)
                        == rank_preview::preview_says(*library, kept));
                    return self.show_result(library, &result);
                },
                SmartRankMode::Warmup => {
                    self.clear_smart_rank_scan_state();
                    log(&mut out, LogLevel::Info, "Smart rank warmup: cache hit");
                    say(&mut out, "Smart ranking warmup cached");
                    assert(actions::action_views(out@) =~= seq![
                        ActionView::Log(LogLevel::Info, "Smart rank warmup: cache hit"@),
                        ActionView::Status("Smart ranking warmup cached"@),
                    ]);
                    return out;
                },
            }
        }
        if self.cache.is_some() {
            log(&mut out, LogLevel::Info, "Smart rank cache miss (profile change)");
        }
        self.scan_id = self.scan_id.wrapping_add(1);
        self.scan_active = Some(self.scan_id);
        self.scan_profile_key = Some(key);
        self.mode = Some(mode);
        self.active = true;
        self.refresh_kind = Some(refresh);
        self.progress = None;
        self.view = SmartRankView::Changes;
        self.scroll = 0;
        say(
            &mut out,
            match mode {
                SmartRankMode::Preview => "Smart ranking: scanning...",
                SmartRankMode::Warmup => "Smart ranking: warmup scan...",
            },
        );
        log(&mut out, LogLevel::Info, "Smart ranking scan started");
        also(&mut out, Action::Rank(self.scan_id, refresh));
        assert(actions::action_views(out@) =~= start_says(*old(self), mode, refresh));
        out
    }

    /// Starts the ranking that was asked for, once its time has come and nothing else
    /// is going on.
    pub fn maybe_restart_smart_rank(
        &mut self,
        library: &Library,
        keys: &Vec<String>,
        busy: bool,
        paths_ready: bool,
        now: u64,
    ) -> (out: Vec<Action>)
        requires
            keys@.len() == library.mods@.len(),
        ensures
            restart_step(
                *final(self),
                *old(self),
                *library,
                keys@,
                busy || !paths_ready,
                now,
                actions::action_views(out@),
            ),
    {
        let pending = match self.refresh_pending {
            Some(p) => p,
            None => return no_actions(),
        };
        let waits = match self.refresh_at {
            Some(t) => now < t,
            None => false,
        };
        if waits || self.active || busy || !paths_ready {
            return no_actions();
        }
        self.refresh_pending = None;
        self.refresh_at = None;
        let refresh = resolve_smart_rank_refresh_kind(pending, library, &self.cache, keys);
        self.start_smart_rank_scan(SmartRankMode::Warmup, refresh, library, keys)
    }
}

// ---------------------------------------------------------------------------
// What a ranking reports
// ---------------------------------------------------------------------------

pub open spec fn group_label(g: SmartRankGroup) -> Seq<char> {
    match g {
        SmartRankGroup::Loose => "Loose"@,
        SmartRankGroup::Pak => "Pak"@,
    }
}

/// How far a ranking is, in words.
pub open spec fn progress_line(p: SmartRankProgress) -> Seq<char> {
    if p.total > 0 {
        "Smart ranking: "@ + group_label(p.group) + " "@ + rank_preview::pair(p.scanned, p.total)
            + " ("@ + p.name@ + ")"@
    } else {
        "Smart ranking: "@ + group_label(p.group) + " ("@ + p.name@ + ")"@
    }
}

pub fn show_progress(p: &SmartRankProgress) -> (r: String)
    ensures
        r@ == progress_line(*p),
{
    let mut r = concat2("Smart ranking: ", p.group.label());
    if p.total > 0 {
        push_text(&mut r, " ");
        push_text(&mut r, show_pair(p.scanned, p.total).as_str());
    }
    push_text(&mut r, " (");
    push_text(&mut r, p.name.as_str());
    push_text(&mut r, ")");
    r
}

pub open spec fn warmup_line(scanned: usize, r: SmartRankReport) -> Seq<char> {
    "Smart rank warmup: scanned "@ + text::decimal(scanned as nat) + " mod(s), loose "@
        + rank_preview::pair(r.scanned_loose, r.enabled_loose) + " pak "@ + rank_preview::pair(
        r.scanned_pak,
        r.enabled_pak,
    ) + " in "@ + text::decimal(r.elapsed_ms as nat) + "ms"@
}

fn show_warmup(scanned: usize, report: &SmartRankReport) -> (r: String)
    ensures
        r@ == warmup_line(scanned, *report),
{
    let mut r = concat2("Smart rank warmup: scanned ", show_usize(scanned).as_str());
    push_text(&mut r, " mod(s), loose ");
    push_text(&mut r, show_pair(report.scanned_loose, report.enabled_loose).as_str());
    push_text(&mut r, " pak ");
    push_text(&mut r, show_pair(report.scanned_pak, report.enabled_pak).as_str());
    push_text(&mut r, " in ");
    push_text(&mut r, show_u64(report.elapsed_ms).as_str());
    push_text(&mut r, "ms");
    r
}

/// Whether what is known is stored now: not more often than every so often, unless it
/// must be.
pub open spec fn saves_now(last: Option<u64>, force: bool, now: u64) -> bool {
    force || !(last matches Some(t) && now - t < SMART_RANK_CACHE_SAVE_DEBOUNCE_MS)
}

/// What storing does; there must be something to store.
pub open spec fn save_says(s: SmartRankState, force: bool, now: u64) -> Seq<ActionView> {
    if saves_now(s.cache_last_saved, force, now) && (s.cache matches Some(c)
        && !c.mods@.is_empty()) {
        seq![ActionView::SaveRanking]
    } else {
        Seq::empty()
    }
}

/// When it was last stored.
pub open spec fn saved_at(s: SmartRankState, force: bool, now: u64) -> Option<u64> {
    if saves_now(s.cache_last_saved, force, now) {
        Some(now)
    } else {
        s.cache_last_saved
    }
}

/// What is known of mods so far.
pub open spec fn known_mods(s: SmartRankState) -> Map<Seq<char>, CachedMod> {
    match s.cache {
        Some(c) => c.mods@,
        None => Map::empty(),
    }
}

/// What is known once something was read of a mod. The last ranking no longer counts.
pub open spec fn learned(
    after: Option<SmartRankCache>,
    before: SmartRankState,
    library: Library,
    id: Seq<char>,
    cached: CachedMod,
) -> bool {
    &&& after matches Some(c)
    &&& c.version == SMART_RANK_CACHE_VERSION
    &&& c.profile_key@ == match before.cache {
        Some(b) => b.profile_key@,
        None => fingerprint::profile_key(library),
    }
    &&& c.mods@ == known_mods(before).insert(id, cached)
    &&& c.result is None
}

pub open spec fn is_current(s: SmartRankState, library: Library) -> bool {
    text::text_opt(s.scan_profile_key) == Some(fingerprint::profile_key(library))
}

pub open spec fn ignored_says() -> Seq<ActionView> {
    seq![ActionView::Log(LogLevel::Warn, "Smart rank scan ignored (profile changed)"@)]
}

/// What progress does: what was read is kept even where the ranking has become useless.
pub open spec fn progress_step(
    after: SmartRankState,
    before: SmartRankState,
    library: Library,
    progress: SmartRankProgress,
    id: Seq<char>,
    cached: Option<CachedMod>,
    now: u64,
    says: Seq<ActionView>,
) -> bool {
    if !is_current(before, library) {
        after == scan_cleared(before) && says == ignored_says()
    } else {
        let mid = SmartRankState { cache: after.cache, ..before };
        &&& match cached {
            Some(c) => learned(after.cache, before, library, id, c),
            None => after.cache == before.cache,
        }
        &&& after == (SmartRankState {
            cache: after.cache,
            cache_last_saved: if cached is Some {
                saved_at(before, false, now)
            } else {
                before.cache_last_saved
            },
            progress: if before.interrupt {
                before.progress
            } else {
                Some(progress)
            },
            ..before
        })
        &&& says == (if cached is Some {
            save_says(mid, false, now)
        } else {
            Seq::empty()
        }) + (if before.interrupt {
            Seq::empty()
        } else {
            seq![ActionView::Status(progress_line(progress))]
        })
    }
}

/// What is known once a ranking is done.
pub open spec fn finished_cache(
    after: Option<SmartRankCache>,
    library: Library,
    mods: Map<Seq<char>, CachedMod>,
    result: SmartRankResult,
) -> bool {
    &&& after matches Some(c)
    &&& c.version == SMART_RANK_CACHE_VERSION
    &&& c.profile_key@ == fingerprint::profile_key(library)
    &&& c.mods@ == mods
    &&& c.result == Some(result)
}

/// What the end of a ranking does.
pub open spec fn finished_step(
    after: SmartRankState,
    before: SmartRankState,
    library: Library,
    result: SmartRankResult,
    mods: Map<Seq<char>, CachedMod>,
    scanned: usize,
    now: u64,
    says: Seq<ActionView>,
) -> bool {
    if !is_current(before, library) {
        after == scan_cleared(before) && says == ignored_says()
    } else if before.interrupt {
        &&& after == scan_cleared(before)
        &&& says == seq![ActionView::Log(LogLevel::Info, "Smart rank result ignored (stale)"@)]
    } else {
        let mid = SmartRankState {
            cache: after.cache,
            cache_last_saved: Some(now),
            ..before
        };
        &&& finished_cache(after.cache, library, mods, result)
        &&& if before.mode == Some(SmartRankMode::Warmup) {
            &&& after == scan_cleared(mid)
            &&& says == save_says(mid, true, now) + seq![
                ActionView::Log(LogLevel::Info, warmup_line(scanned, result.report)),
                ActionView::Status("Smart ranking warmup complete"@),
            ]
        } else {
            &&& previewed(after, mid, library, result)
            &&& says == save_says(mid, true, now) + preview_actions(library, result)
        }
    }
}

/// What the failure of a ranking does.
pub open spec fn failed_step(
    after: SmartRankState,
    before: SmartRankState,
    error: Seq<char>,
    says: Seq<ActionView>,
) -> bool {
    if before.interrupt {
        &&& after == scan_cleared(before)
        &&& says == seq![ActionView::Log(LogLevel::Warn, "Smart rank failed after interrupt"@)]
    } else {
        &&& after == scan_cleared(SmartRankState { cache: after.cache, ..before })
        &&& match (after.cache, before.cache) {
            (Some(a), Some(b)) => a == (SmartRankCache { result: None, ..b }),
            (None, None) => true,
            _ => false,
        }
        &&& says == seq![
            ActionView::Status("Smart ranking failed: "@ + error),
            ActionView::Log(LogLevel::Error, "Smart ranking failed: "@ + error),
        ]
    }
}

/// What a report of a ranking does. Reports of other rankings than the one under way
/// do nothing.
pub open spec fn message_step(
    after: SmartRankState,
    before: SmartRankState,
    library: Library,
    message: SmartRankMessage,
    now: u64,
    says: Seq<ActionView>,
) -> bool {
    match message {
        SmartRankMessage::Progress { scan_id, progress, mod_id, cached } => {
            if before.scan_active != Some(scan_id) {
                after == before && says == Seq::<ActionView>::empty()
            } else {
                progress_step(after, before, library, progress, mod_id@, cached, now, says)
            }
        },
        SmartRankMessage::Finished { scan_id, result, mods, scanned_mods } => {
            if before.scan_active != Some(scan_id) {
                after == before && says == Seq::<ActionView>::empty()
            } else {
                finished_step(after, before, library, result, mods@, scanned_mods, now, says)
            }
        },
        SmartRankMessage::Failed { scan_id, error } => {
            if before.scan_active != Some(scan_id) {
                after == before && says == Seq::<ActionView>::empty()
            } else {
                failed_step(after, before, error@, says)
            }
        },
    }
}

impl SmartRankState {
    pub(crate) fn maybe_save_smart_rank_cache(&mut self, force: bool, now: u64) -> (out: Vec<Action>)
        ensures
            *final(self) == (SmartRankState {
                cache_last_saved: saved_at(*old(self), force, now),
                ..*old(self)
            }),
            actions::action_views(out@) == save_says(*old(self), force, now),
    {
        let mut out = no_actions();
        if !force {
            if let Some(t) = self.cache_last_saved {
                if now < t || now - t < SMART_RANK_CACHE_SAVE_DEBOUNCE_MS {
                    return out;
                }
            }
        }
        if let Some(c) = &self.cache {
            if !c.mods.is_empty() {
                also(&mut out, Action::SaveRanking);
            }
        }
        self.cache_last_saved = Some(now);
        assert(actions::action_views(out@) =~= save_says(*old(self), force, now));
        out
    }

    fn smart_rank_scan_matches(&self, scan_id: u64) -> (r: bool)
        ensures
            r == (self.scan_active == Some(scan_id)),
    {
        match self.scan_active {
            Some(id) => id == scan_id,
            None => false,
        }
    }

    fn smart_rank_scan_profile_matches(&self, key: &str) -> (r: bool)
        ensures
            r == (text::text_opt(self.scan_profile_key) == Some(key@)),
    {
        match &self.scan_profile_key {
            Some(k) => same_text(k.as_str(), key),
            None => false,
        }
    }

    fn take_progress(
        &mut self,
        library: &Library,
        progress: SmartRankProgress,
        mod_id: String,
        cached: Option<CachedMod>,
        now: u64,
    ) -> (out: Vec<Action>)
        ensures
            progress_step(
                *final(self),
                *old(self),
                *library,
                progress,
                mod_id@,
                cached,
                now,
                actions::action_views(out@),
            ),
    {
        let mut out = no_actions();
        let key = smart_rank_profile_key_for(library);
        if !self.smart_rank_scan_profile_matches(key.as_str()) {
            log(&mut out, LogLevel::Warn, "Smart rank scan ignored (profile changed)");
            self.clear_smart_rank_scan_state();
            assert(actions::action_views(out@) =~= ignored_says());
            return out;
        }
        if let Some(c) = cached {
            let (profile_key, known) = match self.cache.take() {
                Some(b) => (b.profile_key, b.mods),
                None => (key, StringHashMap::new()),
            };
            let mut mods = known;
            mods.insert(mod_id, c);
            self.cache = Some(
                SmartRankCache {
                    version: SMART_RANK_CACHE_VERSION,
                    profile_key,
                    mods,
                    result: None,
                },
            );
            let more = self.maybe_save_smart_rank_cache(false, now);
            also_all(&mut out, more);
        }
        let ghost first = actions::action_views(out@);
        if self.interrupt {
            assert(first =~= first + Seq::<ActionView>::empty());
            return out;
        }
        say(&mut out, show_progress(&progress).as_str());
        assert(actions::action_views(out@) =~= first + seq![
            ActionView::Status(progress_line(progress)),
        ]);
        self.progress = Some(progress);
        out
    }

    fn take_result(
        &mut self,
        library: &Library,
        result: SmartRankResult,
        mods: StringHashMap<CachedMod>,
        scanned: usize,
        now: u64,
    ) -> (out: Vec<Action>)
        ensures
            finished_step(
                *final(self),
                *old(self),
                *library,
                result,
                mods@,
                scanned,
                now,
                actions::action_views(out@),
            ),
    {
        let mut out = no_actions();
        let key = smart_rank_profile_key_for(library);
        if !self.smart_rank_scan_profile_matches(key.as_str()) {
            log(&mut out, LogLevel::Warn, "Smart rank scan ignored (profile changed)");
            self.clear_smart_rank_scan_state();
            assert(actions::action_views(out@) =~= ignored_says());
            return out;
        }
        if self.interrupt {
            self.clear_smart_rank_scan_state();
            log(&mut out, LogLevel::Info, "Smart rank result ignored (stale)");
            return out;
        }
        let copy = copy_result(&result);
        assert(rank_preview::preview_says(*library, copy) == rank_preview::preview_says(
            *library,
            result,
        ));
        self.cache = Some(
            SmartRankCache {
                version: SMART_RANK_CACHE_VERSION,
                profile_key: key,
                mods,
                result: Some(result),
            },
        );
        let more = self.maybe_save_smart_rank_cache(true, now);
        also_all(&mut out, more);
        let ghost first = actions::action_views(out@);
        if matches!(self.mode, Some(SmartRankMode::Warmup)) {
            self.clear_smart_rank_scan_state();
            log(&mut out, LogLevel::Info, show_warmup(scanned, &copy.report).as_str());
            say(&mut out, "Smart ranking warmup complete");
            assert(actions::action_views(out@) =~= first + seq![
                ActionView::Log(LogLevel::Info, warmup_line(scanned, result.report)),
                ActionView::Status("Smart ranking warmup complete"@),
            ]);
        } else {
            let shown = self.show_result(library, &copy);
            also_all(&mut out, shown);
        }
        out
    }

    fn take_failure(&mut self, error: &str) -> (out: Vec<Action>)
        ensures
            failed_step(*final(self), *old(self), error@, actions::action_views(out@)),
    {
        let mut out = no_actions();
        if self.interrupt {
            self.clear_smart_rank_scan_state();
            log(&mut out, LogLevel::Warn, "Smart rank failed after interrupt");
            return out;
        }
        if let Some(c) = self.cache.take() {
            self.cache = Some(
                SmartRankCache {
                    version: c.version,
                    profile_key: c.profile_key,
                    mods: c.mods,
                    result: None,
                },
            );
        }
        self.clear_smart_rank_scan_state();
        let line = concat2("Smart ranking failed: ", error);
        say(&mut out, line.as_str());
        log(&mut out, LogLevel::Error, line.as_str());
        assert(actions::action_views(out@) =~= seq![
            ActionView::Status("Smart ranking failed: "@ + error@),
            ActionView::Log(LogLevel::Error, "Smart ranking failed: "@ + error@),
        ]);
        out
    }

    /// Takes in what a ranking reports.
    pub fn handle_smart_rank_message(
        &mut self,
        message: SmartRankMessage,
        library: &Library,
        now: u64,
    ) -> (out: Vec<Action>)
        ensures
            message_step(
                *final(self),
                *old(self),
                *library,
                message,
                now,
                actions::action_views(out@),
            ),
    {
        match message {
            SmartRankMessage::Progress { scan_id, progress, mod_id, cached } => {
                if !self.smart_rank_scan_matches(scan_id) {
                    return no_actions();
                }
                self.take_progress(library, progress, mod_id, cached, now)
            },
            SmartRankMessage::Finished { scan_id, result, mods, scanned_mods } => {
                if !self.smart_rank_scan_matches(scan_id) {
                    return no_actions();
                }
                self.take_result(library, result, mods, scanned_mods, now)
            },
            SmartRankMessage::Failed { scan_id, error } => {
                if !self.smart_rank_scan_matches(scan_id) {
                    return no_actions();
                }
                self.take_failure(error.as_str())
            },
        }
    }
}

/// A ranking that was interrupted is never shown, whatever it reports.
pub proof fn law_interrupted_is_not_shown(
    after: SmartRankState,
    before: SmartRankState,
    library: Library,
    message: SmartRankMessage,
    now: u64,
    says: Seq<ActionView>,
)
    requires
        message_step(after, before, library, message, now, says),
        before.interrupt,
    ensures
        after.preview == before.preview,
        after.refresh_pending == before.refresh_pending,
{
}

} // verus!
