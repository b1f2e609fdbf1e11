//! A run through the changes that make mods be ranked again: which of them reads what.
use crate::fingerprint;
use crate::fingerprint::smart_rank_profile_key_for;
use crate::library;
use crate::library::{find_profile, Library, ModEntry, Profile, ProfileEntry};
use crate::mod_changes;
use crate::mod_changes::{drop_entries, drop_mods, find_mod};
use crate::mod_view;
use crate::mod_view::swap_entries;
use crate::native_apply;
use crate::rank_report;
use crate::rank_report::show_truth;
use crate::rank_state;
use crate::rank_state::{
    smart_rank_cache_ready_for, CachedMod, SmartRankCache, SmartRankRefreshMode,
    SMART_RANK_CACHE_VERSION,
};
use crate::smart_rank::SmartRankResult;
use crate::sorting::has_string;
use crate::text;
use crate::text::{add_line, concat3, join_texts, show_usize};
use vstd::hash_map::StringHashMap;
use vstd::prelude::*;

verus! {

/// How many changes are made in a row.
pub const STRESS_STEPS: usize = 12;

/// Which change was made last.
#[derive(Debug, Clone, Copy, PartialEq, Eq, Structural)]
pub enum ScenarioStage {
    Baseline,
    Toggle,
    Reorder,
    /// One of a row of changes.
    Stress(usize),
    Remove,
    Add,
    Done,
}

/// A run, on a copy of the library.
pub struct Scenario {
    pub library: Library,
    pub cache: SmartRankCache,
    pub lines: Vec<String>,
    pub stage: ScenarioStage,
    /// How many changes are made in a row.
    pub iterations: usize,
    /// How many mods were read meanwhile, and how often all of them.
    pub stress_scans: usize,
    pub stress_full: usize,
    /// The mod that was taken out.
    pub removed: Option<ModEntry>,
}

/// What a ranking came to.
pub enum RankRun {
    Done { scanned: usize, mods: StringHashMap<CachedMod>, result: SmartRankResult },
    Failed(String),
}

// ---------------------------------------------------------------------------
// How thoroughly
// ---------------------------------------------------------------------------

pub open spec fn mode_word(mode: SmartRankRefreshMode) -> Seq<char> {
    match mode {
        SmartRankRefreshMode::Full => "Full"@,
        SmartRankRefreshMode::Incremental => "Incremental"@,
        SmartRankRefreshMode::ReorderOnly => "ReorderOnly"@,
    }
}

pub(crate) fn show_mode(mode: SmartRankRefreshMode) -> (r: &'static str)
    ensures
        r@ == mode_word(mode),
{
    match mode {
        SmartRankRefreshMode::Full => "Full",
        SmartRankRefreshMode::Incremental => "Incremental",
        SmartRankRefreshMode::ReorderOnly => "ReorderOnly",
    }
}

/// How thoroughly a change is followed by default.
pub open spec fn requested_mode(stage: ScenarioStage) -> Option<SmartRankRefreshMode> {
    match stage {
        ScenarioStage::Baseline => Some(SmartRankRefreshMode::Full),
        ScenarioStage::Toggle => Some(SmartRankRefreshMode::Incremental),
        ScenarioStage::Reorder => Some(SmartRankRefreshMode::ReorderOnly),
        ScenarioStage::Stress(k) => if k % 2 == 0 {
            Some(SmartRankRefreshMode::Incremental)
        } else {
            Some(SmartRankRefreshMode::ReorderOnly)
        },
        ScenarioStage::Remove => Some(SmartRankRefreshMode::Incremental),
        ScenarioStage::Add => Some(SmartRankRefreshMode::Incremental),
        ScenarioStage::Done => None,
    }
}

/// How thoroughly mods have to be read, with what is known.
pub open spec fn needed_mode(
    requested: SmartRankRefreshMode,
    library: Library,
    cache: SmartRankCache,
    keys: Seq<String>,
) -> SmartRankRefreshMode {
    if cache.result is None {
        SmartRankRefreshMode::Full
    } else {
        rank_state::resolved_mode(requested, library, Some(cache), keys)
    }
}

fn find_needed_mode(
    requested: SmartRankRefreshMode,
    library: &Library,
    cache: &SmartRankCache,
    keys: &Vec<String>,
) -> (r: SmartRankRefreshMode)
    requires
        keys@.len() == library.mods@.len(),
    ensures
        r == needed_mode(requested, *library, *cache, keys@),
{
    if matches!(requested, SmartRankRefreshMode::Full) || cache.version != SMART_RANK_CACHE_VERSION
        || cache.result.is_none() {
        SmartRankRefreshMode::Full
    } else if matches!(requested, SmartRankRefreshMode::ReorderOnly) && !smart_rank_cache_ready_for(
        library,
        cache,
        keys,
    ) {
        SmartRankRefreshMode::Incremental
    } else {
        requested
    }
}

pub open spec fn stage_name(stage: ScenarioStage) -> Seq<char> {
    match stage {
        ScenarioStage::Baseline => "baseline"@,
        ScenarioStage::Toggle => "toggle"@,
        ScenarioStage::Reorder => "reorder"@,
        ScenarioStage::Stress(_) => "stress"@,
        ScenarioStage::Remove => "remove"@,
        ScenarioStage::Add => "add"@,
        ScenarioStage::Done => "done"@,
    }
}

fn show_stage(stage: ScenarioStage) -> (r: &'static str)
    ensures
        r@ == stage_name(stage),
{
    match stage {
        ScenarioStage::Baseline => "baseline",
        ScenarioStage::Toggle => "toggle",
        ScenarioStage::Reorder => "reorder",
        ScenarioStage::Stress(_) => "stress",
        ScenarioStage::Remove => "remove",
        ScenarioStage::Add => "add",
        ScenarioStage::Done => "done",
    }
}

/// The line of a ranking.
pub open spec fn run_line(
    stage: ScenarioStage,
    requested: SmartRankRefreshMode,
    resolved: SmartRankRefreshMode,
    run: RankRun,
) -> Seq<char> {
    let head = stage_name(stage) + ": requested="@ + mode_word(requested) + " resolved="@
        + mode_word(resolved);
    match run {
        RankRun::Done { scanned, .. } => head + " scanned_mods="@ + text::decimal(scanned as nat)
            + " full_rebuild="@ + rank_report::truth(resolved is Full),
        RankRun::Failed(error) => head + " error="@ + error@,
    }
}

// ---------------------------------------------------------------------------
// Changes
// ---------------------------------------------------------------------------

/// The order with its first mod switched, and exchanged with the next where `swaps`.
pub open spec fn first_changed(order: Seq<ProfileEntry>, switches: bool, swaps: bool) -> Seq<
    ProfileEntry,
> {
    let first = if switches && order.len() > 0 {
        order.update(0, ProfileEntry { id: order[0].id, enabled: !order[0].enabled })
    } else {
        order
    };
    if swaps && order.len() > 1 {
        mod_view::swapped(first, 0, 1)
    } else {
        first
    }
}

/// The length of the active load order; nothing where there is none.
pub open spec fn active_len(library: Library) -> nat {
    if mod_changes::active_place(library) < 0 {
        0
    } else {
        mod_view::active_order(library).len()
    }
}

fn find_active_len(library: &Library) -> (r: usize)
    ensures
        r == active_len(*library),
{
    proof {
        library::lemma_profile_index(library.profiles@, library.active_profile@);
    }
    match find_profile(&library.profiles, library.active_profile.as_str()) {
        Some(at) => library.profiles[at].order.len(),
        None => 0,
    }
}

/// Whether a library is another with the first mods of its active load order changed.
pub open spec fn changed_first(
    after: Library,
    before: Library,
    switches: bool,
    swaps: bool,
) -> bool {
    if mod_changes::active_place(before) < 0 {
        after == before
    } else {
        mod_changes::with_active_order(
            after,
            before,
            first_changed(mod_view::active_order(before), switches, swaps),
            before.modsettings_sync_enabled,
        )
    }
}

fn change_first(library: &mut Library, switches: bool, swaps: bool)
    ensures
        changed_first(*final(library), *old(library), switches, swaps),
{
    proof {
        library::lemma_profile_index(library.profiles@, library.active_profile@);
    }
    if let Some(at) = find_profile(&library.profiles, library.active_profile.as_str()) {
        let ghost order = library.profiles@[at as int].order@;
        if switches && library.profiles[at].order.len() > 0 {
            let e = &library.profiles[at].order[0];
            let turned = ProfileEntry { id: e.id.clone(), enabled: !e.enabled };
            library.profiles[at].order[0] = turned;
        }
        if swaps && library.profiles[at].order.len() > 1 {
            swap_entries(&mut library.profiles[at].order, 0, 1);
        }
        assert(library.profiles@[at as int].order@ =~= first_changed(order, switches, swaps));
    }
}

/// Whether a library is another without a mod in its list and its load orders.
pub open spec fn mod_gone(after: Library, before: Library, id: Seq<char>) -> bool {
    &&& after == (Library { mods: after.mods, profiles: after.profiles, ..before })
    &&& after.mods@ == before.mods@.filter(mod_changes::other_mods(id))
    &&& after.profiles@.len() == before.profiles@.len()
    &&& forall|i: int|
        0 <= i < before.profiles@.len() ==> {
            &&& (#[trigger] after.profiles@[i]) == (Profile {
                order: after.profiles@[i].order,
                ..before.profiles@[i]
            })
            &&& after.profiles@[i].order@ == before.profiles@[i].order@.filter(
                mod_changes::other_entries(id),
            )
        }
}

fn take_mod_out(library: &mut Library, id: &str)
    ensures
        mod_gone(*final(library), *old(library), id@),
{
    let ghost start = *library;
    drop_mods(&mut library.mods, id);
    let mut i: usize = 0;
    while i < library.profiles.len()
        invariant
            i <= library.profiles.len(),
            *library == (Library { mods: library.mods, profiles: library.profiles, ..start }),
            library.mods@ == start.mods@.filter(mod_changes::other_mods(id@)),
            library.profiles@.len() == start.profiles@.len(),
            forall|k: int|
                0 <= k < i ==> {
                    &&& (#[trigger] library.profiles@[k]) == (Profile {
                        order: library.profiles@[k].order,
                        ..start.profiles@[k]
                    })
                    &&& library.profiles@[k].order@ == start.profiles@[k].order@.filter(
                        mod_changes::other_entries(id@),
                    )
                },
            forall|k: int|
                i <= k < start.profiles@.len() ==> #[trigger] library.profiles@[k]
                    == start.profiles@[k],
        decreases library.profiles.len() - i,
    {
        drop_entries(&mut library.profiles[i].order, id);
        i = i + 1;
    }
}

/// Whether a library is another with a mod at the end of its list and, switched on, of its
/// active load order.
pub open spec fn mod_back(after: Library, before: Library, m: ModEntry) -> bool {
    &&& after.mods@ == before.mods@.push(m)
    &&& if mod_changes::active_place(before) < 0 {
        after == (Library { mods: after.mods, ..before })
    } else {
        exists|e: ProfileEntry| #[trigger] entry_back(after, before, m, e)
    }
}

pub open spec fn entry_back(
    after: Library,
    before: Library,
    m: ModEntry,
    e: ProfileEntry,
) -> bool {
    &&& e.id@ == m.id@
    &&& e.enabled
    &&& mod_changes::with_active_order(
        (Library { mods: before.mods, ..after }),
        before,
        mod_view::active_order(before).push(e),
        before.modsettings_sync_enabled,
    )
}

fn put_mod_back(library: &mut Library, m: ModEntry)
    ensures
        mod_back(*final(library), *old(library), m),
{
    let ghost start = *library;
    proof {
        library::lemma_profile_index(library.profiles@, library.active_profile@);
    }
    let e = ProfileEntry { id: m.id.clone(), enabled: true };
    let ghost entry = e;
    if let Some(at) = find_profile(&library.profiles, library.active_profile.as_str()) {
        library.profiles[at].order.push(e);
    }
    let ghost mid = *library;
    library.mods.push(m);
    proof {
        assert((Library { mods: start.mods, ..*library }) == mid);
        if mod_changes::active_place(start) >= 0 {
            assert(entry_back(*library, start, m, entry));
        }
    }
}

/// The first of the entries from `i` on whose mod is there and has files that the manager
/// keeps, or -1.
pub open spec fn rooted_entry(
    order: Seq<ProfileEntry>,
    mods: Seq<ModEntry>,
    rooted: Seq<Seq<char>>,
    i: int,
) -> int
    decreases order.len() - i,
{
    if i >= order.len() {
        -1
    } else if native_apply::first_mod(mods, order[i].id@) >= 0 && rooted.contains(order[i].id@) {
        i
    } else {
        rooted_entry(order, mods, rooted, i + 1)
    }
}

/// The mod that is taken out, or -1.
pub open spec fn removable(library: Library, rooted: Seq<Seq<char>>) -> int {
    if mod_changes::active_place(library) < 0 {
        -1
    } else {
        let order = mod_view::active_order(library);
        let i = rooted_entry(order, library.mods@, rooted, 0);
        if i < 0 {
            -1
        } else {
            native_apply::first_mod(library.mods@, order[i].id@)
        }
    }
}

fn find_removable(library: &Library, rooted: &Vec<String>) -> (r: Option<usize>)
    ensures
        match r {
            Some(k) => k == removable(*library, text::texts(rooted@)) && k < library.mods@.len(),
            None => removable(*library, text::texts(rooted@)) < 0,
        },
{
    let ghost kept = text::texts(rooted@);
    proof {
        library::lemma_profile_index(library.profiles@, library.active_profile@);
    }
    if let Some(at) = find_profile(&library.profiles, library.active_profile.as_str()) {
        let order = &library.profiles[at].order;
        let mut i: usize = 0;
        while i < order.len()
            invariant
                i <= order.len(),
                kept == text::texts(rooted@),
                at == mod_changes::active_place(*library),
                *order == library.profiles@[at as int].order,
                rooted_entry(order@, library.mods@, kept, 0) == rooted_entry(
                    order@,
                    library.mods@,
                    kept,
                    i as int,
                ),
            decreases order.len() - i,
        {
            proof {
                native_apply::lemma_first_mod(library.mods@, order@[i as int].id@);
            }
            if let Some(k) = find_mod(&library.mods, order[i].id.as_str()) {
                if has_string(rooted, order[i].id.as_str()) {
                    return Some(k);
                }
            }
            i = i + 1;
        }
    }
    None
}

// ---------------------------------------------------------------------------
// The run
// ---------------------------------------------------------------------------

pub open spec fn stress_line(s: Scenario) -> Seq<char> {
    "stress: iterations="@ + text::decimal(s.iterations as nat) + " full_rebuilds="@
        + text::decimal(s.stress_full as nat) + " scanned_mods="@ + text::decimal(
        s.stress_scans as nat,
    )
}

/// The lines of a run with one more.
pub open spec fn with_line(after: Scenario, before: Scenario, line: Seq<char>) -> bool {
    text::texts(after.lines@) == text::texts(before.lines@).push(line)
}

/// Whether a run has come to the row of changes, over the run `mid`.
pub open spec fn stress_begun(after: Scenario, mid: Scenario) -> bool {
    &&& after == (Scenario {
        library: after.library,
        stage: ScenarioStage::Stress(0),
        iterations: after.iterations,
        ..mid
    })
    &&& after.iterations == if active_len(mid.library) < STRESS_STEPS {
        active_len(mid.library)
    } else {
        STRESS_STEPS as nat
    }
    &&& changed_first(after.library, mid.library, true, true)
}

/// Whether a run has come to taking a mod out, over the run `mid`.
pub open spec fn removal_begun(after: Scenario, mid: Scenario, rooted: Seq<Seq<char>>) -> bool {
    let k = removable(mid.library, rooted);
    if k < 0 {
        &&& after == (Scenario { lines: after.lines, stage: ScenarioStage::Done, ..mid })
        &&& with_line(after, mid, "remove/add: skipped (no managed mod root found)"@)
    } else {
        let m = mid.library.mods@[k];
        &&& after == (Scenario {
            library: after.library,
            cache: after.cache,
            stage: ScenarioStage::Remove,
            removed: after.removed,
            ..mid
        })
        &&& after.removed matches Some(r) && r.same_as(m)
        &&& mod_gone(after.library, mid.library, m.id@)
        &&& after.cache == (SmartRankCache { mods: after.cache.mods, ..mid.cache })
        &&& after.cache.mods@ == mid.cache.mods@.remove(m.id@)
    }
}

impl Scenario {
    pub fn new(library: Library) -> (r: Self)
        ensures
            r.library == library,
            r.cache.version == SMART_RANK_CACHE_VERSION,
            r.cache.profile_key@ == fingerprint::profile_key(library),
            r.cache.mods@ == Map::<Seq<char>, CachedMod>::empty(),
            r.cache.result is None,
            text::texts(r.lines@) == seq!["Smart rank scenario (headless)"@],
            r.stage == ScenarioStage::Baseline,
            r.iterations == 0,
            r.stress_scans == 0,
            r.stress_full == 0,
            r.removed is None,
    {
        let cache = SmartRankCache {
            version: SMART_RANK_CACHE_VERSION,
            profile_key: smart_rank_profile_key_for(&library),
            mods: StringHashMap::new(),
            result: None,
        };
        let mut lines: Vec<String> = Vec::new();
        lines.push("Smart rank scenario (headless)".to_owned());
        assert(text::texts(lines@) =~= seq!["Smart rank scenario (headless)"@]);
        Scenario {
            library,
            cache,
            lines,
            stage: ScenarioStage::Baseline,
            iterations: 0,
            stress_scans: 0,
            stress_full: 0,
            removed: None,
        }
    }

    /// The ranking that follows the last change: how thorough it is by default, and how
    /// thorough it has to be.
    pub fn request(&self, keys: &Vec<String>) -> (r: Option<
        (SmartRankRefreshMode, SmartRankRefreshMode),
    >)
        requires
            keys@.len() == self.library.mods@.len(),
        ensures
            r == match requested_mode(self.stage) {
                Some(mode) => Some(
                    (mode, needed_mode(mode, self.library, self.cache, keys@)),
                ),
                None => None,
            },
    {
        let mode = match self.stage {
            ScenarioStage::Baseline => SmartRankRefreshMode::Full,
            ScenarioStage::Toggle => SmartRankRefreshMode::Incremental,
            ScenarioStage::Reorder => SmartRankRefreshMode::ReorderOnly,
            ScenarioStage::Stress(k) => if k % 2 == 0 {
                SmartRankRefreshMode::Incremental
            } else {
                SmartRankRefreshMode::ReorderOnly
            },
            ScenarioStage::Remove => SmartRankRefreshMode::Incremental,
            ScenarioStage::Add => SmartRankRefreshMode::Incremental,
            ScenarioStage::Done => return None,
        };
        Some((mode, find_needed_mode(mode, &self.library, &self.cache, keys)))
    }

    /// Takes in what a ranking came to.
    pub fn record(
        &mut self,
        requested: SmartRankRefreshMode,
        resolved: SmartRankRefreshMode,
        run: RankRun,
    )
        requires
            run matches RankRun::Done { scanned, .. } ==> old(self).stress_scans + scanned
                <= usize::MAX,
            old(self).stress_full < usize::MAX,
        ensures
            ({
                let stress = old(self).stage is Stress;
                &&& *final(self) == (Scenario {
                    cache: final(self).cache,
                    lines: final(self).lines,
                    stress_scans: final(self).stress_scans,
                    stress_full: final(self).stress_full,
                    ..*old(self)
                })
                &&& if stress {
                    final(self).lines == old(self).lines
                } else {
                    with_line(
                        *final(self),
                        *old(self),
                        run_line(old(self).stage, requested, resolved, run),
                    )
                }
                &&& match run {
                    RankRun::Done { scanned, mods, result } => {
                        &&& final(self).cache.version == SMART_RANK_CACHE_VERSION
                        &&& final(self).cache.profile_key@ == fingerprint::profile_key(
                            old(self).library,
                        )
                        &&& final(self).cache.mods == mods
                        &&& final(self).cache.result == Some(result)
                        &&& final(self).stress_scans == if stress {
                            old(self).stress_scans + scanned
                        } else {
                            old(self).stress_scans as int
                        }
                        &&& final(self).stress_full == if stress && resolved is Full {
                            old(self).stress_full + 1
                        } else {
                            old(self).stress_full as int
                        }
                    },
                    RankRun::Failed(_) => {
                        &&& final(self).cache == old(self).cache
                        &&& final(self).stress_scans == old(self).stress_scans
                        &&& final(self).stress_full == old(self).stress_full
                    },
                }
            }),
    {
        let stress = matches!(self.stage, ScenarioStage::Stress(_));
        if !stress {
            let mut line = concat3(show_stage(self.stage), ": requested=", show_mode(requested));
            line.append(" resolved=");
            line.append(show_mode(resolved));
            match &run {
                RankRun::Done { scanned, .. } => {
                    line.append(" scanned_mods=");
                    line.append(show_usize(*scanned).as_str());
                    line.append(" full_rebuild=");
                    line.append(show_truth(matches!(resolved, SmartRankRefreshMode::Full)));
                },
                RankRun::Failed(error) => {
                    line.append(" error=");
                    line.append(error.as_str());
                },
            }
            add_line(&mut self.lines, line);
        }
        match run {
            RankRun::Done { scanned, mods, result } => {
                if stress {
                    self.stress_scans = self.stress_scans + scanned;
                    if matches!(resolved, SmartRankRefreshMode::Full) {
                        self.stress_full = self.stress_full + 1;
                    }
                }
                self.cache = SmartRankCache {
                    version: SMART_RANK_CACHE_VERSION,
                    profile_key: smart_rank_profile_key_for(&self.library),
                    mods,
                    result: Some(result),
                };
            },
            RankRun::Failed(_) => {},
        }
    }

    fn begin_stress(&mut self)
        ensures
            stress_begun(*final(self), *old(self)),
    {
        let len = find_active_len(&self.library);
        self.iterations = if len < STRESS_STEPS {
            len
        } else {
            STRESS_STEPS
        };
        change_first(&mut self.library, true, true);
        self.stage = ScenarioStage::Stress(0);
    }

    fn begin_removal(&mut self, rooted: &Vec<String>)
        ensures
            removal_begun(*final(self), *old(self), text::texts(rooted@)),
    {
        match find_removable(&self.library, rooted) {
            Some(k) => {
                let m = self.library.mods[k].clone();
                take_mod_out(&mut self.library, m.id.as_str());
                let ghost known = self.cache.mods@;
                self.cache.mods.remove(m.id.as_str());
                assert(self.cache.mods@ =~= known.remove(m.id@));
                self.removed = Some(m);
                self.stage = ScenarioStage::Remove;
            },
            None => {
                add_line(
                    &mut self.lines,
                    "remove/add: skipped (no managed mod root found)".to_owned(),
                );
                self.stage = ScenarioStage::Done;
            },
        }
    }

    /// What follows the stage of a run: the next change, or the end. `rooted` are the ids
    /// of the mods that the manager keeps files of.
    pub open spec fn advanced(after: Scenario, before: Scenario, rooted: Seq<Seq<char>>) -> bool {
        match before.stage {
            ScenarioStage::Baseline => if active_len(before.library) == 0 {
                &&& after == (Scenario { lines: after.lines, stage: ScenarioStage::Done, ..before })
                &&& with_line(after, before, "Scenario aborted: active profile has no mods"@)
            } else {
                &&& after == (Scenario {
                    library: after.library,
                    stage: ScenarioStage::Toggle,
                    ..before
                })
                &&& changed_first(after.library, before.library, true, false)
            },
            ScenarioStage::Toggle => if active_len(before.library) > 1 {
                &&& after == (Scenario {
                    library: after.library,
                    stage: ScenarioStage::Reorder,
                    ..before
                })
                &&& changed_first(after.library, before.library, false, true)
            } else {
                &&& with_line(after, before, "reorder: skipped (need >=2 mods)"@)
                &&& stress_begun(after, (Scenario { lines: after.lines, ..before }))
            },
            ScenarioStage::Reorder => stress_begun(after, before),
            ScenarioStage::Stress(k) => if k + 1 < before.iterations {
                &&& after == (Scenario {
                    library: after.library,
                    stage: ScenarioStage::Stress((k + 1) as usize),
                    ..before
                })
                &&& changed_first(after.library, before.library, true, true)
            } else {
                stress_ended(after, before, rooted)
            },
            ScenarioStage::Remove => match before.removed {
                Some(m) => {
                    &&& after == (Scenario {
                        library: after.library,
                        stage: ScenarioStage::Add,
                        removed: None,
                        ..before
                    })
                    &&& mod_back(after.library, before.library, m)
                },
                None => after == (Scenario { stage: ScenarioStage::Done, ..before }),
            },
            ScenarioStage::Add | ScenarioStage::Done => after == (Scenario {
                stage: ScenarioStage::Done,
                ..before
            }),
        }
    }

    /// Makes the next change.
    pub fn advance(&mut self, rooted: &Vec<String>)
        ensures
            Scenario::advanced(*final(self), *old(self), text::texts(rooted@)),
    {
        match self.stage {
            ScenarioStage::Baseline => {
                if find_active_len(&self.library) == 0 {
                    add_line(
                        &mut self.lines,
                        "Scenario aborted: active profile has no mods".to_owned(),
                    );
                    self.stage = ScenarioStage::Done;
                } else {
                    change_first(&mut self.library, true, false);
                    self.stage = ScenarioStage::Toggle;
                }
            },
            ScenarioStage::Toggle => {
                if find_active_len(&self.library) > 1 {
                    change_first(&mut self.library, false, true);
                    self.stage = ScenarioStage::Reorder;
                } else {
                    add_line(&mut self.lines, "reorder: skipped (need >=2 mods)".to_owned());
                    self.begin_stress();
                }
            },
            ScenarioStage::Reorder => {
                self.begin_stress();
            },
            ScenarioStage::Stress(k) => {
                if k < self.iterations && k + 1 < self.iterations {
                    change_first(&mut self.library, true, true);
                    self.stage = ScenarioStage::Stress(k + 1);
                } else {
                    let mut line = concat3(
                        "stress: iterations=",
                        show_usize(self.iterations).as_str(),
                        " full_rebuilds=",
                    );
                    line.append(show_usize(self.stress_full).as_str());
                    line.append(" scanned_mods=");
                    line.append(show_usize(self.stress_scans).as_str());
                    add_line(&mut self.lines, line);
                    let ghost mid = *self;
                    self.begin_removal(rooted);
                    assert(stress_ended_over(*self, mid, *old(self), text::texts(rooted@)));
                }
            },
            ScenarioStage::Remove => {
                match self.removed.take() {
                    Some(m) => {
                        put_mod_back(&mut self.library, m);
                        self.stage = ScenarioStage::Add;
                    },
                    None => {
                        self.stage = ScenarioStage::Done;
                    },
                }
            },
            ScenarioStage::Add | ScenarioStage::Done => {
                self.stage = ScenarioStage::Done;
            },
        }
    }

    /// The report on a run.
    pub fn report(&self) -> (r: String)
        ensures
            r@ == text::join(text::texts(self.lines@), "\n"@),
    {
        join_texts(&self.lines, "\n")
    }

    /// How much of a run is left.
    pub open spec fn left(self) -> int {
        match self.stage {
            ScenarioStage::Baseline => STRESS_STEPS + 6,
            ScenarioStage::Toggle => STRESS_STEPS + 5,
            ScenarioStage::Reorder => STRESS_STEPS + 4,
            ScenarioStage::Stress(k) => 3 + if k < self.iterations {
                self.iterations - k
            } else {
                0
            },
            ScenarioStage::Remove => 2,
            ScenarioStage::Add => 1,
            ScenarioStage::Done => 0,
        }
    }
}

pub open spec fn stress_ended_over(
    after: Scenario,
    mid: Scenario,
    before: Scenario,
    rooted: Seq<Seq<char>>,
) -> bool {
    &&& mid == (Scenario { lines: mid.lines, ..before })
    &&& with_line(mid, before, stress_line(before))
    &&& removal_begun(after, mid, rooted)
}

/// Whether the row of changes has come to its end.
pub open spec fn stress_ended(after: Scenario, before: Scenario, rooted: Seq<Seq<char>>) -> bool {
    exists|mid: Scenario| #[trigger] stress_ended_over(after, mid, before, rooted)
}

/// Each change brings a run nearer to its end.
pub proof fn law_scenario_ends(after: Scenario, before: Scenario, rooted: Seq<Seq<char>>)
    requires
        Scenario::advanced(after, before, rooted),
        before.stage !is Done,
        before.iterations <= STRESS_STEPS,
    ensures
        0 <= after.left() < before.left(),
        after.iterations <= STRESS_STEPS,
{
}

} // verus!
