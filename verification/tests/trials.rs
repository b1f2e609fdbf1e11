use sigilsmith::actions::Action;
use sigilsmith::library::{Library, ModEntry, ModSource};
use sigilsmith::rank_flow::{try_changes, ScanLog};
use sigilsmith::rank_scan::SmartRankState;
use sigilsmith::rank_scenario::RankRun;
use sigilsmith::rank_state::SmartRankRefreshMode;
use sigilsmith::rank_trials::{
    check_warmup, end_simulation, forget_rankings, fresh_library, take_warmup, RunEnd, ScanRun,
    WarmupFlow, WarmupStage, ZipEvent, ZipFlow, ZipStage, TRIAL_TIMEOUT_MS,
};
use sigilsmith::smart_rank::smart_rank_profile;
use vstd::hash_map::StringHashMap;

fn plain(id: &str) -> ModEntry {
    ModEntry {
        id: id.to_string(),
        name: id.to_string(),
        created_at: None,
        modified_at: None,
        added_at: 0,
        targets: Vec::new(),
        target_overrides: Vec::new(),
        source_label: None,
        source: ModSource::Managed,
        dependencies: Vec::new(),
    }
}

fn library(ids: &[&str]) -> Library {
    let mut l = Library::load_or_create(None);
    l.mods = ids.iter().map(|id| plain(id)).collect();
    l.ensure_mods_in_profiles();
    l
}

fn strings(list: &[&str]) -> Vec<String> {
    list.iter().map(|s| s.to_string()).collect()
}

#[test]
fn changes_are_tried_while_mods_are_ranked() {
    let l = library(&["a", "b"]);
    let keys = strings(&["1", "2"]);
    let mut state = SmartRankState::new();
    let (mut flow, out) = WarmupFlow::begin(&mut state, &l, &keys);
    assert_eq!(flow.stage, WarmupStage::Toggle);
    assert!(out.iter().any(|a| matches!(a, Action::Rank(1, SmartRankRefreshMode::Full))));
    assert_eq!(
        flow.lines,
        strings(&[
            "Smart rank warmup flow (app edits)",
            "warmup active: true",
            "start scan id=Some(1) kind=Some(Full)",
        ])
    );
    state.schedule_smart_rank_refresh(SmartRankRefreshMode::Incremental, "toggle", false, 5);
    flow.note_change(state.refresh_pending);
    flow.note_change(state.refresh_pending);
    flow.note_change(None);
    assert_eq!(flow.stage, WarmupStage::Scans);
    assert_eq!(
        flow.lines[3..],
        strings(&[
            "after toggle pending=Some(Incremental)",
            "after reorder pending=Some(Incremental)",
            "after remove pending=None",
        ])
    );
    let mut run = ScanRun::new(10);
    assert_eq!(run.step(&mut state, &l, &keys, 11).0, RunEnd::Waits);
    state.clear_smart_rank_scan_state();
    let (end, out) = run.step(&mut state, &l, &keys, 12);
    assert_eq!(end, RunEnd::Waits);
    assert!(out.iter().any(|a| matches!(a, Action::Rank(2, _))));
    flow.note_scans(&run, end, &state);
    assert_eq!(flow.stage, WarmupStage::Scans);
    state.clear_smart_rank_scan_state();
    let (end, _) = run.step(&mut state, &l, &keys, 13);
    assert_eq!(end, RunEnd::Settled);
    flow.note_scans(&run, end, &state);
    assert_eq!(flow.stage, WarmupStage::Done);
    assert_eq!(flow.lines[6], "refresh events: 2");
    assert_eq!(flow.lines[7], "scan kind=Full");
    assert_eq!(flow.lines.len(), 10);
    assert!(flow.report().starts_with("Smart rank warmup flow (app edits)\nwarmup active"));
}

#[test]
fn trials_need_a_profile_and_two_mods() {
    let mut state = SmartRankState::new();
    let one = library(&["a"]);
    let (flow, out) = WarmupFlow::begin(&mut state, &one, &strings(&["1"]));
    assert!(out.is_empty() && !state.active);
    assert_eq!(flow.lines[1], "Need at least 2 mods for warmup flow");
    let mut none = library(&["a", "b"]);
    none.active_profile = "gone".to_string();
    let (flow, _) = WarmupFlow::begin(&mut state, &none, &strings(&["1", "2"]));
    assert_eq!(flow.lines[1], "No active profile");
    assert_eq!(flow.stage, WarmupStage::Done);
}

#[test]
fn rankings_are_not_waited_for_forever() {
    let l = library(&["a", "b"]);
    let keys = strings(&["1", "2"]);
    let mut state = SmartRankState::new();
    let (mut flow, _) = WarmupFlow::begin(&mut state, &l, &keys);
    for _ in 0..3 {
        flow.note_change(None);
    }
    let mut run = ScanRun::new(0);
    assert_eq!(run.step(&mut state, &l, &keys, TRIAL_TIMEOUT_MS).0, RunEnd::Waits);
    let (end, _) = run.step(&mut state, &l, &keys, TRIAL_TIMEOUT_MS + 1);
    assert_eq!(end, RunEnd::TimedOut);
    flow.note_scans(&run, end, &state);
    assert_eq!(
        flow.lines[6],
        "timeout waiting for warmup flow scans (active=true pending=None interrupt=false scan_id=Some(1))"
    );
}

#[test]
fn imports_are_tried_one_by_one() {
    let mut flow = ZipFlow::new();
    flow.advance(ZipEvent::WorkspaceMade);
    assert_eq!(flow.stage, ZipStage::Source);
    let found = strings(&["/m/c.7z", "/m/b.zip", "/m/a.txt", "/m/a.rar"]);
    flow.advance(ZipEvent::SourceRead(found));
    assert_eq!(flow.archives, strings(&["/m/a.rar", "/m/b.zip"]));
    assert_eq!(flow.stage, ZipStage::Workspace);
    flow.advance(ZipEvent::WorkspaceMade);
    assert_eq!(flow.stage, ZipStage::Import(0));
    flow.advance(ZipEvent::ImportFailed("odd".to_string()));
    flow.advance(ZipEvent::Imported(2));
    assert_eq!(flow.stage, ZipStage::Apply(1, 2));
    flow.advance(ZipEvent::Applied(3));
    assert_eq!(flow.stage, ZipStage::Scan(1, 1));
    let mut log = ScanLog::new();
    log.see(Some(1), Some(SmartRankRefreshMode::Full));
    flow.advance(ZipEvent::Scanned(log, RunEnd::TimedOut));
    flow.advance(ZipEvent::ApplyFailed("full".to_string()));
    flow.advance(ZipEvent::Scanned(ScanLog::new(), RunEnd::Settled));
    assert_eq!(flow.stage, ZipStage::Remove);
    flow.advance(ZipEvent::Removed { removed: true, id: "x".to_string() });
    flow.advance(ZipEvent::Scanned(ScanLog::new(), RunEnd::Settled));
    assert_eq!(flow.stage, ZipStage::Done);
    assert_eq!(
        flow.lines,
        strings(&[
            "Smart rank zip flow (real imports)",
            "Using 2 archive(s)",
            "import 1: /m/a.rar",
            "  import failed: odd",
            "import 2: /m/b.zip",
            "  applied mods: 3",
            "post-import refresh events: 2",
            "scan kind=Full",
            "timeout waiting for scans",
            "post-import full rebuilds: 1",
            "  apply failed: full",
            "  applied mods: 0",
            "post-import refresh events: 0",
            "post-import full rebuilds: 0",
            "remove: true (x)",
            "post-remove refresh events: 0",
            "post-remove full rebuilds: 0",
        ])
    );
    assert_eq!(flow.report().lines().count(), 17);
}

#[test]
fn imports_that_cannot_be_tried() {
    let last = |event: ZipEvent| {
        let mut flow = ZipFlow::new();
        flow.advance(event);
        assert_eq!(flow.stage, ZipStage::Done);
        flow.lines[1].clone()
    };
    assert_eq!(last(ZipEvent::SourceMissing("/m".to_string())), "Source dir missing: /m");
    assert_eq!(last(ZipEvent::SourceUnreadable("no".to_string())), "Read source dir failed: no");
    assert_eq!(last(ZipEvent::SourceRead(strings(&["/a.txt"]))), "No mod archives found");
    let mut flow = ZipFlow::new();
    flow.advance(ZipEvent::SourceRead(strings(&["/a.zip"])));
    flow.advance(ZipEvent::WorkspaceFailed("full".to_string()));
    assert_eq!(flow.lines[2], "Create temp dir failed: full");
    let mut flow = ZipFlow::new();
    flow.advance(ZipEvent::SourceRead(strings(&["/a.zip"])));
    flow.advance(ZipEvent::WorkspaceMade);
    flow.advance(ZipEvent::Imported(0));
    flow.advance(ZipEvent::NothingToRemove);
    assert_eq!(flow.lines[3..], strings(&["  no mods found", "remove: skipped (no mods)"]));
    assert_eq!(flow.stage, ZipStage::Done);
}

#[test]
fn a_trial_begins_with_nothing() {
    let l = fresh_library();
    assert!(l.mods.is_empty() && l.modsettings_sync_enabled);
    assert_eq!(l.profiles[0].name, "Default");
    let mut state = SmartRankState::new();
    state.scan_id = 7;
    state.refresh_pending = Some(SmartRankRefreshMode::Full);
    forget_rankings(&mut state);
    assert_eq!((state.scan_id, state.refresh_pending), (0, None));
}

#[test]
fn a_full_ranking_is_kept() {
    assert!(check_warmup(true).is_none());
    assert!(check_warmup(false).unwrap().starts_with("Paths not set"));
    let l = library(&["a", "b"]);
    let mut state = SmartRankState::new();
    let scans = Vec::new();
    let empty = library(&[]);
    let result = smart_rank_profile(&empty, &scans, 0).unwrap();
    let out = take_warmup(&mut state, &l, StringHashMap::new(), result, 9);
    assert!(out.is_empty());
    assert_eq!(state.cache_last_saved, Some(9));
    assert!(state.cache.unwrap().result.is_some());
}

#[test]
fn a_simulation_is_reported() {
    let mut l = library(&["a", "b"]);
    let mut lines = try_changes(&mut l);
    let text = end_simulation(&mut lines, &RankRun::Failed("odd".to_string()));
    assert!(text.ends_with("\nFirst toggled: a\nSimulation failed: odd"));
    let result = smart_rank_profile(&library(&[]), &Vec::new(), 0).unwrap();
    let run = RankRun::Done { scanned: 4, mods: StringHashMap::new(), result };
    let text = end_simulation(&mut Vec::new(), &run);
    assert_eq!(text, "Scanned mods: 4\nMoved entries: 0\nWarnings: 0");
}
