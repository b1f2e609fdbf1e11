use sigilsmith::actions::Action;
use sigilsmith::library::{
    InstallTarget, Library, ModEntry, ModSource, PakInfo, ProfileEntry,
};
use sigilsmith::mod_view::ModView;
use sigilsmith::pak_index::FileEntry;
use sigilsmith::rank_flow::{pick_archives, trim_library, try_changes, ScanLog};
use sigilsmith::rank_items::{patch_score, ModScan};
use sigilsmith::rank_preview::finalize_smart_rank_preview;
use sigilsmith::rank_report::{
    debug_cache_report, debug_smart_rank_cache_validate, debug_smart_rank_report,
    debug_smart_rank_restart_check, debug_smart_rank_warmup_block_report, ReadRanking,
    SettingsReading,
};
use sigilsmith::rank_scan::{copy_result, show_progress, SmartRankMessage, SmartRankState};
use sigilsmith::rank_scenario::{RankRun, Scenario, ScenarioStage};
use sigilsmith::rank_state::{
    merge_smart_rank_refresh_kind, plan_warmup, resolve_smart_rank_refresh_kind,
    smart_rank_cache_missing_ids_for, smart_rank_cache_ready_for, CachedMod, SmartRankCache,
    SmartRankMode, SmartRankRefreshMode, SMART_RANK_CACHE_VERSION,
};
use sigilsmith::rank_store::StoredRanking;
use sigilsmith::smart_rank::{
    check_ranking, smart_rank_profile, smart_rank_profile_with_progress, try_smart_rank_profile,
    RankAttempt, SmartRankGroup, SmartRankResult,
};
use sigilsmith::tasks::Tasks;
use vstd::hash_map::StringHashMap;

fn pak_mod(id: &str) -> ModEntry {
    ModEntry {
        id: id.to_string(),
        name: id.to_string(),
        created_at: None,
        modified_at: None,
        added_at: 0,
        targets: vec![InstallTarget::Pak {
            file: format!("{id}.pak"),
            info: PakInfo {
                uuid: id.to_string(),
                name: id.to_string(),
                folder: id.to_string(),
                version: 1,
                md5: None,
                publish_handle: None,
                author: None,
                description: None,
                module_type: None,
            },
        }],
        target_overrides: Vec::new(),
        source_label: None,
        source: ModSource::Managed,
        dependencies: Vec::new(),
    }
}

fn library(ids: &[&str]) -> Library {
    let mut l = Library::load_or_create(None);
    l.mods = ids.iter().map(|id| pak_mod(id)).collect();
    l.ensure_mods_in_profiles();
    for e in l.profiles[0].order.iter_mut() {
        e.enabled = true;
    }
    l
}

fn files(list: &[(&str, u64)]) -> ModScan {
    ModScan {
        files: Ok(list.iter().map(|(k, n)| FileEntry { key: k.to_string(), size: *n }).collect()),
        dependencies: Vec::new(),
        tags: Vec::new(),
        created_at: None,
    }
}

fn ranked(l: &Library, scans: Vec<ModScan>) -> SmartRankResult {
    smart_rank_profile(l, &scans, 5).unwrap()
}

fn ids(r: &SmartRankResult) -> Vec<String> {
    r.order.iter().map(|e| e.id.clone()).collect()
}

fn keys(list: &[&str]) -> Vec<String> {
    list.iter().map(|s| s.to_string()).collect()
}

fn cached(key: &str) -> CachedMod {
    CachedMod { key: key.to_string(), has_data: true }
}

fn cache_for(l: &Library, known: &[(&str, &str)], result: Option<SmartRankResult>) -> SmartRankCache {
    let mut mods: StringHashMap<CachedMod> = StringHashMap::new();
    for (id, key) in known {
        mods.insert(id.to_string(), cached(key));
    }
    SmartRankCache {
        version: SMART_RANK_CACHE_VERSION,
        profile_key: sigilsmith::fingerprint::smart_rank_profile_key_for(l),
        mods,
        result,
    }
}

fn ready_state(l: &Library) -> SmartRankState {
    let mut s = SmartRankState::new();
    let r = ranked(l, vec![files(&[("x", 1)]), files(&[("x", 9)])]);
    s.cache = Some(cache_for(l, &[("a", "1"), ("b", "2")], Some(r)));
    s
}

fn idle() -> Tasks {
    Tasks {
        startup_pending: false,
        native_sync_active: false,
        import_active: false,
        deploy_active: false,
        deploy_pending: false,
        conflict_active: false,
        conflict_pending: false,
        smart_rank_active: false,
        smart_rank_mode: None,
        metadata_active: false,
    }
}

fn starts(out: &[Action]) -> Option<SmartRankRefreshMode> {
    out.iter().find_map(|a| match a {
        Action::Rank(_, mode) => Some(*mode),
        _ => None,
    })
}

#[test]
fn larger_mods_come_before_smaller_ones() {
    let l = library(&["a", "b"]);
    let r = ranked(&l, vec![files(&[("x", 1)]), files(&[("x", 9)])]);
    assert_eq!(ids(&r), vec!["b", "a"]);
    assert_eq!(r.report.conflicts, 1);
    assert_eq!(r.report.conflicts_pak, 1);
    assert_eq!(r.report.moved, 2);
    assert_eq!(r.report.total, 2);
    assert_eq!(r.report.elapsed_ms, 5);
    assert!(r.order.iter().all(|e| e.enabled));
}

#[test]
fn mods_that_share_nothing_stay() {
    let l = library(&["a", "b", "c"]);
    let scans = vec![files(&[("x", 1)]), files(&[("y", 50)]), files(&[("x", 9)])];
    assert_eq!(ids(&ranked(&l, scans)), vec!["c", "b", "a"]);
    let apart = vec![files(&[("x", 1)]), files(&[("y", 2)]), files(&[("z", 3)])];
    let r = ranked(&l, apart);
    assert_eq!(ids(&r), vec!["a", "b", "c"]);
    assert_eq!(r.report.moved, 0);
}

#[test]
fn dependencies_stand_first() {
    let l = library(&["a", "b"]);
    let mut first = files(&[("x", 9)]);
    first.dependencies = vec!["b".to_string()];
    let r = ranked(&l, vec![first, files(&[("x", 1)])]);
    assert_eq!(ids(&r), vec!["b", "a"]);
    let mut one = files(&[("x", 9)]);
    one.dependencies = vec!["b".to_string()];
    let mut two = files(&[("x", 1)]);
    two.dependencies = vec!["a".to_string()];
    let round = ranked(&l, vec![one, two]);
    assert_eq!(round.order.len(), 2);
    assert!(!round.warnings.is_empty());
}

#[test]
fn unreadable_mods_are_counted() {
    let l = library(&["a", "b"]);
    let mut broken = files(&[]);
    broken.files = Err("no file".to_string());
    let mut told = Vec::new();
    let r =
        smart_rank_profile_with_progress(&l, &vec![broken, files(&[("x", 1)])], 0, &mut told)
            .unwrap();
    assert_eq!(r.report.missing_pak, 1);
    assert_eq!(r.report.scanned_pak, 1);
    assert_eq!(r.report.enabled_pak, 2);
    assert_eq!(told.len(), 2);
    assert!(r.warnings.iter().any(|w| w.contains("no file")));
    let mut bare = library(&["a"]);
    bare.profiles.clear();
    assert!(smart_rank_profile(&bare, &vec![files(&[])], 0).is_none());
}

#[test]
fn patches_are_recognized() {
    let mut m = pak_mod("a");
    m.name = "Compatibility Patch".to_string();
    let (score, reasons) = patch_score(&m, &Vec::new());
    assert_eq!(score, 6);
    assert_eq!(reasons.len(), 3);
    assert_eq!(patch_score(&pak_mod("lamp"), &Vec::new()).0, 0);
    assert!(patch_score(&pak_mod("lamp"), &vec!["hotfix".to_string()]).0 > 0);
}

#[test]
fn requests_are_merged_upwards() {
    let all = [
        SmartRankRefreshMode::ReorderOnly,
        SmartRankRefreshMode::Incremental,
        SmartRankRefreshMode::Full,
    ];
    for (i, a) in all.iter().enumerate() {
        for (j, b) in all.iter().enumerate() {
            assert_eq!(merge_smart_rank_refresh_kind(*a, *b), all[i.max(j)]);
        }
    }
}

#[test]
fn a_known_ranking_is_ready() {
    let l = library(&["a", "b"]);
    let s = ready_state(&l);
    let now = keys(&["1", "2"]);
    let cache = s.cache.unwrap();
    assert!(smart_rank_cache_ready_for(&l, &cache, &now));
    assert!(smart_rank_cache_missing_ids_for(&l, &cache, &now).is_empty());
    let changed = keys(&["1", "3"]);
    assert!(!smart_rank_cache_ready_for(&l, &cache, &changed));
    assert_eq!(smart_rank_cache_missing_ids_for(&l, &cache, &changed), vec!["b"]);
    let known = Some(cache);
    let reorder = SmartRankRefreshMode::ReorderOnly;
    assert_eq!(resolve_smart_rank_refresh_kind(reorder, &l, &None, &now), SmartRankRefreshMode::Full);
    assert_eq!(
        resolve_smart_rank_refresh_kind(reorder, &l, &known, &changed),
        SmartRankRefreshMode::Incremental
    );
    assert_eq!(plan_warmup(&l, &known, &now), None);
    assert_eq!(plan_warmup(&l, &None, &now), Some(SmartRankRefreshMode::Full));
}

#[test]
fn a_preview_is_shown_and_taken() {
    let mut l = library(&["a", "b"]);
    let mut s = ready_state(&l);
    s.open_smart_rank_preview(&l, &keys(&["1", "2"]), false, true);
    assert!(s.preview.is_some());
    assert_eq!(s.preview.as_ref().unwrap().moves.len(), 2);
    s.apply_smart_rank_preview(&mut l);
    assert!(s.preview.is_none());
    let now: Vec<String> = l.profiles[0].order.iter().map(|e| e.id.clone()).collect();
    assert_eq!(now, vec!["b", "a"]);
    let r = ranked(&l, vec![files(&[("x", 9)]), files(&[("x", 1)])]);
    assert!(finalize_smart_rank_preview(&l, r).0.is_none());
}

#[test]
fn a_preview_is_given_up() {
    let l = library(&["a", "b"]);
    let mut s = ready_state(&l);
    s.open_smart_rank_preview(&l, &keys(&["1", "2"]), true, true);
    assert!(s.preview.is_none());
    s.open_smart_rank_preview(&l, &keys(&["1", "2"]), false, true);
    s.cancel_smart_rank_preview();
    assert!(s.preview.is_none());
}

#[test]
fn a_scan_runs_to_its_end() {
    let l = library(&["a", "b"]);
    let mut s = SmartRankState::new();
    let out =
        s.start_smart_rank_scan(SmartRankMode::Warmup, SmartRankRefreshMode::Full, &l, &keys(&["1", "2"]));
    assert_eq!(starts(&out), Some(SmartRankRefreshMode::Full));
    assert!(s.smart_rank_warmup_active());
    let id = s.scan_id;
    let mut mods: StringHashMap<CachedMod> = StringHashMap::new();
    mods.insert("a".to_string(), cached("1"));
    mods.insert("b".to_string(), cached("2"));
    let result = ranked(&l, vec![files(&[("x", 1)]), files(&[("x", 9)])]);
    s.handle_smart_rank_message(
        SmartRankMessage::Finished { scan_id: id, result, mods, scanned_mods: 2 },
        &l,
        100,
    );
    assert!(!s.active);
    assert!(smart_rank_cache_ready_for(&l, s.cache.as_ref().unwrap(), &keys(&["1", "2"])));
}

#[test]
fn an_interrupted_scan_is_not_shown() {
    let l = library(&["a", "b"]);
    let mut s = SmartRankState::new();
    s.start_smart_rank_scan(SmartRankMode::Preview, SmartRankRefreshMode::Full, &l, &keys(&["1", "2"]));
    let id = s.scan_id;
    s.interrupt_smart_rank("test");
    let result = ranked(&l, vec![files(&[("x", 1)]), files(&[("x", 9)])]);
    s.handle_smart_rank_message(
        SmartRankMessage::Finished {
            scan_id: id,
            result,
            mods: StringHashMap::new(),
            scanned_mods: 2,
        },
        &l,
        100,
    );
    assert!(s.preview.is_none());
}

#[test]
fn a_failed_scan_is_told() {
    let l = library(&["a"]);
    let mut s = SmartRankState::new();
    s.start_smart_rank_scan(SmartRankMode::Preview, SmartRankRefreshMode::Full, &l, &keys(&["1"]));
    let id = s.scan_id;
    let out = s.handle_smart_rank_message(
        SmartRankMessage::Failed { scan_id: id, error: "odd".to_string() },
        &l,
        1,
    );
    assert!(!s.active);
    assert!(out.iter().any(|a| matches!(a, Action::Status(t) if t.contains("odd"))));
}

#[test]
fn refreshes_wait_for_quiet() {
    let l = library(&["a", "b"]);
    let mut s = ready_state(&l);
    s.schedule_smart_rank_refresh(SmartRankRefreshMode::Incremental, "test", true, 1000);
    let now = keys(&["1", "9"]);
    assert!(starts(&s.maybe_restart_smart_rank(&l, &now, false, true, 1100)).is_none());
    assert!(starts(&s.maybe_restart_smart_rank(&l, &now, true, true, 9000)).is_none());
    let out = s.maybe_restart_smart_rank(&l, &now, false, true, 9000);
    assert_eq!(starts(&out), Some(SmartRankRefreshMode::Incremental));
}

#[test]
fn stored_rankings_are_read_or_dropped() {
    let l = library(&["a"]);
    let mut s = SmartRankState::new();
    s.load_smart_rank_cache(StoredRanking::Absent);
    assert!(s.cache.is_none());
    s.load_smart_rank_cache(StoredRanking::Unreadable);
    s.load_smart_rank_cache(StoredRanking::Broken("odd".to_string()));
    assert!(s.cache.is_none());
    let mut old = cache_for(&l, &[], None);
    old.version = 1;
    s.load_smart_rank_cache(StoredRanking::Found(old));
    assert!(s.cache.is_none());
    s.load_smart_rank_cache(StoredRanking::Found(cache_for(&l, &[("a", "1")], None)));
    assert!(s.cache.is_some());
    s.clear_smart_rank_cache(&l, &keys(&["1"]), false, 0);
    assert!(s.cache.is_none());
}

#[test]
fn rankings_are_reported() {
    let l = library(&["a", "b"]);
    let s = ready_state(&l);
    let now = keys(&["1", "2"]);
    let r = debug_smart_rank_report(&s.cache, &l, &now, "/c.json");
    assert!(r.contains("/c.json"));
    assert_ne!(
        debug_smart_rank_cache_validate(&s.cache, &l, &now),
        debug_smart_rank_cache_validate(&None, &l, &now)
    );
    let broken = ReadRanking::Broken("odd".to_string());
    assert!(debug_smart_rank_restart_check(broken, &l, &now, "/c").contains("odd"));
    let unread = ReadRanking::Unreadable("gone".to_string());
    assert!(debug_smart_rank_restart_check(unread, &l, &now, "/c").contains("gone"));
    let t = idle();
    assert!(!debug_smart_rank_warmup_block_report(&t, &ModView::new()).is_empty());
    let read = SettingsReading::Read("abc".to_string());
    assert_ne!(
        debug_cache_report(&l, &read),
        debug_cache_report(&l, &SettingsReading::NoPaths("none".to_string()))
    );
    assert!(debug_cache_report(&l, &SettingsReading::Failed("bad".to_string())).contains("bad"));
    assert!(!debug_cache_report(&l, &SettingsReading::Absent).is_empty());
}

#[test]
fn a_scenario_comes_to_an_end() {
    let mut run = Scenario::new(library(&["a", "b", "c"]));
    let mut steps = 0;
    while !matches!(run.stage, ScenarioStage::Done) {
        assert!(steps < 100);
        let now: Vec<String> = run.library.mods.iter().map(|m| m.id.clone()).collect();
        if let Some((asked, done)) = run.request(&now) {
            let mut mods: StringHashMap<CachedMod> = StringHashMap::new();
            for m in &run.library.mods {
                mods.insert(m.id.clone(), cached(&m.id));
            }
            let scans: Vec<ModScan> =
                run.library.profiles[0].order.iter().map(|_| files(&[("x", 1)])).collect();
            let result = smart_rank_profile(&run.library, &scans, 0).unwrap();
            run.record(asked, done, RankRun::Done { scanned: 1, mods, result });
        }
        run.advance(&Vec::new());
        steps += 1;
    }
    assert!(!run.report().is_empty());
    let mut failed = Scenario::new(library(&["a", "b"]));
    let full = SmartRankRefreshMode::Full;
    failed.record(full, full, RankRun::Failed("odd".to_string()));
    assert!(failed.report().contains("odd"));
}

#[test]
fn libraries_are_trimmed_and_tried() {
    let names: Vec<String> = (0..12).map(|i| format!("m{i}")).collect();
    let short: Vec<&str> = names.iter().map(|s| s.as_str()).collect();
    let mut l = library(&short);
    trim_library(&mut l);
    assert_eq!(l.mods.len(), 8);
    let lines = try_changes(&mut l);
    assert_eq!(lines[2..], keys(&["Toggled mods: 3", "First toggled: m0"]));
    assert_eq!(l.profiles[0].order[0].id, "m7");
    let mut log = ScanLog::new();
    log.see(Some(1), Some(SmartRankRefreshMode::Full));
    log.see(Some(1), Some(SmartRankRefreshMode::Full));
    log.see(Some(2), Some(SmartRankRefreshMode::Incremental));
    assert_eq!(log.full_rebuilds, 1);
    assert_eq!(log.events.len(), 2);
    let mut lines = Vec::new();
    log.add_to(&mut lines, "late ");
    assert_eq!(
        lines,
        keys(&[
            "late refresh events: 2",
            "scan kind=Full",
            "scan kind=Incremental",
            "late full rebuilds: 1",
        ])
    );
    let picked = pick_archives(&keys(&["/b.zip", "/a.zip", "/c.zip", "/x.txt"]));
    assert_eq!(picked.len(), 2);
}

#[test]
fn progress_of_a_ranking() {
    let l = library(&["a"]);
    let mut told = Vec::new();
    let r = smart_rank_profile_with_progress(&l, &vec![files(&[("x", 1)])], 0, &mut told).unwrap();
    assert_eq!(told[0].name, "a");
    assert_eq!((told[0].scanned, told[0].total), (1, 1));
    assert_eq!(told[0].group, SmartRankGroup::Pak);
    assert!(show_progress(&told[0]).contains("1/1"));
    assert_eq!(ids(&copy_result(&r)), ids(&r));
    assert!(!r.explain.lines.is_empty());
}

#[test]
fn a_mod_with_two_entries_is_ranked() {
    let mut l = library(&["a", "b"]);
    l.profiles[0].order.push(ProfileEntry { id: "a".to_string(), enabled: false });
    let scans = vec![files(&[("x", 1)]), files(&[("x", 9)]), files(&[("x", 1)])];
    assert!(check_ranking(&l, &scans));
    let mut told = Vec::new();
    let RankAttempt::Ranked(r) = try_smart_rank_profile(&l, &scans, 3, &mut told) else {
        panic!("not ranked");
    };
    let got: Vec<(&str, bool)> = r.order.iter().map(|e| (e.id.as_str(), e.enabled)).collect();
    assert_eq!(got, vec![("b", true), ("a", false), ("a", false)]);
    assert_eq!(r.report.moved, 2);
    assert_eq!(r.report.conflicts_pak, 1);
    assert_eq!(told.len(), 2);
}

#[test]
fn a_mod_with_two_entries_shares_files_with_itself() {
    let mut l = library(&["a", "b"]);
    l.profiles[0].order.push(ProfileEntry { id: "a".to_string(), enabled: true });
    let scans = vec![files(&[("x", 1)]), files(&[("y", 9)]), files(&[("x", 1)])];
    let r = ranked(&l, scans);
    assert_eq!(ids(&r), vec!["a", "b", "a"]);
    assert_eq!(r.report.conflicts_pak, 1);
    assert!(r.explain.lines.iter().any(|line| line.text.contains("1 files, 0 mods")));
}

#[test]
fn a_mod_with_two_entries_takes_no_part_in_dependencies() {
    let mut l = library(&["a", "b"]);
    l.profiles[0].order.push(ProfileEntry { id: "a".to_string(), enabled: true });
    let mut needs = files(&[("x", 1)]);
    needs.dependencies = vec!["a".to_string()];
    let scans = vec![files(&[("x", 1)]), needs, files(&[("x", 1)])];
    assert!(!check_ranking(&l, &scans));
    let mut told = Vec::new();
    assert!(matches!(try_smart_rank_profile(&l, &scans, 0, &mut told), RankAttempt::Refused));
    assert!(told.is_empty());
    l.profiles.clear();
    assert!(matches!(
        try_smart_rank_profile(&l, &scans, 0, &mut told),
        RankAttempt::NoProfile
    ));
}

#[test]
fn two_rankings_agree() {
    let l = library(&["a", "b", "c"]);
    let scans = || {
        let mut first = files(&[("x", 1), ("y", 2)]);
        first.dependencies = vec!["c".to_string()];
        vec![first, files(&[("y", 7)]), files(&[("z", 1)])]
    };
    let (r, t) = (ranked(&l, scans()), ranked(&l, scans()));
    assert_eq!(ids(&r), ids(&t));
    assert_eq!(ids(&r), vec!["b", "c", "a"]);
    assert_eq!(r.report.moved, t.report.moved);
    assert_eq!(r.warnings, t.warnings);
}
