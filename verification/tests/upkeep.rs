use sigilsmith::actions::{Action, DependentMod, LogLevel, ToastLevel};
use sigilsmith::config::{AppConfig, GameConfig};
use sigilsmith::deploy_desk::DeployDesk;
use sigilsmith::dialog_desk::{AnswerDesk, DialogNext};
use sigilsmith::dialogs::DialogOutcome;
use sigilsmith::failures::{say_failed, Work};
use sigilsmith::game::GameId;
use sigilsmith::library::{InstallTarget, Library, ModEntry, ModSource, PakInfo};
use sigilsmith::metadata_desk::{metadata_cache_valid, MetadataDesk};
use sigilsmith::mod_table::{ModSort, ModSortColumn, SortDirection};
use sigilsmith::mod_view::ModView;
use sigilsmith::profile_transfer::{
    plan_export, say_exported, say_import_path_missing, ExportPlan,
};
use sigilsmith::update_desk::{say_restarted, Restart, UpdateDesk};
use sigilsmith::upkeep::{
    clear_system_caches, fail_metadata_refresh, finish_metadata_refresh,
    maybe_start_metadata_refresh, run_post_sync_tasks, settle_import,
};

const ALPHA: &str = "a1b2c3d4-aaaa-4bbb-8ccc-aaaaaaaaaaaa";
const BETA: &str = "b1b2c3d4-bbbb-4bbb-8ccc-bbbbbbbbbbbb";
const GONE: &str = "GoneMod Deluxe";

fn entry(id: &str, name: &str) -> ModEntry {
    ModEntry {
        id: id.to_string(),
        name: name.to_string(),
        created_at: None,
        modified_at: None,
        added_at: 0,
        targets: vec![InstallTarget::Pak {
            file: format!("{name}.pak"),
            info: PakInfo {
                uuid: id.to_string(),
                name: name.to_string(),
                folder: name.to_string(),
                version: 1,
                md5: None,
                publish_handle: None,
                author: None,
                description: None,
                module_type: None,
            },
        }],
        target_overrides: Vec::new(),
        source_label: None,
        source: ModSource::Managed,
        dependencies: Vec::new(),
    }
}

fn library() -> Library {
    let mut l = Library::load_or_create(None);
    l.mods = vec![entry(ALPHA, "AlphaMod"), entry(BETA, "BetaMod")];
    l.ensure_mods_in_profiles();
    for e in &mut l.profiles[0].order {
        e.enabled = true;
    }
    l
}

fn settings() -> AppConfig {
    AppConfig::load_or_create(None, "/d".to_string()).0
}

fn desk() -> AnswerDesk {
    let library = library();
    let config = GameConfig {
        game_id: GameId::Bg3,
        game_name: "Baldur's Gate 3".to_string(),
        data_dir: "/d".to_string(),
        game_root: "/g".to_string(),
        larian_dir: "/l".to_string(),
        active_profile: library.active_profile.clone(),
    };
    AnswerDesk { library, view: ModView::new(), config, settings: settings() }
}

fn statuses(out: &[Action]) -> Vec<String> {
    out.iter()
        .filter_map(|a| match a {
            Action::Status(t) => Some(t.clone()),
            _ => None,
        })
        .collect()
}

fn logs(out: &[Action]) -> Vec<(LogLevel, String)> {
    out.iter()
        .filter_map(|a| match a {
            Action::Log(level, t) => Some((*level, t.clone())),
            _ => None,
        })
        .collect()
}

fn saves(out: &[Action]) -> usize {
    out.iter().filter(|a| matches!(a, Action::SaveLibrary)).count()
}

// ---------------------------------------------------------------------------
// Answers
// ---------------------------------------------------------------------------

#[test]
fn the_order_view_is_restored() {
    let mut d = desk();
    d.view.sort = ModSort { column: ModSortColumn::Name, direction: SortDirection::Desc };
    d.view.filter = "beta".to_string();
    d.view.snapshot = Some("al".to_string());
    let outcome = DialogOutcome::RestoreOrder { resume_move_mode: false, clear_filter: true };
    let (next, out) = d.settle(outcome, false);
    assert!(matches!(next, DialogNext::Nothing));
    assert_eq!(d.view.sort, ModSort { column: ModSortColumn::Order, direction: SortDirection::Asc });
    assert_eq!(d.view.filter, "");
    assert!(d.view.snapshot.is_none());
    assert_eq!(d.view.selected, 1);
    assert_eq!(statuses(&out), vec!["Order view restored".to_string()]);
    let outcome = DialogOutcome::RestoreOrder { resume_move_mode: true, clear_filter: false };
    let (_, out) = d.settle(outcome, false);
    assert!(d.view.move_mode);
    assert_eq!(
        statuses(&out),
        vec!["Move mode: use arrows to reorder, Enter/Esc to exit".to_string()]
    );
}

#[test]
fn layouts_that_were_not_recognized() {
    let mut d = desk();
    let outcome = DialogOutcome::ImportUnrecognized {
        path: "/x".to_string(),
        label: "odd.zip".to_string(),
    };
    let (next, out) = d.settle(outcome, false);
    match next {
        DialogNext::StageUnrecognized { path, label } => {
            assert_eq!((path.as_str(), label.as_str()), ("/x", "odd.zip"));
        }
        _ => panic!("nothing is staged"),
    }
    assert_eq!(logs(&out), vec![(LogLevel::Warn, "Importing unknown layout: odd.zip".to_string())]);
    let outcome = DialogOutcome::SkipUnrecognized { label: "odd.zip".to_string() };
    let (next, out) = d.settle(outcome, false);
    assert!(matches!(next, DialogNext::NextBatch));
    assert_eq!(logs(&out), vec![(LogLevel::Warn, "Skipped unrecognized layout: odd.zip".to_string())]);
}

#[test]
fn answers_about_what_is_missing() {
    let mut d = desk();
    let (_, out) = d.settle(DialogOutcome::KeepDependencies, false);
    assert_eq!(statuses(&out), vec!["Dependency override canceled".to_string()]);
    let (next, out) = d.settle(DialogOutcome::ProceedWithoutDependencies, false);
    assert!(matches!(next, DialogNext::Proceed) && out.is_empty());
    let (next, _) = d.settle(DialogOutcome::CancelImport { keep_files: true }, false);
    assert!(matches!(next, DialogNext::CancelImport { keep_files: true }));
    let outcome = DialogOutcome::Duplicate { overwrite: true, apply_all: false };
    let (next, _) = d.settle(outcome, false);
    assert!(matches!(next, DialogNext::Duplicate { overwrite: true, apply_all: false }));
    let (next, out) = d.settle(DialogOutcome::Nothing, false);
    assert!(matches!(next, DialogNext::Nothing) && out.is_empty());
}

#[test]
fn search_links_are_copied_skipped_or_remembered() {
    let mut d = desk();
    let link = "https://example.org".to_string();
    let outcome = DialogOutcome::SearchLink { link: link.clone(), copy: true, remember: false };
    let (_, out) = d.settle(outcome, false);
    assert_eq!(out.len(), 1);
    assert!(matches!(&out[0], Action::Copy(t, said) if *t == link && said == "Search link copied"));
    assert_eq!(d.settings.dependency_search_copy_preference, None);
    let outcome = DialogOutcome::SearchLink { link, copy: false, remember: true };
    let (_, out) = d.settle(outcome, false);
    assert!(matches!(out[0], Action::SaveAppConfig));
    assert_eq!(statuses(&out), vec!["Search link skipped".to_string()]);
    assert_eq!(d.settings.dependency_search_copy_preference, Some(false));
}

#[test]
fn the_notice_of_the_start_is_switched_off() {
    let mut d = desk();
    assert!(d.settings.show_startup_dependency_notice);
    let (_, out) = d.settle(DialogOutcome::HideStartupNotice, false);
    assert!(!d.settings.show_startup_dependency_notice);
    assert!(matches!(out[0], Action::SaveAppConfig));
    assert_eq!(statuses(&out), vec!["Startup dependency notice hidden".to_string()]);
}

#[test]
fn profiles_are_deleted_by_an_answer() {
    let mut d = desk();
    let name = d.library.active_profile.clone();
    let outcome = DialogOutcome::DeleteProfile { name: name.clone(), stop_asking: true };
    let (_, out) = d.settle(outcome, false);
    assert_eq!(statuses(&out), vec!["Cannot delete the last profile".to_string()]);
    assert!(!d.settings.confirm_profile_delete);
    d.library.create_profile("Night");
    d.library.active_profile = "Night".to_string();
    d.view.selected = 1;
    d.view.move_mode = true;
    let outcome = DialogOutcome::DeleteProfile { name: "Night".to_string(), stop_asking: false };
    let (_, out) = d.settle(outcome, false);
    assert_eq!(statuses(&out), vec!["Profile deleted: Night".to_string()]);
    assert!(out.iter().any(|a| matches!(a, Action::Deploy(t) if t == "profile deleted")));
    assert_eq!(d.library.active_profile, name);
    assert_eq!(d.config.active_profile, name);
    assert_eq!((d.view.selected, d.view.move_mode), (0, false));
}

#[test]
fn mods_are_removed_by_an_answer() {
    let mut d = desk();
    d.view.selected = 1;
    let dependents = vec![DependentMod { id: ALPHA.to_string(), name: "AlphaMod".to_string() }];
    let outcome = DialogOutcome::DeleteMod {
        id: BETA.to_string(),
        name: "BetaMod".to_string(),
        native_files: false,
        stop_asking: true,
        dependents,
    };
    let (_, out) = d.settle(outcome, false);
    assert!(matches!(out[0], Action::SaveAppConfig));
    assert!(!d.settings.confirm_mod_delete);
    assert_eq!(d.library.mods.len(), 1);
    assert!(!d.library.profiles[0].order[0].enabled);
    assert_eq!(d.view.selected, 0);
    assert_eq!(statuses(&out).last().unwrap(), "Disabled 1 dependent mod(s)");
    let outcome = DialogOutcome::DeleteMod {
        id: BETA.to_string(),
        name: "BetaMod".to_string(),
        native_files: false,
        stop_asking: false,
        dependents: Vec::new(),
    };
    let (_, out) = d.settle(outcome, false);
    assert_eq!(statuses(&out), vec!["No mod removed".to_string()]);
}

// ---------------------------------------------------------------------------
// What is known of the mods
// ---------------------------------------------------------------------------

#[test]
fn what_is_stored_is_relied_on() {
    let mut l = library();
    let mut desk = MetadataDesk::new();
    let mut pending = true;
    let out = maybe_start_metadata_refresh(&mut desk, &mut l, &mut pending, &settings());
    assert_eq!(out.len(), 1);
    assert!(matches!(out[0], Action::ReadMods));
    assert!(desk.active && !desk.ready && pending);
    assert_eq!(desk.total, 2);
    let again = maybe_start_metadata_refresh(&mut desk, &mut l, &mut pending, &settings());
    assert!(again.is_empty());

    let needs = vec![Vec::new(), Vec::new()];
    let out = finish_metadata_refresh(&mut desk, &mut l, &mut pending, &needs, &settings());
    assert!(!desk.active && !desk.ready && pending);
    assert!(matches!(out.last(), Some(Action::WarmRanking)));
    assert!(metadata_cache_valid(&l));

    let out = maybe_start_metadata_refresh(&mut desk, &mut l, &mut pending, &settings());
    let line = "Metadata cache valid; skipping refresh".to_string();
    assert_eq!(logs(&out)[0], (LogLevel::Info, line));
    assert!(matches!(out.last(), Some(Action::WarmRanking)));
    assert!(desk.ready && !pending);
    assert!(l.profiles[0].order.iter().all(|e| e.enabled));
}

#[test]
fn stored_needs_that_are_missing_switch_mods_off_once() {
    let mut l = library();
    let mut desk = MetadataDesk::new();
    let entries = vec![entry(ALPHA, "AlphaMod")];
    let needs = vec![vec![GONE.to_string()]];
    let out = settle_import(&mut desk, &mut l, &entries, &needs, &Vec::new());
    assert_eq!(saves(&out), 2);
    assert!(matches!(&out[0], Action::RefreshRanking(_, t) if t == "import"));
    assert!(matches!(out.last(), Some(Action::ScanConflicts(t)) if t == "library update"));
    assert_eq!(l.mods[0].dependencies, vec![GONE.to_string()]);
    assert!(metadata_cache_valid(&l));

    let mut pending = true;
    let out = maybe_start_metadata_refresh(&mut desk, &mut l, &mut pending, &settings());
    assert_eq!(l.dependency_blocks, vec![ALPHA.to_string()]);
    assert!(!l.profiles[0].order[0].enabled);
    assert!(l.profiles[0].order[1].enabled);
    assert_eq!(
        statuses(&out),
        vec!["Startup: disabled 1 mod(s) missing dependencies".to_string()]
    );
    l.profiles[0].order[0].enabled = true;
    let out = maybe_start_metadata_refresh(&mut desk, &mut l, &mut pending, &settings());
    assert_eq!(out.len(), 2);
    assert!(l.profiles[0].order[0].enabled);
}

#[test]
fn an_import_without_news_is_stored_too() {
    let mut l = library();
    l.mods[1].source = ModSource::Native;
    let mut desk = MetadataDesk::new();
    let entries = vec![entry(ALPHA, "AlphaMod")];
    let out = settle_import(
        &mut desk,
        &mut l,
        &entries,
        &vec![Vec::new()],
        &vec![BETA.to_string()],
    );
    assert_eq!(saves(&out), 2);
    assert!(matches!(l.mods[1].source, ModSource::Managed));
    assert!(l.metadata_cache_key.is_some());
}

#[test]
fn what_follows_the_start() {
    let mut l = library();
    l.mods[0].source = ModSource::Native;
    let mut desk = MetadataDesk::new();
    let mut update = UpdateDesk::new();
    let mut pending = true;
    let rooted = vec![ALPHA.to_string()];
    let (looks, out) = run_post_sync_tasks(
        &mut desk,
        &mut l,
        &mut pending,
        &mut update,
        &rooted,
        &settings(),
        9,
    );
    assert!(looks && update.active);
    assert_eq!(update.started_at, Some(9));
    assert_eq!(out.len(), 3);
    assert!(matches!(out[0], Action::SaveLibrary));
    assert!(matches!(out[1], Action::ReadMods));
    assert!(matches!(&out[2], Action::ScanConflicts(t) if t == "startup"));
    assert!(matches!(l.mods[0].source, ModSource::Managed));
}

#[test]
fn cleared_caches_are_filled_again() {
    let mut l = library();
    let mut desk = MetadataDesk::new();
    settle_import(&mut desk, &mut l, &vec![entry(ALPHA, "AlphaMod")], &vec![Vec::new()], &Vec::new());
    assert!(metadata_cache_valid(&l));
    let out = clear_system_caches(&mut desk, &mut l);
    assert!(!metadata_cache_valid(&l));
    assert!(desk.active && desk.cache.len() == 0);
    assert!(matches!(out[0], Action::ForgetRanking));
    assert!(matches!(out[1], Action::SaveLibrary));
    assert!(matches!(out[2], Action::ReadMods));
    assert_eq!(statuses(&out), vec!["System caches cleared".to_string()]);
    assert!(matches!(&out[4], Action::Toast(ToastLevel::Info, t, 2) if t == "System caches cleared"));
    let out = clear_system_caches(&mut desk, &mut l);
    assert!(!out.iter().any(|a| matches!(a, Action::ReadMods)));
    let out = fail_metadata_refresh(&mut desk, "no disk");
    assert!(!desk.active);
    assert_eq!(logs(&out), vec![(LogLevel::Warn, "Metadata refresh failed: no disk".to_string())]);
    assert!(matches!(out[1], Action::WarmRanking));
}

// ---------------------------------------------------------------------------
// Profiles that are written, and work that fails
// ---------------------------------------------------------------------------

#[test]
fn profiles_are_written_to_a_path() {
    let l = library();
    let home = Some("/home/u".to_string());
    match plan_export(&l, GameId::Bg3, &l.active_profile, "  ", &home) {
        ExportPlan::Refused(out) => {
            assert_eq!(statuses(&out), vec!["Export path is required".to_string()]);
            assert!(matches!(
                &out[1],
                Action::Toast(ToastLevel::Warn, t, 3) if t == "Export path required"
            ));
        }
        _ => panic!("an empty path is taken"),
    }
    assert!(matches!(
        plan_export(&l, GameId::Bg3, "Nobody", "/x.json", &home),
        ExportPlan::Refused(_)
    ));
    match plan_export(&l, GameId::Bg3, &l.active_profile, " ~/x.json", &home) {
        ExportPlan::Write { path, export } => {
            assert_eq!(path, "/home/u/x.json");
            assert_eq!(export.profile_name, l.active_profile);
        }
        _ => panic!("a profile is not written"),
    }
    let out = say_exported("/x.json");
    assert_eq!(statuses(&out), vec!["Profile exported: /x.json".to_string()]);
    assert_eq!(logs(&out), vec![(LogLevel::Info, "Profile exported: /x.json".to_string())]);
    let out = say_import_path_missing("/y.json");
    assert_eq!(statuses(&out), vec!["Path not found: /y.json".to_string()]);
}

#[test]
fn work_that_fails_is_told_of() {
    for (work, words) in [
        (Work::DeleteProfile, "Profile delete failed: full"),
        (Work::ChooseWinner, "Override failed: full"),
        (Work::SaveRankedOrder, "Smart ranking save failed: full"),
    ] {
        let out = say_failed(work, "full");
        assert_eq!(statuses(&out), vec![words.to_string()]);
        assert_eq!(logs(&out), vec![(LogLevel::Error, words.to_string())]);
    }
    for (work, words) in [
        (Work::OpenClipboard, "Clipboard unavailable: full"),
        (Work::CopyText, "Clipboard copy failed: full"),
    ] {
        let out = say_failed(work, "full");
        assert_eq!(statuses(&out), vec![words.to_string()]);
        assert_eq!(logs(&out), vec![(LogLevel::Warn, words.to_string())]);
    }
    for (work, words) in [
        (Work::SaveClearedCaches, "System cache clear save failed: full"),
        (Work::SaveSyncedMods, "Native mod sync save failed: full"),
        (Work::EncodeRanking, "Smart rank cache serialize failed: full"),
        (Work::StoreRanking, "Smart rank cache write failed: full"),
        (Work::ForgetRanking, "Smart rank cache delete failed: full"),
        (Work::RemoveModFiles, "Remove mod files skipped: full"),
    ] {
        let out = say_failed(work, "full");
        assert!(statuses(&out).is_empty());
        assert_eq!(logs(&out), vec![(LogLevel::Warn, words.to_string())]);
    }
}

#[test]
fn the_program_starts_anew() {
    let (quits, out) = say_restarted(&Restart::Started);
    assert!(quits);
    assert_eq!(logs(&out), vec![(LogLevel::Info, "Restarting after update".to_string())]);
    let (quits, out) = say_restarted(&Restart::NoProgram);
    assert!(!quits);
    assert_eq!(logs(&out), vec![(LogLevel::Warn, "Restart failed: no executable path".to_string())]);
    let (quits, out) = say_restarted(&Restart::Failed { error: "busy".to_string() });
    assert!(!quits);
    assert_eq!(logs(&out), vec![(LogLevel::Warn, "Restart failed: busy".to_string())]);
}

#[test]
fn a_deployment_that_the_user_wants() {
    let mut desk = DeployDesk::new();
    desk.deploy(false);
    assert!(!desk.pending);
    desk.deploy(true);
    assert!(desk.pending);
    assert_eq!(desk.reason, Some("manual deploy".to_string()));
}
