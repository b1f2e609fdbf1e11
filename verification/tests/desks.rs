use sigilsmith::actions::{log_file_line, Action, Desk, DialogChoice, LogLevel, ToastLevel, LOG_CAPACITY};
use sigilsmith::config::{AppConfig, GameConfig};
use sigilsmith::dialogs::{
    dialog_confirm, prompt_delete_mod, prompt_delete_profile, prompt_import_summary,
    prompt_startup_dependency_notice, prompt_unrecognized, DialogOutcome,
};
use sigilsmith::explorer::{
    active_profile_label, explorer_activate, ExplorerChoice, ExplorerItemKind, ExplorerState,
};
use sigilsmith::game::GameId;
use sigilsmith::importer::{ImportFailure, ImportSource};
use sigilsmith::inputs::{InputDesk, InputMode, InputPurpose};
use sigilsmith::library::{InstallTarget, Library, ModEntry, ModSource};
use sigilsmith::mod_table::{
    mod_matches_filter, mod_sort_next_column, ModSort, ModSortColumn, SortDirection,
};
use sigilsmith::mod_view::{profile_counts, ModView};
use sigilsmith::path_browser::{
    build_path_browser_entries, open_path_browser, path_browser_candidates, path_browser_start,
    FoundDir, PathBrowserEntryKind, SetupStep,
};
use sigilsmith::profile_messages::{say_profile_created, say_profile_deleted};
use sigilsmith::profiles::ProfileChange;
use sigilsmith::settings::Overlays;
use sigilsmith::setup::{
    block_game_switch, block_rollback, ensure_setup, paths_ready, rollback_last_backup,
    settle_active_profile, settle_paths, submit_downloads_dir_path, submit_game_root_path,
    submit_larian_dir_path, Startup, StartupMode, StartupStep,
};
use sigilsmith::tasks::{block_mod_changes, Focus, FocusState, Readings, Tasks};
use sigilsmith::update_desk::{
    ApplyOutcome, UpdateDesk, UpdateInfo, UpdateMessage, UpdateResult, UpdateStatus,
};

fn entry(id: &str, name: &str) -> ModEntry {
    ModEntry {
        id: id.to_string(),
        name: name.to_string(),
        created_at: None,
        modified_at: None,
        added_at: 0,
        targets: vec![InstallTarget::Data { dir: "Data".to_string() }],
        target_overrides: Vec::new(),
        source_label: None,
        source: ModSource::Managed,
        dependencies: Vec::new(),
    }
}

fn library() -> Library {
    let mut l = Library::load_or_create(None);
    l.mods = vec![entry("a", "Candle"), entry("b", "Anvil"), entry("c", "Bell")];
    l.ensure_mods_in_profiles();
    l
}

fn texts(list: &[&str]) -> Vec<String> {
    list.iter().map(|s| s.to_string()).collect()
}

fn config() -> GameConfig {
    GameConfig {
        game_id: GameId::Bg3,
        game_name: "Baldur's Gate 3".to_string(),
        data_dir: "/app".to_string(),
        game_root: String::new(),
        larian_dir: String::new(),
        active_profile: "Default".to_string(),
    }
}

fn dirs() -> Vec<String> {
    texts(&["/game", "/game/Data", "/game/bin", "/larian", "/larian/PlayerProfiles"])
}

fn idle() -> Tasks {
    Tasks {
        startup_pending: false,
        native_sync_active: false,
        import_active: false,
        deploy_active: false,
        deploy_pending: false,
        conflict_active: false,
        conflict_pending: false,
        smart_rank_active: false,
        smart_rank_mode: None,
        metadata_active: false,
    }
}

fn status(out: &[Action]) -> Option<String> {
    out.iter().rev().find_map(|a| match a {
        Action::Status(t) => Some(t.clone()),
        _ => None,
    })
}

fn info() -> UpdateInfo {
    UpdateInfo {
        version: "2.0".to_string(),
        kind: "deb".to_string(),
        asset_name: "s.deb".to_string(),
    }
}

#[test]
fn the_log_keeps_the_newest() {
    let mut desk = Desk::new("Ready");
    for i in 0..LOG_CAPACITY + 5 {
        desk.log_info(&format!("line {i}"));
    }
    assert_eq!(desk.logs.len(), LOG_CAPACITY);
    assert_eq!(desk.logs.last().unwrap().message, format!("line {}", LOG_CAPACITY + 4));
    assert!(log_file_line(LogLevel::Warn, "x").contains("x"));
}

#[test]
fn toasts_go_away() {
    let mut desk = Desk::new("Ready");
    desk.set_toast("hello", ToastLevel::Info, 3000, 100);
    desk.expire_toast(3000);
    assert!(desk.toast.is_some());
    desk.expire_toast(3100);
    assert!(desk.toast.is_none());
}

#[test]
fn saying_no_removes_nothing() {
    let mut d = prompt_delete_profile("Default");
    d.dialog_set_choice(DialogChoice::No);
    assert!(matches!(dialog_confirm(d), DialogOutcome::Nothing));
    let mut d = prompt_delete_mod("a", "Candle", false, Vec::new());
    d.dialog_choice_left();
    d.dialog_choice_right();
    d.dialog_set_choice(DialogChoice::Yes);
    match dialog_confirm(d) {
        DialogOutcome::DeleteMod { id, .. } => assert_eq!(id, "a"),
        _ => panic!(),
    }
    let mut d = prompt_unrecognized("/x/odd");
    d.dialog_set_choice(DialogChoice::No);
    assert!(matches!(dialog_confirm(d), DialogOutcome::SkipUnrecognized { .. }));
}

#[test]
fn notices_name_what_happened() {
    let failure = ImportFailure {
        source: ImportSource { label: "pack".to_string() },
        error: "broken".to_string(),
    };
    let d = prompt_import_summary(&vec![failure]);
    assert!(d.message.contains("pack"));
    let d = prompt_startup_dependency_notice(&texts(&["Candle"]));
    assert!(d.message.contains("Candle"));
}

#[test]
fn the_explorer_opens_and_closes() {
    let mut s = ExplorerState::new(GameId::Bg3);
    let l = library();
    let games = vec![GameId::Bg3];
    let items = s.explorer_items(&games, GameId::Bg3, &l, &None);
    assert!(matches!(items[0].kind, ExplorerItemKind::Game(_)));
    assert!(items.iter().any(|i| matches!(&i.kind, ExplorerItemKind::Profile { name } if name == "Default")));
    let open = items.len();
    s.toggle_game_expanded(GameId::Bg3);
    assert!(s.explorer_items(&games, GameId::Bg3, &l, &None).len() < open);
    s.toggle_game_expanded(GameId::Bg3);
    assert_eq!(s.explorer_items(&games, GameId::Bg3, &l, &None).len(), open);
    s.explorer_move_down(open);
    assert_eq!(s.selected, 1);
    s.explorer_move_up();
    s.explorer_move_up();
    assert_eq!(s.selected, 0);
    let profile = items
        .iter()
        .find(|i| matches!(i.kind, ExplorerItemKind::Profile { .. }))
        .unwrap();
    assert!(matches!(
        explorer_activate(profile, GameId::Bg3),
        ExplorerChoice::OpenProfile(name) if name == "Default"
    ));
    assert_eq!(active_profile_label(&l, &None), "Default");
}

#[test]
fn inputs_are_opened_and_submitted() {
    let mut desk = InputDesk::new();
    let mut view = ModView::new();
    desk.enter_rename_profile(&mut view, "Default", 0);
    assert!(desk.is_renaming_profile("Default"));
    assert_eq!(desk.rename_preview().unwrap().original, "Default");
    assert!(desk.is_renaming_active_profile(&library()));
    desk.enter_create_profile(&mut view, 0);
    match &desk.mode {
        InputMode::Editing { purpose, .. } => {
            assert!(matches!(purpose, InputPurpose::CreateProfile));
        },
        _ => panic!(),
    }
    desk.enter_import_mode(&mut view, &idle(), 100);
    if let InputMode::Editing { buffer, .. } = &mut desk.mode {
        buffer.push_str("/x.pak");
    }
    if let InputMode::Editing { auto_submit, .. } = &mut desk.mode {
        *auto_submit = true;
    }
    assert!(desk.maybe_auto_submit(false, 200).is_none());
    assert!(desk.maybe_auto_submit(true, 900).is_none());
    let (purpose, text) = desk.maybe_auto_submit(false, 900).unwrap();
    assert!(matches!(purpose, InputPurpose::ImportPath));
    assert_eq!(text, "/x.pak");
}

#[test]
fn the_table_is_sorted_and_filtered() {
    let l = library();
    let mut view = ModView::new();
    assert_eq!(view.visible_profile_indices(&l, false), vec![0, 1, 2]);
    view.selected = 2;
    assert_eq!(view.selected_profile_id(&l, false).as_deref(), Some("c"));
    view.sort = ModSort { column: ModSortColumn::Name, direction: SortDirection::Asc };
    assert_eq!(view.visible_profile_indices(&l, false), vec![1, 2, 0]);
    view.reselect_mod_by_id(&l, false, &Some("c".to_string()));
    assert_eq!(view.selected, 1);
    view.toggle_mod_sort_direction(&l, false);
    assert_eq!(view.selected_profile_id(&l, false).as_deref(), Some("c"));
    view.apply_mod_filter(&l, false, "ANV", true);
    assert!(view.mod_filter_active());
    assert_eq!(view.visible_profile_indices(&l, false), vec![1]);
    view.clear_mod_filter(&l, false);
    assert_eq!(view.visible_profile_indices(&l, false).len(), 3);
    assert!(mod_matches_filter(&l.mods[0], "candle"));
    assert_eq!(profile_counts(&l), (3, 0));
}

#[test]
fn columns_go_round() {
    let start = ModSortColumn::Order;
    let mut c = start;
    for _ in 0..8 {
        let next = mod_sort_next_column(c, 1);
        assert_eq!(mod_sort_next_column(next, -1), c);
        c = next;
    }
    assert_eq!(c, start);
}

#[test]
fn mods_are_moved_in_the_table() {
    let mut l = library();
    let mut view = ModView::new();
    view.toggle_move_mode();
    view.move_selected_down(&mut l, false);
    let ids: Vec<String> = l.profiles[0].order.iter().map(|e| e.id.clone()).collect();
    assert_eq!(ids, vec!["b", "a", "c"]);
    assert_eq!(view.selected, 1);
    view.move_selected_up(&mut l, false);
    let ids: Vec<String> = l.profiles[0].order.iter().map(|e| e.id.clone()).collect();
    assert_eq!(ids, vec!["a", "b", "c"]);
}

#[test]
fn folders_are_browsed() {
    assert!(!path_browser_candidates(SetupStep::GameRoot, "/set", "/home/u").is_empty());
    assert_eq!(path_browser_start(SetupStep::DownloadsDir, "/set", "/home/u", &texts(&["/set"])), "/set");
    assert_eq!(path_browser_start(SetupStep::GameRoot, "", "/home/u", &Vec::new()), "/home/u");
    let found = vec![
        FoundDir { name: Some("zeta".to_string()), path: "/d/zeta".to_string() },
        FoundDir { name: Some("Alpha".to_string()), path: "/d/Alpha".to_string() },
    ];
    let entries = build_path_browser_entries("/d", true, &Some("/".to_string()), &found);
    assert_eq!(entries[0].kind, PathBrowserEntryKind::Select);
    assert_eq!(entries[1].kind, PathBrowserEntryKind::Parent);
    assert_eq!(entries.len(), 4);
    assert_eq!(entries[2].path, "/d/Alpha");
    let (b, _) = open_path_browser(SetupStep::GameRoot, "/d".to_string(), entries);
    assert_eq!(b.path_input, "/d");
}

#[test]
fn paths_are_asked_for_until_they_are_ready() {
    let mut c = config();
    assert!(!paths_ready(&c, &dirs()));
    assert_eq!(ensure_setup(&c, &dirs()), Some(SetupStep::GameRoot));
    let (_, out) = submit_game_root_path(&mut c, "/nowhere", false, &dirs(), None);
    assert!(status(&out).is_some());
    assert_eq!(c.game_root, "");
    let (next, _) = submit_game_root_path(&mut c, "/game", true, &dirs(), None);
    assert_eq!(c.game_root, "/game");
    assert_eq!(next, Some(SetupStep::LarianDir));
    submit_larian_dir_path(&mut c, "/larian", true, &dirs());
    assert!(paths_ready(&c, &dirs()));
    assert_eq!(ensure_setup(&c, &dirs()), None);
    let (mut app, _) = AppConfig::load_or_create(None, "/dl".to_string());
    submit_downloads_dir_path(&mut app, "/new", true);
    assert_eq!(app.downloads_dir, "/new");
    submit_downloads_dir_path(&mut app, "/gone", false);
    assert_eq!(app.downloads_dir, "/new");
}

#[test]
fn paths_are_settled_at_the_start() {
    let mut c = config();
    let (changed, error) =
        settle_paths(&mut c, &dirs(), Some("/game".to_string()), Some("/larian".to_string()));
    assert!(changed);
    assert!(error.is_none());
    assert_eq!(c.larian_dir, "/larian");
    let mut l = library();
    c.active_profile = "Lost".to_string();
    settle_active_profile(&mut l, &mut c);
    assert_eq!(l.active_profile, "Default");
    assert_eq!(c.active_profile, l.active_profile);
}

#[test]
fn the_start_is_finished_once() {
    let mut ui = Startup::new(StartupMode::Ui);
    assert_eq!(ui.finish_startup(), StartupStep::SyncBeside);
    assert_eq!(ui.finish_startup(), StartupStep::Nothing);
    let mut cli = Startup::new(StartupMode::Cli);
    assert_eq!(cli.finish_startup(), StartupStep::SyncNow);
}

#[test]
fn changes_wait_for_what_goes_on() {
    assert!(!block_mod_changes(&idle(), "move").0);
    let mut busy = idle();
    busy.metadata_active = true;
    let (blocked, out) = block_mod_changes(&busy, "move");
    assert!(blocked);
    assert!(out.iter().any(|a| matches!(
        a,
        Action::Toast(_, t, _) if t == "Metadata scan in progress - please wait"
    )));
    assert!(!idle().is_busy());
    let mut deploying = idle();
    deploying.deploy_active = true;
    assert!(deploying.is_busy());
    assert!(block_game_switch(&deploying).0);
    assert!(!block_game_switch(&idle()).0);
    assert!(block_rollback(&idle(), false).0);
    assert!(!block_rollback(&idle(), true).0);
}

#[test]
fn a_backup_is_taken_back() {
    let mut l = library();
    let mut c = config();
    let mut kept = library();
    kept.mods.truncate(1);
    kept.profiles[0].name = "Old".to_string();
    kept.active_profile = "Old".to_string();
    rollback_last_backup(&mut l, &mut c, kept, "/b");
    assert_eq!(l.mods.len(), 1);
    assert_eq!(c.active_profile, "Old");
}

#[test]
fn the_focus_moves_round() {
    let mut f = FocusState::new();
    let start = f.focus;
    let mut seen = vec![start];
    for i in 0..4 {
        f.cycle_focus(i * 1000);
        seen.push(f.focus);
    }
    assert_eq!(seen[4], start);
    f.set_focus(Focus::Log, 9000);
    f.update_hotkey_transition(9100);
    assert_ne!(f.hotkey_focus, Focus::Log);
    f.update_hotkey_transition(9300);
    assert_eq!(f.hotkey_focus, Focus::Log);
}

#[test]
fn readings_say_what_loads() {
    let r = Readings {
        native_sync_active: false,
        native_sync_progress: None,
        metadata_active: true,
        metadata_processed: 1,
        metadata_total: 3,
        metadata_processed_ids: texts(&["a"]),
        startup_dependency_check_pending: false,
        dependency_cache_ready: true,
        warmup_active: false,
    };
    assert!(!r.mod_row_loading("a"));
    assert!(r.mod_row_loading("b"));
    assert!(r.status_line(&None, "Ready").contains("1/3"));
}

#[test]
fn settings_are_switched() {
    let (mut app, _) = AppConfig::load_or_create(None, "/dl".to_string());
    let out = app.toggle_confirm_mod_delete();
    assert!(!app.confirm_mod_delete);
    assert!(out.iter().any(|a| matches!(a, Action::SaveAppConfig)));
    assert!(status(&out).unwrap().ends_with("disabled"));
    app.toggle_confirm_mod_delete();
    assert!(app.confirm_mod_delete);
    let mut o = Overlays::new();
    assert!(o.toggle_settings_menu());
    assert!(!o.toggle_settings_menu());
    o.toggle_help();
    assert!(o.help_open);
    o.close_help();
    assert!(!o.help_open);
}

#[test]
fn updates_are_looked_for() {
    let mut desk = UpdateDesk::new();
    assert!(desk.start_update_check(1000));
    assert!(!desk.start_update_check(1001));
    desk.tick(2000);
    assert!(desk.active);
    desk.tick(17000);
    assert!(!desk.active);
    assert!(matches!(desk.status, UpdateStatus::Failed { .. }));
    desk.start_update_check(20000);
    desk.take_message(UpdateMessage::Completed(UpdateResult::UpToDate), "1.0");
    assert!(matches!(desk.status, UpdateStatus::UpToDate { .. }));
    assert!(desk.begin_apply().is_none());
    desk.start_update_check(30000);
    desk.take_message(
        UpdateMessage::Completed(UpdateResult::Ready {
            info: info(),
            path: "/s.deb".to_string(),
            instructions: "run it".to_string(),
        }),
        "1.0",
    );
    assert!(desk.begin_apply().is_some());
    let (restart, _) = desk.finish_apply(ApplyOutcome::Applied);
    assert!(restart);
    assert!(matches!(desk.status, UpdateStatus::Applied { .. }));
    let mut failed = UpdateDesk::new();
    failed.start_update_check(0);
    failed.take_message(UpdateMessage::Failed { error: "odd".to_string() }, "1.0");
    assert!(matches!(failed.status, UpdateStatus::Failed { .. }));
}

#[test]
fn profiles_are_told_about() {
    let made = say_profile_created(ProfileChange::Done, "Night");
    assert!(status(&made).unwrap().contains("Night"));
    let taken = say_profile_created(ProfileChange::NameTaken, "Night");
    assert_ne!(status(&taken), status(&made));
    let last = say_profile_deleted(ProfileChange::LastProfile, "Night", false);
    assert!(status(&last).is_some());
}
