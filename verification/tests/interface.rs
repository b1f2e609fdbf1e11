use sigilsmith::actions::{Action, Desk, LogLevel};
use sigilsmith::config::{AppConfig, GameConfig};
use sigilsmith::dep_desk::DependencyDesk;
use sigilsmith::dep_queue::{
    override_dependency_item, DependencyItem, DependencyItemKind, DependencyQueue, DependencyStatus,
};
use sigilsmith::deploy_desk::DeployDesk;
use sigilsmith::dialogs::prompt_move_blocked;
use sigilsmith::explorer::{ExplorerItemKind, ExplorerState};
use sigilsmith::game::GameId;
use sigilsmith::importer::SizedFile;
use sigilsmith::inputs::{InputDesk, InputMode, InputPurpose};
use sigilsmith::library::{
    FileOverride, InstallTarget, Library, ModEntry, ModSource, PakInfo, TargetKind,
};
use sigilsmith::metadata::{is_uuid_bytes, ModMeta};
use sigilsmith::metadata_desk::MetadataDesk;
use sigilsmith::mod_choices::{clear_visible_overrides, select_target_override};
use sigilsmith::mod_files::say_opened;
use sigilsmith::mod_readings::{collect_metadata_updates, ModReading};
use sigilsmith::mod_scan::{
    collect_pak_paths, is_ignored_mod_path, scan_loose_files, scan_mod_files, scan_pak_files,
    ModRead, ScanError,
};
use sigilsmith::mod_table::{ModSort, ModSortColumn, SortDirection};
use sigilsmith::mod_view::ModView;
use sigilsmith::native_pak::{
    build_native_pak_index_cached, make_meta_entry, resolve_native_pak_path_by_uuid, NativeLookup,
    NativePakMetaIndex, PakSignature,
};
use sigilsmith::pak_index::PakError;
use sigilsmith::path_browser::SetupStep;
use sigilsmith::profile_messages::{
    say_profile_chosen, say_profile_duplicated, say_profile_renamed,
};
use sigilsmith::profile_transfer::{say_imported, ImportedProfile};
use sigilsmith::profiles::ProfileChange;
use sigilsmith::rank_scan::SmartRankState;
use sigilsmith::setup::{path_browser_selectable, say_active_game, Startup, StartupMode};
use sigilsmith::tasks::{Focus, FocusState, Readings};
use sigilsmith::update_desk::UpdateDesk;
use vstd::hash_map::StringHashMap;

fn texts(list: &[&str]) -> Vec<String> {
    list.iter().map(|s| s.to_string()).collect()
}

fn info(uuid: &str) -> PakInfo {
    PakInfo {
        uuid: uuid.to_string(),
        name: uuid.to_string(),
        folder: uuid.to_string(),
        version: 1,
        md5: None,
        publish_handle: None,
        author: None,
        description: None,
        module_type: None,
    }
}

fn entry(id: &str, source: ModSource, targets: Vec<InstallTarget>) -> ModEntry {
    ModEntry {
        id: id.to_string(),
        name: id.to_string(),
        created_at: None,
        modified_at: None,
        added_at: 0,
        targets,
        target_overrides: Vec::new(),
        source_label: None,
        source,
        dependencies: Vec::new(),
    }
}

fn pak_target(file: &str, folder: &str) -> InstallTarget {
    InstallTarget::Pak { file: file.to_string(), info: info(folder) }
}

fn data() -> InstallTarget {
    InstallTarget::Data { dir: "Data".to_string() }
}

fn library() -> Library {
    let mut l = Library::load_or_create(None);
    l.mods = vec![
        entry("a", ModSource::Managed, vec![data(), pak_target("a.pak", "a")]),
        entry("b", ModSource::Managed, vec![data()]),
        entry("c", ModSource::Managed, vec![data()]),
    ];
    l.ensure_mods_in_profiles();
    l
}

fn status(out: &[Action]) -> Option<String> {
    out.iter().rev().find_map(|a| match a {
        Action::Status(t) => Some(t.clone()),
        _ => None,
    })
}

fn missing(label: &str) -> DependencyItem {
    DependencyItem {
        label: label.to_string(),
        display_label: label.to_string(),
        uuid: Some(format!("uuid-{label}")),
        required_by: texts(&["a"]),
        status: DependencyStatus::Missing,
        link: None,
        search_link: Some(format!("https://search/{label}")),
        search_label: label.to_string(),
        kind: DependencyItemKind::Missing,
    }
}

fn queue_desk() -> DependencyDesk {
    let mut desk = DependencyDesk::new();
    desk.queue = Some(DependencyQueue {
        items: vec![missing("x"), missing("y"), missing("z"), override_dependency_item()],
        selected: 0,
    });
    desk
}

#[test]
fn the_log_scrolls() {
    let mut desk = Desk::new("Ready");
    desk.log_warn("w");
    desk.log_error("e");
    assert!(matches!(desk.logs[0].level, LogLevel::Warn));
    assert!(matches!(desk.logs[1].level, LogLevel::Error));
    desk.scroll_log_up(1);
    assert_eq!(desk.log_scroll, 1);
    desk.scroll_log_down(5);
    assert_eq!(desk.log_scroll, 0);
}

#[test]
fn the_list_of_missing_mods_is_walked() {
    let mut desk = queue_desk();
    desk.dependency_queue_move(2);
    assert_eq!(desk.dependency_queue_selected().unwrap().label, "z");
    desk.dependency_queue_move(-9);
    assert_eq!(desk.dependency_queue_selected().unwrap().label, "x");
    desk.dependency_queue_end();
    assert!(desk.dependency_queue_selected().unwrap().is_override_action());
    desk.dependency_queue_home();
    assert_eq!(desk.queue.as_ref().unwrap().selected, 0);
    desk.set_dependency_queue_view(4);
    assert!(desk.dependency_queue_page_step() >= 1);
}

#[test]
fn missing_mods_are_searched_and_copied() {
    let desk = queue_desk();
    let out = desk.dependency_queue_open_selected(Some(false), false);
    assert!(out.iter().any(|a| matches!(a, Action::OpenLink(l) if l == "https://search/x")));
    let out = desk.dependency_queue_copy_link();
    assert!(out.iter().any(|a| matches!(a, Action::Copy(t, _) if t == "https://search/x")));
    let out = desk.dependency_queue_copy_uuid();
    assert!(out.iter().any(|a| matches!(a, Action::Copy(t, _) if t == "uuid-x")));
    let mut given_up = queue_desk();
    given_up.dependency_queue_cancel(false, false);
    assert!(given_up.queue.is_none());
    let mut asked = queue_desk();
    let out = asked.dependency_queue_cancel(true, false);
    assert!(out.iter().any(|a| matches!(a, Action::Ask(_))));
}

#[test]
fn a_deploy_may_keep_no_backup() {
    let mut desk = DeployDesk::new();
    desk.queue_deploy_with_options("rollback", false, true);
    let (reason, backup, _) = desk.start_deploy();
    assert_eq!(reason, "rollback");
    assert!(!backup);
}

#[test]
fn a_sorted_table_holds_its_mods() {
    let sort = ModSort { column: ModSortColumn::Name, direction: SortDirection::Asc };
    let d = prompt_move_blocked(&sort, true, "Anvil", true);
    assert!(d.message.contains("Anvil"));
    assert_ne!(
        sort.direction_arrow(),
        ModSort { column: ModSortColumn::Name, direction: SortDirection::Desc }.direction_arrow()
    );
}

#[test]
fn the_explorer_is_folded() {
    let mut s = ExplorerState::new(GameId::Bg3);
    let l = library();
    let games = vec![GameId::Bg3];
    let items = s.explorer_items(&games, GameId::Bg3, &l, &None);
    let header = items
        .iter()
        .find(|i| matches!(i.kind, ExplorerItemKind::ProfilesHeader(_)))
        .unwrap();
    s.explorer_toggle_collapse(header);
    let folded = s.explorer_items(&games, GameId::Bg3, &l, &None).len();
    assert!(folded < items.len());
    s.explorer_toggle_expand(header);
    assert_eq!(s.explorer_items(&games, GameId::Bg3, &l, &None).len(), items.len());
    s.toggle_profiles_expanded(GameId::Bg3);
    assert_eq!(s.explorer_items(&games, GameId::Bg3, &l, &None).len(), folded);
}

#[test]
fn inputs_for_profiles() {
    let mut desk = InputDesk::new();
    let mut view = ModView::new();
    let l = library();
    desk.enter_duplicate_profile(&mut view, &l.profiles, "Default", 0);
    assert!(matches!(
        &desk.mode,
        InputMode::Editing { purpose: InputPurpose::DuplicateProfile { source }, .. }
            if source == "Default"
    ));
    desk.enter_export_profile(&mut view, "Default", 0);
    assert!(matches!(
        &desk.mode,
        InputMode::Editing { purpose: InputPurpose::ExportProfile { .. }, .. }
    ));
    desk.enter_import_profile(&mut view, 0);
    assert!(matches!(
        &desk.mode,
        InputMode::Editing { purpose: InputPurpose::ImportProfile, .. }
    ));
}

#[test]
fn a_filter_waits_for_the_keys() {
    let mut desk = InputDesk::new();
    let mut view = ModView::new();
    desk.enter_mod_filter(&mut view, 1000);
    if let InputMode::Editing { buffer, .. } = &mut desk.mode {
        buffer.push_str("lamp");
    }
    assert!(desk.maybe_debounce_mod_filter("", 1100).is_none());
    assert_eq!(desk.maybe_debounce_mod_filter("", 1250).as_deref(), Some("lamp"));
    assert!(desk.maybe_debounce_mod_filter("lamp", 1250).is_none());
}

#[test]
fn the_table_is_walked() {
    let l = library();
    let mut view = ModView::new();
    view.height = 2;
    view.jump_mod_selection(&l, false, 2);
    assert_eq!(view.selected, 2);
    view.page_mods_up();
    assert!(view.selected < 2);
    view.page_mods_down();
    view.selected = 99;
    view.clamp_selection(&l, false);
    assert_eq!(view.selected, 2);
    view.cycle_mod_sort_column(&l, false, 1);
    assert_ne!(view.sort.column, ModSortColumn::Order);
    view.submit_mod_filter(&l, false, "b");
    assert_eq!(view.filter, "b");
    view.snapshot = Some("a".to_string());
    view.cancel_mod_filter(&l, false);
    assert_eq!(view.filter, "a");
}

#[test]
fn targets_and_choices_of_what_is_shown() {
    let mut l = library();
    let view = ModView::new();
    select_target_override(&mut l, &view, false, Some(TargetKind::Pak));
    assert!(l.mods[0].is_target_enabled(TargetKind::Pak));
    assert!(!l.mods[0].is_target_enabled(TargetKind::Data));
    l.profiles[0].file_overrides = vec![FileOverride {
        kind: TargetKind::Data,
        relative_path: "x".to_string(),
        mod_id: "a".to_string(),
    }];
    clear_visible_overrides(&mut l, &view, false);
    assert!(l.mods[0].target_overrides.is_empty());
    assert!(l.active_profile_mut().is_some());
}

#[test]
fn metadata_of_all_mods() {
    let l = library();
    let read = || ModReading {
        paks: Vec::new(),
        meta: None,
        infos: Vec::new(),
        created: Some(5),
        modified: Some(9),
    };
    let mut told = Vec::new();
    let updates = collect_metadata_updates(&l.mods, &vec![read(), read(), read()], &mut told);
    let steps: Vec<(usize, usize)> = told.iter().map(|p| (p.current, p.total)).collect();
    assert_eq!(steps, vec![(1, 3), (2, 3), (3, 3)]);
    assert_eq!(told[2].update.id, updates[2].id);
    assert_eq!(updates.len(), 3);
    assert_eq!(updates[0].created_at, Some(5));
    let mut desk = MetadataDesk::new();
    desk.start_metadata_refresh(3);
    desk.take_failed("odd");
    assert!(!desk.active);
    assert!(is_uuid_bytes(b"aaaaaaaa-bbbb-cccc-dddd-eeeeeeeeeeee"));
    assert!(!is_uuid_bytes(b"aaaaaaaa"));
}

#[test]
fn packages_of_the_game_are_listed_once() {
    let mut cache = StringHashMap::new();
    let first = build_native_pak_index_cached(&mut cache, "/m", Some(1), &texts(&["/m/a.pak"]));
    assert_eq!(first.len(), 1);
    let again = build_native_pak_index_cached(&mut cache, "/m", Some(1), &Vec::new());
    assert_eq!(again.len(), 1);
    let changed = build_native_pak_index_cached(&mut cache, "/m", Some(2), &Vec::new());
    assert!(changed.is_empty());
    let sign = PakSignature { size: 1, modified: None };
    let mut meta = ModMeta::default();
    meta.uuid = Some("U-1".to_string());
    let e = make_meta_entry("/m/a.pak".to_string(), sign, &Some(meta));
    let index = NativePakMetaIndex { entries: vec![e], signatures: vec![Some(sign)] };
    assert!(matches!(
        resolve_native_pak_path_by_uuid("u-1", &first, &index, true),
        NativeLookup::Found(p) if p == "/m/a.pak"
    ));
}

#[test]
fn profiles_are_announced() {
    let chosen = say_profile_chosen(ProfileChange::Done, "Night");
    assert!(status(&chosen).unwrap().contains("Night"));
    let copied = say_profile_duplicated(ProfileChange::Done, "Day", "Night");
    assert!(status(&copied).unwrap().contains("Night"));
    let renamed = say_profile_renamed(ProfileChange::NotFound, "Day", "Night");
    assert!(!renamed.is_empty());
    let r = ImportedProfile { name: "Night".to_string(), missing: texts(&["q"]), mismatch: false };
    assert!(!say_imported(&r, GameId::Bg3, "").is_empty());
}

#[test]
fn more_settings_are_switched() {
    let (mut app, _) = AppConfig::load_or_create(None, "/dl".to_string());
    app.toggle_confirm_profile_delete();
    assert!(!app.confirm_profile_delete);
    app.toggle_enable_mods_after_import();
    assert!(!app.enable_mods_after_import);
    app.toggle_delete_mod_files_on_remove();
    assert!(app.delete_mod_files_on_remove);
    app.toggle_dependency_downloads();
    assert!(!app.offer_dependency_downloads);
    app.toggle_dependency_warnings();
    assert!(!app.warn_missing_dependencies);
    app.toggle_startup_dependency_notice();
    assert!(!app.show_startup_dependency_notice);
}

#[test]
fn small_pieces_of_the_start() {
    let dirs = texts(&["/g/Data", "/g/bin"]);
    assert!(path_browser_selectable(GameId::Bg3, SetupStep::GameRoot, "/g", &dirs));
    assert!(!path_browser_selectable(GameId::Bg3, SetupStep::LarianDir, "/g", &dirs));
    let mut s = Startup::new(StartupMode::Ui);
    s.finish_startup();
    assert!(s.take_post_sync());
    assert!(!s.take_post_sync());
    assert!(status(&say_active_game(GameId::Bg3)).is_some());
    let (starts, _) = UpdateDesk::new().request_update_check(5);
    assert!(starts);
    assert!(!say_opened("folder", true, &Vec::new()).is_empty());
}

#[test]
fn hints_fade_after_the_focus() {
    let mut f = FocusState::new();
    f.set_focus(Focus::Log, 0);
    f.update_hotkey_transition(300);
    assert!(f.hotkey_fade_active(350));
    assert!(!f.hotkey_fade_active(900));
    f.focus_mods(1000);
    assert_eq!(f.focus, Focus::Mods);
}

#[test]
fn the_list_loads_while_the_game_is_read() {
    let r = Readings {
        native_sync_active: true,
        native_sync_progress: None,
        metadata_active: false,
        metadata_processed: 0,
        metadata_total: 0,
        metadata_processed_ids: Vec::new(),
        startup_dependency_check_pending: false,
        dependency_cache_ready: true,
        warmup_active: false,
    };
    assert!(r.mod_list_loading());
}

#[test]
fn a_warmup_starts_where_nothing_is_known() {
    let mut s = SmartRankState::new();
    let out = s.schedule_smart_rank_warmup(&library(), &texts(&["1", "2", "3"]));
    assert!(s.refresh_pending.is_some() || s.active || !out.is_empty());
}

#[test]
fn packages_of_a_mod_are_collected() {
    let own = entry("m", ModSource::Managed, vec![pak_target("f.pak", "F"), data()]);
    assert_eq!(collect_pak_paths(&own, "/d", "/g", &Vec::new(), None), vec!["/d/mods/m/f.pak"]);
    let game = entry("n", ModSource::Native, vec![pak_target("F.pak", "F")]);
    let there = texts(&["/g/F.pak"]);
    assert_eq!(collect_pak_paths(&game, "/d", "/g", &there, None), vec!["/g/F.pak"]);
    let resolved = Some("/g/other.pak".to_string());
    assert_eq!(
        collect_pak_paths(&game, "/d", "/g", &Vec::new(), resolved),
        vec!["/g/other.pak"]
    );
}

#[test]
fn files_of_a_mod_have_keys() {
    let m = entry("m", ModSource::Managed, vec![data(), pak_target("f.pak", "F")]);
    let walks = || {
        vec![
            Some(vec![
                SizedFile { path: "Public\\A.TXT".to_string(), size: 3 },
                SizedFile { path: ".git/x".to_string(), size: 4 },
            ]),
            None,
        ]
    };
    let files = scan_loose_files(&m, "/d/mods/m", &walks());
    assert_eq!(files.len(), 1);
    assert_eq!(files[0].key, "data:public/a.txt");
    assert_eq!(files[0].size, 3);
    let read = ModRead { walks: walks(), packages: Vec::new(), metas: Vec::new() };
    assert_eq!(scan_mod_files(&m, "/d/mods/m", &read).files.unwrap().len(), 1);
    assert!(is_ignored_mod_path("/m/__macosx/a"));
    assert!(!is_ignored_mod_path("/m/thumbs.db"));
}

#[test]
fn packages_that_cannot_be_scanned() {
    assert_eq!(scan_pak_files(&vec![None]).unwrap_err(), ScanError::PakMissing);
    let bad = scan_pak_files(&vec![None, Some(b"ZIPX".to_vec())]).unwrap_err();
    assert_eq!(bad, ScanError::Index(PakError::BadHeader));
    assert_eq!(bad.message(), "invalid pak header");
    assert_eq!(ScanError::PakMissing.message(), "pak file missing");
    assert_eq!(
        ScanError::Index(PakError::OldVersion(15)).message(),
        "unsupported pak version 15"
    );
    let m = entry("m", ModSource::Managed, vec![pak_target("f.pak", "F")]);
    let mut meta = ModMeta::default();
    meta.dependencies = texts(&["q"]);
    meta.created_at = Some(7);
    let mut other = ModMeta::default();
    other.created_at = Some(4);
    let read = ModRead {
        walks: vec![None],
        packages: vec![None],
        metas: vec![Some(meta), None, Some(other)],
    };
    let scan = scan_mod_files(&m, "/r", &read);
    assert_eq!(scan.files.unwrap_err(), "pak file missing");
    assert_eq!(scan.dependencies, vec!["q"]);
    assert_eq!(scan.created_at, Some(4));
}

#[test]
fn a_game_keeps_its_place() {
    let c = GameConfig::load_or_create(GameId::Bg3, None, "/d".to_string(), None);
    assert_eq!(c.sigillink_cache_root(), "/d");
    assert_eq!(c.game_root, "");
}
