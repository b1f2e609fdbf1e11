use sigilsmith::actions::Action;
use sigilsmith::backup::{create_backup, load_last_backup, LastBackup};
use sigilsmith::bg3::{detect_paths, find_larian_dir, parse_steam_library_paths, GamePaths, PathError};
use sigilsmith::config::{AppConfig, GameConfig};
use sigilsmith::conflicts::ConflictDesk;
use sigilsmith::deploy::{
    conflict_sources, deploy_with_options, deployed_files, is_ignored_deploy_path, link_with_mode,
    remove_previous_deploy, report, resolve_sigillink_mode, scan_conflicts,
    summarize_sigillink_modes, undo_order, DeployManifest, DeployOptions, DeployReport,
    DeployedFile, LinkModeCache, LinkPlan, Listing, Occupant, SigilLinkMode,
};
use sigilsmith::deploy_desk::{say_healed, DeployDesk};
use sigilsmith::game::GameId;
use sigilsmith::library::{
    FileOverride, InstallTarget, Library, ModEntry, ModSource, PakInfo, TargetKind,
};
use sigilsmith::loose::{build_loose_plan, collect_candidates};
use sigilsmith::modsettings::{
    build_modsettings_save, is_base_module, module_attr, settings_snapshot, ModSettings,
    ModuleNode, SettingsAttribute, SettingsNode, SettingsVersion,
};
use sigilsmith::settings_file::{
    build_modsettings_export, check_settings_text, default_modsettings, modsettings_xml,
    read_modsettings, read_modsettings_snapshot, update_modsettings, SettingsError,
};
use sigilsmith::sigillink::{load_sigillink_index, sigillink_index_path, SigilLinkEntry, SigilLinkIndex};

fn pak(uuid: &str, name: &str) -> PakInfo {
    PakInfo {
        uuid: uuid.to_string(),
        name: name.to_string(),
        folder: name.to_string(),
        version: 1,
        md5: None,
        publish_handle: None,
        author: None,
        description: None,
        module_type: None,
    }
}

fn entry(id: &str, name: &str, targets: Vec<InstallTarget>) -> ModEntry {
    ModEntry {
        id: id.to_string(),
        name: name.to_string(),
        created_at: None,
        modified_at: None,
        added_at: 0,
        targets,
        target_overrides: Vec::new(),
        source_label: None,
        source: ModSource::Managed,
        dependencies: Vec::new(),
    }
}

fn pak_mod(id: &str) -> ModEntry {
    entry(id, id, vec![InstallTarget::Pak { file: format!("{id}.pak"), info: pak(id, id) }])
}

fn data_mod(id: &str) -> ModEntry {
    entry(id, id, vec![InstallTarget::Data { dir: "Data".to_string() }])
}

fn paths() -> GamePaths {
    GamePaths {
        game_root: "/game".to_string(),
        data_dir: "/game/Data".to_string(),
        larian_dir: "/larian".to_string(),
        larian_mods_dir: "/larian/Mods".to_string(),
        modsettings_path: "/larian/PlayerProfiles/Public/modsettings.lsx".to_string(),
        profiles_dir: "/larian/PlayerProfiles".to_string(),
    }
}

fn library() -> Library {
    let mut l = Library::load_or_create(None);
    l.mods = vec![pak_mod("p"), data_mod("x"), data_mod("y"), pak_mod("q")];
    l.ensure_mods_in_profiles();
    for e in l.profiles[0].order.iter_mut() {
        e.enabled = e.id != "q";
    }
    l
}

fn walked(files: &[&str]) -> Listing {
    Listing::Walked { files: files.iter().map(|s| s.to_string()).collect() }
}

fn config() -> GameConfig {
    GameConfig {
        game_id: GameId::Bg3,
        game_name: "Baldur's Gate 3".to_string(),
        data_dir: "/app".to_string(),
        game_root: "/game".to_string(),
        larian_dir: "/larian".to_string(),
        active_profile: "Default".to_string(),
    }
}

fn listings() -> Vec<Listing> {
    vec![
        walked(&["Public/a.txt", "only.txt"]),
        walked(&["Public/a.txt"]),
    ]
}

fn status(out: &[Action]) -> Option<String> {
    out.iter().rev().find_map(|a| match a {
        Action::Status(t) => Some(t.clone()),
        _ => None,
    })
}

#[test]
fn a_deploy_is_planned() {
    let options = DeployOptions { backup: true, reason: Some("test".to_string()) };
    let plan = deploy_with_options(&paths(), &library(), "/cache", options).unwrap();
    let ids = |list: &Vec<PakInfo>| list.iter().map(|p| p.uuid.clone()).collect::<Vec<_>>();
    assert_eq!(ids(&plan.installed_paks), vec!["p", "q"]);
    assert_eq!(ids(&plan.enabled_paks), vec!["p"]);
    let dests: Vec<String> = plan.pak_links.iter().map(|l| l.dest.clone()).collect();
    assert_eq!(dests, vec!["/larian/Mods/p.pak", "/larian/Mods/q.pak"]);
    assert_eq!(plan.loose_count, 2);
    assert_eq!(plan.sources.len(), 2);
    assert_eq!(plan.sources[0].dest_root, "/game/Data");
    assert!(plan.backup);
    assert_eq!(plan.reason.as_deref(), Some("test"));
    let mut bare = library();
    bare.profiles.clear();
    let none = DeployOptions { backup: false, reason: None };
    assert!(deploy_with_options(&paths(), &bare, "/cache", none).is_none());
}

#[test]
fn the_last_mod_wins_a_file() {
    let l = library();
    let sources = conflict_sources(&paths(), &l, "/cache").unwrap();
    let list = collect_candidates(&sources, &l.mods, &listings());
    assert_eq!(list.len(), 3);
    let (plans, conflicts, overridden) = build_loose_plan(&list, &Vec::new());
    assert_eq!(plans.len(), 2);
    assert_eq!(conflicts.len(), 1);
    assert_eq!(overridden, 1);
    for c in &conflicts {
        assert_eq!(c.winner_id, "y");
        assert!(!c.overridden);
    }
    let files = deployed_files(&plans);
    assert_eq!(files.len(), plans.len());
    assert_eq!(undo_order(&plans, 2), vec![plans[1].dest.clone(), plans[0].dest.clone()]);
}

#[test]
fn a_choice_decides_a_file() {
    let l = library();
    let same = vec![
        walked(&["a.txt"]),
        walked(&["a.txt"]),
    ];
    let found = scan_conflicts(&paths(), &l, "/cache", &same).unwrap();
    assert_eq!(found.len(), 1);
    assert_eq!(found[0].winner_id, "y");
    assert_eq!(found[0].relative_path, "a.txt");
    let mut chosen = library();
    chosen.profiles[0].file_overrides = vec![FileOverride {
        kind: TargetKind::Data,
        relative_path: "a.txt".to_string(),
        mod_id: "x".to_string(),
    }];
    let found = scan_conflicts(&paths(), &chosen, "/cache", &same).unwrap();
    assert_eq!(found[0].winner_id, "x");
    assert_eq!(found[0].default_winner_id, "y");
    assert!(found[0].overridden);
}

#[test]
fn listed_files_stand_in_for_a_walk() {
    let l = library();
    let index = SigilLinkIndex {
        version: 1,
        entries: vec![
            SigilLinkEntry {
                kind: TargetKind::Data,
                relative_path: "a.txt".to_string(),
                size: 1,
            },
            SigilLinkEntry { kind: TargetKind::Bin, relative_path: "b.dll".to_string(), size: 1 },
        ],
        total_bytes: 2,
    };
    let both = vec![
        Listing::Indexed { index, present: vec![true, true] },
        walked(&["a.txt"]),
    ];
    assert_eq!(scan_conflicts(&paths(), &l, "/cache", &both).unwrap().len(), 1);
    let gone = vec![Listing::Missing, walked(&["a.txt"])];
    assert!(scan_conflicts(&paths(), &l, "/cache", &gone).unwrap().is_empty());
}

#[test]
fn files_that_are_left_out() {
    assert!(is_ignored_deploy_path("/m/__macosx/a"));
    assert!(is_ignored_deploy_path("/m/.git/config"));
    assert!(!is_ignored_deploy_path("/m/.GIT/config"));
    assert!(!is_ignored_deploy_path("/m/git/a"));
}

#[test]
fn links_on_one_device_are_hard() {
    assert_eq!(resolve_sigillink_mode(3, 3), SigilLinkMode::Hardlink);
    assert_eq!(resolve_sigillink_mode(3, 4), SigilLinkMode::Symlink);
    let mut cache = LinkModeCache::new(3);
    assert!(!cache.knows("/game"));
    assert_eq!(cache.mode_for("/game", 4), SigilLinkMode::Symlink);
    assert!(cache.knows("/game"));
    assert_eq!(cache.mode_for("/game", 3), SigilLinkMode::Symlink);
    let only_soft = cache.summary();
    cache.mode_for("/larian", 3);
    assert_ne!(cache.summary(), only_soft);
    let same = summarize_sigillink_modes(3, &[("/a".to_string(), 3)]);
    let mixed = summarize_sigillink_modes(3, &[("/a".to_string(), 3), ("/b".to_string(), 9)]);
    assert_ne!(same, mixed);
}

#[test]
fn what_stands_in_the_way_of_a_link() {
    let hard = SigilLinkMode::Hardlink;
    assert!(matches!(
        link_with_mode(Occupant::Nothing, hard),
        LinkPlan::Link { remove_first: false, mode: SigilLinkMode::Hardlink }
    ));
    assert!(matches!(
        link_with_mode(Occupant::File, hard),
        LinkPlan::Link { remove_first: true, .. }
    ));
    assert!(matches!(link_with_mode(Occupant::Directory, hard), LinkPlan::Refuse));
}

#[test]
fn only_files_of_the_game_are_taken_away() {
    let file = |path: &str| DeployedFile {
        target: "data".to_string(),
        path: path.to_string(),
        source_mod: None,
        source_id: None,
        source_kind: None,
    };
    let manifest = DeployManifest {
        files: vec![file("/game/Data/a.txt"), file("/home/me/letter.txt")],
        pak_files: vec!["/larian/Mods/p.pak".to_string(), "/etc/passwd".to_string()],
    };
    let gone = remove_previous_deploy(&paths(), &manifest);
    assert!(gone.contains(&"/game/Data/a.txt".to_string()));
    assert!(gone.contains(&"/larian/Mods/p.pak".to_string()));
    assert_eq!(gone.len(), 2);
    assert!(gone.iter().all(|p| p.starts_with("/game") || p.starts_with("/larian")));
}

#[test]
fn what_was_deployed_is_taken_back() {
    let l = library();
    let options = DeployOptions { backup: false, reason: None };
    let plan = deploy_with_options(&paths(), &l, "/cache", options).unwrap();
    let list = collect_candidates(&plan.sources, &l.mods, &listings());
    let (files, _, _) = build_loose_plan(&list, &plan.file_overrides);
    let manifest = DeployManifest {
        files: deployed_files(&files),
        pak_files: plan.pak_links.iter().map(|p| p.dest.clone()).collect(),
    };
    assert!(manifest.files.len() > 0 && manifest.pak_files.len() > 0);
    let gone = remove_previous_deploy(&paths(), &manifest);
    assert_eq!(gone.len(), manifest.files.len() + manifest.pak_files.len());
}

#[test]
fn a_deploy_is_reported() {
    let l = library();
    let options = DeployOptions { backup: false, reason: None };
    let plan = deploy_with_options(&paths(), &l, "/cache", options).unwrap();
    let list = collect_candidates(&plan.sources, &l.mods, &listings());
    let (files, _, overridden) = build_loose_plan(&list, &plan.file_overrides);
    let r = report(&plan, &files, 4, overridden, &LinkModeCache::new(1));
    assert_eq!((r.pak_count, r.loose_count, r.removed_count), (2, 2, 4));
    assert_eq!(r.overridden_files, overridden);
}

#[test]
fn a_deploy_waits_and_runs() {
    let mut desk = DeployDesk::new();
    desk.queue_deploy("first", false);
    assert!(!desk.pending);
    desk.queue_deploy("first", true);
    assert!(desk.pending);
    assert!(desk.is_ready(false));
    assert!(!desk.is_ready(true));
    let (reason, backup, _) = desk.start_deploy();
    assert_eq!(reason, "first");
    assert!(backup);
    assert!(desk.active);
    desk.queue_auto_deploy("second", true);
    assert!(!desk.is_ready(false));
    let done = DeployReport {
        pak_count: 1,
        loose_count: 2,
        file_count: 3,
        removed_count: 0,
        overridden_files: 0,
        link_mode_summary: "hardlink".to_string(),
        warnings: Vec::new(),
    };
    let out = desk.deploy_completed(&done);
    assert!(out.iter().any(|a| matches!(
        a,
        Action::Log(_, t) if t == "Deploy complete: 1 pak, 2 loose, 3 files, 0 overrides"
    )));
    assert!(!desk.active);
    assert!(desk.is_ready(false));
    desk.start_deploy();
    let out = desk.deploy_failed("no room");
    assert_eq!(status(&out).as_deref(), Some("Deploy failed: no room"));
    assert!(say_healed(0).is_empty());
    assert!(!say_healed(2).is_empty());
}

#[test]
fn a_winner_is_chosen_by_hand() {
    let mut l = library();
    let same = vec![
        walked(&["a.txt"]),
        walked(&["a.txt"]),
    ];
    let mut desk = ConflictDesk::new();
    desk.queue_conflict_scan(true);
    assert!(!desk.maybe_start_conflict_scan(true, false));
    assert!(desk.maybe_start_conflict_scan(false, false));
    desk.scan_completed(scan_conflicts(&paths(), &l, "/cache", &same).unwrap());
    desk.conflict_move_down();
    assert_eq!(desk.selected, 0);
    desk.conflict_move_up();
    assert_eq!(desk.selected, 0);
    assert!(desk.override_swap_info(true).is_none());
    desk.cycle_conflict_winner(1, 1000);
    let swap = desk.override_swap_info(true).unwrap();
    assert!(swap.from != swap.to);
    assert!(desk.override_swap_info(false).is_none());
    assert!(desk.tick(&mut l, 1100).is_empty());
    desk.tick(&mut l, 1250);
    assert_eq!(l.profiles[0].file_overrides.len(), 1);
    assert_eq!(l.profiles[0].file_overrides[0].mod_id, "x");
    desk.clear_conflict_override(2000);
    desk.tick(&mut l, 2300);
    assert!(l.profiles[0].file_overrides.is_empty());
    desk.scan_failed("odd");
    assert!(!desk.active);
}

fn attribute(id: &str, value: &str) -> SettingsAttribute {
    SettingsAttribute { id: id.to_string(), value: value.to_string(), kind: "LSString".to_string() }
}

fn settings() -> ModSettings {
    let module = |uuid: &str, name: &str| ModuleNode {
        id: "ModuleShortDesc".to_string(),
        attributes: vec![attribute("UUID", uuid), attribute("Name", name), attribute("Folder", name)],
    };
    ModSettings {
        version: SettingsVersion { major: 4, minor: 7, revision: 1, build: 3 },
        region: "ModuleSettings".to_string(),
        root: "root".to_string(),
        nodes: vec![SettingsNode {
            id: "Mods".to_string(),
            attributes: Vec::new(),
            children: vec![vec![module("g", "GustavDev"), module("p", "p"), module("z", "Zed")]],
        }],
    }
}

#[test]
fn settings_of_the_game_are_read() {
    let doc = settings();
    let shot = settings_snapshot(&doc);
    let ids: Vec<String> = shot.modules.iter().map(|m| m.info.uuid.clone()).collect();
    assert_eq!(ids, vec!["p", "z"]);
    assert!(is_base_module("Gustav", "x"));
    assert!(!is_base_module("Lanterns", "Lanterns"));
    assert_eq!(module_attr(&doc.nodes[0].children[0][1], "Name").as_deref(), Some("p"));
    assert_eq!(module_attr(&doc.nodes[0].children[0][1], "MD5"), None);
}

#[test]
fn settings_read_back_what_was_written() {
    let written = build_modsettings_save(settings(), &[pak("p", "p"), pak("q", "q")], &[pak("q", "q")]);
    let shot = settings_snapshot(&written);
    let ids: Vec<String> = shot.modules.iter().map(|m| m.info.uuid.clone()).collect();
    assert!(ids.contains(&"q".to_string()));
    assert!(ids.contains(&"p".to_string()));
    assert!(shot.order.contains(&"q".to_string()));
    assert!(!shot.order.contains(&"p".to_string()));
    assert!(ids.contains(&"z".to_string()));
    let again = build_modsettings_save(written, &[pak("p", "p"), pak("q", "q")], &[pak("q", "q")]);
    let more = settings_snapshot(&again);
    assert_eq!(more.modules.len(), shot.modules.len());
    assert_eq!(more.order, shot.order);
}

const SETTINGS: &str = "<?xml version=\"1.0\" encoding=\"UTF-8\"?>
<save>
    <version major=\"4\" minor=\"7\" revision=\"1\" build=\"3\" />
    <region id=\"ModuleSettings\">
        <node id=\"root\">
            <children>
                <node id=\"Mods\">
                    <children>
                        <node id=\"ModuleShortDesc\">
                            <attribute id=\"UUID\" type=\"guid\" value=\"m1\" />
                            <attribute id=\"Name\" type=\"LSString\" value=\"A &amp; B\" />
                        </node>
                    </children>
                </node>
            </children>
        </node>
    </region>
</save>
";

#[test]
fn a_settings_file_is_read() {
    let doc = read_modsettings(Some(SETTINGS)).unwrap();
    assert_eq!(doc.version, SettingsVersion { major: 4, minor: 7, revision: 1, build: 3 });
    assert_eq!((doc.region.as_str(), doc.root.as_str()), ("ModuleSettings", "root"));
    assert_eq!(doc.nodes.len(), 1);
    assert_eq!(doc.nodes[0].children[0][0].attributes[0].kind, "guid");
    let shot = read_modsettings_snapshot(Some(SETTINGS)).unwrap();
    assert_eq!(shot.modules[0].info.uuid, "m1");
    assert_eq!(shot.modules[0].info.name, "A & B");
    assert!(shot.order.is_empty());
    assert!(read_modsettings(Some("<save></save>")).is_none());
    assert!(read_modsettings_snapshot(Some("no xml")).is_none());
    assert!(read_modsettings_snapshot(None).unwrap().modules.is_empty());
    let none = read_modsettings(None).unwrap();
    assert_eq!(none.version, default_modsettings().version);
    assert_eq!((none.version.major, none.version.build), (4, 500));
    assert!(check_settings_text(Some(SETTINGS)) && check_settings_text(None));
    assert!(check_settings_text(Some("<!-- x -->")));
    assert!(!check_settings_text(Some("<!-- x --><@id>")));
    assert!(!check_settings_text(Some("<save><a:@major>1<!DOCTYPE x>2</a:@major></save>")));
    assert!(check_settings_text(Some("<a:@major/>")));
}

#[test]
fn a_settings_file_is_written() {
    let doc = read_modsettings(Some(SETTINGS)).unwrap();
    assert_eq!(modsettings_xml(&doc).unwrap(), SETTINGS);
    let xml = update_modsettings(Some(SETTINGS), &[pak("q", "q")], &[pak("q", "q")]).unwrap();
    assert!(xml.starts_with("<?xml version=\"1.0\" encoding=\"UTF-8\"?>\n<save>\n    <version"));
    assert!(xml.ends_with("</save>\n"));
    assert!(!xml.contains("\"/>"));
    let back = read_modsettings_snapshot(Some(&xml)).unwrap();
    assert_eq!(back.order, vec!["q"]);
    assert_eq!(back.modules.len(), 2);
    let export = build_modsettings_export(Some(SETTINGS), &[], &[]).unwrap();
    assert_eq!(export.version.minor, 7);
    assert_eq!(update_modsettings(Some("<x/>"), &[], &[]), Err(SettingsError::Parse));
    let first = update_modsettings(None, &[pak("q", "q")], &[]).unwrap();
    assert!(first.contains("id=\"Mods\""));
    assert!(first.contains("value=\"q\""));
}

#[test]
fn backups_and_indexes_have_places() {
    let plan = create_backup(&config(), &library(), 77, &Some("why".to_string()));
    assert_eq!(plan.root, "/app/backups");
    assert_eq!(plan.dir, "/app/backups/backup-77");
    assert_eq!(plan.meta.profile, "Default");
    assert_eq!(plan.meta.reason.as_deref(), Some("why"));
    assert_eq!(plan.last.path, plan.dir);
    let last = |p: &str| Some(LastBackup { path: p.to_string(), timestamp: 1 });
    assert_eq!(load_last_backup(last("/b"), true).as_deref(), Some("/b"));
    assert_eq!(load_last_backup(last("/b"), false), None);
    assert_eq!(load_last_backup(None, true), None);
    assert_eq!(sigillink_index_path("/c", "m"), "/c/sigillink/m.json");
    let index = |version: u32| Some(SigilLinkIndex { version, entries: Vec::new(), total_bytes: 0 });
    assert!(load_sigillink_index(index(1)).is_some());
    assert!(load_sigillink_index(index(2)).is_none());
}

#[test]
fn the_game_is_found_or_not() {
    let dirs: Vec<String> = ["/game/Data", "/game/bin", "/larian/PlayerProfiles"]
        .iter()
        .map(|s| s.to_string())
        .collect();
    let p = detect_paths(Some("/game"), Some("/larian"), None, None, &dirs).unwrap();
    assert_eq!(p.modsettings_path, "/larian/PlayerProfiles/Public/modsettings.lsx");
    assert!(matches!(
        detect_paths(None, None, None, None, &dirs),
        Err(PathError::NoGameRoot)
    ));
    assert!(matches!(
        detect_paths(Some("/game"), None, None, None, &dirs),
        Err(PathError::NoLarianDir)
    ));
    let bad_root = detect_paths(Some("/x"), Some("/larian"), None, None, &dirs).unwrap_err();
    assert_eq!(bad_root.message(), "invalid game root: expected Data/ and bin/ in /x");
    let bad_larian = detect_paths(Some("/game"), Some("/y"), None, None, &dirs).unwrap_err();
    assert_eq!(bad_larian.message(), "invalid Larian data dir: expected PlayerProfiles/ in /y");
    let list = "\"0\"\n{\n  \"path\"\t\t\"D:\\\\Games\"\n}\n";
    assert_eq!(parse_steam_library_paths(list), vec!["D:\\Games"]);
    let native = "/h/.local/share/Larian Studios/Baldur's Gate 3".to_string();
    assert_eq!(find_larian_dir("/h", &[native.clone()]), Some(native));
    assert_eq!(find_larian_dir("/h", &[]), None);
}

#[test]
fn configurations_are_made_and_mended() {
    let (fresh, saved) = AppConfig::load_or_create(None, "/dl".to_string());
    assert!(saved);
    assert_eq!(fresh.downloads_dir, "/dl");
    assert!(fresh.confirm_mod_delete);
    let game = GameConfig::load_or_create(
        GameId::Bg3,
        None,
        "/d".to_string(),
        Some(("/g".to_string(), "/l".to_string())),
    );
    assert_eq!((game.game_root.as_str(), game.larian_dir.as_str()), ("/g", "/l"));
    assert_eq!(game.active_profile, "Default");
    let mut stored = config();
    stored.game_name = "Old".to_string();
    let kept = GameConfig::load_or_create(GameId::Bg3, Some(stored), "/e".to_string(), None);
    assert_eq!(kept.game_name, "Baldur's Gate 3");
    assert_eq!(kept.data_dir, "/e");
    assert_eq!(kept.game_root, "/game");
}
