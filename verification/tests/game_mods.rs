use sigilsmith::actions::Action;
use sigilsmith::importer::SourceTimes;
use sigilsmith::library::{
    InstallTarget, Library, ModEntry, ModSource, PakInfo, TargetKind, TargetOverride,
};
use sigilsmith::metadata::{JsonModInfo, ModMeta};
use sigilsmith::mod_files::{
    build_unknown_entry, mod_root, native_pak_file, say_native_file_removal, trash_place,
    NativeFileRemoval,
};
use sigilsmith::mod_readings::{
    apply_metadata_update, collect_mod_dependencies, metadata_update, scan_mod_targets_times,
    ModReading, PakPlaces, PakReading,
};
use sigilsmith::modsettings::{ModSettingsModule, ModSettingsSnapshot};
use sigilsmith::native_pak::{
    build_native_pak_index, is_package_path, make_meta_entry, normalize_pak_key,
    resolve_native_pak_filename, resolve_native_pak_path, resolve_native_pak_path_by_filename,
    reuse_meta_entry, NativeLookup, NativePakMetaIndex, PakSignature,
};
use sigilsmith::native_sync::{
    earliest_timestamp, missing_modules, resolve_native_times, should_clear_native_created,
    sync_native_mods_delta, PakFacts,
};
use sigilsmith::self_heal::{find_pak_state, PakState};
use sigilsmith::sync_desk::{NativeSyncDesk, NativeSyncMessage};
use sigilsmith::tasks::{NativeSyncProgress, NativeSyncStage};
use vstd::hash_map::StringHashMap;

fn info(uuid: &str, name: &str) -> PakInfo {
    PakInfo {
        uuid: uuid.to_string(),
        name: name.to_string(),
        folder: name.to_string(),
        version: 1,
        md5: None,
        publish_handle: None,
        author: None,
        description: None,
        module_type: None,
    }
}

fn pak_mod(id: &str, source: ModSource) -> ModEntry {
    ModEntry {
        id: id.to_string(),
        name: id.to_string(),
        created_at: None,
        modified_at: None,
        added_at: 0,
        targets: vec![InstallTarget::Pak { file: format!("{id}.pak"), info: info(id, id) }],
        target_overrides: Vec::new(),
        source_label: None,
        source,
        dependencies: Vec::new(),
    }
}

fn library(ids: &[&str]) -> Library {
    let mut l = Library::load_or_create(None);
    l.mods = ids.iter().map(|id| pak_mod(id, ModSource::Managed)).collect();
    l.ensure_mods_in_profiles();
    l
}

fn snapshot(modules: &[&str], order: &[&str]) -> ModSettingsSnapshot {
    ModSettingsSnapshot {
        modules: modules
            .iter()
            .map(|id| ModSettingsModule { info: info(id, id), created_at: Some(70) })
            .collect(),
        order: order.iter().map(|s| s.to_string()).collect(),
    }
}

fn facts(file: Option<&str>) -> PakFacts {
    PakFacts {
        filename: file.map(|s| s.to_string()),
        meta_created: None,
        dependencies: Vec::new(),
        created: Some(10),
        modified: Some(20),
    }
}

fn texts(list: &[&str]) -> Vec<String> {
    list.iter().map(|s| s.to_string()).collect()
}

#[test]
fn mods_of_the_game_come_in() {
    let mut l = library(&["a"]);
    let shot = snapshot(&["a", "n"], &["n", "a"]);
    assert_eq!(missing_modules(&shot, &l.mods), vec![1]);
    let (own, other) = (vec![facts(Some("a.pak"))], vec![facts(Some("n.pak"))]);
    let mut told = Vec::new();
    let delta = sync_native_mods_delta(&l, &shot, true, &own, &other, 99, &mut told);
    let steps: Vec<(NativeSyncStage, usize, usize)> =
        told.iter().map(|p| (p.stage, p.current, p.total)).collect();
    assert_eq!(
        steps,
        vec![
            (NativeSyncStage::AdoptNative, 1, 1),
            (NativeSyncStage::AddMissing, 1, 2),
            (NativeSyncStage::AddMissing, 2, 2),
        ]
    );
    assert_eq!(delta.added.len(), 1);
    assert_eq!(delta.added[0].id, "n");
    assert_eq!(delta.added[0].source, ModSource::Native);
    assert_eq!(delta.added[0].added_at, 99);
    let r = l.apply_native_sync_delta(delta, &texts(&["a"]));
    assert_eq!(r.added, 1);
    assert!(r.changed);
    let order: Vec<(String, bool)> =
        l.profiles[0].order.iter().map(|e| (e.id.clone(), e.enabled)).collect();
    assert!(order.iter().all(|(_, on)| *on));
    assert_eq!(order[0].0, "n");
    let shot = snapshot(&["a", "n"], &["n", "a"]);
    let own = vec![facts(None), facts(None)];
    let again =
        sync_native_mods_delta(&l, &shot, true, &own, &Vec::new(), 100, &mut Vec::new());
    assert!(again.added.is_empty());
}

#[test]
fn settings_that_stay_add_nothing() {
    let mut l = library(&["a"]);
    let shot = snapshot(&["a", "n"], &["a"]);
    let f = || vec![facts(None)];
    let delta = sync_native_mods_delta(&l, &shot, true, &f(), &f(), 1, &mut Vec::new());
    l.apply_native_sync_delta(delta, &Vec::new());
    l.remove_mod_by_id("n");
    let delta = sync_native_mods_delta(&l, &shot, true, &f(), &f(), 2, &mut Vec::new());
    let r = l.apply_native_sync_delta(delta, &Vec::new());
    assert_eq!(r.added, 0);
    assert!(l.mods.iter().all(|m| m.id != "n"));
}

#[test]
fn a_sync_is_followed() {
    let mut desk = NativeSyncDesk::new();
    let mut l = library(&["a"]);
    assert!(desk.start_native_sync().0);
    assert!(!desk.start_native_sync().0);
    desk.take_message(
        &mut l,
        &Vec::new(),
        NativeSyncMessage::Progress(NativeSyncProgress {
            stage: NativeSyncStage::AddMissing,
            current: 1,
            total: 2,
        }),
    );
    assert!(desk.active);
    let (none, _) =
        desk.take_message(&mut l, &Vec::new(), NativeSyncMessage::Skipped("off".to_string()));
    assert!(none.is_none());
    assert!(!desk.active);
    desk.start_native_sync();
    let shot = snapshot(&["a", "n"], &["a"]);
    let delta =
        sync_native_mods_delta(&l, &shot, true, &vec![facts(None)], &vec![facts(None)], 1, &mut Vec::new());
    let (done, _) = desk.take_message(&mut l, &Vec::new(), NativeSyncMessage::Completed(delta));
    assert_eq!(done.unwrap().added, 1);
}

#[test]
fn packages_are_found_by_name() {
    assert_eq!(normalize_pak_key("My-Mod_1.pak"), normalize_pak_key("mymod1.pak"));
    assert!(is_package_path("/m/A.PAK"));
    let index = build_native_pak_index(&texts(&["/m/Other.pak", "/m/Lanterns_v2.pak", "/m/x.txt"]));
    assert_eq!(index.len(), 2);
    let at = resolve_native_pak_path_by_filename(&info("u", "Lanterns"), &index).unwrap();
    assert_eq!(index[at].path, "/m/Lanterns_v2.pak");
    assert!(resolve_native_pak_path_by_filename(&info("u", "Zebra"), &index).is_none());
}

#[test]
fn packages_are_found_by_description() {
    let sign = PakSignature { size: 5, modified: Some(6) };
    let mut meta = ModMeta::default();
    meta.uuid = Some("U-1".to_string());
    let e = make_meta_entry("/m/odd.pak".to_string(), sign, &Some(meta));
    let index = NativePakMetaIndex { entries: vec![e], signatures: vec![Some(sign)] };
    let files = build_native_pak_index(&texts(&["/m/odd.pak"]));
    let found = resolve_native_pak_path(&info("u-1", "Other"), &files, &index, true);
    assert_eq!(resolve_native_pak_filename(&found).as_deref(), Some("odd.pak"));
    let empty = NativePakMetaIndex { entries: Vec::new(), signatures: Vec::new() };
    assert!(matches!(
        resolve_native_pak_path(&info("u-1", "Other"), &files, &empty, true),
        NativeLookup::NotFound
    ));
    assert!(matches!(
        resolve_native_pak_path(&info("u-1", "Other"), &files, &empty, false),
        NativeLookup::Refresh
    ));
    assert!(matches!(
        resolve_native_pak_path(&info("u-1", "Other"), &[], &index, true),
        NativeLookup::NotFound
    ));
}

#[test]
fn unchanged_packages_are_not_read_again() {
    let sign = PakSignature { size: 5, modified: Some(6) };
    let mut known = StringHashMap::new();
    known.insert("/m/a.pak".to_string(), make_meta_entry("/m/a.pak".to_string(), sign, &None));
    assert!(reuse_meta_entry(&known, "/m/a.pak", sign).is_some());
    assert!(reuse_meta_entry(&known, "/m/b.pak", sign).is_none());
    let grown = PakSignature { size: 7, modified: Some(6) };
    assert!(reuse_meta_entry(&known, "/m/a.pak", grown).is_none());
}

#[test]
fn times_of_mods_of_the_game() {
    assert_eq!(earliest_timestamp(&[None, Some(9), Some(4)]), Some(4));
    assert_eq!(earliest_timestamp(&[]), None);
    let (created, modified) = resolve_native_times(Some(3), Some(5), Some(8));
    assert_eq!((created, modified), (Some(3), Some(8)));
    assert!(!should_clear_native_created(None, Some(1), Some(2), 3));
}

#[test]
fn lost_packages_are_seen() {
    let mut m = pak_mod("a", ModSource::Managed);
    let place = |file: Option<&str>| {
        vec![PakPlaces {
            by_folder: None,
            by_file: file.map(|s| s.to_string()),
            resolved: None,
        }]
    };
    assert!(matches!(find_pak_state(&m, &place(Some("/r/a.pak"))), PakState::Fine));
    assert!(matches!(find_pak_state(&m, &place(None)), PakState::Missing { other: false }));
    m.target_overrides = vec![TargetOverride { kind: TargetKind::Pak, enabled: false }];
    assert!(matches!(find_pak_state(&m, &place(Some("/r/a.pak"))), PakState::Restorable));
    assert!(matches!(find_pak_state(&m, &place(None)), PakState::Fine));
    let mut l = library(&["a"]);
    l.profiles[0].order[0].enabled = true;
    let (healed, _) = l.self_heal_missing_paks(&vec![place(Some("/r/a.pak"))]);
    assert_eq!(healed, 0);
}

#[test]
fn files_of_a_mod_are_read() {
    let mut meta = ModMeta::default();
    meta.dependencies = texts(&["z", "A"]);
    meta.created_at = Some(30);
    let r = ModReading {
        paks: vec![PakReading { meta: Some(meta), created: Some(50), modified: Some(60) }],
        meta: None,
        infos: vec![JsonModInfo {
            uuid: None,
            folder: None,
            name: None,
            created_at: Some(20),
            dependencies: texts(&["q"]),
        }],
        created: None,
        modified: None,
    };
    let deps = collect_mod_dependencies("a", &r);
    assert!(deps.contains(&"z".to_string()));
    assert!(!deps.contains(&"A".to_string()));
    let mut mods = vec![pak_mod("a", ModSource::Managed)];
    let u = metadata_update(&mods[0], &r);
    assert_eq!((u.created_at, u.modified_at), (Some(20), Some(60)));
    assert!(apply_metadata_update(&mut mods, u));
    let again = metadata_update(&mods[0], &r);
    assert!(!apply_metadata_update(&mut mods, again));
}

#[test]
fn places_of_mod_files() {
    assert_eq!(mod_root("/d", "m"), "/d/mods/m");
    assert!(trash_place("/d", "m", 5).contains("m"));
    assert_eq!(native_pak_file(&pak_mod("a", ModSource::Native)).as_deref(), Some("a.pak"));
    let m = build_unknown_entry("/x/Odd", "Odd", Some(2), Some(3), Some(9), 7);
    assert_eq!(m.name, "Odd");
    assert!(m.targets.is_empty());
    assert_eq!(m.added_at, 7);
    for r in [
        NativeFileRemoval::NoPaths("x".to_string()),
        NativeFileRemoval::NoPak,
        NativeFileRemoval::NotFound("f".to_string()),
        NativeFileRemoval::Failed("x".to_string()),
        NativeFileRemoval::Removed("f".to_string()),
    ] {
        let out = say_native_file_removal(&r);
        assert!(out.iter().all(|a| matches!(a, Action::Log(_, _) | Action::Status(_))));
    }
}

#[test]
fn times_of_loose_files() {
    let mut m = pak_mod("a", ModSource::Managed);
    m.targets.push(InstallTarget::Data { dir: "Data".to_string() });
    m.targets.push(InstallTarget::Bin { dir: "bin".to_string() });
    let file = |c: Option<i64>, t: i64| SourceTimes { created_at: c, modified_at: Some(t) };
    let walks = vec![
        vec![file(Some(1), 99)],
        vec![file(Some(30), 40), file(None, 25)],
        vec![file(Some(35), 50)],
    ];
    let t = scan_mod_targets_times(&m, &walks);
    assert_eq!((t.created_at, t.modified_at), (Some(25), Some(50)));
    let none = scan_mod_targets_times(&m, &vec![Vec::new(), Vec::new(), Vec::new()]);
    assert_eq!((none.created_at, none.modified_at), (None, None));
}

#[test]
fn healing_twice_changes_nothing_more() {
    let place = |file: Option<&str>, other: Option<&str>| {
        vec![vec![PakPlaces {
            by_folder: None,
            by_file: file.map(|s| s.to_string()),
            resolved: other.map(|s| s.to_string()),
        }]]
    };
    let mut l = library(&["a"]);
    l.profiles[0].order[0].enabled = true;
    let (healed, changed) = l.self_heal_missing_paks(&place(None, None));
    assert_eq!((healed, changed), (1, true));
    assert_eq!(l.self_heal_missing_paks(&place(None, None)), (0, false));
    let mut renamed = library(&["a"]);
    assert!(renamed.self_heal_missing_paks(&place(None, Some("/r/b.pak"))).1);
    assert!(matches!(&renamed.mods[0].targets[0], InstallTarget::Pak { file, .. } if file == "b.pak"));
    let again = renamed.self_heal_missing_paks(&place(Some("/r/b.pak"), Some("/r/b.pak")));
    assert_eq!(again, (0, false));
    let mut own = library(&["a"]);
    own.mods[0].source = ModSource::Native;
    assert_eq!(own.self_heal_missing_paks(&place(None, None)), (0, false));
}
