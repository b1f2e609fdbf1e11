use sigilsmith::actions::Action;
use sigilsmith::duplicates::{find_decision, stage_imports, DuplicateKind};
use sigilsmith::import_batch::{
    empty_result, import_batch_from_dir, import_from_dir, import_label, import_route, plan_dir,
    plan_units, stated_loose_created, ImportRoute, UnitOutcome,
};
use sigilsmith::import_desk::{show_imported, ImportDesk, ImportStep, ModBatch};
use sigilsmith::import_scan::{
    collect_import_candidates, display_pak_label, find_mods_dir, has_direct_payload,
    is_archive_file, is_pak_file, source_label_for_archive, CandidateKind, DirItem,
};
use sigilsmith::importer::{
    build_sigillink_index, clamp_stage, count_copy_files, count_loose_files, import_loose,
    import_override_pak, import_single_pak, loose_copies, override_file_name, pak_info_from_meta,
    persist_payload_metadata, sanitize_stage_label, scan_dir_times, scan_payload_times,
    zip_time_to_unix, CopyProgress, DirImportResult, ImportFailure, ImportMod, ImportSource,
    ImportStage, SizedFile, SourceTimes, TargetFiles, ZipTime,
};
use sigilsmith::library::{InstallTarget, Library, ModEntry, ModSource, TargetKind};
use sigilsmith::metadata::{JsonModInfo, ModMeta};
use sigilsmith::payload::{
    has_parent_named, is_bin_root_file, is_parent_path, relative_depth, scan_payload, PayloadScan,
    WalkedEntry,
};

fn texts(list: &[&str]) -> Vec<String> {
    list.iter().map(|s| s.to_string()).collect()
}

fn entry(id: &str, name: &str) -> ModEntry {
    ModEntry {
        id: id.to_string(),
        name: name.to_string(),
        created_at: None,
        modified_at: None,
        added_at: 0,
        targets: Vec::new(),
        target_overrides: Vec::new(),
        source_label: None,
        source: ModSource::Managed,
        dependencies: Vec::new(),
    }
}

fn labelled(id: &str, name: &str, label: &str) -> ModEntry {
    let mut m = entry(id, name);
    m.source_label = Some(label.to_string());
    m
}

fn imported(id: &str) -> ImportMod {
    ImportMod { entry: entry(id, id), staging_root: None, sigillink: None }
}

fn file(path: &str) -> WalkedEntry {
    WalkedEntry { path: path.to_string(), is_file: true, is_dir: false }
}

fn dir(path: &str) -> WalkedEntry {
    WalkedEntry { path: path.to_string(), is_file: false, is_dir: true }
}

fn item(path: &str, is_dir: bool, is_mod: bool) -> DirItem {
    DirItem { path: path.to_string(), is_file: !is_dir, is_dir, is_mod }
}

fn times(created: Option<i64>, modified: Option<i64>) -> SourceTimes {
    SourceTimes { created_at: created, modified_at: modified }
}

fn meta() -> ModMeta {
    let mut m = ModMeta::default();
    m.uuid = Some("u-1".to_string());
    m.name = Some("Lanterns".to_string());
    m.folder = Some("Lanterns_F".to_string());
    m.version = Some(7);
    m.dependencies = texts(&["z", "U-1"]);
    m.created_at = Some(50);
    m
}

fn scan() -> PayloadScan {
    scan_payload(
        "/r",
        &[
            dir("/r"),
            dir("/r/deep"),
            dir("/r/deep/Data"),
            dir("/r/Data"),
            dir("/r/Data/Public"),
            dir("/r/Public"),
            file("/r/x.PAK"),
            file("/r/__MACOSX/y.pak"),
            file("/r/info.json"),
            file("/r/deep/Mods/X/meta.lsx"),
            file("/r/meta.lsx"),
        ],
    )
}

fn status(out: &[Action]) -> Option<String> {
    out.iter().rev().find_map(|a| match a {
        Action::Status(t) => Some(t.clone()),
        _ => None,
    })
}

#[test]
fn a_payload_is_found() {
    let s = scan();
    assert_eq!(s.pak_files, vec!["/r/x.PAK"]);
    assert_eq!(s.data_dir.as_deref(), Some("/r/Data"));
    assert_eq!(s.public_dir.as_deref(), Some("/r/Public"));
    assert_eq!(s.generated_dir, None);
    assert_eq!(s.bin_dir, None);
    assert_eq!(s.info_json.as_deref(), Some("/r/info.json"));
    assert!(s.has_loose_targets());
    assert!(!s.has_overlap());
    assert!(s.is_mod_candidate_dir());
}

#[test]
fn a_script_extender_is_its_own_bin_directory() {
    let s = scan_payload("/se", &[dir("/se"), file("/se/DWrite.dll")]);
    assert_eq!(s.bin_dir.as_deref(), Some("/se"));
    let with_pak = scan_payload("/se", &[dir("/se"), file("/se/DWrite.dll"), file("/se/a.pak")]);
    assert_eq!(with_pak.bin_dir, None);
    let empty = scan_payload("/e", &[dir("/e"), file("/e/readme.txt")]);
    assert!(!empty.is_mod_candidate_dir());
}

#[test]
fn payload_places() {
    assert_eq!(relative_depth("/r", "/r/a/b"), 2);
    assert!(has_parent_named("/r/DATA/x", "data"));
    assert!(!has_parent_named("/r/x/data", "data"));
    assert!(is_bin_root_file("BG3SE.log"));
    assert!(!is_bin_root_file("game.exe"));
    assert!(is_parent_path("/a", "/a/b"));
    assert!(!is_parent_path("/a", "/a"));
    assert!(!is_parent_path("/a", "/ab"));
}

#[test]
fn kinds_of_files() {
    assert!(is_pak_file("/x/A.PAK"));
    assert!(!is_pak_file("/x/A.Pak"));
    assert!(is_archive_file("m.ZIP"));
    assert!(is_archive_file("m.rar"));
    assert!(!is_archive_file("m.pak"));
    assert_eq!(source_label_for_archive("/d/My Mod.zip").as_deref(), Some("My Mod"));
    assert_eq!(display_pak_label("/d/Tool.v2.pak"), "Tool.v2");
}

#[test]
fn candidates_of_a_directory() {
    let top = [item("/r/b.zip", false, false), item("/r/Mods", true, false), item("/r/c", true, true)];
    let mods = [item("/r/Mods/z.pak", false, false), item("/r/Mods/w", true, false)];
    let nested = [
        item("/r/Mods/z.pak", false, false),
        item("/r/c/in.pak", false, false),
        item("/r/d/a.7z", false, false),
    ];
    assert_eq!(find_mods_dir(&top), Some(1));
    let list = collect_import_candidates(&top, &mods, &nested);
    let shown: Vec<(String, CandidateKind)> =
        list.iter().map(|c| (c.label.clone(), c.kind)).collect();
    assert_eq!(
        shown,
        vec![
            ("a.7z".to_string(), CandidateKind::ArchiveFile),
            ("b.zip".to_string(), CandidateKind::ArchiveFile),
            ("c".to_string(), CandidateKind::Directory),
            ("z".to_string(), CandidateKind::PakFile),
        ]
    );
}

#[test]
fn a_directory_with_a_payload_is_one_mod() {
    let top = [item("/r/a.pak", false, false), item("/r/b.zip", false, false)];
    assert!(has_direct_payload(&top));
    assert!(collect_import_candidates(&top, &[], &[]).is_empty());
    assert!(has_direct_payload(&[item("/r/Generated", true, false)]));
    assert!(!has_direct_payload(&[item("/r/b.zip", false, false)]));
}

#[test]
fn routes_of_an_import() {
    assert_eq!(import_route("/x.pak", false, false), ImportRoute::Missing);
    assert_eq!(import_route("/x.zip", true, true), ImportRoute::Directory);
    assert_eq!(import_route("/x.pak", true, false), ImportRoute::Pak);
    assert_eq!(import_route("/x.zip", true, false), ImportRoute::Zip);
    assert_eq!(import_route("/x.7z", true, false), ImportRoute::SevenZip);
    assert_eq!(import_route("/x.txt", true, false), ImportRoute::Unknown);
    assert_eq!(import_label("/d/x.txt", &None), "x.txt");
    assert_eq!(import_label("/d/x.txt", &Some("L".to_string())), "L");
}

#[test]
fn units_are_labelled() {
    let whole = plan_units(Vec::new(), "/d/mod", &Some("Arch".to_string()));
    assert_eq!(whole.len(), 1);
    assert_eq!(whole[0].label, "Arch");
    assert_eq!(whole[0].source_label.as_deref(), Some("Arch"));
    assert_eq!(whole[0].kind, CandidateKind::Directory);
    let two = collect_import_candidates(
        &[item("/d/x.zip", false, false), item("/d/y.zip", false, false)],
        &[],
        &[],
    );
    let units = plan_units(two, "/d", &Some("Arch".to_string()));
    assert_eq!(units[0].label, "Arch -> x.zip");
    assert_eq!(units[0].source_label.as_deref(), Some("x.zip"));
}

#[test]
fn outcomes_add_up() {
    let labels = texts(&["p", "q", "r", "s"]);
    let r = import_batch_from_dir(
        labels,
        vec![
            UnitOutcome::Pak(Ok(vec![imported("a")])),
            UnitOutcome::Pak(Ok(Vec::new())),
            UnitOutcome::Archive(Ok(empty_result(true))),
            UnitOutcome::Directory(Err("broken".to_string())),
        ],
    );
    assert_eq!(r.batches.len(), 1);
    assert_eq!(r.batches[0].source.label, "p");
    let errors: Vec<String> =
        r.failures.iter().map(|f| format!("{}: {}", f.source.label, f.error)).collect();
    assert_eq!(
        errors,
        vec!["q: No mods found", "r: Unrecognized archive layout", "s: broken"]
    );
    assert!(!r.unrecognized);
    let alone = import_batch_from_dir(
        texts(&["x"]),
        vec![UnitOutcome::Directory(Ok(DirImportResult { mods: Vec::new(), unrecognized: true }))],
    );
    assert!(alone.unrecognized);
    assert!(alone.failures.is_empty());
}

#[test]
fn a_directory_is_planned() {
    let plan = plan_dir(&scan(), &Some("L".to_string()), true, 5);
    assert!(!plan.unrecognized);
    assert!(plan.allow_move);
    assert_eq!(plan.pak_labels, vec![Some("L".to_string())]);
    let mut nested = scan();
    nested.public_dir = Some("/r/Data/Public".to_string());
    assert!(nested.has_overlap());
    assert!(!plan_dir(&nested, &None, true, 5).allow_move);
    let nothing = scan_payload("/e", &[dir("/e")]);
    assert!(plan_dir(&nothing, &None, true, 0).unrecognized);
}

#[test]
fn a_directory_fails_only_where_nothing_came() {
    let some = import_from_dir(vec![imported("a")], Some("late".to_string()), false);
    assert_eq!(some.unwrap().mods.len(), 1);
    assert_eq!(import_from_dir(Vec::new(), Some("bad".to_string()), false).unwrap_err(), "bad");
    assert!(import_from_dir(Vec::new(), None, true).unwrap().unrecognized);
}

#[test]
fn a_package_becomes_a_mod() {
    let json = [JsonModInfo {
        uuid: Some("u-1".to_string()),
        folder: None,
        name: None,
        created_at: Some(20),
        dependencies: texts(&["a", "z"]),
    }];
    let m = import_single_pak(
        None,
        &meta(),
        &json,
        &Some("L".to_string()),
        times(None, None),
        Some(times(Some(30), Some(40))),
        99,
    )
    .unwrap();
    assert_eq!(m.id, "u-1");
    assert_eq!(m.name, "Lanterns");
    assert_eq!(m.dependencies, vec!["a", "z"]);
    assert_eq!(m.created_at, Some(20));
    assert_eq!(m.modified_at, Some(40));
    assert_eq!(m.added_at, 99);
    assert!(matches!(&m.targets[0], InstallTarget::Pak { file, .. } if file == "Lanterns_F.pak"));
    let bare = ModMeta::default();
    assert!(pak_info_from_meta(&bare).is_none());
    assert!(import_single_pak(None, &bare, &[], &None, times(None, None), None, 1).is_none());
}

#[test]
fn what_a_description_leaves_out() {
    let mut m = ModMeta::default();
    m.uuid = Some("u".to_string());
    let info = pak_info_from_meta(&m).unwrap();
    assert_eq!((info.folder.as_str(), info.name.as_str(), info.version), ("u", "u", 0));
    m.name = Some("N".to_string());
    assert_eq!(pak_info_from_meta(&m).unwrap().folder, "N");
}

#[test]
fn a_package_without_description_overrides() {
    let m = import_override_pak(
        "/d/fix.pak",
        "pak-1".to_string(),
        &None,
        times(Some(3), Some(9)),
        None,
        5,
    );
    assert_eq!(m.name, "Override Pak: fix");
    assert_eq!((m.created_at, m.modified_at), (Some(3), Some(9)));
    assert!(matches!(&m.targets[0], InstallTarget::Data { dir } if dir == "Data"));
    let named = import_override_pak(
        "/d/fix.pak",
        "pak-1".to_string(),
        &Some("Fixes".to_string()),
        times(None, None),
        None,
        5,
    );
    assert_eq!(named.name, "Override Pak: Fixes");
    assert_eq!(override_file_name("/d/fix.pak"), "fix.pak");
}

#[test]
fn loose_files_become_a_mod() {
    let s = scan();
    let m = import_loose(
        "/r",
        "loose-1".to_string(),
        &s,
        &None,
        times(Some(5), Some(6)),
        None,
        times(None, None),
        Some(2),
        8,
    );
    assert_eq!(m.name, "r");
    assert_eq!(m.created_at, Some(2));
    assert_eq!(m.targets.len(), 2);
    let copies = loose_copies(&s, "/stage");
    let pairs: Vec<(String, String)> = copies.into_iter().map(|c| (c.source, c.dest)).collect();
    assert!(pairs.contains(&("/r/Data".to_string(), "/stage/Data".to_string())));
    assert_eq!(pairs.len(), 2);
    let kept = persist_payload_metadata(&s, "/mods/x");
    assert!(kept.iter().any(|c| c.source == "/r/info.json"));
    assert_eq!(stated_loose_created(None, &[]), None);
    assert_eq!(stated_loose_created(Some(4), &[]), Some(4));
}

#[test]
fn files_are_counted() {
    let files = texts(&["/r/a", "/r/.git/x", "/r/b/c"]);
    assert_eq!(count_copy_files("/r", &files), 2);
    assert_eq!(count_loose_files(&scan(), 3, 100, 4, 100), 7);
}

#[test]
fn links_are_indexed() {
    let list = vec![TargetFiles {
        root: "/m/Data".to_string(),
        kind: TargetKind::Data,
        files: vec![
            SizedFile { path: "b.txt".to_string(), size: 5 },
            SizedFile { path: ".DS_Store".to_string(), size: 9 },
            SizedFile { path: "sub/a.txt".to_string(), size: 7 },
        ],
    }];
    let index = build_sigillink_index(&list);
    assert_eq!(index.version, 1);
    assert_eq!(index.total_bytes, 12);
    let paths: Vec<String> = index.entries.iter().map(|e| e.relative_path.clone()).collect();
    assert!(paths.contains(&"b.txt".to_string()));
    assert!(paths.contains(&"sub/a.txt".to_string()));
    assert_eq!(paths.len(), 2);
}

#[test]
fn times_of_directories() {
    let t = scan_dir_times(&[times(Some(9), Some(20)), times(None, Some(5))]);
    assert_eq!(t, times(Some(5), Some(20)));
    let both = scan_payload_times(&[times(Some(8), None), times(Some(3), Some(12))]);
    assert_eq!(both, times(Some(3), Some(12)));
    assert_eq!(scan_dir_times(&[]), times(None, None));
}

#[test]
fn times_in_archives() {
    let t = |month: u8, day: u8, hour: u8| ZipTime {
        year: 2024,
        month,
        day,
        hour,
        minute: 4,
        second: 5,
    };
    assert_eq!(zip_time_to_unix(t(1, 2, 3)), Some(1704164645));
    assert_eq!(zip_time_to_unix(t(2, 29, 0)), Some(1709165045));
    assert_eq!(zip_time_to_unix(t(2, 30, 0)), None);
    assert_eq!(zip_time_to_unix(t(13, 1, 0)), None);
    assert_eq!(zip_time_to_unix(t(1, 1, 24)), None);
}

#[test]
fn copying_is_told_now_and_then() {
    let mut p = CopyProgress::new(0, 0);
    assert_eq!(p.total, 1);
    p = CopyProgress::new_with_offset(100, 10, 0);
    assert_eq!(p.bump(false, 10), None);
    assert_eq!(p.bump(true, 20), Some(12));
    assert_eq!(p.bump(false, 140), Some(13));
    assert_eq!(p.advance(0, 150), None);
    assert_eq!(p.advance(46, 150), Some(59));
    assert_eq!(p.bump(false, 151), Some(60));
    assert_eq!(p.advance(500, 152), Some(100));
    assert_eq!(clamp_stage(9, 4), (4, 4));
    assert_eq!(clamp_stage(0, 0), (0, 1));
    assert_eq!(ImportStage::Extracting.index(), 0);
    assert_eq!(sanitize_stage_label("a b/c-1"), "a_b_c-1");
}

#[test]
fn clashes_with_the_library() {
    let mods = vec![entry("a", "Anvil"), labelled("b", "Bell", "Bell Tower-v1.2")];
    assert_eq!(find_decision(&mods, entry("n", "New")).unwrap().id, "n");
    let same = find_decision(&mods, entry("n", "anvil")).unwrap_err();
    assert_eq!(same.existing_id, "a");
    assert!(matches!(same.kind, DuplicateKind::Exact));
    let near = find_decision(&mods, labelled("n", "Other", "Bell Tower-v1.3")).unwrap_err();
    assert_eq!(near.existing_id, "b");
    assert!(matches!(near.kind, DuplicateKind::Similar { .. }));
    let (free, waiting) = stage_imports(&mods, vec![entry("n", "New"), entry("m", "Anvil")]);
    assert_eq!((free.len(), waiting.len()), (1, 1));
}

#[test]
fn imports_are_queued_and_shown() {
    let mut desk = ImportDesk::new();
    desk.import_mod("/gone", false);
    assert!(desk.queue.is_empty());
    desk.import_mod("/a.pak", true);
    desk.import_mod("/b.pak", true);
    let (next, _) = desk.start_next_import(false);
    assert_eq!(next.as_deref(), Some("/a.pak"));
    assert!(desk.start_next_import(false).0.is_none());
    let failure = ImportFailure {
        source: ImportSource { label: "x".to_string() },
        error: "bad".to_string(),
    };
    desk.import_completed(
        "/a.pak",
        vec![ModBatch { label: "A".to_string(), mods: vec![entry("a", "Anvil")] }],
        vec![failure],
        false,
    );
    let library = Library::load_or_create(None);
    let (step, _) = desk.process_next_import_batch(&library.mods, false);
    match step {
        ImportStep::Apply { mods, label } => {
            assert_eq!(mods[0].id, "a");
            assert_eq!(label.as_deref(), Some("A"));
        },
        _ => panic!(),
    }
    assert!(status(&show_imported(1, &Some("A".to_string()))).is_some());
    desk.import_failed("/b.pak", "odd");
    assert_eq!(desk.failures.len(), 2);
}

#[test]
fn a_duplicate_is_decided() {
    let mut desk = ImportDesk::new();
    let mut library = Library::load_or_create(None);
    library.mods = vec![entry("a", "Anvil")];
    library.ensure_mods_in_profiles();
    let (step, _) = desk.stage(&library.mods, vec![entry("n", "Anvil"), entry("m", "Mill")], "A");
    assert!(matches!(step, ImportStep::Decide));
    assert_eq!(desk.approved.len(), 1);
    let (_, asked) = desk.prompt_next_duplicate(&mut library, false);
    assert!(asked.iter().any(|a| matches!(a, Action::Ask(_))));
    desk.confirm_duplicate(&mut library, true, false);
    assert_eq!(desk.approved.len(), 2);
    assert!(library.mods.is_empty());
    let (step, _) = desk.prompt_next_duplicate(&mut library, false);
    assert!(matches!(step, ImportStep::Apply { .. }));
}

#[test]
fn a_refused_duplicate_is_dropped() {
    let mut desk = ImportDesk::new();
    let mut library = Library::load_or_create(None);
    library.mods = vec![entry("a", "Anvil")];
    desk.stage(&library.mods, vec![entry("n", "Anvil")], "A");
    desk.prompt_next_duplicate(&mut library, false);
    let out = desk.confirm_duplicate(&mut library, false, false);
    assert!(out.iter().any(|a| matches!(a, Action::RemoveModRoot(id) if id == "n")));
    assert!(desk.approved.is_empty());
    assert_eq!(library.mods.len(), 1);
}

#[test]
fn a_held_batch_resumes_or_is_dropped() {
    let mut desk = ImportDesk::new();
    desk.pending_batch = Some(ModBatch { label: "A".to_string(), mods: vec![entry("a", "A")] });
    assert!(desk.resume_pending_import_batch(true).is_none());
    assert_eq!(desk.resume_pending_import_batch(false).unwrap().label, "A");
    desk.pending_batch = Some(ModBatch { label: "B".to_string(), mods: vec![entry("b", "B")] });
    let out = desk.cancel_pending_import(false);
    assert!(out.iter().any(|a| matches!(a, Action::RemoveModRoot(id) if id == "b")));
    assert!(desk.pending_batch.is_none());
    let mut failed = ImportDesk::new();
    failed.apply_failed(&Some("A".to_string()), "full");
    assert_eq!(failed.failures.len(), 1);
}
