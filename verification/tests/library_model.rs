use sigilsmith::game::GameId;
use sigilsmith::library::{
    FileOverride, InstallTarget, Library, ModEntry, ModSource, ModuleInfo, PakInfo,
    Profile, ProfileEntry, TargetKind, TargetOverride,
};
use sigilsmith::mod_changes::{find_mod, select_target, set_target_override, switch_mods};
use sigilsmith::profile_transfer::export_profile;
use sigilsmith::profiles::{unique_profile_name, ProfileChange};
use sigilsmith::smart_rank::check_ranking;

fn pak(uuid: &str, name: &str) -> PakInfo {
    PakInfo {
        uuid: uuid.to_string(),
        name: name.to_string(),
        folder: name.to_string(),
        version: 1,
        md5: None,
        publish_handle: None,
        author: None,
        description: None,
        module_type: None,
    }
}

fn entry(id: &str, name: &str) -> ModEntry {
    ModEntry {
        id: id.to_string(),
        name: name.to_string(),
        created_at: None,
        modified_at: None,
        added_at: 0,
        targets: Vec::new(),
        target_overrides: Vec::new(),
        source_label: None,
        source: ModSource::Managed,
        dependencies: Vec::new(),
    }
}

fn line(id: &str, enabled: bool) -> ProfileEntry {
    ProfileEntry { id: id.to_string(), enabled }
}

fn fresh() -> Library {
    Library::load_or_create(None)
}

fn filled() -> Library {
    let mut library = fresh();
    library.mods = vec![entry("a", "A"), entry("b", "B"), entry("c", "C")];
    library.ensure_mods_in_profiles();
    library
}

fn order(library: &Library) -> Vec<(String, bool)> {
    library.profiles[0].order.iter().map(|e| (e.id.clone(), e.enabled)).collect()
}

#[test]
fn a_fresh_library_has_a_profile() {
    let library = fresh();
    assert_eq!(library.profiles.len(), 1);
    assert_eq!(library.profiles[0].name, "Default");
    assert_eq!(library.active_profile, "Default");
    assert!(library.mods.is_empty());
    assert!(library.modsettings_sync_enabled);
}

#[test]
fn a_stored_library_gets_an_active_profile() {
    let mut stored = fresh();
    stored.active_profile = "Gone".to_string();
    stored.profiles[0].name = "Main".to_string();
    let library = Library::load_or_create(Some(stored));
    assert_eq!(library.active_profile, "Main");
    let mut bare = fresh();
    bare.profiles.clear();
    assert_eq!(Library::load_or_create(Some(bare)).profiles[0].name, "Default");
}

#[test]
fn profiles_get_an_entry_for_each_mod() {
    let library = filled();
    assert_eq!(
        order(&library),
        vec![("a".to_string(), false), ("b".to_string(), false), ("c".to_string(), false)]
    );
}

#[test]
fn choices_for_absent_mods_go() {
    let mut library = filled();
    library.profiles[0].file_overrides.push(FileOverride {
        kind: TargetKind::Data,
        relative_path: "x".to_string(),
        mod_id: "gone".to_string(),
    });
    library.ensure_mods_in_profiles();
    assert!(library.profiles[0].file_overrides.is_empty());
}

#[test]
fn a_mod_moved_up_and_down_is_back() {
    let mut p = Profile::new("P");
    p.order = vec![line("a", true), line("b", false)];
    p.move_up(1);
    assert_eq!(p.order[0].id, "b");
    p.move_down(0);
    assert_eq!(p.order[0].id, "a");
    p.move_up(0);
    p.move_down(1);
    assert_eq!(p.order[0].id, "a");
}

#[test]
fn names_and_types_of_mods() {
    let mut m = entry("id", "raw_name");
    assert_eq!(m.display_name(), "raw_name");
    assert_eq!(m.display_type(), "Unknown");
    m.targets.push(InstallTarget::Pak { file: "x.pak".to_string(), info: pak("u", "Pak Name") });
    m.targets.push(InstallTarget::Data { dir: "Data".to_string() });
    assert!(m.has_target_kind(TargetKind::Pak));
    assert!(!m.has_target_kind(TargetKind::Bin));
    assert!(!m.is_native());
    assert_eq!(m.display_type(), "Pak+Data");
}

#[test]
fn a_target_is_on_unless_switched_off() {
    let mut m = entry("id", "n");
    m.targets.push(InstallTarget::Data { dir: "Data".to_string() });
    assert!(m.is_target_enabled(TargetKind::Data));
    assert!(set_target_override(&mut m, TargetKind::Data, false));
    assert!(!m.is_target_enabled(TargetKind::Data));
    assert!(!set_target_override(&mut m, TargetKind::Data, false));
}

#[test]
fn one_target_is_selected() {
    let mut m = entry("id", "n");
    m.targets.push(InstallTarget::Data { dir: "Data".to_string() });
    m.targets.push(InstallTarget::Bin { dir: "bin".to_string() });
    assert!(select_target(&mut m, Some(TargetKind::Bin)));
    assert!(m.is_target_enabled(TargetKind::Bin));
    assert!(!m.is_target_enabled(TargetKind::Data));
    assert!(!select_target(&mut m, Some(TargetKind::Pak)));
    assert!(select_target(&mut m, None));
    assert!(m.target_overrides.is_empty());
}

#[test]
fn info_of_a_module() {
    let info = ModuleInfo {
        uuid: "u".to_string(),
        name: "N".to_string(),
        folder: "F".to_string(),
        version: 7,
        md5: Some("m".to_string()),
        author: None,
        description: Some("d".to_string()),
        module_type: Some("Adventure".to_string()),
    };
    let made = PakInfo::from_module_info(info);
    assert_eq!(made.uuid, "u");
    assert_eq!(made.version, 7);
    assert_eq!(made.md5, Some("m".to_string()));
    assert_eq!(made.publish_handle, None);
}

#[test]
fn switching_twice_changes_nothing_more() {
    let mut list = vec![line("a", false), line("b", true)];
    let ids = vec!["a".to_string()];
    assert_eq!(switch_mods(&mut list, &ids, true), 1);
    assert_eq!(switch_mods(&mut list, &ids, true), 0);
    assert_eq!(list[0].id, "a");
    assert!(list[0].enabled && list[1].enabled);
}

#[test]
fn switching_in_the_active_profile() {
    let mut library = filled();
    assert_eq!(library.set_mods_enabled_in_active(&["b".to_string()], true), 1);
    assert!(!library.modsettings_sync_enabled);
    assert!(library.profiles[0].order[1].enabled);
    let mut lost = filled();
    lost.active_profile = "Gone".to_string();
    assert_eq!(lost.set_mods_enabled_in_active(&["b".to_string()], true), 0);
}

#[test]
fn a_removed_mod_is_gone_everywhere() {
    let mut library = filled();
    library.dependency_blocks = vec!["b".to_string()];
    library.profiles[0].file_overrides.push(FileOverride {
        kind: TargetKind::Data,
        relative_path: "x".to_string(),
        mod_id: "b".to_string(),
    });
    assert!(library.remove_mod_by_id("b"));
    assert!(!library.remove_mod_by_id("b"));
    assert_eq!(find_mod(&library.mods, "b"), None);
    assert_eq!(library.profiles[0].order.len(), 2);
    assert!(library.profiles[0].file_overrides.is_empty());
    assert!(library.dependency_blocks.is_empty());
}

#[test]
fn mods_are_put_in_and_replaced() {
    let mut library = filled();
    let mut other = entry("b", "B2");
    other.added_at = 5;
    library.apply_mod_entries(vec![other, entry("d", "D")]);
    assert_eq!(library.mods.len(), 4);
    let at = find_mod(&library.mods, "b").unwrap();
    assert_eq!(library.mods[at].name, "B2");
    assert!(find_mod(&library.mods, "d").is_some());
}

#[test]
fn mods_are_switched_off_in_all_profiles() {
    let mut library = filled();
    library.create_profile("Two");
    for p in &mut library.profiles {
        p.order = vec![line("a", true), line("b", true)];
    }
    assert_eq!(library.disable_mods_by_id(&["a".to_string()]), 2);
    assert!(!library.profiles[0].order[0].enabled);
    assert!(!library.profiles[1].order[0].enabled);
}

#[test]
fn profile_names_are_unique() {
    let library = filled();
    assert_eq!(unique_profile_name(&library.profiles, "New"), "New");
    assert_eq!(unique_profile_name(&library.profiles, " "), "Profile");
    assert_eq!(unique_profile_name(&library.profiles, "default"), "default (2)");
    assert_eq!(unique_profile_name(&library.profiles, "Default"), "Default (2)");
}

#[test]
fn profiles_come_and_go() {
    let mut library = filled();
    assert_eq!(library.create_profile(" "), ProfileChange::NameRequired);
    assert_eq!(library.create_profile("default"), ProfileChange::NameTaken);
    assert_eq!(library.create_profile("Two"), ProfileChange::Done);
    assert_eq!(library.rename_profile("Two", "Three"), ProfileChange::Done);
    assert_eq!(library.duplicate_profile("Three", "Four"), ProfileChange::Done);
    assert_eq!(library.set_active_profile("Four"), ProfileChange::Done);
    assert_eq!(library.active_profile, "Four");
    assert_eq!(library.delete_profile("Four"), ProfileChange::Done);
    assert!(library.profiles.iter().any(|p| p.name == library.active_profile));
    assert_eq!(library.delete_profile("Gone"), ProfileChange::NotFound);
    assert_eq!(library.delete_profile("Three"), ProfileChange::Done);
    assert_eq!(library.delete_profile("Default"), ProfileChange::LastProfile);
}

#[test]
fn an_exported_profile_reads_back() {
    let mut library = filled();
    library.profiles[0].order = vec![line("c", true), line("a", false), line("b", true)];
    let export = export_profile(&library, GameId::Bg3, "Default").unwrap();
    assert_eq!(export.entries.len(), 3);
    let before = order(&library);
    let read = library.import_profile(export, GameId::Bg3);
    assert_eq!(read.name, "Default (2)");
    assert!(read.missing.is_empty());
    assert!(!read.mismatch);
    let p = library.profiles.iter().find(|p| p.name == read.name).unwrap();
    let got: Vec<(String, bool)> = p.order.iter().map(|e| (e.id.clone(), e.enabled)).collect();
    assert_eq!(got, before);
    assert!(export_profile(&library, GameId::Bg3, "Nope").is_none());
}

fn lists_once(order: &[ProfileEntry]) -> bool {
    let mut ids: Vec<&str> = order.iter().map(|e| e.id.as_str()).collect();
    ids.sort();
    ids.dedup();
    ids.len() == order.len()
}

#[test]
fn a_copy_of_a_profile_gets_the_least_free_number() {
    let mut library = filled();
    library.profiles[0].order = vec![line("c", true), line("a", true)];
    library.create_profile("default (2)");
    let export = export_profile(&library, GameId::Bg3, "Default").unwrap();
    let count = library.profiles.len();
    let read = library.import_profile(export, GameId::Bg3);
    assert_eq!(read.name, "Default (3)");
    assert_eq!(library.active_profile, "Default (3)");
    assert_eq!(library.profiles.len(), count + 1);
    let q = library.profiles.last().unwrap();
    assert_eq!(q.name, "Default (3)");
    let got: Vec<(&str, bool)> = q.order.iter().map(|e| (e.id.as_str(), e.enabled)).collect();
    assert_eq!(got[..2], [("c", true), ("a", true)]);
    assert!(got[2..].iter().all(|e| !e.1));
    assert_eq!(got.len(), library.mods.len());
}

#[test]
fn no_mod_is_listed_twice() {
    let mut library = filled();
    let mut export = export_profile(&library, GameId::Bg3, "Default").unwrap();
    let more = export_profile(&library, GameId::Bg3, "Default").unwrap();
    export.entries.extend(more.entries);
    library.import_profile(export, GameId::Bg3);
    let p = library.profiles.last().unwrap();
    assert_eq!(p.order.len(), library.mods.len());
    assert!(lists_once(&p.order));
    library.remove_mod_by_id("a");
    library.ensure_mods_in_profiles();
    library.profiles[0].move_down(0);
    assert!(library.profiles.iter().all(|p| lists_once(&p.order)));
    assert!(check_ranking(&library, &Vec::new()) == library.mods.is_empty());
}

#[test]
fn overrides_are_kept_with_copies() {
    let m = {
        let mut m = entry("x", "X");
        m.target_overrides.push(TargetOverride { kind: TargetKind::Data, enabled: false });
        m
    };
    let copy = m.clone();
    assert_eq!(copy.id, "x");
    assert_eq!(copy.target_overrides.len(), 1);
}
