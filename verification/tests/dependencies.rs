use sigilsmith::actions::{Action, LogLevel};
use sigilsmith::config::AppConfig;
use sigilsmith::dep_desk::DependencyDesk;
use sigilsmith::dep_keys::{
    dependency_display_label, dependency_search_link, dependency_signature, dependency_uuid,
    encode_query, extract_uuid_candidates, filter_ignored_dependencies, is_unverified_dependency,
};
use sigilsmith::dep_lookup::{dependency_match_keys, mod_dependency_keys, DependencyLookup};
use sigilsmith::dep_missing::{
    build_dependent_message, compute_missing_dependency_blocks, find_dependents,
    missing_dependency_count_for_mod,
};
use sigilsmith::dep_queue::{build_dependency_queue_at, build_dependency_queue_for_mods};
use sigilsmith::dep_report::debug_dependency_report;
use sigilsmith::library::{InstallTarget, Library, ModEntry, ModSource, PakInfo, ProfileEntry};
use sigilsmith::metadata_desk::{metadata_cache_valid, MetadataDesk};
use sigilsmith::mod_choices::invert_visible_mods;
use sigilsmith::mod_readings::MetadataUpdate;
use sigilsmith::mod_requests::{
    remove_selected, request_remove_selected, run_startup_dependency_check, PendingDelete, Removal,
};
use sigilsmith::mod_switches::{
    apply_pending_dependency_enable, disable_visible_mods, enable_mods_with_dependencies,
    enable_visible_mods, finish_dependency_queue, toggle_selected,
};
use sigilsmith::mod_view::ModView;
use sigilsmith::tasks::Tasks;

fn entry(id: &str, name: &str) -> ModEntry {
    ModEntry {
        id: id.to_string(),
        name: name.to_string(),
        created_at: None,
        modified_at: None,
        added_at: 0,
        targets: vec![InstallTarget::Pak {
            file: format!("{name}.pak"),
            info: PakInfo {
                uuid: id.to_string(),
                name: name.to_string(),
                folder: name.to_string(),
                version: 1,
                md5: None,
                publish_handle: None,
                author: None,
                description: None,
                module_type: None,
            },
        }],
        target_overrides: Vec::new(),
        source_label: None,
        source: ModSource::Managed,
        dependencies: Vec::new(),
    }
}

const ALPHA: &str = "a1b2c3d4-aaaa-4bbb-8ccc-aaaaaaaaaaaa";
const BETA: &str = "b1b2c3d4-bbbb-4bbb-8ccc-bbbbbbbbbbbb";
const GONE: &str = "GoneMod Deluxe";

fn library() -> Library {
    let mut l = Library::load_or_create(None);
    l.mods = vec![entry(ALPHA, "AlphaMod"), entry(BETA, "BetaMod")];
    l.ensure_mods_in_profiles();
    l
}

fn needs(first: &[&str], second: &[&str]) -> Vec<Vec<String>> {
    vec![
        first.iter().map(|s| s.to_string()).collect(),
        second.iter().map(|s| s.to_string()).collect(),
    ]
}

fn config() -> AppConfig {
    AppConfig::load_or_create(None, "/d".to_string()).0
}

fn idle() -> Tasks {
    Tasks {
        startup_pending: false,
        native_sync_active: false,
        import_active: false,
        deploy_active: false,
        deploy_pending: false,
        conflict_active: false,
        conflict_pending: false,
        smart_rank_active: false,
        smart_rank_mode: None,
        metadata_active: false,
    }
}

fn on(l: &Library) -> Vec<bool> {
    l.profiles[0].order.iter().map(|e| e.enabled).collect()
}

fn status(out: &[Action]) -> Option<String> {
    out.iter().rev().find_map(|a| match a {
        Action::Status(t) => Some(t.clone()),
        _ => None,
    })
}

fn deploys(out: &[Action]) -> Vec<String> {
    out.iter()
        .filter_map(|a| match a {
            Action::Deploy(t) => Some(t.clone()),
            _ => None,
        })
        .collect()
}

#[test]
fn uuids_in_dependencies() {
    let value = format!("Some Mod ({ALPHA})");
    assert_eq!(dependency_uuid(&value), Some(ALPHA.to_string()));
    assert_eq!(extract_uuid_candidates(&value), vec![ALPHA.to_string()]);
    assert_eq!(dependency_uuid("Some Mod"), None);
    assert_eq!(
        dependency_signature("Some Mod", &Some(ALPHA.to_string()), &value),
        dependency_signature("Other", &Some(ALPHA.to_string()), "raw")
    );
    assert_eq!(dependency_display_label(&format!("Some_Mod_{ALPHA}")), "Some Mod");
    assert_eq!(dependency_display_label(ALPHA), "Unknown dependency");
}

#[test]
fn queries_are_encoded() {
    assert_eq!(encode_query("a b&c"), "a+b%26c");
    assert_eq!(dependency_search_link("   "), None);
    assert_eq!(
        dependency_search_link("Some Mod"),
        Some(
            "https://www.nexusmods.com/baldursgate3/search/?gsearch=Some+Mod&gsearchtype=mods"
                .to_string()
        )
    );
    assert_eq!(
        dependency_search_link(&format!("bg3 mod {ALPHA}")),
        Some(format!("https://duckduckgo.com/?q=bg3+mod+{ALPHA}"))
    );
}

#[test]
fn some_dependencies_do_not_count() {
    let kept = filter_ignored_dependencies(&vec!["Gustav".to_string(), "Other Mod".to_string()]);
    assert_eq!(kept, vec!["Other Mod".to_string()]);
    assert!(!is_unverified_dependency(GONE));
    assert!(is_unverified_dependency(ALPHA));
    assert!(is_unverified_dependency("_internal"));
}

#[test]
fn a_lookup_finds_mods_by_id_and_name() {
    let l = library();
    let lookup = DependencyLookup::new(&l.mods);
    assert_eq!(lookup.resolve_ids(ALPHA), vec![ALPHA.to_string()]);
    assert_eq!(lookup.resolve_ids("BetaMod"), vec![BETA.to_string()]);
    assert!(lookup.resolve_ids(GONE).is_empty());
    assert!(!dependency_match_keys(ALPHA).is_empty());
    assert!(mod_dependency_keys(&l.mods[0]).iter().any(|k| k == "alphamod"));
}

#[test]
fn what_is_missing_is_counted_and_held_back() {
    let mut l = library();
    let deps = needs(&[BETA, GONE], &[]);
    let lookup = DependencyLookup::new(&l.mods);
    assert_eq!(missing_dependency_count_for_mod(&l.mods, &lookup, &l.mods[0], &deps[0], true), 1);
    assert_eq!(missing_dependency_count_for_mod(&l.mods, &lookup, &l.mods[0], &deps[0], false), 0);
    assert_eq!(compute_missing_dependency_blocks(&l.mods, &deps, true), vec![ALPHA.to_string()]);
    assert!(l.refresh_dependency_blocks(&deps, true));
    assert!(!l.refresh_dependency_blocks(&deps, true));
    assert_eq!(l.dependency_blocks, vec![ALPHA.to_string()]);
}

#[test]
fn who_needs_a_mod() {
    let l = library();
    let deps = needs(&[BETA], &[]);
    let list = find_dependents(&l.mods, &deps, BETA);
    assert_eq!(list.len(), 1);
    assert_eq!(list[0].name, "AlphaMod");
    assert!(build_dependent_message(&list).contains("AlphaMod"));
    assert!(find_dependents(&l.mods, &deps, ALPHA).is_empty());
}

#[test]
fn a_queue_lists_what_is_missing() {
    let l = library();
    let deps = needs(&[GONE], &[GONE, ALPHA]);
    let queue = build_dependency_queue_for_mods(&l.mods, &l.mods, &deps).unwrap();
    assert_eq!(queue.items.len(), 2);
    assert_eq!(queue.items[0].required_by, vec!["AlphaMod".to_string(), "BetaMod".to_string()]);
    assert!(queue.items[1].is_override_action());
    assert!(build_dependency_queue_for_mods(&l.mods, &l.mods, &needs(&[], &[ALPHA])).is_none());
    let part = build_dependency_queue_at(&l.mods, &vec![1], &deps).unwrap();
    assert_eq!(part.items[0].required_by, vec!["BetaMod".to_string()]);
}

#[test]
fn enabling_brings_what_is_needed() {
    let mut l = library();
    let mut desk = DependencyDesk::new();
    let out = enable_mods_with_dependencies(
        &mut l,
        &mut desk,
        &vec![ALPHA.to_string()],
        &needs(&[BETA], &[]),
        &config(),
        &idle(),
    );
    assert_eq!(on(&l), vec![true, true]);
    assert_eq!(status(&out), Some("Enabled 2 mod(s)".to_string()));
    assert_eq!(deploys(&out), vec!["enable dependencies".to_string()]);
    let again = enable_mods_with_dependencies(
        &mut l,
        &mut desk,
        &vec![ALPHA.to_string()],
        &needs(&[BETA], &[]),
        &config(),
        &idle(),
    );
    assert_eq!(status(&again), Some("Mods already enabled".to_string()));
}

#[test]
fn enabling_waits_for_what_is_missing() {
    let mut l = library();
    let mut desk = DependencyDesk::new();
    let deps = needs(&[GONE], &[]);
    let ids = vec![ALPHA.to_string()];
    let out = enable_mods_with_dependencies(&mut l, &mut desk, &ids, &deps, &config(), &idle());
    assert_eq!(status(&out), Some("Missing dependencies detected".to_string()));
    assert_eq!(on(&l), vec![false, false]);
    assert!(desk.dependency_queue_active());
    assert!(desk.dependency_queue_enable_pending());
    let (cancels, out) = finish_dependency_queue(&mut l, &mut desk, false, true);
    assert!(!cancels);
    assert_eq!(status(&out), Some("Enabled 1 dependency mod(s)".to_string()));
    assert_eq!(on(&l), vec![true, false]);
    assert!(!desk.dependency_queue_active());
}

#[test]
fn enabling_is_blocked_where_nothing_is_offered() {
    let mut l = library();
    let mut desk = DependencyDesk::new();
    let mut c = config();
    c.offer_dependency_downloads = false;
    c.warn_missing_dependencies = false;
    let ids = vec![ALPHA.to_string()];
    let deps = needs(&[GONE], &[]);
    let out = enable_mods_with_dependencies(&mut l, &mut desk, &ids, &deps, &c, &idle());
    assert_eq!(status(&out), Some("Missing dependencies; enable blocked".to_string()));
    assert!(!desk.dependency_queue_active());
    let none = vec![GONE.to_string()];
    let out = enable_mods_with_dependencies(&mut l, &mut desk, &none, &deps, &c, &idle());
    assert_eq!(status(&out), Some("No mods to enable".to_string()));
}

#[test]
fn giving_up_on_what_is_missing() {
    let mut l = library();
    let mut desk = DependencyDesk::new();
    let deps = needs(&[GONE], &[]);
    let ids = vec![ALPHA.to_string()];
    enable_mods_with_dependencies(&mut l, &mut desk, &ids, &deps, &config(), &idle());
    let (cancels, _) = finish_dependency_queue(&mut l, &mut desk, true, false);
    assert!(cancels);
    enable_mods_with_dependencies(&mut l, &mut desk, &ids, &deps, &config(), &idle());
    let (cancels, out) = finish_dependency_queue(&mut l, &mut desk, false, false);
    assert!(!cancels);
    assert_eq!(status(&out), Some("Dependency check canceled".to_string()));
    assert!(!desk.dependency_queue_enable_pending());
    assert!(apply_pending_dependency_enable(&mut l, &mut desk).is_empty());
}

#[test]
fn toggling_the_selected_mod() {
    let mut l = library();
    let mut desk = DependencyDesk::new();
    let view = ModView::new();
    let deps = needs(&[], &[]);
    toggle_selected(&mut l, &mut desk, &view, false, &deps, &config(), &idle());
    assert_eq!(on(&l), vec![true, false]);
    let out = toggle_selected(&mut l, &mut desk, &view, false, &deps, &config(), &idle());
    assert_eq!(on(&l), vec![false, false]);
    assert_eq!(deploys(&out), vec!["enable toggle".to_string()]);
    let mut busy = idle();
    busy.import_active = true;
    let out = toggle_selected(&mut l, &mut desk, &view, false, &deps, &config(), &busy);
    assert_eq!(status(&out), Some("Import running: toggle blocked".to_string()));
}

#[test]
fn switching_all_that_is_shown() {
    let mut l = library();
    let mut desk = DependencyDesk::new();
    let mut view = ModView::new();
    let deps = needs(&[], &[]);
    enable_visible_mods(&mut l, &mut desk, &view, false, &deps, &config(), &idle());
    assert_eq!(on(&l), vec![true, true]);
    let out = enable_visible_mods(&mut l, &mut desk, &view, false, &deps, &config(), &idle());
    assert_eq!(status(&out), Some("Visible mods already enabled".to_string()));
    view.apply_mod_filter(&l, false, "beta", true);
    let out = disable_visible_mods(&mut l, &view, false, &idle());
    assert_eq!(on(&l), vec![true, false]);
    assert_eq!(status(&out), Some("Disabled 1 mod(s)".to_string()));
    view.apply_mod_filter(&l, false, "", true);
    let out = invert_visible_mods(&mut l, &mut desk, &view, false, &deps, &config(), &idle());
    assert_eq!(on(&l), vec![false, true]);
    assert_eq!(status(&out), Some("Toggled visible mods".to_string()));
    view.apply_mod_filter(&l, false, "nothing like it", true);
    let out = invert_visible_mods(&mut l, &mut desk, &view, false, &deps, &config(), &idle());
    assert_eq!(status(&out), Some("No visible mods to invert".to_string()));
}

#[test]
fn removing_asks_first() {
    let mut l = library();
    let view = ModView::new();
    let deps = needs(&[], &[ALPHA]);
    let mut c = config();
    match request_remove_selected(&mut l, &view, false, &deps, false, &c, &idle()) {
        Removal::Done(out) => assert!(matches!(out[0], Action::Ask(_))),
        Removal::Check { .. } => panic!("checked"),
    }
    assert_eq!(l.mods.len(), 2);
    c.confirm_mod_delete = false;
    let none = needs(&[], &[]);
    request_remove_selected(&mut l, &view, false, &none, false, &c, &idle());
    assert_eq!(l.mods.len(), 1);
}

#[test]
fn removing_switches_off_who_needs_it() {
    let mut l = library();
    let mut desk = DependencyDesk::new();
    let view = ModView::new();
    let deps = needs(&[], &[ALPHA]);
    enable_visible_mods(&mut l, &mut desk, &view, false, &deps, &config(), &idle());
    match remove_selected(&mut l, &view, false, &deps, true) {
        Removal::Check { id, name } => {
            assert_eq!(id, ALPHA);
            assert_eq!(name, "AlphaMod");
        }
        Removal::Done(_) => panic!("done"),
    }
    match remove_selected(&mut l, &view, false, &deps, false) {
        Removal::Done(out) => {
            assert_eq!(status(&out), Some("Disabled 1 dependent mod(s)".to_string()));
            assert_eq!(
                deploys(&out),
                vec!["dependency disabled".to_string(), "mod removed".to_string()]
            );
        }
        Removal::Check { .. } => panic!("checked"),
    }
    assert_eq!(on(&l), vec![false]);
}

#[test]
fn a_removal_that_waits() {
    let l = library();
    let deps = needs(&[], &[]);
    let mut p = PendingDelete { waiting: None };
    let (reads, out) =
        p.queue_pending_delete(ALPHA.to_string(), "AlphaMod".to_string(), false, false);
    assert!(reads);
    assert_eq!(status(&out), Some("Checking dependencies...".to_string()));
    assert!(p.maybe_prompt_pending_delete(&l, &deps, true).is_empty());
    let out = p.maybe_prompt_pending_delete(&l, &deps, false);
    assert!(matches!(out[0], Action::Ask(_)));
    assert!(p.waiting.is_none());
}

#[test]
fn the_look_at_the_start() {
    let mut l = library();
    for e in &mut l.profiles[0].order {
        e.enabled = true;
    }
    let mut pending = true;
    let deps = needs(&[GONE], &[]);
    let out = run_startup_dependency_check(&mut l, &mut pending, false, &deps, &config());
    assert!(pending && out.is_empty());
    let out = run_startup_dependency_check(&mut l, &mut pending, true, &deps, &config());
    assert!(!pending);
    assert_eq!(on(&l), vec![false, true]);
    assert_eq!(
        status(&out),
        Some("Startup: disabled 1 mod(s) missing dependencies".to_string())
    );
    assert!(matches!(out.last(), Some(Action::Ask(_))));
    assert_eq!(l.dependency_blocks, vec![ALPHA.to_string()]);
}

#[test]
fn needs_are_read_and_kept() {
    let mut l = library();
    let mut desk = MetadataDesk::new();
    assert!(!metadata_cache_valid(&l));
    assert!(desk.start_metadata_refresh(2));
    assert!(!desk.start_metadata_refresh(2));
    for (i, id) in [ALPHA, BETA].iter().enumerate() {
        let update = MetadataUpdate {
            id: id.to_string(),
            created_at: Some(7),
            modified_at: None,
            dependencies: vec![GONE.to_string()],
        };
        desk.take_progress(&mut l, update, i + 1, 2);
    }
    assert_eq!(l.mods[0].created_at, Some(7));
    let reads = needs(&[], &[]);
    let out = desk.take_completed(&mut l, &reads);
    assert!(metadata_cache_valid(&l));
    assert!(!desk.active && desk.ready && !desk.dirty);
    assert_eq!(l.dependency_blocks.len(), 2);
    assert!(out
        .iter()
        .any(|a| matches!(a, Action::Log(LogLevel::Info, t) if t == "Metadata refresh applied")));
    let known = desk.known_needs(&l, &reads);
    assert_eq!(known[0], vec![GONE.to_string()]);
    desk.clear(&mut l);
    assert!(!metadata_cache_valid(&l));
}

#[test]
fn needs_of_imported_mods() {
    let mut l = library();
    let mut desk = MetadataDesk::new();
    let entries = vec![entry(ALPHA, "AlphaMod")];
    let deps = vec![vec![BETA.to_string()]];
    assert!(desk.update_dependency_cache_for_entries(&mut l, &entries, &deps));
    assert!(!desk.update_dependency_cache_for_entries(&mut l, &entries, &deps));
    assert_eq!(l.mods[0].dependencies, vec![BETA.to_string()]);
    desk.prime_dependency_cache_from_library(&l);
    assert!(desk.ready);
    assert_eq!(desk.cache.len(), 2);
}

#[test]
fn a_report_on_dependencies() {
    let l = library();
    let deps = needs(&[BETA, GONE], &[]);
    let rooted = vec![ALPHA.to_string()];
    let r = debug_dependency_report(&l, "alphamod", "/data", &rooted, &deps);
    assert!(r.starts_with(&format!("Mod: AlphaMod ({ALPHA})\nSource: Managed\n")));
    assert!(r.contains(&format!("Managed root: /data/mods/{ALPHA} (exists)")));
    assert!(r.contains(&format!("  - {BETA} -> BetaMod")));
    assert!(r.contains(&format!("  - {GONE} (missing)")));
    assert!(r.contains("Dependency keys: "));
    assert_eq!(
        debug_dependency_report(&l, "zzzz", "/data", &rooted, &deps),
        "No mods matched \"zzzz\"."
    );
    assert_eq!(
        debug_dependency_report(&l, " ", "/data", &rooted, &deps),
        "Provide a mod id or name to debug."
    );
}

#[test]
fn only_listed_profile_entries_are_switched() {
    let mut l = library();
    l.profiles[0].order = vec![ProfileEntry { id: BETA.to_string(), enabled: false }];
    let mut desk = DependencyDesk::new();
    let ids = vec![ALPHA.to_string()];
    let out = enable_mods_with_dependencies(
        &mut l,
        &mut desk,
        &ids,
        &needs(&[BETA], &[]),
        &config(),
        &idle(),
    );
    assert_eq!(status(&out), Some("Enabled 1 mod(s)".to_string()));
    assert_eq!(on(&l), vec![true]);
}

#[test]
fn a_lookup_does_not_depend_on_the_order_of_mods() {
    let mut l = library();
    l.mods[1].name = "AlphaMod".to_string();
    let there = DependencyLookup::new(&l.mods);
    l.mods.reverse();
    let back = DependencyLookup::new(&l.mods);
    let both = there.resolve_ids("AlphaMod");
    assert_eq!(both, back.resolve_ids("AlphaMod"));
    let mut sorted = both.clone();
    sorted.sort();
    sorted.dedup();
    assert_eq!(both, sorted);
    for m in &l.mods {
        assert!(there.resolve_ids(&m.id).contains(&m.id));
    }
}
