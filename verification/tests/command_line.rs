use sigilsmith::actions::Action;
use sigilsmith::cli::{
    parse_args, parse_global_options, parse_legacy_import, parse_sort_key, CliAction, CliCommand,
    CliError, CliVerbosity, ModSortKey, ModsListOptions, OutputFormat,
};
use sigilsmith::cli_import::{
    apply_cli_decision, duplicate_question, next_mod, plan_cli_deploy, show_cli_deploy_failed,
    show_cli_deployed, take_answer, CliImportRun, CliLine, CliNext, CliProgressPrinter,
    ProgressNote,
};
use sigilsmith::cli_lists::{
    choose_pak_paths, collect_dependencies, dependency_line, dependency_ref_line, expected_paths,
    list_dependencies, list_missing_dependencies, list_mods, list_paths, list_profiles,
    missing_line, mod_line, plan_pak_paths, profile_line, resolve_profile,
};
use sigilsmith::config::GameConfig;
use sigilsmith::game::GameId;
use sigilsmith::importer::{ImportFailure, ImportSource, ImportStage};
use sigilsmith::input_text::CliDuplicateAction;
use sigilsmith::library::{InstallTarget, Library, ModEntry, ModSource, PakInfo};

fn args(list: &[&str]) -> Vec<String> {
    list.iter().map(|s| s.to_string()).collect()
}

fn parsed(list: &[&str]) -> CliAction {
    parse_args(&args(list)).0.unwrap()
}

fn refused(list: &[&str]) -> CliError {
    parse_args(&args(list)).0.unwrap_err()
}

fn entry(id: &str, name: &str, added: i64) -> ModEntry {
    ModEntry {
        id: id.to_string(),
        name: name.to_string(),
        created_at: None,
        modified_at: None,
        added_at: added,
        targets: Vec::new(),
        target_overrides: Vec::new(),
        source_label: None,
        source: ModSource::Managed,
        dependencies: Vec::new(),
    }
}

fn library() -> Library {
    let mut l = Library::load_or_create(None);
    l.mods = vec![entry("a", "Beacon", 30), entry("b", "Anvil", 20), entry("c", "Candle", 10)];
    l.ensure_mods_in_profiles();
    l.profiles[0].order[1].enabled = true;
    l
}

fn listed(options: ModsListOptions) -> Vec<String> {
    let l = library();
    list_mods(&l.mods, &l.profiles[0], &options).into_iter().map(|i| i.id).collect()
}

fn by(sort: ModSortKey) -> ModsListOptions {
    ModsListOptions { sort, reverse: false, filter: None }
}

fn out(lines: &[CliLine]) -> Vec<String> {
    lines
        .iter()
        .map(|l| match l {
            CliLine::Out(t) => format!("> {t}"),
            CliLine::Warn(t) => format!("! {t}"),
        })
        .collect()
}

#[test]
fn no_arguments_start_the_interface() {
    assert!(matches!(parsed(&[]), CliAction::Ui));
}

#[test]
fn help_and_version() {
    for word in ["--help", "-h", "help"] {
        let action = parsed(&[word, "mods"]);
        assert!(matches!(action, CliAction::Command { command: CliCommand::Help, .. }));
    }
    for word in ["--version", "-V", "version"] {
        let action = parsed(&[word]);
        assert!(matches!(action, CliAction::Command { command: CliCommand::Version, .. }));
    }
    let action = parsed(&["strange"]);
    assert!(matches!(action, CliAction::Command { command: CliCommand::Help, .. }));
}

#[test]
fn options_for_all_commands() {
    let (global, rest) = parse_global_options(&args(&[
        "--format", "json", "mods", "--profile=Night", "--format=odd", "list", "--profile",
    ]));
    assert_eq!(global.format, OutputFormat::Json);
    assert_eq!(global.profile.as_deref(), Some("Night"));
    assert_eq!(rest, vec!["mods", "list"]);
}

#[test]
fn listing_mods_takes_options() {
    let action = parsed(&["mods", "list", "--sort=--sort=name", "-r", "--filter", "x"]);
    match action {
        CliAction::Command { command: CliCommand::ModsList(o), .. } => {
            assert_eq!(o.sort, ModSortKey::Name);
            assert!(o.reverse);
            assert_eq!(o.filter.as_deref(), Some("x"));
        },
        _ => panic!(),
    }
    assert_eq!(parse_sort_key("kind").unwrap(), ModSortKey::Kind);
}

#[test]
fn commands_by_name() {
    let profiles = parsed(&["profiles", "--format=json"]);
    assert!(matches!(
        profiles,
        CliAction::Command { command: CliCommand::ProfilesList, format: OutputFormat::Json, .. }
    ));
    let deps = parsed(&["deps"]);
    assert!(matches!(deps, CliAction::Command { command: CliCommand::DepsMissing, .. }));
    let list = parsed(&["deps", "list"]);
    assert!(matches!(list, CliAction::Command { command: CliCommand::DepsList, .. }));
    match parsed(&["deps", "debug", "torch"]) {
        CliAction::Command { command: CliCommand::DepsDebug(q), .. } => assert_eq!(q, "torch"),
        _ => panic!(),
    }
    let paths = parsed(&["paths"]);
    assert!(matches!(paths, CliAction::Command { command: CliCommand::Paths, .. }));
}

#[test]
fn refused_arguments() {
    let needs = refused(&["deps", "debug"]);
    assert!(matches!(needs, CliError::DebugNeedsMod));
    assert_eq!(needs.message(), "deps debug requires a mod id or name");
    let unknown = refused(&["deps", "what"]);
    assert_eq!(
        unknown.message(),
        "Unknown deps command: what (use 'list', 'missing', or 'debug')"
    );
    assert_eq!(refused(&["mods", "--sort"]).message(), "--sort requires a value");
    assert_eq!(refused(&["mods", "--filter"]).message(), "--filter requires a value");
    assert_eq!(refused(&["mods", "--sort", "age"]).message(), "Unknown sort key: age");
    assert_eq!(CliError::UnknownProfile("X".to_string()).message(), "Unknown profile: X");
    assert_eq!(CliError::NoActiveProfile.message(), "No active profile");
}

#[test]
fn imports_from_the_command_line() {
    match parsed(&["-i", "a.pak", "b.zip", "--deploy", "-vv", "--", "-c"]) {
        CliAction::Import { paths, options } => {
            assert_eq!(paths, vec!["a.pak", "b.zip", "-c"]);
            assert!(options.deploy);
            assert_eq!(options.verbosity, CliVerbosity::Debug);
        },
        _ => panic!(),
    }
    let import = parse_legacy_import(&args(&["--import", "--verbosity", "loud", "--verbosity"]));
    assert!(import.paths.is_empty());
    assert_eq!(
        import.warnings,
        vec![
            "--import requires one or more paths",
            "Unknown verbosity: loud",
            "--verbosity requires a level",
        ]
    );
    let levels = [
        ("minimal", CliVerbosity::Quiet),
        ("info", CliVerbosity::Normal),
        ("verbose", CliVerbosity::Verbose),
        ("trace", CliVerbosity::Debug),
    ];
    for (word, level) in levels {
        assert_eq!(parse_legacy_import(&args(&["--verbosity", word])).verbosity, level);
    }
    let quiet = parse_legacy_import(&args(&["-v", "-q", "--deploy", "--no-deploy"]));
    assert_eq!(quiet.verbosity, CliVerbosity::Quiet);
    assert!(!quiet.deploy);
}

#[test]
fn a_profile_is_chosen() {
    let l = library();
    assert_eq!(resolve_profile(&l, &None).unwrap(), 0);
    assert_eq!(resolve_profile(&l, &Some("Default".to_string())).unwrap(), 0);
    let e = resolve_profile(&l, &Some("Gone".to_string())).unwrap_err();
    assert!(matches!(e, CliError::UnknownProfile(_)));
    let mut bare = library();
    bare.profiles.clear();
    assert!(matches!(resolve_profile(&bare, &None), Err(CliError::NoActiveProfile)));
}

#[test]
fn profiles_are_listed() {
    let mut l = library();
    l.create_profile("Second");
    let lines: Vec<String> = list_profiles(&l).iter().map(profile_line).collect();
    assert_eq!(lines, vec!["* Default", "  Second"]);
}

#[test]
fn mods_are_sorted_and_filtered() {
    assert_eq!(listed(by(ModSortKey::Order)), vec!["a", "b", "c"]);
    assert_eq!(listed(by(ModSortKey::Name)), vec!["b", "a", "c"]);
    assert_eq!(listed(by(ModSortKey::Added)), vec!["c", "b", "a"]);
    assert_eq!(listed(by(ModSortKey::Created)), vec!["a", "b", "c"]);
    assert_eq!(
        listed(ModsListOptions { sort: ModSortKey::Name, reverse: true, filter: None }),
        vec!["c", "a", "b"]
    );
    assert_eq!(
        listed(ModsListOptions {
            sort: ModSortKey::Order,
            reverse: false,
            filter: Some("AN".to_string())
        }),
        vec!["b", "c"]
    );
}

#[test]
fn a_mod_in_a_line() {
    let l = library();
    let items = list_mods(&l.mods, &l.profiles[0], &by(ModSortKey::Order));
    let line = mod_line(&items[1], "-- -- ----", "01-01-1970");
    let kind = format!("{:<10}", items[1].kind);
    assert_eq!(line, format!("  2 [x] {kind} -- -- ---- 01-01-1970 Anvil"));
    assert_eq!(items[0].order, Some(1));
    assert!(!items[0].enabled);
}

#[test]
fn dependencies_are_collected_and_listed() {
    let own = collect_dependencies("ID", &args(&["z", "id", "z", "a"]), &args(&["m"]));
    assert_eq!(own, vec!["a", "z"]);
    assert_eq!(collect_dependencies("x", &Vec::new(), &args(&["m", "m"])), vec!["m"]);
    let l = library();
    let deps = vec![args(&["b", "gone"]), args(&["c"]), Vec::new()];
    let list = list_dependencies(&l, &l.profiles[0], &deps);
    assert_eq!(list.len(), 2);
    assert_eq!(dependency_line(&list[0]), "Beacon (a)");
    assert_eq!(dependency_ref_line(&list[0].dependencies[0]), "  -> b (Anvil) enabled");
    assert_eq!(dependency_ref_line(&list[0].dependencies[1]), "  -> gone (Unknown) disabled");
    let missing = list_missing_dependencies(&l, &l.profiles[0], &deps);
    assert_eq!(missing.len(), 1);
    assert_eq!(missing_line(&missing[0]), "Anvil -> c (disabled)");
    assert_eq!(missing[0].dependency, "Candle");
}

#[test]
fn paths_are_listed() {
    let config = GameConfig {
        game_id: GameId::Bg3,
        game_name: "Baldur's Gate 3".to_string(),
        data_dir: "/data".to_string(),
        game_root: "/game".to_string(),
        larian_dir: "/larian".to_string(),
        active_profile: "Default".to_string(),
    };
    let lines = list_paths(&expected_paths(&config), &Some("no game".to_string()));
    assert_eq!(
        lines,
        vec![
            "Game root: /game",
            "Data dir: /game/Data",
            "Larian dir: /larian",
            "Larian mods: /larian/Mods",
            "Modsettings: /larian/PlayerProfiles/Public/modsettings.lsx",
            "Warning: no game",
        ]
    );
    assert_eq!(list_paths(&expected_paths(&config), &None).len(), 5);
}

#[test]
fn a_new_mod_is_approved_or_asked_about() {
    let mods = library().mods;
    assert!(matches!(next_mod(&mods, entry("n", "Novel", 1), None), CliNext::Approve(_)));
    match next_mod(&mods, entry("n", "Anvil", 1), None) {
        CliNext::Ask(d) => {
            assert_eq!(d.existing_id, "b");
            let lines = duplicate_question(&d);
            assert!(lines.contains(&"  New: Anvil".to_string()));
            assert!(lines.contains(&"  Existing: Anvil".to_string()));
        },
        _ => panic!(),
    }
    match next_mod(&mods, entry("n", "Anvil", 1), Some(false)) {
        CliNext::Decided { overwrite, .. } => assert!(!overwrite),
        _ => panic!(),
    }
}

#[test]
fn answers_are_kept_for_all() {
    assert_eq!(take_answer(CliDuplicateAction::Overwrite, None), (true, None));
    assert_eq!(take_answer(CliDuplicateAction::Skip, None), (false, None));
    assert_eq!(take_answer(CliDuplicateAction::OverwriteAll, None), (true, Some(true)));
    assert_eq!(take_answer(CliDuplicateAction::SkipAll, None), (false, Some(false)));
}

#[test]
fn a_decision_replaces_or_drops() {
    let mut l = library();
    let ask = |m: &Vec<ModEntry>| match next_mod(m, entry("n", "Anvil", 1), None) {
        CliNext::Ask(d) => d,
        _ => panic!(),
    };
    let (kept, actions) = {
        let d = ask(&l.mods);
        apply_cli_decision(&mut l, d, false)
    };
    assert!(kept.is_none());
    assert!(actions.iter().any(|a| matches!(a, Action::RemoveModRoot(id) if id == "n")));
    assert_eq!(l.mods.len(), 3);
    let d = ask(&l.mods);
    let (kept, _) = apply_cli_decision(&mut l, d, true);
    assert_eq!(kept.unwrap().id, "n");
    assert!(l.mods.iter().all(|m| m.id != "b"));
}

#[test]
fn an_import_run_is_told() {
    let mut run = CliImportRun::new(CliVerbosity::Verbose);
    assert_eq!(out(&run.path_missing("/x")), vec!["! Import path not found: /x"]);
    assert_eq!(out(&run.path_begun("/y")), vec!["> Importing: /y"]);
    let failed = ImportFailure {
        source: ImportSource { label: "p".to_string() },
        error: "odd".to_string(),
    };
    assert_eq!(out(&run.parts_failed(vec![failed])), vec!["! Import failed: p (odd)"]);
    assert_eq!(out(&run.batch_begun("y")), vec!["> \u{20} Source: y"]);
    run.batch_applied(2);
    assert_eq!(out(&run.batch_failed("y", "full")), vec!["! Import apply failed: y (full)"]);
    assert_eq!(out(&run.path_done("/y", 12)), vec!["> Imported 2 mod(s) from /y in 12ms"]);
    assert_eq!(
        out(&run.path_unrecognized("/z")),
        vec!["! Unrecognized mod layout for /z (skipped)"]
    );
    assert_eq!(out(&run.path_failed("/w", "bad")), vec!["! Import failed: /w (bad)"]);
    let lines = out(&run.summary());
    assert_eq!(lines[0], "> Import complete: 2 mod(s) imported, 5 failure(s)");
    assert_eq!(lines[1], "> \u{20} - /x: path not found");
    assert_eq!(lines.len(), 6);
}

#[test]
fn a_quiet_run_tells_errors_only() {
    let failed = || ImportFailure {
        source: ImportSource { label: "p".to_string() },
        error: "odd".to_string(),
    };
    let quiet = CliVerbosity::Quiet;
    let mut run = CliImportRun::new(quiet);
    assert_eq!(out(&run.path_missing("/x")), vec!["! Import path not found: /x"]);
    assert_eq!(out(&run.path_failed("/w", "bad")), vec!["! Import failed: /w (bad)"]);
    assert_eq!(
        out(&run.path_unrecognized("/z")),
        vec!["! Unrecognized mod layout for /z (skipped)"]
    );
    assert_eq!(out(&run.parts_failed(vec![failed()])), vec!["! Import failed: p (odd)"]);
    assert_eq!(out(&run.batch_failed("y", "full")), vec!["! Import apply failed: y (full)"]);
    assert!(run.path_begun("/y").is_empty());
    assert!(run.batch_begun("l").is_empty());
    assert!(run.path_done("/y", 1).is_empty());
    assert!(run.summary().is_empty());
    assert_eq!(run.failures.len(), 5);
    assert_eq!(
        out(&plan_cli_deploy(true, false, 3, quiet).1),
        vec!["! Deploy skipped: game paths not set"]
    );
    assert!(plan_cli_deploy(true, true, 0, quiet).1.is_empty());
    assert!(plan_cli_deploy(true, true, 1, quiet).1.is_empty());
    let mut plain = CliImportRun::new(CliVerbosity::Normal);
    assert!(plain.parts_failed(vec![failed()]).is_empty());
    assert_eq!(out(&plain.summary())[1], "> \u{20} - p: odd");
    let mut many = CliImportRun::new(CliVerbosity::Normal);
    for _ in 0..10 {
        many.path_missing("/x");
    }
    let lines = out(&many.summary());
    assert_eq!(lines.last().unwrap(), "> \u{20} ...and 2 more (see log)");
    assert_eq!(lines.len(), 10);
}

#[test]
fn deploying_after_an_import() {
    let v = CliVerbosity::Normal;
    assert!(plan_cli_deploy(false, true, 3, v).1.is_empty());
    let (go, lines) = plan_cli_deploy(true, false, 3, v);
    assert!(!go);
    assert_eq!(out(&lines), vec!["! Deploy skipped: game paths not set"]);
    assert_eq!(out(&plan_cli_deploy(true, true, 0, v).1), vec!["> No imports to deploy"]);
    let (go, lines) = plan_cli_deploy(true, true, 1, v);
    assert!(go);
    assert_eq!(out(&lines), vec!["> Deploying imported mods..."]);
    assert_eq!(
        out(&show_cli_deployed(v, 1, 2, 30)),
        vec!["> Deploy complete: 1 pak, 2 loose (30 files)"]
    );
    assert_eq!(out(&show_cli_deploy_failed("disk full")), vec!["! Deploy failed: disk full"]);
    assert!(show_cli_deployed(CliVerbosity::Quiet, 1, 1, 1).is_empty());
}

#[test]
fn progress_is_printed() {
    let note = |stage: ImportStage, at: usize| ProgressNote {
        label: "Lanterns".to_string(),
        unit_index: 1,
        unit_count: 2,
        stage,
        stage_current: at,
        stage_total: 4,
        detail: Some("x.pak".to_string()),
    };
    let mut printer = CliProgressPrinter::new(CliVerbosity::Debug, 0);
    let first = out(&printer.handle(&note(ImportStage::Extracting, 1), 10));
    assert_eq!(first.len(), 2);
    assert_eq!(first[0], "> \u{20} -> Lanterns (1/2)");
    assert!(first[1].ends_with(" (1/4) - x.pak"));
    assert!(printer.handle(&note(ImportStage::Extracting, 2), 20).is_empty());
    assert_eq!(printer.handle(&note(ImportStage::Extracting, 3), 260).len(), 1);
    assert_eq!(printer.handle(&note(ImportStage::Indexing, 1), 261).len(), 1);
    let mut verbose = CliProgressPrinter::new(CliVerbosity::Verbose, 0);
    verbose.handle(&note(ImportStage::Extracting, 1), 0);
    assert!(verbose.handle(&note(ImportStage::Extracting, 2), 900).is_empty());
    let mut plain = CliProgressPrinter::new(CliVerbosity::Normal, 0);
    assert!(plain.handle(&note(ImportStage::Extracting, 1), 0).is_empty());
}

#[test]
fn packages_are_read_where_they_are() {
    let pak = |file: &str| InstallTarget::Pak {
        file: file.to_string(),
        info: PakInfo {
            uuid: "u".to_string(),
            name: "n".to_string(),
            folder: "f".to_string(),
            version: 1,
            md5: None,
            publish_handle: None,
            author: None,
            description: None,
            module_type: None,
        },
    };
    let mut m = entry("a", "Beacon", 1);
    m.targets = vec![
        pak("one.pak"),
        InstallTarget::Data { dir: "Data".to_string() },
        pak("two.pak"),
    ];
    let game = Some("/game/Mods".to_string());
    let planned = plan_pak_paths(&m, "/d/mods/a", &game);
    assert_eq!(planned, args(&["/d/mods/a/one.pak", "/d/mods/a/two.pak"]));
    let found = Some("/game/Mods/other.pak".to_string());
    assert_eq!(choose_pak_paths(&m, &planned, &vec![false, true], &found), planned);
    m.source = ModSource::Native;
    let planned = plan_pak_paths(&m, "/d/mods/a", &game);
    assert_eq!(planned, args(&["/game/Mods/one.pak", "/game/Mods/two.pak"]));
    assert_eq!(
        choose_pak_paths(&m, &planned, &vec![false, true], &found),
        args(&["/game/Mods/other.pak", "/game/Mods/two.pak"])
    );
    assert_eq!(choose_pak_paths(&m, &planned, &vec![false, true], &None), planned);
    assert_eq!(plan_pak_paths(&m, "/d/mods/a", &None)[0], "/d/mods/a/one.pak");
}
