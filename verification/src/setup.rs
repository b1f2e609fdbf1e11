//! Setting the program up: where the game is, and what is done when it starts.
use crate::actions;
use crate::actions::{also, log, no_actions, say, toast, Action, ActionView, LogLevel, ToastLevel};
use crate::bg3;
use crate::config::{AppConfig, GameConfig};
use crate::game;
use crate::game::{GameId};
use crate::library;
use crate::library::{find_profile, Library};
use crate::path_browser::SetupStep;
use crate::sorting::has_string;
use crate::tasks::Tasks;
use crate::text;
use crate::text::{concat2, concat3, show_usize};
use vstd::prelude::*;

verus! {

// ---------------------------------------------------------------------------
// Paths
// ---------------------------------------------------------------------------

/// Whether the directories of the game are known; `dirs` are the directories that
/// exist.
pub open spec fn ready(config: GameConfig, dirs: Seq<Seq<char>>) -> bool {
    bg3::is_game_root(config.game_root@, dirs) && bg3::is_larian_dir(config.larian_dir@, dirs)
}

pub fn paths_ready(config: &GameConfig, dirs: &Vec<String>) -> (r: bool)
    ensures
        r == ready(*config, text::texts(dirs@)),
{
    game::looks_like_game_root(config.game_id, config.game_root.as_str(), dirs.as_slice())
        && game::looks_like_user_dir(config.game_id, config.larian_dir.as_str(), dirs.as_slice())
}

/// What has to be set up first.
pub fn ensure_setup(config: &GameConfig, dirs: &Vec<String>) -> (r: Option<SetupStep>)
    ensures
        r == if ready(*config, text::texts(dirs@)) {
            None
        } else if bg3::is_game_root(config.game_root@, text::texts(dirs@)) {
            Some(SetupStep::LarianDir)
        } else {
            Some(SetupStep::GameRoot)
        },
{
    if paths_ready(config, dirs) {
        None
    } else if game::looks_like_game_root(
        config.game_id,
        config.game_root.as_str(),
        dirs.as_slice(),
    ) {
        Some(SetupStep::LarianDir)
    } else {
        Some(SetupStep::GameRoot)
    }
}

/// Whether a folder can be chosen for a step; `dirs` are the directories that exist.
pub fn path_browser_selectable(game: GameId, step: SetupStep, path: &str, dirs: &Vec<String>) -> (r:
    bool)
    ensures
        r == match step {
            SetupStep::GameRoot => bg3::is_game_root(path@, text::texts(dirs@)),
            SetupStep::LarianDir => bg3::is_larian_dir(path@, text::texts(dirs@)),
            SetupStep::DownloadsDir => text::texts(dirs@).contains(path@),
        },
{
    match step {
        SetupStep::GameRoot => game::looks_like_game_root(game, path, dirs.as_slice()),
        SetupStep::LarianDir => game::looks_like_user_dir(game, path, dirs.as_slice()),
        SetupStep::DownloadsDir => has_string(dirs, path),
    }
}

pub open spec fn two_lines(status: Seq<char>, line: Seq<char>) -> Seq<ActionView> {
    seq![ActionView::Status(status), ActionView::Log(LogLevel::Warn, line)]
}

fn warn(status: &str, line: &str) -> (out: Vec<Action>)
    ensures
        actions::action_views(out@) == two_lines(status@, line@),
{
    let mut out = no_actions();
    say(&mut out, status);
    log(&mut out, LogLevel::Warn, line);
    assert(actions::action_views(out@) =~= two_lines(status@, line@));
    out
}

pub open spec fn paths_set_says(line: Seq<char>) -> Seq<ActionView> {
    seq![
        ActionView::SaveConfig,
        ActionView::Status("Game paths set"@),
        ActionView::Log(LogLevel::Info, line),
        ActionView::Toast(ToastLevel::Info, "Paths updated"@, 2),
    ]
}

fn say_paths_set(line: &str) -> (out: Vec<Action>)
    ensures
        actions::action_views(out@) == paths_set_says(line@),
{
    let mut out = no_actions();
    also(&mut out, Action::SaveConfig);
    say(&mut out, "Game paths set");
    log(&mut out, LogLevel::Info, line);
    toast(&mut out, ToastLevel::Info, "Paths updated", 2);
    assert(actions::action_views(out@) =~= paths_set_says(line@));
    out
}

/// What choosing the directory of the game comes to: the settings, what is asked for
/// next, and what is said. `found` is the directory of the user's data that was found.
pub open spec fn root_submitted(
    after: GameConfig,
    before: GameConfig,
    path: Seq<char>,
    there: bool,
    dirs: Seq<Seq<char>>,
    found: Option<Seq<char>>,
    next: Option<SetupStep>,
    says: Seq<ActionView>,
) -> bool {
    if !there {
        &&& after == before
        &&& next == Some(SetupStep::GameRoot)
        &&& says == two_lines("Path not found: "@ + path, "Game root not found: "@ + path)
    } else if !bg3::is_game_root(path, dirs) {
        &&& after == before
        &&& next == Some(SetupStep::GameRoot)
        &&& says == two_lines(
            "Invalid game root: expected Data/ and bin/"@,
            "Invalid game root: "@ + path,
        )
    } else {
        &&& after.game_root@ == path
        &&& match found {
            Some(l) => if bg3::is_larian_dir(l, dirs) {
                &&& after == (GameConfig {
                    game_root: after.game_root,
                    larian_dir: after.larian_dir,
                    ..before
                })
                &&& after.larian_dir@ == l
                &&& next is None
                &&& says == paths_set_says("Game root set: "@ + path)
            } else {
                &&& after == (GameConfig { game_root: after.game_root, ..before })
                &&& next == Some(SetupStep::LarianDir)
                &&& says == unfound_says(
                    "invalid Larian data dir: expected PlayerProfiles/ in "@ + l,
                )
            },
            None => {
                &&& after == (GameConfig { game_root: after.game_root, ..before })
                &&& next == Some(SetupStep::LarianDir)
                &&& says == unfound_says("locate BG3 Larian data directory"@)
            },
        }
    }
}

pub open spec fn unfound_says(error: Seq<char>) -> Seq<ActionView> {
    two_lines(
        "Game root set. Larian data dir not found; please select it."@,
        "Larian dir auto-detect failed: "@ + error,
    )
}

/// Takes the directory of the game.
pub fn submit_game_root_path(
    config: &mut GameConfig,
    path: &str,
    there: bool,
    dirs: &Vec<String>,
    found: Option<String>,
) -> (r: (Option<SetupStep>, Vec<Action>))
    ensures
        root_submitted(
            *final(config),
            *old(config),
            path@,
            there,
            text::texts(dirs@),
            text::text_opt(found),
            r.0,
            actions::action_views(r.1@),
        ),
{
    if !there {
        let out = warn(
            concat2("Path not found: ", path).as_str(),
            concat2("Game root not found: ", path).as_str(),
        );
        return (Some(SetupStep::GameRoot), out);
    }
    if !game::looks_like_game_root(config.game_id, path, dirs.as_slice()) {
        let out = warn(
            "Invalid game root: expected Data/ and bin/",
            concat2("Invalid game root: ", path).as_str(),
        );
        return (Some(SetupStep::GameRoot), out);
    }
    config.game_root = path.to_owned();
    match game::detect_paths(config.game_id, Some(path), None, None, found, dirs.as_slice()) {
        Ok(paths) => {
            config.larian_dir = paths.larian_dir;
            (None, say_paths_set(concat2("Game root set: ", path).as_str()))
        },
        Err(e) => {
            let line = concat2("Larian dir auto-detect failed: ", e.message().as_str());
            let out = warn(
                "Game root set. Larian data dir not found; please select it.",
                line.as_str(),
            );
            (Some(SetupStep::LarianDir), out)
        },
    }
}

/// What choosing the directory of the user's data comes to.
pub open spec fn larian_submitted(
    after: GameConfig,
    before: GameConfig,
    path: Seq<char>,
    there: bool,
    dirs: Seq<Seq<char>>,
    next: Option<SetupStep>,
    says: Seq<ActionView>,
) -> bool {
    if !there {
        &&& after == before
        &&& next == Some(SetupStep::LarianDir)
        &&& says == two_lines("Path not found: "@ + path, "Larian dir not found: "@ + path)
    } else if !bg3::is_larian_dir(path, dirs) {
        &&& after == before
        &&& next == Some(SetupStep::LarianDir)
        &&& says == two_lines(
            "Invalid Larian dir: expected PlayerProfiles/"@,
            "Invalid Larian dir: "@ + path,
        )
    } else if !bg3::is_game_root(before.game_root@, dirs) {
        &&& after == before
        &&& next == Some(SetupStep::GameRoot)
        &&& says == two_lines(
            "Game root missing: select BG3 install root"@,
            "Game root missing while setting Larian dir"@,
        )
    } else {
        &&& after == (GameConfig { larian_dir: after.larian_dir, ..before })
        &&& after.larian_dir@ == path
        &&& next is None
        &&& says == paths_set_says("Larian dir set: "@ + path)
    }
}

/// Takes the directory of the user's data.
pub fn submit_larian_dir_path(
    config: &mut GameConfig,
    path: &str,
    there: bool,
    dirs: &Vec<String>,
) -> (r: (Option<SetupStep>, Vec<Action>))
    ensures
        larian_submitted(
            *final(config),
            *old(config),
            path@,
            there,
            text::texts(dirs@),
            r.0,
            actions::action_views(r.1@),
        ),
{
    if !there {
        let out = warn(
            concat2("Path not found: ", path).as_str(),
            concat2("Larian dir not found: ", path).as_str(),
        );
        return (Some(SetupStep::LarianDir), out);
    }
    if !game::looks_like_user_dir(config.game_id, path, dirs.as_slice()) {
        let out = warn(
            "Invalid Larian dir: expected PlayerProfiles/",
            concat2("Invalid Larian dir: ", path).as_str(),
        );
        return (Some(SetupStep::LarianDir), out);
    }
    if !game::looks_like_game_root(config.game_id, config.game_root.as_str(), dirs.as_slice()) {
        let out = warn(
            "Game root missing: select BG3 install root",
            "Game root missing while setting Larian dir",
        );
        return (Some(SetupStep::GameRoot), out);
    }
    config.larian_dir = path.to_owned();
    (None, say_paths_set(concat2("Larian dir set: ", path).as_str()))
}

pub open spec fn downloads_set_says(path: Seq<char>) -> Seq<ActionView> {
    seq![
        ActionView::SaveAppConfig,
        ActionView::Status("Downloads folder set"@),
        ActionView::Log(LogLevel::Info, "Downloads dir set: "@ + path),
        ActionView::Toast(ToastLevel::Info, "Downloads folder updated"@, 2),
    ]
}

/// Takes the folder for downloads.
pub fn submit_downloads_dir_path(config: &mut AppConfig, path: &str, is_dir: bool) -> (r: (
    Option<SetupStep>,
    Vec<Action>,
))
    ensures
        if is_dir {
            &&& *final(config) == (AppConfig {
                downloads_dir: final(config).downloads_dir,
                ..*old(config)
            })
            &&& final(config).downloads_dir@ == path@
            &&& r.0 is None
            &&& actions::action_views(r.1@) == downloads_set_says(path@)
        } else {
            &&& *final(config) == *old(config)
            &&& r.0 == Some(SetupStep::DownloadsDir)
            &&& actions::action_views(r.1@) == two_lines(
                "Path not found: "@ + path@,
                "Downloads dir not found: "@ + path@,
            )
        },
{
    if !is_dir {
        let out = warn(
            concat2("Path not found: ", path).as_str(),
            concat2("Downloads dir not found: ", path).as_str(),
        );
        return (Some(SetupStep::DownloadsDir), out);
    }
    config.downloads_dir = path.to_owned();
    let mut out = no_actions();
    also(&mut out, Action::SaveAppConfig);
    say(&mut out, "Downloads folder set");
    log(&mut out, LogLevel::Info, concat2("Downloads dir set: ", path).as_str());
    toast(&mut out, ToastLevel::Info, "Downloads folder updated", 2);
    assert(actions::action_views(out@) =~= downloads_set_says(path@));
    (None, out)
}

/// Directories of the game that are taken are ready, or what is still missing is asked
/// for.
pub proof fn law_taken_root_is_ready(
    after: GameConfig,
    before: GameConfig,
    path: Seq<char>,
    there: bool,
    dirs: Seq<Seq<char>>,
    found: Option<Seq<char>>,
    next: Option<SetupStep>,
    says: Seq<ActionView>,
)
    requires
        root_submitted(after, before, path, there, dirs, found, next, says),
    ensures
        next is None ==> ready(after, dirs),
{
}

/// A directory of the user's data that is taken makes the paths ready.
pub proof fn law_taken_larian_is_ready(
    after: GameConfig,
    before: GameConfig,
    path: Seq<char>,
    there: bool,
    dirs: Seq<Seq<char>>,
    next: Option<SetupStep>,
    says: Seq<ActionView>,
)
    requires
        larian_submitted(after, before, path, there, dirs, next, says),
    ensures
        next is None ==> ready(after, dirs),
{
}

// ---------------------------------------------------------------------------
// Starting
// ---------------------------------------------------------------------------

/// What the program was started for.
#[derive(Debug, Clone, Copy, PartialEq, Eq, Structural)]
pub enum StartupMode {
    Ui,
    Cli,
}

/// Keeps the stored paths where they still hold, or takes those that were found. The
/// result says whether the settings changed, and what was wrong where nothing was found.
pub fn settle_paths(
    config: &mut GameConfig,
    dirs: &Vec<String>,
    found_root: Option<String>,
    found_larian: Option<String>,
) -> (r: (bool, Option<String>))
    ensures
        ({
            let d = text::texts(dirs@);
            match (found_root, found_larian) {
                (Some(g), Some(l)) if !ready(*old(config), d) && bg3::is_game_root(g@, d)
                    && bg3::is_larian_dir(l@, d) => {
                    &&& r == (true, None::<String>)
                    &&& *final(config) == (GameConfig {
                        game_root: final(config).game_root,
                        larian_dir: final(config).larian_dir,
                        ..*old(config)
                    })
                    &&& final(config).game_root@ == g@
                    &&& final(config).larian_dir@ == l@
                },
                _ => {
                    &&& *final(config) == *old(config)
                    &&& !r.0
                    &&& text::text_opt(r.1) == if ready(*old(config), d) {
                        None
                    } else if !bg3::is_game_root(old(config).game_root@, d) {
                        Some(
                            "invalid game root: expected Data/ and bin/ in "@
                                + old(config).game_root@,
                        )
                    } else {
                        Some(
                            "invalid Larian data dir: expected PlayerProfiles/ in "@
                                + old(config).larian_dir@,
                        )
                    }
                },
            }
        }),
{
    let first = game::detect_paths(
        config.game_id,
        Some(config.game_root.as_str()),
        Some(config.larian_dir.as_str()),
        None,
        None,
        dirs.as_slice(),
    );
    match first {
        Ok(_) => (false, None),
        Err(e) => {
            match game::detect_paths(
                config.game_id,
                None,
                None,
                found_root,
                found_larian,
                dirs.as_slice(),
            ) {
                Ok(paths) => {
                    config.game_root = paths.game_root;
                    config.larian_dir = paths.larian_dir;
                    (true, None)
                },
                Err(_) => (false, Some(e.message())),
            }
        },
    }
}

/// Makes the library and the settings agree on the active profile: the one of the
/// settings where it is there, else the one of the library.
pub fn settle_active_profile(library: &mut Library, config: &mut GameConfig)
    ensures
        ({
            let known = old(config).active_profile@.len() > 0 && library::has_profile(
                old(library).profiles@,
                old(config).active_profile@,
            );
            &&& *final(library) == (Library {
                active_profile: final(library).active_profile,
                ..*old(library)
            })
            &&& *final(config) == (GameConfig {
                active_profile: final(config).active_profile,
                ..*old(config)
            })
            &&& final(library).active_profile@ == final(config).active_profile@
            &&& final(library).active_profile@ == if known {
                old(config).active_profile@
            } else {
                old(library).active_profile@
            }
        }),
{
    let known = match find_profile(&library.profiles, config.active_profile.as_str()) {
        Some(_) => !config.active_profile.as_str().is_empty(),
        None => false,
    };
    if known {
        library.active_profile = config.active_profile.clone();
    } else {
        config.active_profile = library.active_profile.clone();
    }
}

/// The library and the settings keep an active profile that is there.
pub proof fn law_settled_profile_is_there(after: Library, before: Library, wish: Seq<char>)
    requires
        before.well_formed(),
        after.profiles == before.profiles,
        after.active_profile@ == if wish.len() > 0 && library::has_profile(
            before.profiles@,
            wish,
        ) {
            wish
        } else {
            before.active_profile@
        },
    ensures
        after.well_formed(),
{
}

pub open spec fn start_says(
    mods: nat,
    error: Option<Seq<char>>,
    ready: bool,
    config: GameConfig,
) -> Seq<ActionView> {
    seq![
        ActionView::Log(LogLevel::Info, "Library loaded: "@ + text::decimal(mods) + " mod(s)"@),
        ActionView::Log(LogLevel::Info, "Detecting game paths..."@),
    ] + match error {
        Some(e) => seq![
            ActionView::Log(LogLevel::Warn, "Path auto-detect failed: "@ + e),
            ActionView::Status("Setup required: open Menu (Esc) to configure paths"@),
        ],
        None => if ready {
            seq![
                ActionView::Status("Paths ready (Esc → Menu to change)"@),
                ActionView::Log(
                    LogLevel::Info,
                    "Paths ready: root="@ + config.game_root@ + " user="@ + config.larian_dir@,
                ),
                ActionView::Toast(ToastLevel::Info, "Paths detected: BG3 + Larian data"@, 3),
            ]
        } else {
            Seq::empty()
        },
    }
}

/// What is said when the program has started.
pub fn say_started(library: &Library, config: &GameConfig, error: &Option<String>, ready: bool) -> (
out: Vec<Action>)
    ensures
        actions::action_views(out@) == start_says(
            library.mods@.len(),
            text::text_opt(*error),
            ready,
            *config,
        ),
{
    let mut out = no_actions();
    log(
        &mut out,
        LogLevel::Info,
        concat3("Library loaded: ", show_usize(library.mods.len()).as_str(), " mod(s)").as_str(),
    );
    log(&mut out, LogLevel::Info, "Detecting game paths...");
    match error {
        Some(e) => {
            log(
                &mut out,
                LogLevel::Warn,
                concat2("Path auto-detect failed: ", e.as_str()).as_str(),
            );
            say(&mut out, "Setup required: open Menu (Esc) to configure paths");
        },
        None => {
            if ready {
                say(&mut out, "Paths ready (Esc → Menu to change)");
                let mut line = concat3("Paths ready: root=", config.game_root.as_str(), " user=");
                line.append(config.larian_dir.as_str());
                log(&mut out, LogLevel::Info, line.as_str());
                toast(&mut out, ToastLevel::Info, "Paths detected: BG3 + Larian data", 3);
            }
        },
    }
    assert(actions::action_views(out@) =~= start_says(
        library.mods@.len(),
        text::text_opt(*error),
        ready,
        *config,
    ));
    out
}

/// How far the start has come.
#[derive(Debug, Clone, Copy, PartialEq, Eq, Structural)]
pub struct Startup {
    pub mode: StartupMode,
    pub pending: bool,
    /// Whether something is left for when the mods of the game are known.
    pub post_sync_pending: bool,
}

/// How the mods of the game are looked at.
#[derive(Debug, Clone, Copy, PartialEq, Eq, Structural)]
pub enum StartupStep {
    Nothing,
    SyncBeside,
    SyncNow,
}

impl Startup {
    pub fn new(mode: StartupMode) -> (r: Self)
        ensures
            r == (Startup { mode, pending: true, post_sync_pending: false }),
    {
        Startup { mode, pending: true, post_sync_pending: false }
    }

    /// Goes on with the start: beside the interface, or at once on the command line.
    pub fn finish_startup(&mut self) -> (r: StartupStep)
        ensures
            !final(self).pending,
            final(self).mode == old(self).mode,
            final(self).post_sync_pending == (old(self).post_sync_pending || (old(self).pending
                && old(self).mode == StartupMode::Ui)),
            r == if !old(self).pending {
                StartupStep::Nothing
            } else if old(self).mode == StartupMode::Ui {
                StartupStep::SyncBeside
            } else {
                StartupStep::SyncNow
            },
    {
        if !self.pending {
            return StartupStep::Nothing;
        }
        self.pending = false;
        match self.mode {
            StartupMode::Ui => {
                self.post_sync_pending = true;
                StartupStep::SyncBeside
            },
            StartupMode::Cli => StartupStep::SyncNow,
        }
    }

    /// Whether what was left is to be done now.
    pub fn take_post_sync(&mut self) -> (r: bool)
        ensures
            r == old(self).post_sync_pending,
            *final(self) == (Startup { post_sync_pending: false, ..*old(self) }),
    {
        let r = self.post_sync_pending;
        self.post_sync_pending = false;
        r
    }
}

// ---------------------------------------------------------------------------
// Another game, and the way back
// ---------------------------------------------------------------------------

/// What stands in the way of another game, if anything does.
pub fn block_game_switch(t: &Tasks) -> (r: (bool, Vec<Action>))
    ensures
        r.0 == (t.import_active || t.deploy_active || t.deploy_pending || t.conflict_active
            || t.conflict_pending),
        actions::action_views(r.1@) == if t.import_active || t.deploy_active || t.deploy_pending {
            two_lines("Game switch blocked: active tasks"@, "Game switch blocked: active tasks"@)
        } else if t.conflict_active || t.conflict_pending {
            two_lines(
                "Game switch blocked: override scan running"@,
                "Game switch blocked: override scan running"@,
            )
        } else {
            Seq::empty()
        },
{
    if t.import_active || t.deploy_active || t.deploy_pending {
        return (
            true,
            warn("Game switch blocked: active tasks", "Game switch blocked: active tasks"),
        );
    }
    if t.conflict_active || t.conflict_pending {
        return (
            true,
            warn(
                "Game switch blocked: override scan running",
                "Game switch blocked: override scan running",
            ),
        );
    }
    let out = no_actions();
    assert(actions::action_views(out@) =~= Seq::<ActionView>::empty());
    (false, out)
}

/// What is said once another game is active.
pub fn say_active_game(game: GameId) -> (out: Vec<Action>)
    ensures
        actions::action_views(out@) == seq![
            ActionView::Status("Active game: "@ + game.name()),
            ActionView::Log(LogLevel::Info, "Active game: "@ + game.name()),
        ],
{
    let mut out = no_actions();
    let line = concat2("Active game: ", game.display_name());
    say(&mut out, line.as_str());
    log(&mut out, LogLevel::Info, line.as_str());
    assert(actions::action_views(out@) =~= seq![
        ActionView::Status(line@),
        ActionView::Log(LogLevel::Info, line@),
    ]);
    out
}

pub open spec fn no_rollback_says(line: Seq<char>) -> Seq<ActionView> {
    two_lines(line, line).push(ActionView::Toast(ToastLevel::Warn, line, 3))
}

/// Whether there is no way back now: something runs, or there is no backup.
pub fn block_rollback(t: &Tasks, has_backup: bool) -> (r: (bool, Vec<Action>))
    ensures
        r.0 == (t.import_active || t.deploy_active || t.deploy_pending || !has_backup),
        actions::action_views(r.1@) == if t.import_active || t.deploy_active || t.deploy_pending {
            no_rollback_says("Rollback blocked: active tasks"@)
        } else if !has_backup {
            no_rollback_says("No backup available"@)
        } else {
            Seq::empty()
        },
{
    let line = if t.import_active || t.deploy_active || t.deploy_pending {
        "Rollback blocked: active tasks"
    } else if !has_backup {
        "No backup available"
    } else {
        let out = no_actions();
        assert(actions::action_views(out@) =~= Seq::<ActionView>::empty());
        return (false, out);
    };
    let mut out = warn(line, line);
    toast(&mut out, ToastLevel::Warn, line, 3);
    (true, out)
}

/// What is done and said on the way back.
pub open spec fn rollback_says(dir: Seq<char>) -> Seq<ActionView> {
    seq![
        ActionView::SaveLibrary,
        ActionView::SaveConfig,
        ActionView::ScanConflicts("rollback"@),
        ActionView::Status("Rollback queued"@),
        ActionView::Log(LogLevel::Info, "Rollback queued from "@ + dir),
    ]
}

/// Goes back to a library that was kept: it gets a profile, an active one, and an entry
/// for each mod. The deployment that follows keeps no backup of its own.
pub fn rollback_last_backup(
    library: &mut Library,
    config: &mut GameConfig,
    kept: Library,
    dir: &str,
) -> (out: Vec<Action>)
    ensures
        final(library).well_formed(),
        ({
            let mid = final(library).profiles@;
            &&& final(library).mods == kept.mods
            &&& final(library).dependency_blocks == kept.dependency_blocks
            &&& final(library).metadata_cache_version == kept.metadata_cache_version
            &&& final(library).metadata_cache_key == kept.metadata_cache_key
            &&& final(library).modsettings_hash == kept.modsettings_hash
            &&& final(library).modsettings_sync_enabled == kept.modsettings_sync_enabled
            &&& kept.profiles@.len() > 0 ==> mid.len() == kept.profiles@.len() && forall|i: int|
                0 <= i < mid.len() ==> library::ensured(
                    kept.profiles@[i],
                    #[trigger] mid[i],
                    library::mod_ids(kept.mods@),
                )
            &&& kept.profiles@.len() == 0 ==> mid.len() == 1 && mid[0].name@ == "Default"@
                && library::entries(mid[0].order@) == library::with_missing(
                Seq::empty(),
                library::mod_ids(kept.mods@),
            ) && mid[0].file_overrides@.len() == 0
            &&& final(library).active_profile@ == if kept.active_profile@.len() > 0
                && library::has_profile(mid, kept.active_profile@) {
                kept.active_profile@
            } else {
                mid[0].name@
            }
        }),
        *final(config) == (GameConfig {
            active_profile: final(config).active_profile,
            ..*old(config)
        }),
        final(config).active_profile@ == final(library).active_profile@,
        actions::action_views(out@) == rollback_says(dir@),
{
    let mut restored = Library::load_or_create(Some(kept));
    let ghost mid = restored;
    restored.ensure_mods_in_profiles();
    proof {
        let k = choose|k: int|
            0 <= k < mid.profiles@.len() && (#[trigger] mid.profiles@[k]).name@
                == mid.active_profile@;
        assert(library::ensured(
            mid.profiles@[k],
            restored.profiles@[k],
            library::mod_ids(mid.mods@),
        ));
        assert(restored.profiles@[k].name@ == restored.active_profile@);
        assert(library::ensured(
            mid.profiles@[0],
            restored.profiles@[0],
            library::mod_ids(mid.mods@),
        ));
        if library::has_profile(restored.profiles@, kept.active_profile@) {
            let j = choose|j: int|
                0 <= j < restored.profiles@.len() && (#[trigger] restored.profiles@[j]).name@
                    == kept.active_profile@;
            assert(library::ensured(
                mid.profiles@[j],
                restored.profiles@[j],
                library::mod_ids(mid.mods@),
            ));
            assert(mid.profiles@[j].name@ == kept.active_profile@);
        }
        if library::has_profile(mid.profiles@, kept.active_profile@) {
            let j = choose|j: int|
                0 <= j < mid.profiles@.len() && (#[trigger] mid.profiles@[j]).name@
                    == kept.active_profile@;
            assert(library::ensured(
                mid.profiles@[j],
                restored.profiles@[j],
                library::mod_ids(mid.mods@),
            ));
            assert(restored.profiles@[j].name@ == kept.active_profile@);
        }
        if kept.profiles@.len() == 0 {
            assert(library::entries(mid.profiles@[0].order@) =~= Seq::empty());
            assert(mid.profiles@[0].file_overrides@ =~= Seq::empty());
            reveal(Seq::filter);
        }
    }
    config.active_profile = restored.active_profile.clone();
    *library = restored;
    let mut out = no_actions();
    also(&mut out, Action::SaveLibrary);
    also(&mut out, Action::SaveConfig);
    also(&mut out, Action::ScanConflicts("rollback".to_owned()));
    say(&mut out, "Rollback queued");
    log(&mut out, LogLevel::Info, concat2("Rollback queued from ", dir).as_str());
    assert(actions::action_views(out@) =~= rollback_says(dir@));
    out
}

} // verus!
