//! Settings: those of the manager, and those of one game.
use crate::game::{supported_games, GameId};
use crate::paths;
use crate::paths::join_path;
use vstd::prelude::*;

verus! {

/// The settings of the manager.
#[derive(Debug)]
pub struct AppConfig {
    pub active_game: GameId,
    pub confirm_profile_delete: bool,
    pub confirm_mod_delete: bool,
    pub downloads_dir: String,
    pub offer_dependency_downloads: bool,
    pub warn_missing_dependencies: bool,
    pub dependency_search_copy_preference: Option<bool>,
    pub enable_mods_after_import: bool,
    pub delete_mod_files_on_remove: bool,
    pub show_startup_dependency_notice: bool,
}

/// The settings of one game.
#[derive(Debug)]
pub struct GameConfig {
    pub game_id: GameId,
    pub game_name: String,
    pub data_dir: String,
    pub game_root: String,
    pub larian_dir: String,
    pub active_profile: String,
}

/// What a switch is where nothing is stored.
pub fn default_true() -> (r: bool)
    ensures
        r,
{
    true
}

/// The directory that downloads are looked for in: the one that the system names,
/// else the home directory, else the root.
pub fn default_downloads_dir(downloads: Option<String>, home: Option<String>) -> (r: String)
    ensures
        r@ == match (downloads, home) {
            (Some(d), _) => d@,
            (None, Some(h)) => h@,
            (None, None) => "/"@,
        },
{
    match (downloads, home) {
        (Some(d), _) => d,
        (None, Some(h)) => h,
        (None, None) => "/".to_owned(),
    }
}

impl AppConfig {
    /// The stored settings, with a game that is supported, or the settings of a
    /// first start. The switch tells whether they are to be stored.
    pub fn load_or_create(stored: Option<AppConfig>, downloads_dir: String) -> (r: (AppConfig, bool))
        ensures
            r.0.active_game == GameId::Bg3,
            match stored {
                Some(s) => r.0 == (AppConfig { active_game: r.0.active_game, ..s }) && r.1
                    == (s.active_game != GameId::Bg3),
                None => r.1 && r.0 == (AppConfig {
                    active_game: GameId::Bg3,
                    confirm_profile_delete: true,
                    confirm_mod_delete: true,
                    downloads_dir,
                    offer_dependency_downloads: true,
                    warn_missing_dependencies: true,
                    dependency_search_copy_preference: None,
                    enable_mods_after_import: true,
                    delete_mod_files_on_remove: false,
                    show_startup_dependency_notice: true,
                }),
            },
    {
        match stored {
            Some(found) => {
                let mut config = found;
                let games = supported_games();
                let mut known = false;
                let mut i: usize = 0;
                while i < games.len()
                    invariant
                        i <= games.len(),
                        games@ == seq![GameId::Bg3],
                        known == (i > 0 && config.active_game == GameId::Bg3),
                    decreases games.len() - i,
                {
                    if games[i] == config.active_game {
                        known = true;
                    }
                    i = i + 1;
                }
                if !known {
                    config.active_game = GameId::default();
                    return (config, true);
                }
                (config, false)
            },
            None => (
                AppConfig {
                    active_game: GameId::default(),
                    confirm_profile_delete: default_true(),
                    confirm_mod_delete: default_true(),
                    downloads_dir,
                    offer_dependency_downloads: default_true(),
                    warn_missing_dependencies: default_true(),
                    dependency_search_copy_preference: None,
                    enable_mods_after_import: default_true(),
                    delete_mod_files_on_remove: false,
                    show_startup_dependency_notice: default_true(),
                },
                true,
            ),
        }
    }
}

impl GameConfig {
    /// The stored settings of a game, brought up to date, or those of a first
    /// start with the directories that were found.
    pub fn load_or_create(
        game: GameId,
        stored: Option<GameConfig>,
        data_dir: String,
        detected: Option<(String, String)>,
    ) -> (r: GameConfig)
        ensures
            r.game_id == game,
            r.game_name@ == game.name(),
            r.data_dir == data_dir,
            match stored {
                Some(s) => r.game_root == s.game_root && r.larian_dir == s.larian_dir
                    && r.active_profile == s.active_profile,
                None => r.active_profile@ == "Default"@ && match detected {
                    Some((root, larian)) => r.game_root == root && r.larian_dir == larian,
                    None => r.game_root@.len() == 0 && r.larian_dir@.len() == 0,
                },
            },
    {
        match stored {
            Some(found) => GameConfig {
                game_id: game,
                game_name: game.display_name().to_owned(),
                data_dir,
                game_root: found.game_root,
                larian_dir: found.larian_dir,
                active_profile: found.active_profile,
            },
            None => {
                let (game_root, larian_dir) = match detected {
                    Some((root, larian)) => (root, larian),
                    None => (String::new(), String::new()),
                };
                GameConfig {
                    game_id: game,
                    game_name: game.display_name().to_owned(),
                    data_dir,
                    game_root,
                    larian_dir,
                    active_profile: "Default".to_owned(),
                }
            },
        }
    }

    /// Where files of mods are kept for linking.
    pub fn sigillink_cache_root(&self) -> (r: String)
        ensures
            r == self.data_dir,
    {
        self.data_dir.clone()
    }
}

/// The directory for the data of a game below the manager's own.
pub fn data_dir_for_game(base: &str, game: GameId) -> (r: String)
    ensures
        r@ == paths::joined(base@, game.name()),
{
    join_path(base, game.data_dir_name())
}

} // verus!
