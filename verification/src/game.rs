//! The games that the manager knows.
use crate::bg3;
use crate::bg3::{GamePaths, PathError};
use crate::text;
use vstd::prelude::*;

verus! {

#[derive(Debug, Clone, Copy, PartialEq, Eq, Structural, Hash)]
pub enum GameId {
    Bg3,
}

impl Default for GameId {
    fn default() -> (r: Self)
        ensures
            r == GameId::Bg3,
    {
        GameId::Bg3
    }
}

impl GameId {
    pub open spec fn name(self) -> Seq<char> {
        match self {
            GameId::Bg3 => bg3::GAME_NAME@,
        }
    }

    pub fn display_name(self) -> (r: &'static str)
        ensures
            r@ == self.name(),
    {
        match self {
            GameId::Bg3 => bg3::GAME_NAME,
        }
    }

    pub fn as_str(self) -> (r: &'static str)
        ensures
            r@ == match self {
                GameId::Bg3 => "bg3"@,
            },
    {
        match self {
            GameId::Bg3 => "bg3",
        }
    }

    pub fn data_dir_name(self) -> (r: &'static str)
        ensures
            r@ == self.name(),
    {
        match self {
            GameId::Bg3 => bg3::GAME_NAME,
        }
    }
}

pub fn supported_games() -> (r: Vec<GameId>)
    ensures
        r@ == seq![GameId::Bg3],
{
    let mut r: Vec<GameId> = Vec::new();
    r.push(GameId::Bg3);
    assert(r@ =~= seq![GameId::Bg3]);
    r
}

/// The paths of a game: from the directories that are set, or those that were
/// found, if they look right.
pub fn detect_paths(
    game: GameId,
    game_root_override: Option<&str>,
    user_dir_override: Option<&str>,
    found_root: Option<String>,
    found_user: Option<String>,
    dirs: &[String],
) -> (r: Result<GamePaths, PathError>)
    ensures
        ({
            let root = match game_root_override {
                Some(p) => Some(p@),
                None => text::text_opt(found_root),
            };
            let user = match user_dir_override {
                Some(p) => Some(p@),
                None => text::text_opt(found_user),
            };
            match (root, user) {
                (None, _) => r matches Err(PathError::NoGameRoot),
                (Some(_), None) => r matches Err(PathError::NoLarianDir),
                (Some(g), Some(l)) => if !bg3::is_game_root(g, text::texts(dirs@)) {
                    r matches Err(PathError::InvalidGameRoot(p)) && p@ == g
                } else if !bg3::is_larian_dir(l, text::texts(dirs@)) {
                    r matches Err(PathError::InvalidLarianDir(p)) && p@ == l
                } else {
                    r matches Ok(found) && found.below(g, l)
                },
            }
        }),
{
    match game {
        GameId::Bg3 => bg3::detect_paths(
            game_root_override,
            user_dir_override,
            found_root,
            found_user,
            dirs,
        ),
    }
}

pub fn looks_like_game_root(game: GameId, path: &str, dirs: &[String]) -> (r: bool)
    ensures
        r == bg3::is_game_root(path@, text::texts(dirs@)),
{
    match game {
        GameId::Bg3 => bg3::looks_like_game_root(path, dirs),
    }
}

pub fn looks_like_user_dir(game: GameId, path: &str, dirs: &[String]) -> (r: bool)
    ensures
        r == bg3::is_larian_dir(path@, text::texts(dirs@)),
{
    match game {
        GameId::Bg3 => bg3::looks_like_larian_dir(path, dirs),
    }
}

} // verus!
