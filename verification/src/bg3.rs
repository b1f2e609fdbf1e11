//! Where the game and its user data are.
use crate::paths;
use crate::paths::join_path;
use crate::sorting::has_string;
use crate::text;
use crate::text::{has_text, replace_text, split, trim};
use vstd::prelude::*;

verus! {

pub const GAME_NAME: &'static str = "Baldur's Gate 3";

pub const STEAM_APP_ID: &'static str = "1086940";

/// The directories and files of the game that the manager works with.
#[derive(Debug)]
pub struct GamePaths {
    pub game_root: String,
    pub data_dir: String,
    pub larian_dir: String,
    pub larian_mods_dir: String,
    pub modsettings_path: String,
    pub profiles_dir: String,
}

/// Why the directories of the game are not known.
#[derive(Debug)]
pub enum PathError {
    NoGameRoot,
    NoLarianDir,
    InvalidGameRoot(String),
    InvalidLarianDir(String),
}

/// Whether both `Data` and `bin` are directories in `path`, where `dirs` are the
/// directories that exist.
pub open spec fn is_game_root(path: Seq<char>, dirs: Seq<Seq<char>>) -> bool {
    dirs.contains(paths::joined(path, "Data"@)) && dirs.contains(paths::joined(path, "bin"@))
}

/// Whether `PlayerProfiles` is a directory in `path`.
pub open spec fn is_larian_dir(path: Seq<char>, dirs: Seq<Seq<char>>) -> bool {
    dirs.contains(paths::joined(path, "PlayerProfiles"@))
}

pub fn looks_like_game_root(path: &str, dirs: &[String]) -> (r: bool)
    ensures
        r == is_game_root(path@, text::texts(dirs@)),
{
    let data = join_path(path, "Data");
    let bin = join_path(path, "bin");
    has_string(dirs, data.as_str()) && has_string(dirs, bin.as_str())
}

pub fn looks_like_larian_dir(path: &str, dirs: &[String]) -> (r: bool)
    ensures
        r == is_larian_dir(path@, text::texts(dirs@)),
{
    let profiles = join_path(path, "PlayerProfiles");
    has_string(dirs, profiles.as_str())
}

impl GamePaths {
    /// Whether these are the paths below a game root and a user directory.
    pub open spec fn below(self, game_root: Seq<char>, larian_dir: Seq<char>) -> bool {
        let profiles = paths::joined(larian_dir, "PlayerProfiles"@);
        &&& self.game_root@ == game_root
        &&& self.data_dir@ == paths::joined(game_root, "Data"@)
        &&& self.larian_dir@ == larian_dir
        &&& self.larian_mods_dir@ == paths::joined(larian_dir, "Mods"@)
        &&& self.profiles_dir@ == profiles
        &&& self.modsettings_path@ == paths::joined(
            paths::joined(profiles, "Public"@),
            "modsettings.lsx"@,
        )
    }
}

/// The paths of the game: from the directories that are set, or those that were
/// found, if they look right.
pub fn detect_paths(
    game_root_override: Option<&str>,
    larian_dir_override: Option<&str>,
    found_root: Option<String>,
    found_larian: Option<String>,
    dirs: &[String],
) -> (r: Result<GamePaths, PathError>)
    ensures
        ({
            let root = match game_root_override {
                Some(p) => Some(p@),
                None => text::text_opt(found_root),
            };
            let larian = match larian_dir_override {
                Some(p) => Some(p@),
                None => text::text_opt(found_larian),
            };
            match (root, larian) {
                (None, _) => r matches Err(PathError::NoGameRoot),
                (Some(_), None) => r matches Err(PathError::NoLarianDir),
                (Some(g), Some(l)) => if !is_game_root(g, text::texts(dirs@)) {
                    r matches Err(PathError::InvalidGameRoot(p)) && p@ == g
                } else if !is_larian_dir(l, text::texts(dirs@)) {
                    r matches Err(PathError::InvalidLarianDir(p)) && p@ == l
                } else {
                    r matches Ok(found) && found.below(g, l)
                },
            }
        }),
{
    let game_root = match game_root_override {
        Some(p) => p.to_owned(),
        None => match found_root {
            Some(p) => p,
            None => return Err(PathError::NoGameRoot),
        },
    };
    let larian_dir = match larian_dir_override {
        Some(p) => p.to_owned(),
        None => match found_larian {
            Some(p) => p,
            None => return Err(PathError::NoLarianDir),
        },
    };
    if !looks_like_game_root(game_root.as_str(), dirs) {
        return Err(PathError::InvalidGameRoot(game_root));
    }
    if !looks_like_larian_dir(larian_dir.as_str(), dirs) {
        return Err(PathError::InvalidLarianDir(larian_dir));
    }
    let profiles_dir = join_path(larian_dir.as_str(), "PlayerProfiles");
    let public = join_path(profiles_dir.as_str(), "Public");
    Ok(
        GamePaths {
            data_dir: join_path(game_root.as_str(), "Data"),
            larian_mods_dir: join_path(larian_dir.as_str(), "Mods"),
            modsettings_path: join_path(public.as_str(), "modsettings.lsx"),
            game_root,
            larian_dir,
            profiles_dir,
        },
    )
}

/// What the error says.
pub open spec fn error_text(e: PathError) -> Seq<char> {
    match e {
        PathError::NoGameRoot => "locate BG3 game directory"@,
        PathError::NoLarianDir => "locate BG3 Larian data directory"@,
        PathError::InvalidGameRoot(p) => "invalid game root: expected Data/ and bin/ in "@ + p@,
        PathError::InvalidLarianDir(p) => "invalid Larian data dir: expected PlayerProfiles/ in "@
            + p@,
    }
}

impl PathError {
    pub fn message(&self) -> (r: String)
        ensures
            r@ == error_text(*self),
    {
        match self {
            PathError::NoGameRoot => "locate BG3 game directory".to_owned(),
            PathError::NoLarianDir => "locate BG3 Larian data directory".to_owned(),
            PathError::InvalidGameRoot(p) => text::concat2(
                "invalid game root: expected Data/ and bin/ in ",
                p.as_str(),
            ),
            PathError::InvalidLarianDir(p) => text::concat2(
                "invalid Larian data dir: expected PlayerProfiles/ in ",
                p.as_str(),
            ),
        }
    }
}

// ---------------------------------------------------------------------------
// Looking for the game
// ---------------------------------------------------------------------------

/// Where Steam may be installed below a home directory.
pub fn steam_bases(home: &str) -> (out: Vec<String>)
    ensures
        text::texts(out@) == seq![
            paths::joined(home@, ".local/share/Steam"@),
            paths::joined(home@, ".steam/steam"@),
        ],
{
    let mut out: Vec<String> = Vec::new();
    out.push(join_path(home, ".local/share/Steam"));
    out.push(join_path(home, ".steam/steam"));
    assert(text::texts(out@) =~= seq![
        paths::joined(home@, ".local/share/Steam"@),
        paths::joined(home@, ".steam/steam"@),
    ]);
    out
}

/// The path that a line of the list of Steam libraries names: the fourth of the
/// pieces between quotation marks, on a line that speaks of a path.
pub open spec fn line_path(line: Seq<char>) -> Option<Seq<char>> {
    let t = text::trimmed(line);
    let pieces = text::split_any(t, "\""@);
    if text::contains_text(t, "\"path\""@) && pieces.len() >= 4 {
        Some(text::replaced(pieces[3], "\\\\"@, "\\"@))
    } else {
        None
    }
}

/// The paths that lines name.
pub open spec fn named_paths(lines: Seq<Seq<char>>) -> Seq<Seq<char>>
    decreases lines.len(),
{
    if lines.len() == 0 {
        Seq::empty()
    } else {
        let before = named_paths(lines.drop_last());
        match line_path(lines.last()) {
            Some(p) => before.push(p),
            None => before,
        }
    }
}

/// The paths of the Steam libraries that a list of them names.
pub open spec fn library_paths(raw: Seq<char>) -> Seq<Seq<char>> {
    named_paths(text::split_any(raw, "\n"@))
}

pub fn parse_steam_library_paths(raw: &str) -> (out: Vec<String>)
    ensures
        text::texts(out@) == library_paths(raw@),
{
    let lines = split(raw, "\n");
    let ghost all = text::texts(lines@);
    let mut out: Vec<String> = Vec::new();
    let mut i: usize = 0;
    assert(text::texts(out@) =~= named_paths(all.take(0)));
    while i < lines.len()
        invariant
            i <= lines.len(),
            all == text::texts(lines@),
            text::texts(out@) == named_paths(all.take(i as int)),
        decreases lines.len() - i,
    {
        assert(all.take(i + 1).drop_last() =~= all.take(i as int));
        assert(all.take(i + 1).last() == lines@[i as int]@);
        let line = trim(lines[i].as_str());
        if has_text(line.as_str(), "\"path\"") {
            let pieces = split(line.as_str(), "\"");
            if pieces.len() >= 4 {
                assert(text::texts(pieces@)[3] == pieces@[3]@);
                proof {
                    reveal_strlit("\\\\");
                }
                let path = replace_text(pieces[3].as_str(), "\\\\", "\\");
                proof {
                    text::lemma_texts_push(out@, path);
                }
                out.push(path);
            }
        }
        i = i + 1;
    }
    assert(all.take(i as int) =~= all);
    out
}

/// The Steam libraries: for each place where Steam is installed those that its
/// list names, if there is a list, and then the place itself.
pub open spec fn all_libraries(
    bases: Seq<Seq<char>>,
    lists: Seq<Option<Seq<char>>>,
    n: int,
) -> Seq<Seq<char>>
    decreases n,
{
    if n <= 0 {
        Seq::empty()
    } else {
        let before = all_libraries(bases, lists, n - 1);
        match lists[n - 1] {
            Some(raw) => (before + library_paths(raw)).push(bases[n - 1]),
            None => before.push(bases[n - 1]),
        }
    }
}

pub open spec fn text_opts(v: Seq<Option<String>>) -> Seq<Option<Seq<char>>> {
    Seq::new(v.len(), |i: int| text::text_opt(v[i]))
}

pub fn steam_libraries(bases: &Vec<String>, lists: &Vec<Option<String>>) -> (out: Vec<String>)
    requires
        bases.len() == lists.len(),
    ensures
        text::texts(out@) == all_libraries(
            text::texts(bases@),
            text_opts(lists@),
            bases@.len() as int,
        ),
{
    let ghost b = text::texts(bases@);
    let ghost l = text_opts(lists@);
    let mut out: Vec<String> = Vec::new();
    let mut i: usize = 0;
    assert(text::texts(out@) =~= all_libraries(b, l, 0));
    while i < bases.len()
        invariant
            i <= bases.len(),
            bases.len() == lists.len(),
            b == text::texts(bases@),
            l == text_opts(lists@),
            text::texts(out@) == all_libraries(b, l, i as int),
        decreases bases.len() - i,
    {
        let ghost before = out@;
        if let Some(raw) = &lists[i] {
            let mut named = parse_steam_library_paths(raw.as_str());
            let ghost added = named@;
            out.append(&mut named);
            assert(text::texts(out@) =~= text::texts(before) + text::texts(added));
        }
        let base = bases[i].clone();
        proof {
            text::lemma_texts_push(out@, base);
        }
        out.push(base);
        i = i + 1;
    }
    out
}

/// Where the game may be in the first `n` Steam libraries.
pub open spec fn root_candidates(libraries: Seq<Seq<char>>, n: int) -> Seq<Seq<char>>
    decreases n,
{
    if n <= 0 {
        Seq::empty()
    } else {
        let common = paths::joined(libraries[n - 1], "steamapps/common"@);
        root_candidates(libraries, n - 1).push(paths::joined(common, "Baldurs Gate 3"@)).push(
            paths::joined(common, "Baldur's Gate 3"@),
        )
    }
}

/// Where the game may be in the Steam libraries.
pub fn game_root_candidates(libraries: &Vec<String>) -> (out: Vec<String>)
    ensures
        text::texts(out@) == root_candidates(text::texts(libraries@), libraries@.len() as int),
{
    let ghost all = text::texts(libraries@);
    let mut out: Vec<String> = Vec::new();
    let mut i: usize = 0;
    assert(text::texts(out@) =~= root_candidates(all, 0));
    while i < libraries.len()
        invariant
            i <= libraries.len(),
            all == text::texts(libraries@),
            text::texts(out@) == root_candidates(all, i as int),
        decreases libraries.len() - i,
    {
        let common = join_path(libraries[i].as_str(), "steamapps/common");
        let first = join_path(common.as_str(), "Baldurs Gate 3");
        let second = join_path(common.as_str(), "Baldur's Gate 3");
        proof {
            text::lemma_texts_push(out@, first);
            text::lemma_texts_push(out@.push(first), second);
        }
        out.push(first);
        out.push(second);
        i = i + 1;
    }
    out
}

/// The first of the paths that exists.
pub open spec fn first_existing(candidates: Seq<Seq<char>>, existing: Seq<Seq<char>>) -> Option<
    Seq<char>,
>
    decreases candidates.len(),
{
    if candidates.len() == 0 {
        None
    } else if existing.contains(candidates[0]) {
        Some(candidates[0])
    } else {
        first_existing(candidates.drop_first(), existing)
    }
}

/// The game directory: the first candidate that exists.
pub fn find_game_root(candidates: &Vec<String>, existing: &[String]) -> (r: Option<String>)
    ensures
        text::text_opt(r) == first_existing(text::texts(candidates@), text::texts(existing@)),
{
    let ghost all = text::texts(candidates@);
    let mut i: usize = 0;
    assert(all.skip(0) =~= all);
    while i < candidates.len()
        invariant
            i <= candidates.len(),
            all == text::texts(candidates@),
            first_existing(all.skip(i as int), text::texts(existing@)) == first_existing(
                all,
                text::texts(existing@),
            ),
        decreases candidates.len() - i,
    {
        assert(all.skip(i as int)[0] == candidates@[i as int]@);
        assert(all.skip(i as int).drop_first() =~= all.skip(i + 1));
        if has_string(existing, candidates[i].as_str()) {
            return Some(candidates[i].clone());
        }
        i = i + 1;
    }
    None
}

/// Where the user data of the game may be below a home directory: of the native
/// game, or of the one that Proton runs.
pub open spec fn larian_places(home: Seq<char>) -> Seq<Seq<char>> {
    seq![
        paths::joined(paths::joined(home, ".local/share/Larian Studios"@), GAME_NAME@),
        paths::joined(
            paths::joined(
                paths::joined(
                    paths::joined(home, ".local/share/Steam/steamapps/compatdata"@),
                    STEAM_APP_ID@,
                ),
                "pfx/drive_c/users/steamuser/AppData/Local/Larian Studios"@,
            ),
            GAME_NAME@,
        ),
    ]
}

pub fn larian_candidates(home: &str) -> (out: Vec<String>)
    ensures
        text::texts(out@) == larian_places(home@),
{
    let studio = join_path(home, ".local/share/Larian Studios");
    let native = join_path(studio.as_str(), GAME_NAME);
    let compat = join_path(home, ".local/share/Steam/steamapps/compatdata");
    let game = join_path(compat.as_str(), STEAM_APP_ID);
    let user = join_path(
        game.as_str(),
        "pfx/drive_c/users/steamuser/AppData/Local/Larian Studios",
    );
    let proton = join_path(user.as_str(), GAME_NAME);
    let mut out: Vec<String> = Vec::new();
    out.push(native);
    out.push(proton);
    assert(text::texts(out@) =~= larian_places(home@));
    out
}

/// The user data directory: the native one if it exists, else the one of Proton.
pub fn find_larian_dir(home: &str, existing: &[String]) -> (r: Option<String>)
    ensures
        text::text_opt(r) == first_existing(larian_places(home@), text::texts(existing@)),
{
    let candidates = larian_candidates(home);
    find_game_root(&candidates, existing)
}

} // verus!
