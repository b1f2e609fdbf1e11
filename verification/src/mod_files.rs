//! The files of mods: where they are kept, and what becomes of them.
use crate::actions;
use crate::actions::{log, no_actions, say, Action, ActionView, LogLevel};
use crate::fingerprint;
use crate::fingerprint::unknown_id;
use crate::library;
use crate::library::{normalize_times, InstallTarget, ModEntry, ModSource};
use crate::paths;
use crate::paths::join_path;
use crate::text;
use crate::text::{concat2, concat3, join_texts, show_u64};
use vstd::prelude::*;

verus! {

/// The entry of a mod whose layout is not known, which has nothing to deploy. The times
/// are those of its file, `seconds` says to the second when it was changed.
pub fn build_unknown_entry(
    path: &str,
    label: &str,
    created: Option<i64>,
    modified: Option<i64>,
    seconds: Option<u64>,
    now: i64,
) -> (m: ModEntry)
    ensures
        m.id@ == "unknown"@ + "-"@ + fingerprint::blake3_digest(
            fingerprint::path_bytes(path@, seconds),
        ),
        m.name@ == label@,
        (m.created_at, m.modified_at) == library::normalized_times(created, modified),
        m.added_at == now,
        m.targets@.len() == 0,
        m.target_overrides@.len() == 0,
        text::text_opt(m.source_label) == Some(label@),
        m.source == ModSource::Managed,
        m.dependencies@.len() == 0,
{
    let (created_at, modified_at) = normalize_times(created, modified);
    ModEntry {
        id: unknown_id(path, seconds),
        name: label.to_owned(),
        created_at,
        modified_at,
        added_at: now,
        targets: Vec::new(),
        target_overrides: Vec::new(),
        source_label: Some(label.to_owned()),
        source: ModSource::Managed,
        dependencies: Vec::new(),
    }
}

/// The package of the first of the targets that has one.
pub open spec fn first_pak(targets: Seq<InstallTarget>, n: int) -> Option<Seq<char>>
    decreases n,
{
    if n <= 0 {
        None
    } else {
        match first_pak(targets, n - 1) {
            Some(f) => Some(f),
            None => match targets[n - 1] {
                InstallTarget::Pak { file, .. } => Some(file@),
                _ => None,
            },
        }
    }
}

/// The name of the package of a mod, if it has one.
pub fn native_pak_file(m: &ModEntry) -> (r: Option<String>)
    ensures
        text::text_opt(r) == first_pak(m.targets@, m.targets@.len() as int),
{
    let mut i: usize = 0;
    while i < m.targets.len()
        invariant
            i <= m.targets.len(),
            first_pak(m.targets@, i as int) is None,
        decreases m.targets.len() - i,
    {
        if let InstallTarget::Pak { file, .. } = &m.targets[i] {
            proof {
                lemma_first_pak(m.targets@, i + 1, m.targets@.len() as int);
            }
            return Some(file.clone());
        }
        i = i + 1;
    }
    None
}

proof fn lemma_first_pak(targets: Seq<InstallTarget>, k: int, n: int)
    requires
        k <= n,
        first_pak(targets, k) is Some,
    ensures
        first_pak(targets, n) == first_pak(targets, k),
    decreases n,
{
    if k < n && n > 0 {
        lemma_first_pak(targets, k, n - 1);
    }
}

/// What came of removing the package of a mod of the game.
pub enum NativeFileRemoval {
    /// It is not known where the game keeps its mods.
    NoPaths(String),
    NoPak,
    NotFound(String),
    Failed(String),
    Removed(String),
}

/// What is said of it.
pub fn say_native_file_removal(r: &NativeFileRemoval) -> (out: Vec<Action>)
    ensures
        actions::action_views(out@) == seq![
            match *r {
                NativeFileRemoval::NoPaths(error) => ActionView::Log(
                    LogLevel::Warn,
                    "Native mod file remove skipped: "@ + error@,
                ),
                NativeFileRemoval::NoPak => ActionView::Log(
                    LogLevel::Warn,
                    "Native mod file remove skipped: missing pak info"@,
                ),
                NativeFileRemoval::NotFound(file) => ActionView::Log(
                    LogLevel::Warn,
                    "Native mod file not found in Mods folder: "@ + file@,
                ),
                NativeFileRemoval::Failed(error) => ActionView::Log(
                    LogLevel::Warn,
                    "Native mod file remove failed: "@ + error@,
                ),
                NativeFileRemoval::Removed(file) => ActionView::Log(
                    LogLevel::Info,
                    "Native mod file removed: "@ + file@,
                ),
            },
        ],
{
    let mut out = no_actions();
    let (level, line) = match r {
        NativeFileRemoval::NoPaths(error) => (
            LogLevel::Warn,
            concat2("Native mod file remove skipped: ", error.as_str()),
        ),
        NativeFileRemoval::NoPak => (
            LogLevel::Warn,
            "Native mod file remove skipped: missing pak info".to_owned(),
        ),
        NativeFileRemoval::NotFound(file) => (
            LogLevel::Warn,
            concat2("Native mod file not found in Mods folder: ", file.as_str()),
        ),
        NativeFileRemoval::Failed(error) => (
            LogLevel::Warn,
            concat2("Native mod file remove failed: ", error.as_str()),
        ),
        NativeFileRemoval::Removed(file) => (
            LogLevel::Info,
            concat2("Native mod file removed: ", file.as_str()),
        ),
    };
    log(&mut out, level, line.as_str());
    assert(actions::action_views(out@) =~= seq![ActionView::Log(level, line@)]);
    out
}

/// Where the manager keeps the files of a mod.
pub fn mod_root(data_dir: &str, id: &str) -> (r: String)
    ensures
        r@ == paths::joined(paths::joined(data_dir@, "mods"@), id@),
{
    join_path(join_path(data_dir, "mods").as_str(), id)
}

/// Where the files of a mod go that is removed.
pub fn trash_place(data_dir: &str, id: &str, stamp: u64) -> (r: String)
    ensures
        r@ == paths::joined(
            paths::joined(data_dir@, "trash"@),
            id@ + "-"@ + text::decimal(stamp as nat),
        ),
{
    let name = concat3(id, "-", show_u64(stamp).as_str());
    join_path(join_path(data_dir, "trash").as_str(), name.as_str())
}

/// What is said once something was handed to another program, or once none would take it.
pub open spec fn open_says(label: Seq<char>, opened: bool, errors: Seq<Seq<char>>) -> Seq<
    ActionView,
> {
    if opened {
        seq![ActionView::Status("Opened "@ + label)]
    } else {
        seq![
            ActionView::Status("Failed to open "@ + label),
            ActionView::Log(
                LogLevel::Warn,
                if errors.len() == 0 {
                    "Failed to open "@ + label
                } else {
                    "Failed to open "@ + label + ": "@ + text::join(errors, "; "@)
                },
            ),
        ]
    }
}

pub fn say_opened(label: &str, opened: bool, errors: &Vec<String>) -> (out: Vec<Action>)
    ensures
        actions::action_views(out@) == open_says(label@, opened, text::texts(errors@)),
{
    let mut out = no_actions();
    assert(text::texts(errors@).len() == errors@.len());
    if opened {
        say(&mut out, concat2("Opened ", label).as_str());
    } else {
        let mut line = concat2("Failed to open ", label);
        say(&mut out, line.as_str());
        if !errors.is_empty() {
            line.append(": ");
            line.append(join_texts(errors, "; ").as_str());
        }
        log(&mut out, LogLevel::Warn, line.as_str());
    }
    assert(actions::action_views(out@) =~= open_says(label@, opened, text::texts(errors@)));
    out
}

} // verus!
