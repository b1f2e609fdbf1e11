//! What a backup says of itself.
use crate::config::GameConfig;
use crate::library::Library;
use crate::lists::copy_opt;
use crate::paths;
use crate::paths::join_path;
use crate::text;
use crate::text::show_u64;
use vstd::prelude::*;

verus! {

#[derive(Debug)]
pub struct BackupMeta {
    pub timestamp: u64,
    pub reason: Option<String>,
    pub game: String,
    pub profile: String,
}

/// The place of the last backup.
#[derive(Debug)]
pub struct LastBackup {
    pub path: String,
    pub timestamp: u64,
}

/// Where a backup goes, what it says of itself, and what is kept of it.
#[derive(Debug)]
pub struct BackupPlan {
    pub root: String,
    pub dir: String,
    pub meta: BackupMeta,
    pub last: LastBackup,
}

/// Plans a backup at a time.
pub fn create_backup(
    config: &GameConfig,
    library: &Library,
    stamp: u64,
    reason: &Option<String>,
) -> (r: BackupPlan)
    ensures
        r.root@ == paths::joined(config.data_dir@, "backups"@),
        r.dir@ == paths::joined(r.root@, "backup-"@ + text::decimal(stamp as nat)),
        r.meta.timestamp == stamp,
        r.meta.reason == *reason,
        r.meta.game == config.game_name,
        r.meta.profile == library.active_profile,
        r.last.path == r.dir,
        r.last.timestamp == stamp,
{
    let root = join_path(config.data_dir.as_str(), "backups");
    let shown = show_u64(stamp);
    let name = text::concat2("backup-", shown.as_str());
    let dir = join_path(root.as_str(), name.as_str());
    let last = LastBackup { path: dir.clone(), timestamp: stamp };
    BackupPlan {
        root,
        dir,
        meta: BackupMeta {
            timestamp: stamp,
            reason: copy_opt(reason),
            game: config.game_name.clone(),
            profile: library.active_profile.clone(),
        },
        last,
    }
}

/// The directory of the last backup, if one is known and still there.
pub fn load_last_backup(last: Option<LastBackup>, is_there: bool) -> (r: Option<String>)
    ensures
        r == match last {
            Some(l) => if is_there {
                Some(l.path)
            } else {
                None
            },
            None => None,
        },
{
    match last {
        Some(l) => if is_there {
            Some(l.path)
        } else {
            None
        },
        None => None,
    }
}

} // verus!
