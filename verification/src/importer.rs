//! What becomes of files that are imported.
use crate::calendar;
use crate::calendar::calendar_seconds;
use crate::deploy;
use crate::deploy::is_ignored_deploy_path;
use crate::import_scan;
use crate::import_scan::source_label_for_archive;
use crate::library;
use crate::library::{
    clean_source_label, max_i64, min_i64, normalize_times, resolve_times, InstallTarget, ModEntry,
    ModSource, ModuleInfo, PakInfo, TargetKind,
};
use crate::lists::copy_opt;
use crate::metadata::{JsonModInfo, ModMeta};
use crate::paths;
use crate::paths::{file_name, join_path};
use crate::payload::PayloadScan;
use crate::sigillink::{SigilLinkEntry, SigilLinkIndex, SIGILLINK_VERSION};
use crate::sorting;
use crate::sorting::sort_dedup;
use crate::text;
use crate::text::{concat2, eq_ignore_case, same_text};
use vstd::prelude::*;

verus! {

// ---------------------------------------------------------------------------
// Types
// ---------------------------------------------------------------------------

#[derive(Debug)]
pub struct ImportResult {
    pub batches: Vec<ImportBatch>,
    pub unrecognized: bool,
    pub failures: Vec<ImportFailure>,
}

#[derive(Debug)]
pub struct ImportSource {
    pub label: String,
}

#[derive(Debug)]
pub struct ImportBatch {
    pub source: ImportSource,
    pub mods: Vec<ImportMod>,
}

#[derive(Debug)]
pub struct ImportFailure {
    pub source: ImportSource,
    pub error: String,
}

/// A mod whose files wait to be taken into the library.
#[derive(Debug)]
pub struct ImportMod {
    pub entry: ModEntry,
    pub staging_root: Option<String>,
    pub sigillink: Option<SigilLinkIndex>,
}

#[derive(Debug)]
pub struct DirImportResult {
    pub mods: Vec<ImportMod>,
    pub unrecognized: bool,
}

/// When something was made and last changed, in seconds since 1970.
#[derive(Debug, Clone, Copy, PartialEq, Eq, Structural)]
pub struct SourceTimes {
    pub created_at: Option<i64>,
    pub modified_at: Option<i64>,
}

#[derive(Debug, Clone, Copy, PartialEq, Eq, Structural)]
pub enum ImportStage {
    Extracting,
    Indexing,
    Installing,
    Linking,
    Finalizing,
}

impl ImportStage {
    pub open spec fn place(self) -> int {
        match self {
            ImportStage::Extracting => 0,
            ImportStage::Indexing => 1,
            ImportStage::Installing => 2,
            ImportStage::Linking => 3,
            ImportStage::Finalizing => 4,
        }
    }

    pub open spec fn name(self) -> Seq<char> {
        match self {
            ImportStage::Extracting => "Extracting"@,
            ImportStage::Indexing => "Indexing"@,
            ImportStage::Installing => "Installing"@,
            ImportStage::Linking => "Linking (SigiLink Cache)"@,
            ImportStage::Finalizing => "Finalizing"@,
        }
    }

    pub fn index(self) -> (r: usize)
        ensures
            r == self.place(),
    {
        match self {
            ImportStage::Extracting => 0,
            ImportStage::Indexing => 1,
            ImportStage::Installing => 2,
            ImportStage::Linking => 3,
            ImportStage::Finalizing => 4,
        }
    }

    pub fn label(self) -> (r: &'static str)
        ensures
            r@ == self.name(),
    {
        match self {
            ImportStage::Extracting => "Extracting",
            ImportStage::Indexing => "Indexing",
            ImportStage::Installing => "Installing",
            ImportStage::Linking => "Linking (SigiLink Cache)",
            ImportStage::Finalizing => "Finalizing",
        }
    }
}

// ---------------------------------------------------------------------------
// Progress
// ---------------------------------------------------------------------------

/// How far copying has come, and when it was last told.
#[derive(Debug)]
pub struct CopyProgress {
    pub copied: usize,
    pub total: usize,
    pub offset: usize,
    /// In milliseconds.
    pub last_report: u64,
}

pub open spec fn at_least_one(n: usize) -> usize {
    if n == 0 {
        1
    } else {
        n
    }
}

pub open spec fn capped(a: int, b: int) -> int {
    if a <= b {
        a
    } else {
        b
    }
}

pub fn or_one(n: usize) -> (r: usize)
    ensures
        r == at_least_one(n),
{
    if n == 0 {
        1
    } else {
        n
    }
}

impl CopyProgress {
    pub fn new(total: usize, now: u64) -> (r: Self)
        ensures
            r == (CopyProgress { copied: 0, total: at_least_one(total), offset: 0, last_report: now }),
    {
        CopyProgress { copied: 0, total: or_one(total), offset: 0, last_report: now }
    }

    pub fn new_with_offset(total: usize, offset: usize, now: u64) -> (r: Self)
        ensures
            r == (CopyProgress { copied: 0, total: at_least_one(total), offset, last_report: now }),
    {
        CopyProgress { copied: 0, total: or_one(total), offset, last_report: now }
    }

    /// What is shown as done.
    pub open spec fn current(self) -> int {
        capped(capped(self.copied + self.offset, usize::MAX as int), self.total as int)
    }

    fn shown(&self) -> (r: usize)
        ensures
            r == self.current(),
    {
        let sum = self.copied.saturating_add(self.offset);
        if sum <= self.total {
            sum
        } else {
            self.total
        }
    }

    /// One file more is copied. Every fiftieth is told, and one whenever nothing was
    /// told for a while.
    pub fn bump(&mut self, force: bool, now: u64) -> (r: Option<usize>)
        ensures
            final(self).copied == capped(old(self).copied + 1, usize::MAX as int),
            final(self).total == old(self).total,
            final(self).offset == old(self).offset,
            r is Some <==> (force || final(self).copied % 50 == 0 || now - old(self).last_report
                >= 120),
            final(self).last_report == if r is Some {
                now
            } else {
                old(self).last_report
            },
            r matches Some(n) ==> n == final(self).current(),
    {
        self.copied = self.copied.saturating_add(1);
        if force || self.copied % 50 == 0 || (now >= self.last_report && now - self.last_report
            >= 120) {
            self.last_report = now;
            Some(self.shown())
        } else {
            None
        }
    }

    /// Several files more are copied at once.
    pub fn advance(&mut self, count: usize, now: u64) -> (r: Option<usize>)
        ensures
            final(self).copied == capped(old(self).copied + count, usize::MAX as int),
            final(self).total == old(self).total,
            final(self).offset == old(self).offset,
            r is Some <==> count > 0,
            final(self).last_report == if count > 0 {
                now
            } else {
                old(self).last_report
            },
            r matches Some(n) ==> n == final(self).current(),
    {
        if count == 0 {
            return None;
        }
        self.copied = self.copied.saturating_add(count);
        self.last_report = now;
        Some(self.shown())
    }
}

/// The bounds of a stage as they are told: a stage has at least one step, and no
/// more are done than there are.
pub fn clamp_stage(current: usize, total: usize) -> (r: (usize, usize))
    ensures
        r.1 == at_least_one(total),
        r.0 == capped(current as int, r.1 as int),
{
    let t = or_one(total);
    (
        if current <= t {
            current
        } else {
            t
        },
        t,
    )
}

// ---------------------------------------------------------------------------
// Times
// ---------------------------------------------------------------------------

pub open spec fn earliest(a: Option<i64>, b: Option<i64>) -> Option<i64> {
    match (a, b) {
        (Some(x), Some(y)) => Some(library::earlier(x, y)),
        (Some(x), None) => Some(x),
        (None, b) => b,
    }
}

pub open spec fn latest(a: Option<i64>, b: Option<i64>) -> Option<i64> {
    match (a, b) {
        (Some(x), Some(y)) => Some(library::later(x, y)),
        (Some(x), None) => Some(x),
        (None, b) => b,
    }
}

pub fn earliest_of(a: Option<i64>, b: Option<i64>) -> (r: Option<i64>)
    ensures
        r == earliest(a, b),
{
    match (a, b) {
        (Some(x), Some(y)) => Some(min_i64(x, y)),
        (Some(x), None) => Some(x),
        (None, b) => b,
    }
}

pub fn latest_of(a: Option<i64>, b: Option<i64>) -> (r: Option<i64>)
    ensures
        r == latest(a, b),
{
    match (a, b) {
        (Some(x), Some(y)) => Some(max_i64(x, y)),
        (Some(x), None) => Some(x),
        (None, b) => b,
    }
}

/// When the first of the first `n` files was made: a file that does not say counts
/// from its last change.
pub open spec fn first_created(files: Seq<SourceTimes>, n: int) -> Option<i64>
    decreases n,
{
    if n <= 0 {
        None
    } else {
        let f = files[n - 1];
        earliest(
            first_created(files, n - 1),
            if f.created_at is Some {
                f.created_at
            } else {
                f.modified_at
            },
        )
    }
}

/// When the last of the first `n` files was changed.
pub open spec fn last_modified(files: Seq<SourceTimes>, n: int) -> Option<i64>
    decreases n,
{
    if n <= 0 {
        None
    } else {
        latest(last_modified(files, n - 1), files[n - 1].modified_at)
    }
}

pub open spec fn in_order(created: Option<i64>, modified: Option<i64>) -> SourceTimes {
    let t = library::normalized_times(created, modified);
    SourceTimes { created_at: t.0, modified_at: t.1 }
}

/// The times of the files of a directory.
pub fn scan_dir_times(files: &[SourceTimes]) -> (r: SourceTimes)
    ensures
        r == in_order(
            first_created(files@, files@.len() as int),
            last_modified(files@, files@.len() as int),
        ),
{
    let mut created: Option<i64> = None;
    let mut modified: Option<i64> = None;
    let mut i: usize = 0;
    while i < files.len()
        invariant
            i <= files.len(),
            created == first_created(files@, i as int),
            modified == last_modified(files@, i as int),
        decreases files.len() - i,
    {
        let f = files[i];
        let made = if f.created_at.is_some() {
            f.created_at
        } else {
            f.modified_at
        };
        created = earliest_of(created, made);
        modified = latest_of(modified, f.modified_at);
        i = i + 1;
    }
    let (created_at, modified_at) = normalize_times(created, modified);
    SourceTimes { created_at, modified_at }
}

/// The earliest and the latest times of directories.
pub open spec fn merged_created(dirs: Seq<SourceTimes>, n: int) -> Option<i64>
    decreases n,
{
    if n <= 0 {
        None
    } else {
        earliest(merged_created(dirs, n - 1), dirs[n - 1].created_at)
    }
}

/// The times of the directories of an import together.
pub fn scan_payload_times(dirs: &[SourceTimes]) -> (r: SourceTimes)
    ensures
        r == in_order(
            merged_created(dirs@, dirs@.len() as int),
            last_modified(dirs@, dirs@.len() as int),
        ),
{
    let mut created: Option<i64> = None;
    let mut modified: Option<i64> = None;
    let mut i: usize = 0;
    while i < dirs.len()
        invariant
            i <= dirs.len(),
            created == merged_created(dirs@, i as int),
            modified == last_modified(dirs@, i as int),
        decreases dirs.len() - i,
    {
        created = earliest_of(created, dirs[i].created_at);
        modified = latest_of(modified, dirs[i].modified_at);
        i = i + 1;
    }
    let (created_at, modified_at) = normalize_times(created, modified);
    SourceTimes { created_at, modified_at }
}

/// The times, or others where they say nothing.
pub open spec fn or_times(times: SourceTimes, others: Option<SourceTimes>) -> SourceTimes {
    match others {
        Some(o) => if times.created_at is None && times.modified_at is None {
            o
        } else {
            times
        },
        None => times,
    }
}

fn pick_times(times: SourceTimes, others: Option<SourceTimes>) -> (r: SourceTimes)
    ensures
        r == or_times(times, others),
{
    match others {
        Some(o) => if times.created_at.is_none() && times.modified_at.is_none() {
            o
        } else {
            times
        },
        None => times,
    }
}

/// A time as archives state it.
#[derive(Debug, Clone, Copy)]
pub struct ZipTime {
    pub year: u16,
    pub month: u8,
    pub day: u8,
    pub hour: u8,
    pub minute: u8,
    pub second: u8,
}

/// A time of an archive in seconds since 1970.
pub fn zip_time_to_unix(t: ZipTime) -> (r: Option<i64>)
    ensures
        match r {
            Some(s) => calendar::utc_seconds(
                t.year as int,
                t.month as int,
                t.day as int,
                t.hour as int,
                t.minute as int,
                t.second as int,
            ) == Some(s as int),
            None => calendar::utc_seconds(
                t.year as int,
                t.month as int,
                t.day as int,
                t.hour as int,
                t.minute as int,
                t.second as int,
            ) is None,
        },
{
    calendar_seconds(t.year, t.month, t.day, t.hour, t.minute, t.second)
}

// ---------------------------------------------------------------------------
// Packages
// ---------------------------------------------------------------------------

/// What metadata says of a module; nothing without an id.
pub open spec fn meta_info(meta: ModMeta) -> Option<PakInfo> {
    match meta.uuid {
        Some(uuid) => {
            let folder = match (meta.folder, meta.name) {
                (Some(f), _) => f,
                (None, Some(n)) => n,
                (None, None) => uuid,
            };
            Some(
                PakInfo {
                    uuid,
                    name: match meta.name {
                        Some(n) => n,
                        None => folder,
                    },
                    folder,
                    version: match meta.version {
                        Some(v) => v,
                        None => 0,
                    },
                    md5: meta.md5,
                    publish_handle: meta.publish_handle,
                    author: meta.author,
                    description: meta.description,
                    module_type: meta.module_type,
                },
            )
        },
        None => None,
    }
}

pub fn pak_info_from_meta(meta: &ModMeta) -> (r: Option<PakInfo>)
    ensures
        r == meta_info(*meta),
{
    match &meta.uuid {
        Some(uuid) => {
            let folder = match (&meta.folder, &meta.name) {
                (Some(f), _) => f.clone(),
                (None, Some(n)) => n.clone(),
                (None, None) => uuid.clone(),
            };
            let name = match &meta.name {
                Some(n) => n.clone(),
                None => folder.clone(),
            };
            Some(
                PakInfo {
                    uuid: uuid.clone(),
                    name,
                    folder,
                    version: match meta.version {
                        Some(v) => v,
                        None => 0,
                    },
                    md5: copy_opt(&meta.md5),
                    publish_handle: meta.publish_handle,
                    author: copy_opt(&meta.author),
                    description: copy_opt(&meta.description),
                    module_type: copy_opt(&meta.module_type),
                },
            )
        },
        None => None,
    }
}

/// What is known of a package's module: what its description says, else what its
/// metadata does.
pub open spec fn module_or_meta(module: Option<ModuleInfo>, meta: ModMeta) -> Option<PakInfo> {
    match module {
        Some(m) => Some(
            PakInfo {
                uuid: m.uuid,
                name: m.name,
                folder: m.folder,
                version: m.version,
                md5: m.md5,
                publish_handle: None,
                author: m.author,
                description: m.description,
                module_type: m.module_type,
            },
        ),
        None => meta_info(meta),
    }
}

pub open spec fn is_text(v: Option<String>, t: Seq<char>) -> bool {
    v matches Some(x) && x@ == t
}

fn says(v: &Option<String>, t: &str) -> (r: bool)
    ensures
        r == is_text(*v, t@),
{
    match v {
        Some(x) => same_text(x.as_str(), t),
        None => false,
    }
}

/// Whether an entry of an information file is about the module.
pub open spec fn is_about(j: JsonModInfo, info: PakInfo) -> bool {
    is_text(j.uuid, info.uuid@) || is_text(j.folder, info.folder@) || is_text(j.name, info.name@)
}

fn speaks_of(j: &JsonModInfo, info: &PakInfo) -> (r: bool)
    ensures
        r == is_about(*j, *info),
{
    says(&j.uuid, info.uuid.as_str()) || says(&j.folder, info.folder.as_str()) || says(
        &j.name,
        info.name.as_str(),
    )
}

/// The creation time that the first entry about the module states, from `from` on.
pub open spec fn stated_created(json: Seq<JsonModInfo>, info: PakInfo, from: int) -> Option<i64>
    decreases json.len() - from,
{
    if from < 0 || from >= json.len() {
        None
    } else if is_about(json[from], info) && json[from].created_at is Some {
        json[from].created_at
    } else {
        stated_created(json, info, from + 1)
    }
}

/// What the first `n` entries say that the module needs.
pub open spec fn stated_dependencies(
    json: Seq<JsonModInfo>,
    info: PakInfo,
    n: int,
) -> Seq<Seq<char>>
    decreases n,
{
    if n <= 0 {
        Seq::empty()
    } else if is_about(json[n - 1], info) {
        stated_dependencies(json, info, n - 1) + text::texts(json[n - 1].dependencies@)
    } else {
        stated_dependencies(json, info, n - 1)
    }
}

/// All that is said to be needed, but for the mod itself.
pub open spec fn needed(
    meta: ModMeta,
    json: Seq<JsonModInfo>,
    info: PakInfo,
) -> Seq<Seq<char>> {
    (text::texts(meta.dependencies@) + stated_dependencies(json, info, json.len() as int)).filter(
        |d: Seq<char>| !text::same_ignoring_case(d, info.uuid@),
    )
}

fn find_created(json: &[JsonModInfo], info: &PakInfo) -> (r: Option<i64>)
    ensures
        r == stated_created(json@, *info, 0),
{
    let mut i: usize = 0;
    while i < json.len()
        invariant
            i <= json.len(),
            stated_created(json@, *info, 0) == stated_created(json@, *info, i as int),
        decreases json.len() - i,
    {
        if json[i].created_at.is_some() && speaks_of(&json[i], info) {
            return json[i].created_at;
        }
        i = i + 1;
    }
    None
}

fn find_needed(meta: &ModMeta, json: &[JsonModInfo], info: &PakInfo) -> (out: Vec<String>)
    ensures
        sorting::sorted_set_of(text::texts(out@), needed(*meta, json@, *info)),
{
    let mut all = crate::lists::copy_strings(meta.dependencies.as_slice());
    let ghost head = text::texts(meta.dependencies@);
    let mut i: usize = 0;
    assert(text::texts(all@) =~= head + stated_dependencies(json@, *info, 0));
    while i < json.len()
        invariant
            i <= json.len(),
            head == text::texts(meta.dependencies@),
            text::texts(all@) == head + stated_dependencies(json@, *info, i as int),
        decreases json.len() - i,
    {
        if speaks_of(&json[i], info) {
            let mut more = crate::lists::copy_strings(json[i].dependencies.as_slice());
            let ghost before = all@;
            let ghost added = more@;
            all.append(&mut more);
            assert(text::texts(all@) =~= text::texts(before) + text::texts(added));
            assert(text::texts(all@) =~= head + stated_dependencies(json@, *info, i + 1));
        }
        i = i + 1;
    }
    let ghost listed = text::texts(all@);
    let ghost keeps = |d: Seq<char>| !text::same_ignoring_case(d, info.uuid@);
    let mut kept: Vec<String> = Vec::new();
    let mut k: usize = 0;
    proof {
        crate::lists::lemma_filter_whole(listed, keeps);
        assert(text::texts(kept@) =~= listed.take(0).filter(keeps));
    }
    while k < all.len()
        invariant
            k <= all.len(),
            listed == text::texts(all@),
            keeps == (|d: Seq<char>| !text::same_ignoring_case(d, info.uuid@)),
            text::texts(kept@) == listed.take(k as int).filter(keeps),
        decreases all.len() - k,
    {
        proof {
            crate::lists::lemma_keep_item(listed, k as int, keeps);
            assert(listed[k as int] == all@[k as int]@);
        }
        if !eq_ignore_case(all[k].as_str(), info.uuid.as_str()) {
            let dep = all[k].clone();
            proof {
                text::lemma_texts_push(kept@, dep);
            }
            kept.push(dep);
        }
        k = k + 1;
    }
    proof {
        crate::lists::lemma_filter_whole(listed, keeps);
    }
    sort_dedup(kept.as_slice())
}

/// Whether the entry is that of a package of the module.
pub open spec fn is_pak_entry(
    e: ModEntry,
    info: PakInfo,
    meta: ModMeta,
    json: Seq<JsonModInfo>,
    label: Option<String>,
    times: SourceTimes,
    now: i64,
) -> bool {
    let created = match stated_created(json, info, 0) {
        Some(t) => Some(t),
        None => meta.created_at,
    };
    let resolved = library::resolved_times(created, times.created_at, times.modified_at);
    &&& e.id == info.uuid
    &&& e.name == info.name
    &&& e.created_at == resolved.0
    &&& e.modified_at == resolved.1
    &&& e.added_at == now
    &&& e.targets@.len() == 1
    &&& e.targets@[0] matches InstallTarget::Pak { file, info: i } && file@ == info.folder@
        + ".pak"@ && i == info
    &&& e.target_overrides@.len() == 0
    &&& e.source_label == label
    &&& e.source == ModSource::Managed
    &&& sorting::sorted_set_of(text::texts(e.dependencies@), needed(meta, json, info))
}

/// The mod that a package holds. A package whose module is not known replaces files
/// of the game, and is no mod of this kind.
pub fn import_single_pak(
    module: Option<ModuleInfo>,
    meta: &ModMeta,
    json_mods: &[JsonModInfo],
    source_label: &Option<String>,
    times: SourceTimes,
    fallback: Option<SourceTimes>,
    now: i64,
) -> (r: Option<ModEntry>)
    ensures
        match r {
            Some(e) => module_or_meta(module, *meta) matches Some(info) && is_pak_entry(
                e,
                info,
                *meta,
                json_mods@,
                *source_label,
                or_times(times, fallback),
                now,
            ),
            None => module_or_meta(module, *meta) is None,
        },
{
    let known = match module {
        Some(m) => Some(PakInfo::from_module_info(m)),
        None => pak_info_from_meta(meta),
    };
    match known {
        Some(info) => {
            let stated = find_created(json_mods, &info);
            let primary = match stated {
                Some(t) => Some(t),
                None => meta.created_at,
            };
            let dependencies = find_needed(meta, json_mods, &info);
            let t = pick_times(times, fallback);
            let (created_at, modified_at) = resolve_times(primary, t.created_at, t.modified_at);
            let id = info.uuid.clone();
            let name = info.name.clone();
            let file = concat2(info.folder.as_str(), ".pak");
            let mut targets: Vec<InstallTarget> = Vec::new();
            targets.push(InstallTarget::Pak { file, info });
            Some(
                ModEntry {
                    id,
                    name,
                    created_at,
                    modified_at,
                    added_at: now,
                    targets,
                    target_overrides: Vec::new(),
                    source_label: copy_opt(source_label),
                    source: ModSource::Managed,
                    dependencies,
                },
            )
        },
        None => None,
    }
}

/// The name of a package that replaces files of the game.
pub open spec fn override_name(path: Seq<char>, label: Option<String>) -> Seq<char> {
    "Override Pak: "@ + match label {
        Some(l) => l@,
        None => match import_scan::file_stem(path) {
            Some(s) => s,
            None => "Override Pak"@,
        },
    }
}

/// The file name that such a package is kept under.
pub open spec fn override_file(path: Seq<char>) -> Seq<char> {
    match paths::base_name(path) {
        Some(n) => n,
        None => "override.pak"@,
    }
}

pub fn override_file_name(path: &str) -> (r: String)
    ensures
        r@ == override_file(path@),
{
    match file_name(path) {
        Some(n) => n,
        None => "override.pak".to_owned(),
    }
}

/// The mod for a package that replaces files of the game.
pub fn import_override_pak(
    path: &str,
    id: String,
    source_label: &Option<String>,
    times: SourceTimes,
    fallback: Option<SourceTimes>,
    now: i64,
) -> (e: ModEntry)
    ensures
        ({
            let t = or_times(times, fallback);
            let resolved = library::resolved_times(None, t.created_at, t.modified_at);
            &&& e.id == id
            &&& e.name@ == override_name(path@, *source_label)
            &&& e.created_at == resolved.0
            &&& e.modified_at == resolved.1
            &&& e.added_at == now
            &&& e.targets@.len() == 1
            &&& e.targets@[0] matches InstallTarget::Data { dir } && dir@ == "Data"@
            &&& e.target_overrides@.len() == 0
            &&& e.source_label == *source_label
            &&& e.source == ModSource::Managed
            &&& e.dependencies@.len() == 0
        }),
{
    let t = pick_times(times, fallback);
    let (created_at, modified_at) = resolve_times(None, t.created_at, t.modified_at);
    let name = match source_label {
        Some(l) => concat2("Override Pak: ", l.as_str()),
        None => match source_label_for_archive(path) {
            Some(s) => concat2("Override Pak: ", s.as_str()),
            None => concat2("Override Pak: ", "Override Pak"),
        },
    };
    let mut targets: Vec<InstallTarget> = Vec::new();
    targets.push(InstallTarget::Data { dir: "Data".to_owned() });
    ModEntry {
        id,
        name,
        created_at,
        modified_at,
        added_at: now,
        targets,
        target_overrides: Vec::new(),
        source_label: copy_opt(source_label),
        source: ModSource::Managed,
        dependencies: Vec::new(),
    }
}

// ---------------------------------------------------------------------------
// Loose files
// ---------------------------------------------------------------------------

/// A directory that is copied into the library.
#[derive(Debug)]
pub struct DirCopy {
    pub source: String,
    pub dest: String,
}

pub open spec fn copies(list: Seq<DirCopy>) -> Seq<(Seq<char>, Seq<char>)> {
    Seq::new(list.len(), |i: int| (list[i].source@, list[i].dest@))
}

pub open spec fn one_copy(source: Seq<char>, dest: Seq<char>) -> Seq<(Seq<char>, Seq<char>)> {
    seq![(source, dest)]
}

/// The directories of an import, and where each is copied to. Files for `Public`
/// count as generated, but only where there are none.
pub open spec fn copies_of(scan: PayloadScan, root: Seq<char>) -> Seq<(Seq<char>, Seq<char>)> {
    let data = match scan.data_dir {
        Some(d) => one_copy(d@, paths::joined(root, "Data"@)),
        None => Seq::empty(),
    };
    let generated = match (scan.generated_dir, scan.public_dir) {
        (Some(d), _) => one_copy(d@, paths::joined(root, "Generated"@)),
        (None, Some(d)) => one_copy(
            d@,
            paths::joined(paths::joined(root, "Generated"@), "Public"@),
        ),
        (None, None) => Seq::empty(),
    };
    let bin = match scan.bin_dir {
        Some(d) => one_copy(d@, paths::joined(root, "bin"@)),
        None => Seq::empty(),
    };
    data + generated + bin
}

fn push_copy(out: &mut Vec<DirCopy>, source: &String, dest: String)
    ensures
        copies(final(out)@) == copies(old(out)@) + one_copy(source@, dest@),
{
    out.push(DirCopy { source: source.clone(), dest });
    assert(copies(out@) =~= copies(old(out)@) + one_copy(source@, dest@));
}

pub fn loose_copies(scan: &PayloadScan, staging_root: &str) -> (out: Vec<DirCopy>)
    ensures
        copies(out@) == copies_of(*scan, staging_root@),
{
    let mut out: Vec<DirCopy> = Vec::new();
    assert(copies(out@) =~= Seq::<(Seq<char>, Seq<char>)>::empty());
    if let Some(d) = &scan.data_dir {
        push_copy(&mut out, d, join_path(staging_root, "Data"));
    }
    if let Some(d) = &scan.generated_dir {
        push_copy(&mut out, d, join_path(staging_root, "Generated"));
    } else if let Some(d) = &scan.public_dir {
        let outer = join_path(staging_root, "Generated");
        push_copy(&mut out, d, join_path(outer.as_str(), "Public"));
    }
    if let Some(d) = &scan.bin_dir {
        push_copy(&mut out, d, join_path(staging_root, "bin"));
    }
    assert(copies(out@) =~= copies_of(*scan, staging_root@));
    out
}

/// The kinds of a mod's loose targets, and their directories.
pub open spec fn dirs_of(targets: Seq<InstallTarget>) -> Seq<(TargetKind, Option<Seq<char>>)> {
    Seq::new(targets.len(), |i: int| (targets[i].kind_of(), deploy::loose_dir(targets[i])))
}

pub open spec fn dirs_wanted(scan: PayloadScan) -> Seq<(TargetKind, Option<Seq<char>>)> {
    let data = if scan.data_dir is Some {
        seq![(TargetKind::Data, Some("Data"@))]
    } else {
        Seq::empty()
    };
    let generated = if scan.generated_dir is Some || scan.public_dir is Some {
        seq![(TargetKind::Generated, Some("Generated"@))]
    } else {
        Seq::empty()
    };
    let bin = if scan.bin_dir is Some {
        seq![(TargetKind::Bin, Some("bin"@))]
    } else {
        Seq::empty()
    };
    data + generated + bin
}

fn loose_targets(scan: &PayloadScan) -> (out: Vec<InstallTarget>)
    ensures
        dirs_of(out@) == dirs_wanted(*scan),
{
    let mut out: Vec<InstallTarget> = Vec::new();
    if scan.data_dir.is_some() {
        out.push(InstallTarget::Data { dir: "Data".to_owned() });
    }
    if scan.generated_dir.is_some() || scan.public_dir.is_some() {
        out.push(InstallTarget::Generated { dir: "Generated".to_owned() });
    }
    if scan.bin_dir.is_some() {
        out.push(InstallTarget::Bin { dir: "bin".to_owned() });
    }
    assert(dirs_of(out@) =~= dirs_wanted(*scan));
    out
}

/// The name of a mod of loose files, before it is tidied.
pub open spec fn raw_name(path: Seq<char>, label: Option<String>) -> Seq<char> {
    match label {
        Some(l) => l@,
        None => match paths::base_name(path) {
            Some(n) => n,
            None => "Loose Files"@,
        },
    }
}

pub open spec fn loose_name(path: Seq<char>, label: Option<String>) -> Seq<char> {
    let cleaned = library::cleaned_label(raw_name(path, label));
    if cleaned.len() == 0 {
        raw_name(path, label)
    } else {
        cleaned
    }
}

/// The mod for loose files. Where the files say nothing of their times, those of
/// the archive count, else those of the directory.
pub fn import_loose(
    path: &str,
    id: String,
    scan: &PayloadScan,
    source_label: &Option<String>,
    times: SourceTimes,
    source_times: Option<SourceTimes>,
    own_times: SourceTimes,
    meta_created: Option<i64>,
    now: i64,
) -> (e: ModEntry)
    ensures
        ({
            let t = or_times(
                times,
                Some(
                    match source_times {
                        Some(s) => s,
                        None => own_times,
                    },
                ),
            );
            let resolved = library::resolved_times(meta_created, t.created_at, t.modified_at);
            &&& e.id == id
            &&& e.name@ == loose_name(path@, *source_label)
            &&& e.created_at == resolved.0
            &&& e.modified_at == resolved.1
            &&& e.added_at == now
            &&& dirs_of(e.targets@) == dirs_wanted(*scan)
            &&& e.target_overrides@.len() == 0
            &&& e.source_label == *source_label
            &&& e.source == ModSource::Managed
            &&& e.dependencies@.len() == 0
        }),
{
    let raw = match source_label {
        Some(l) => l.clone(),
        None => match file_name(path) {
            Some(n) => n,
            None => "Loose Files".to_owned(),
        },
    };
    let cleaned = clean_source_label(raw.as_str());
    let name = if cleaned.as_str().is_empty() {
        raw
    } else {
        cleaned
    };
    let others = match source_times {
        Some(s) => s,
        None => own_times,
    };
    let t = pick_times(times, Some(others));
    let (created_at, modified_at) = resolve_times(meta_created, t.created_at, t.modified_at);
    ModEntry {
        id,
        name,
        created_at,
        modified_at,
        added_at: now,
        targets: loose_targets(scan),
        target_overrides: Vec::new(),
        source_label: copy_opt(source_label),
        source: ModSource::Managed,
        dependencies: Vec::new(),
    }
}

/// How many of the files below a directory are copied.
pub fn count_copy_files(root: &str, files: &Vec<String>) -> (r: usize)
    ensures
        r == deploy::walked_files(root@, text::texts(files@)).len(),
{
    let kept = deploy::collect_target_files(root, files);
    assert(text::texts(kept@).len() == kept.len());
    kept.len()
}

/// How many loose files an import has, from the numbers of its directories.
pub fn count_loose_files(
    scan: &PayloadScan,
    in_data: usize,
    in_generated: usize,
    in_public: usize,
    in_bin: usize,
) -> (r: usize)
    ensures
        r == capped(
            (if scan.data_dir is Some {
                in_data as int
            } else {
                0
            }) + (if scan.generated_dir is Some {
                in_generated as int
            } else if scan.public_dir is Some {
                in_public as int
            } else {
                0
            }) + (if scan.bin_dir is Some {
                in_bin as int
            } else {
                0
            }),
            usize::MAX as int,
        ),
{
    let mut total: usize = 0;
    if scan.data_dir.is_some() {
        total = total.saturating_add(in_data);
    }
    if scan.generated_dir.is_some() {
        total = total.saturating_add(in_generated);
    } else if scan.public_dir.is_some() {
        total = total.saturating_add(in_public);
    }
    if scan.bin_dir.is_some() {
        total = total.saturating_add(in_bin);
    }
    total
}

/// A file below a directory, and its size.
#[derive(Debug)]
pub struct SizedFile {
    pub path: String,
    pub size: u64,
}

/// The files found in a target's directory.
#[derive(Debug)]
pub struct TargetFiles {
    pub root: String,
    pub kind: TargetKind,
    pub files: Vec<SizedFile>,
}

#[verifier::ext_equal]
pub struct LinkView {
    pub kind: TargetKind,
    pub path: Seq<char>,
    pub size: u64,
}

pub open spec fn link_views(list: Seq<SigilLinkEntry>) -> Seq<LinkView> {
    Seq::new(
        list.len(),
        |i: int|
            LinkView { kind: list[i].kind, path: list[i].relative_path@, size: list[i].size },
    )
}

/// Whether a file of a target is listed.
pub open spec fn is_listed(t: TargetFiles, f: SizedFile) -> bool {
    !deploy::is_ignored(paths::joined(t.root@, f.path@))
}

/// The listed files among the first `n` of a target.
pub open spec fn links_in(t: TargetFiles, n: int) -> Seq<LinkView>
    decreases n,
{
    if n <= 0 {
        Seq::empty()
    } else {
        let f = t.files@[n - 1];
        if is_listed(t, f) {
            links_in(t, n - 1).push(LinkView { kind: t.kind, path: f.path@, size: f.size })
        } else {
            links_in(t, n - 1)
        }
    }
}

/// The listed files of the first `n` targets.
pub open spec fn links_of_all(list: Seq<TargetFiles>, n: int) -> Seq<LinkView>
    decreases n,
{
    if n <= 0 {
        Seq::empty()
    } else {
        links_of_all(list, n - 1) + links_in(list[n - 1], list[n - 1].files@.len() as int)
    }
}

pub open spec fn total_size(list: Seq<LinkView>) -> nat
    decreases list.len(),
{
    if list.len() == 0 {
        0
    } else {
        total_size(list.drop_last()) + list.last().size as nat
    }
}

pub open spec fn capped_u64(n: int) -> int {
    if n <= u64::MAX {
        n
    } else {
        u64::MAX as int
    }
}

/// The list of a mod's loose files.
pub fn build_sigillink_index(list: &Vec<TargetFiles>) -> (r: SigilLinkIndex)
    ensures
        r.version == SIGILLINK_VERSION,
        link_views(r.entries@) == links_of_all(list@, list@.len() as int),
        r.total_bytes == capped_u64(total_size(link_views(r.entries@)) as int),
{
    let mut entries: Vec<SigilLinkEntry> = Vec::new();
    let mut total: u64 = 0;
    let mut i: usize = 0;
    assert(link_views(entries@) =~= links_of_all(list@, 0));
    while i < list.len()
        invariant
            i <= list.len(),
            link_views(entries@) == links_of_all(list@, i as int),
            total == capped_u64(total_size(link_views(entries@)) as int),
        decreases list.len() - i,
    {
        let t = &list[i];
        let ghost head = link_views(entries@);
        let mut j: usize = 0;
        assert(head + links_in(*t, 0) =~= head);
        while j < t.files.len()
            invariant
                j <= t.files.len(),
                link_views(entries@) == head + links_in(*t, j as int),
                total == capped_u64(total_size(link_views(entries@)) as int),
            decreases t.files.len() - j,
        {
            let f = &t.files[j];
            let whole = join_path(t.root.as_str(), f.path.as_str());
            if !is_ignored_deploy_path(whole.as_str()) {
                let ghost before = link_views(entries@);
                let ghost item = LinkView { kind: t.kind, path: f.path@, size: f.size };
                entries.push(
                    SigilLinkEntry { kind: t.kind, relative_path: f.path.clone(), size: f.size },
                );
                total = total.saturating_add(f.size);
                proof {
                    assert(link_views(entries@) =~= before.push(item));
                    assert(before.push(item).drop_last() =~= before);
                    assert(link_views(entries@) =~= head + links_in(*t, j + 1));
                }
            }
            j = j + 1;
        }
        i = i + 1;
    }
    SigilLinkIndex { version: SIGILLINK_VERSION, entries, total_bytes: total }
}

/// The files beside the payload that are kept with a mod, and where.
pub fn persist_payload_metadata(scan: &PayloadScan, mod_root: &str) -> (out: Vec<DirCopy>)
    ensures
        ({
            let root = paths::joined(mod_root@, "_meta"@);
            let meta = match scan.meta_file {
                Some(f) => one_copy(f@, paths::joined(root, "meta.lsx"@)),
                None => Seq::empty(),
            };
            let info = match scan.info_json {
                Some(f) => one_copy(
                    f@,
                    paths::joined(
                        root,
                        match paths::base_name(f@) {
                            Some(n) => n,
                            None => "info.json"@,
                        },
                    ),
                ),
                None => Seq::empty(),
            };
            copies(out@) == meta + info
        }),
{
    let root = join_path(mod_root, "_meta");
    let mut out: Vec<DirCopy> = Vec::new();
    assert(copies(out@) =~= Seq::<(Seq<char>, Seq<char>)>::empty());
    if let Some(f) = &scan.meta_file {
        push_copy(&mut out, f, join_path(root.as_str(), "meta.lsx"));
    }
    if let Some(f) = &scan.info_json {
        let name = match file_name(f.as_str()) {
            Some(n) => n,
            None => "info.json".to_owned(),
        };
        push_copy(&mut out, f, join_path(root.as_str(), name.as_str()));
    }
    out
}

/// The text with everything but letters, digits, `-` and `_` made `_`.
pub open spec fn safe_label(s: Seq<char>) -> Seq<char> {
    Seq::new(
        s.len(),
        |i: int|
            if text::is_alnum(s[i]) || s[i] == '-' || s[i] == '_' {
                s[i]
            } else {
                '_'
            },
    )
}

pub fn sanitize_stage_label(value: &str) -> (r: String)
    ensures
        r@ == safe_label(value@),
{
    let v = text::to_chars(value);
    let mut out: Vec<char> = Vec::new();
    let mut i: usize = 0;
    while i < v.len()
        invariant
            i <= v.len(),
            v@ == value@,
            out@ == safe_label(value@).take(i as int),
        decreases v.len() - i,
    {
        let c = v[i];
        if text::alnum_char(c) || c == '-' || c == '_' {
            out.push(c);
        } else {
            out.push('_');
        }
        i = i + 1;
        assert(safe_label(value@).take(i as int).drop_last() =~= safe_label(value@).take(i - 1));
    }
    assert(safe_label(value@).take(i as int) =~= safe_label(value@));
    text::from_chars(&out)
}

} // verus!
