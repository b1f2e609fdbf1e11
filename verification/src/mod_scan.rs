//! What a mod brings, read for a ranking.
use crate::importer;
use crate::importer::{earliest_of, SizedFile};
use crate::lists::copy_strings;
use crate::library;
use crate::library::{InstallTarget, ModEntry, ModSource, TargetKind};
use crate::metadata::ModMeta;
use crate::pak_index;
use crate::pak_index::{normalize_path, scan_pak_index, FileEntry, PakError};
use crate::paths;
use crate::paths::{join_path, split_components};
use crate::rank_items;
use crate::rank_items::{find_group, ModScan};
use crate::rank_order::RankGroup;
use crate::sorting::has_string;
use crate::text;
use crate::text::{concat2, concat3, eq_ignore_case, same_text, show_u64};
use vstd::prelude::*;

verus! {

// ---------------------------------------------------------------------------
// Packages
// ---------------------------------------------------------------------------

/// Where the manager keeps a file of a mod.
pub open spec fn kept_place(data_dir: Seq<char>, id: Seq<char>, file: Seq<char>) -> Seq<char> {
    paths::joined(paths::joined(paths::joined(data_dir, "mods"@), id), file)
}

/// The list with the packages of one target. `there` are the files that are there.
pub open spec fn with_pak(
    list: Seq<Seq<char>>,
    m: ModEntry,
    t: InstallTarget,
    data_dir: Seq<char>,
    game_dir: Seq<char>,
    there: Seq<Seq<char>>,
) -> Seq<Seq<char>> {
    match t {
        InstallTarget::Pak { file, info } => if m.source == ModSource::Native {
            let by_folder = paths::joined(game_dir, info.folder@ + ".pak"@);
            let by_file = paths::joined(game_dir, file@);
            let first = if there.contains(by_folder) {
                list.push(by_folder)
            } else {
                list
            };
            if there.contains(by_file) && !first.contains(by_file) {
                first.push(by_file)
            } else {
                first
            }
        } else {
            list.push(kept_place(data_dir, m.id@, file@))
        },
        _ => list,
    }
}

/// The packages of the first `n` targets.
pub open spec fn paks_of(
    m: ModEntry,
    data_dir: Seq<char>,
    game_dir: Seq<char>,
    there: Seq<Seq<char>>,
    n: int,
) -> Seq<Seq<char>>
    decreases n,
{
    if n <= 0 {
        Seq::empty()
    } else {
        with_pak(
            paks_of(m, data_dir, game_dir, there, n - 1),
            m,
            m.targets@[n - 1],
            data_dir,
            game_dir,
            there,
        )
    }
}

/// The packages of a mod; for a mod of the game of which none is there, the one that was
/// found by what the packages say.
pub open spec fn paks(
    m: ModEntry,
    data_dir: Seq<char>,
    game_dir: Seq<char>,
    there: Seq<Seq<char>>,
    resolved: Option<Seq<char>>,
) -> Seq<Seq<char>> {
    let found = paks_of(m, data_dir, game_dir, there, m.targets@.len() as int);
    match resolved {
        Some(p) => if found.len() == 0 && m.source == ModSource::Native && library::targets_have(
            m.targets@,
            TargetKind::Pak,
        ) {
            seq![p]
        } else {
            found
        },
        None => found,
    }
}

fn push_path(out: &mut Vec<String>, path: String)
    ensures
        text::texts(final(out)@) == text::texts(old(out)@).push(path@),
{
    proof {
        text::lemma_texts_push(out@, path);
    }
    out.push(path);
}

/// The packages of a mod. `there` are the files, among those that may be its packages,
/// that are there.
pub fn collect_pak_paths(
    m: &ModEntry,
    data_dir: &str,
    game_dir: &str,
    there: &Vec<String>,
    resolved: Option<String>,
) -> (out: Vec<String>)
    ensures
        text::texts(out@) == paks(
            *m,
            data_dir@,
            game_dir@,
            text::texts(there@),
            text::text_opt(resolved),
        ),
{
    let native = m.is_native();
    let mut out: Vec<String> = Vec::new();
    assert(text::texts(out@) =~= Seq::<Seq<char>>::empty());
    let mut i: usize = 0;
    while i < m.targets.len()
        invariant
            i <= m.targets.len(),
            native == (m.source == ModSource::Native),
            text::texts(out@) == paks_of(
                *m,
                data_dir@,
                game_dir@,
                text::texts(there@),
                i as int,
            ),
        decreases m.targets.len() - i,
    {
        if let InstallTarget::Pak { file, info } = &m.targets[i] {
            if native {
                let by_folder = join_path(game_dir, concat2(info.folder.as_str(), ".pak").as_str());
                let by_file = join_path(game_dir, file.as_str());
                if has_string(there, by_folder.as_str()) {
                    push_path(&mut out, by_folder);
                }
                if has_string(there, by_file.as_str()) && !has_string(&out, by_file.as_str()) {
                    push_path(&mut out, by_file);
                }
            } else {
                let root = join_path(join_path(data_dir, "mods").as_str(), m.id.as_str());
                push_path(&mut out, join_path(root.as_str(), file.as_str()));
            }
        }
        i = i + 1;
    }
    if out.len() == 0 && native && m.has_target_kind(TargetKind::Pak) {
        if let Some(p) = resolved {
            assert(text::texts(out@) =~= Seq::<Seq<char>>::empty());
            push_path(&mut out, p);
            assert(text::texts(out@) =~= seq![p@]);
        }
    }
    out
}

/// Why the files of a mod are not known.
#[derive(Debug, Clone, Copy, PartialEq, Eq, Structural)]
pub enum ScanError {
    PakMissing,
    Index(PakError),
}

impl ScanError {
    pub open spec fn words(self) -> Seq<char> {
        match self {
            ScanError::PakMissing => "pak file missing"@,
            ScanError::Index(PakError::BadHeader) => "invalid pak header"@,
            ScanError::Index(PakError::OldVersion(v)) => "unsupported pak version "@
                + text::decimal(v as nat),
            ScanError::Index(PakError::Truncated) => "failed to fill whole buffer"@,
            ScanError::Index(PakError::BadOffset) => "invalid footer offset"@,
            ScanError::Index(PakError::BadTable) => "invalid file table"@,
        }
    }

    pub fn message(&self) -> (r: String)
        ensures
            r@ == self.words(),
    {
        match self {
            ScanError::PakMissing => "pak file missing".to_owned(),
            ScanError::Index(PakError::BadHeader) => "invalid pak header".to_owned(),
            ScanError::Index(PakError::OldVersion(v)) => {
                concat2("unsupported pak version ", show_u64(*v as u64).as_str())
            },
            ScanError::Index(PakError::Truncated) => "failed to fill whole buffer".to_owned(),
            ScanError::Index(PakError::BadOffset) => "invalid footer offset".to_owned(),
            ScanError::Index(PakError::BadTable) => "invalid file table".to_owned(),
        }
    }
}

/// The files in the first `n` packages: those that the packages list, in order, unless
/// one of them cannot be read. A package that is not there is passed over.
pub open spec fn listed_in(packages: Seq<Option<Vec<u8>>>, n: int) -> Result<
    Seq<(Seq<char>, u64)>,
    PakError,
>
    decreases n,
{
    if n <= 0 {
        Ok(Seq::empty())
    } else {
        match listed_in(packages, n - 1) {
            Err(e) => Err(e),
            Ok(before) => match packages[n - 1] {
                None => Ok(before),
                Some(bytes) => match pak_index::listed_files(bytes@) {
                    Err(e) => Err(e),
                    Ok(entries) => Ok(before + pak_index::files_of(entries)),
                },
            },
        }
    }
}

/// The files in the packages of a mod.
pub open spec fn files_in_paks(packages: Seq<Option<Vec<u8>>>) -> Result<
    Seq<(Seq<char>, u64)>,
    ScanError,
> {
    match listed_in(packages, packages.len() as int) {
        Err(e) => Err(ScanError::Index(e)),
        Ok(files) => if forall|i: int| 0 <= i < packages.len() ==> packages[i] is None {
            Err(ScanError::PakMissing)
        } else {
            Ok(files)
        },
    }
}

proof fn lemma_first_fault(packages: Seq<Option<Vec<u8>>>, n: int, k: int)
    requires
        0 <= n <= k,
        listed_in(packages, n) is Err,
    ensures
        listed_in(packages, k) == listed_in(packages, n),
    decreases k,
{
    if n < k {
        lemma_first_fault(packages, n, k - 1);
    }
}

/// Reads the packages of a mod.
pub fn scan_pak_files(packages: &Vec<Option<Vec<u8>>>) -> (r: Result<Vec<FileEntry>, ScanError>)
    ensures
        match (r, files_in_paks(packages@)) {
            (Ok(list), Ok(files)) => pak_index::file_views(list@) == files,
            (Err(a), Err(b)) => a == b,
            _ => false,
        },
{
    let mut files: Vec<FileEntry> = Vec::new();
    let mut found = false;
    let mut i: usize = 0;
    assert(pak_index::file_views(files@) =~= Seq::<(Seq<char>, u64)>::empty());
    while i < packages.len()
        invariant
            i <= packages.len(),
            listed_in(packages@, i as int) == Ok::<Seq<(Seq<char>, u64)>, PakError>(
                pak_index::file_views(files@),
            ),
            found == !(forall|j: int| 0 <= j < i ==> packages@[j] is None),
        decreases packages.len() - i,
    {
        if let Some(bytes) = &packages[i] {
            match scan_pak_index(bytes.as_slice()) {
                Ok(list) => {
                    let ghost before = pak_index::file_views(files@);
                    let ghost more = pak_index::file_views(list@);
                    let mut list = list;
                    files.append(&mut list);
                    assert(pak_index::file_views(files@) =~= before + more);
                },
                Err(e) => {
                    proof {
                        assert(listed_in(packages@, i + 1) == Err::<
                            Seq<(Seq<char>, u64)>,
                            PakError,
                        >(e));
                        lemma_first_fault(packages@, i + 1, packages@.len() as int);
                    }
                    return Err(ScanError::Index(e));
                },
            }
            found = true;
            assert(packages@[i as int] is Some);
        }
        i = i + 1;
    }
    if found {
        Ok(files)
    } else {
        Err(ScanError::PakMissing)
    }
}

/// What the packages of a mod say together.
pub struct SaidTogether {
    pub dependencies: Vec<String>,
    pub tags: Vec<String>,
    pub created_at: Option<i64>,
}

pub open spec fn needs_in(metas: Seq<Option<ModMeta>>, n: int) -> Seq<String>
    decreases n,
{
    if n <= 0 {
        Seq::empty()
    } else {
        needs_in(metas, n - 1) + match metas[n - 1] {
            Some(m) => m.dependencies@,
            None => Seq::empty(),
        }
    }
}

pub open spec fn tags_in(metas: Seq<Option<ModMeta>>, n: int) -> Seq<String>
    decreases n,
{
    if n <= 0 {
        Seq::empty()
    } else {
        tags_in(metas, n - 1) + match metas[n - 1] {
            Some(m) => m.tags@,
            None => Seq::empty(),
        }
    }
}

pub open spec fn first_made(metas: Seq<Option<ModMeta>>, n: int) -> Option<i64>
    decreases n,
{
    if n <= 0 {
        None
    } else {
        importer::earliest(
            first_made(metas, n - 1),
            match metas[n - 1] {
                Some(m) => m.created_at,
                None => None,
            },
        )
    }
}

impl SaidTogether {
    pub open spec fn sums_up(self, metas: Seq<Option<ModMeta>>) -> bool {
        let n = metas.len() as int;
        &&& self.dependencies@ == needs_in(metas, n)
        &&& self.tags@ == tags_in(metas, n)
        &&& self.created_at == first_made(metas, n)
    }
}

/// Puts together what the packages of a mod say.
pub fn read_mod_metadata(metas: &Vec<Option<ModMeta>>) -> (r: SaidTogether)
    ensures
        r.sums_up(metas@),
{
    let mut dependencies: Vec<String> = Vec::new();
    let mut tags: Vec<String> = Vec::new();
    let mut created_at: Option<i64> = None;
    let mut i: usize = 0;
    while i < metas.len()
        invariant
            i <= metas.len(),
            dependencies@ == needs_in(metas@, i as int),
            tags@ == tags_in(metas@, i as int),
            created_at == first_made(metas@, i as int),
        decreases metas.len() - i,
    {
        if let Some(m) = &metas[i] {
            let mut more = copy_strings(m.dependencies.as_slice());
            dependencies.append(&mut more);
            let mut words = copy_strings(m.tags.as_slice());
            tags.append(&mut words);
            created_at = earliest_of(created_at, m.created_at);
        } else {
            assert(needs_in(metas@, i + 1) =~= needs_in(metas@, i as int));
            assert(tags_in(metas@, i + 1) =~= tags_in(metas@, i as int));
        }
        i = i + 1;
    }
    SaidTogether { dependencies, tags, created_at }
}

// ---------------------------------------------------------------------------
// Loose files
// ---------------------------------------------------------------------------

/// Whether a part of a path belongs to an operating system or a tool.
pub open spec fn is_foreign_part(part: Seq<char>) -> bool {
    ||| text::same_ignoring_case(part, "__MACOSX"@)
    ||| part == ".git"@
    ||| part == ".svn"@
    ||| part == ".vscode"@
}

pub open spec fn is_foreign(path: Seq<char>) -> bool {
    exists|i: int|
        0 <= i < paths::components(path).len() && is_foreign_part(
            #[trigger] paths::components(path)[i],
        )
}

/// Whether a path is no part of a mod.
pub fn is_ignored_mod_path(path: &str) -> (r: bool)
    ensures
        r == is_foreign(path@),
{
    let found = split_components(path);
    let ghost all = paths::components(path@);
    let mut i: usize = 0;
    while i < found.len()
        invariant
            i <= found.len(),
            text::texts(found@) == all,
            all == paths::components(path@),
            forall|k: int| 0 <= k < i ==> !is_foreign_part(#[trigger] all[k]),
        decreases found.len() - i,
    {
        let part = found[i].as_str();
        assert(all[i as int] == part@);
        if eq_ignore_case(part, "__MACOSX") || same_text(part, ".git") || same_text(part, ".svn")
            || same_text(part, ".vscode") {
            return true;
        }
        i = i + 1;
    }
    false
}

/// The word for a kind of target in front of a file's key.
pub open spec fn key_word(kind: TargetKind) -> Seq<char> {
    match kind {
        TargetKind::Pak => "pak"@,
        TargetKind::Generated => "generated"@,
        TargetKind::Data => "data"@,
        TargetKind::Bin => "bin"@,
    }
}

fn show_key_word(kind: TargetKind) -> (r: &'static str)
    ensures
        r@ == key_word(kind),
{
    match kind {
        TargetKind::Pak => "pak",
        TargetKind::Generated => "generated",
        TargetKind::Data => "data",
        TargetKind::Bin => "bin",
    }
}

/// The directory of a target, unless it is a package.
pub open spec fn loose_dir(t: InstallTarget) -> Option<Seq<char>> {
    match t {
        InstallTarget::Pak { .. } => None,
        InstallTarget::Generated { dir } => Some(dir@),
        InstallTarget::Data { dir } => Some(dir@),
        InstallTarget::Bin { dir } => Some(dir@),
    }
}

/// The files among the first `n` below a directory, with their keys.
pub open spec fn keyed(
    root: Seq<char>,
    kind: TargetKind,
    files: Seq<SizedFile>,
    n: int,
) -> Seq<(Seq<char>, u64)>
    decreases n,
{
    if n <= 0 {
        Seq::empty()
    } else {
        let f = files[n - 1];
        let before = keyed(root, kind, files, n - 1);
        if is_foreign(paths::joined(root, f.path@)) {
            before
        } else {
            before.push((key_word(kind) + ":"@ + pak_index::package_path(f.path@), f.size))
        }
    }
}

/// The loose files of the first `n` targets. `walks` are the files below the directory of
/// each target that is there.
pub open spec fn loose_in(
    m: ModEntry,
    mod_root: Seq<char>,
    walks: Seq<Option<Vec<SizedFile>>>,
    n: int,
) -> Seq<(Seq<char>, u64)>
    decreases n,
{
    if n <= 0 {
        Seq::empty()
    } else {
        let before = loose_in(m, mod_root, walks, n - 1);
        match (loose_dir(m.targets@[n - 1]), walks[n - 1]) {
            (Some(dir), Some(files)) => before + keyed(
                paths::joined(mod_root, dir),
                m.targets@[n - 1].kind_of(),
                files@,
                files@.len() as int,
            ),
            _ => before,
        }
    }
}

fn add_keyed(out: &mut Vec<FileEntry>, root: &str, kind: TargetKind, files: &Vec<SizedFile>)
    ensures
        pak_index::file_views(final(out)@) == pak_index::file_views(old(out)@) + keyed(
            root@,
            kind,
            files@,
            files@.len() as int,
        ),
{
    let ghost head = pak_index::file_views(out@);
    let mut i: usize = 0;
    assert(head + keyed(root@, kind, files@, 0) =~= head);
    while i < files.len()
        invariant
            i <= files.len(),
            pak_index::file_views(out@) == head + keyed(root@, kind, files@, i as int),
        decreases files.len() - i,
    {
        let f = &files[i];
        let whole = join_path(root, f.path.as_str());
        if !is_ignored_mod_path(whole.as_str()) {
            let rel = normalize_path(f.path.as_str());
            let key = concat3(show_key_word(kind), ":", rel.as_str());
            let ghost before = pak_index::file_views(out@);
            let ghost item = (key@, f.size);
            out.push(FileEntry { key, size: f.size });
            assert(pak_index::file_views(out@) =~= before.push(item));
            assert(pak_index::file_views(out@) =~= head + keyed(root@, kind, files@, i + 1));
        }
        i = i + 1;
    }
}

/// The loose files of a mod.
pub fn scan_loose_files(m: &ModEntry, mod_root: &str, walks: &Vec<Option<Vec<SizedFile>>>) -> (out:
    Vec<FileEntry>)
    requires
        walks@.len() == m.targets@.len(),
    ensures
        pak_index::file_views(out@) == loose_in(
            *m,
            mod_root@,
            walks@,
            m.targets@.len() as int,
        ),
{
    let mut out: Vec<FileEntry> = Vec::new();
    let mut i: usize = 0;
    assert(pak_index::file_views(out@) =~= Seq::<(Seq<char>, u64)>::empty());
    while i < m.targets.len()
        invariant
            i <= m.targets.len() == walks.len(),
            pak_index::file_views(out@) == loose_in(*m, mod_root@, walks@, i as int),
        decreases m.targets.len() - i,
    {
        let kind = m.targets[i].kind();
        let dir = match &m.targets[i] {
            InstallTarget::Pak { .. } => None,
            InstallTarget::Generated { dir } => Some(dir),
            InstallTarget::Data { dir } => Some(dir),
            InstallTarget::Bin { dir } => Some(dir),
        };
        if let (Some(dir), Some(files)) = (dir, &walks[i]) {
            let root = join_path(mod_root, dir.as_str());
            add_keyed(&mut out, root.as_str(), kind, files);
        }
        i = i + 1;
    }
    out
}

// ---------------------------------------------------------------------------
// A mod
// ---------------------------------------------------------------------------

/// What was read of a mod: the files below its directories, and its packages with what
/// they say.
pub struct ModRead {
    pub walks: Vec<Option<Vec<SizedFile>>>,
    pub packages: Vec<Option<Vec<u8>>>,
    pub metas: Vec<Option<ModMeta>>,
}

/// Whether a scan is what was read of a mod. Mods with loose files are known by those
/// alone, all others by their packages.
pub open spec fn is_scan(s: ModScan, m: ModEntry, mod_root: Seq<char>, r: ModRead) -> bool {
    match rank_items::group_of(m) {
        RankGroup::Loose => {
            &&& s.files matches Ok(list) && pak_index::file_views(list@) == loose_in(
                m,
                mod_root,
                r.walks@,
                m.targets@.len() as int,
            )
            &&& s.dependencies@.len() == 0 && s.tags@.len() == 0 && s.created_at is None
        },
        RankGroup::Pak => {
            &&& match (s.files, files_in_paks(r.packages@)) {
                (Ok(list), Ok(files)) => pak_index::file_views(list@) == files,
                (Err(told), Err(e)) => told@ == e.words(),
                _ => false,
            }
            &&& (SaidTogether {
                dependencies: s.dependencies,
                tags: s.tags,
                created_at: s.created_at,
            }).sums_up(r.metas@)
        },
    }
}

/// Reads what a ranking goes by of a mod.
pub fn scan_mod_files(m: &ModEntry, mod_root: &str, r: &ModRead) -> (s: ModScan)
    requires
        r.walks@.len() == m.targets@.len(),
    ensures
        is_scan(s, *m, mod_root@, *r),
{
    match find_group(m) {
        RankGroup::Loose => ModScan {
            files: Ok(scan_loose_files(m, mod_root, &r.walks)),
            dependencies: Vec::new(),
            tags: Vec::new(),
            created_at: None,
        },
        RankGroup::Pak => {
            let files = match scan_pak_files(&r.packages) {
                Ok(list) => Ok(list),
                Err(e) => Err(e.message()),
            };
            let said = read_mod_metadata(&r.metas);
            ModScan {
                files,
                dependencies: said.dependencies,
                tags: said.tags,
                created_at: said.created_at,
            }
        },
    }
}

} // verus!
