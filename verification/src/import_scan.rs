//! What there is to import below a directory.
use crate::deploy;
use crate::deploy::is_ignored_deploy_path;
use crate::paths;
use crate::paths::{file_name, key_of, lies_within, stem};
use crate::payload;
use crate::payload::{display_path_label, find_extension};
use crate::sorting;
use crate::sorting::{is_text_before, sort, Ranked};
use crate::text;
use crate::text::{same_text, to_lowercase};
use vstd::hash_map::StringHashMap;
use vstd::prelude::*;

verus! {

#[derive(Debug, Clone, Copy, PartialEq, Eq, Structural)]
pub enum CandidateKind {
    Directory,
    PakFile,
    ArchiveFile,
}

/// Something that is imported on its own.
#[derive(Debug)]
pub struct ImportCandidate {
    pub path: String,
    pub label: String,
    pub kind: CandidateKind,
}

/// Something in a directory. Of a directory it is known whether there is anything
/// to install in it.
#[derive(Debug)]
pub struct DirItem {
    pub path: String,
    pub is_file: bool,
    pub is_dir: bool,
    pub is_mod: bool,
}

#[verifier::ext_equal]
pub struct UnitView {
    pub path: Seq<char>,
    pub label: Seq<char>,
    pub kind: CandidateKind,
}

impl ImportCandidate {
    pub open spec fn shown(self) -> UnitView {
        UnitView { path: self.path@, label: self.label@, kind: self.kind }
    }
}

pub open spec fn unit_view() -> spec_fn(ImportCandidate) -> UnitView {
    |c: ImportCandidate| c.shown()
}

// ---------------------------------------------------------------------------
// Kinds of files
// ---------------------------------------------------------------------------

pub open spec fn is_zip(path: Seq<char>) -> bool {
    payload::path_extension(path) matches Some(x) && (x == "zip"@ || x == "ZIP"@)
}

pub open spec fn is_7z(path: Seq<char>) -> bool {
    payload::path_extension(path) matches Some(x) && (x == "7z"@ || x == "7Z"@ || x == "rar"@ || x
        == "RAR"@)
}

pub open spec fn is_archive(path: Seq<char>) -> bool {
    is_zip(path) || is_7z(path)
}

pub open spec fn is_pak(path: Seq<char>) -> bool {
    payload::path_extension(path) matches Some(x) && (x == "pak"@ || x == "PAK"@)
}

pub fn is_zip_file(path: &str) -> (r: bool)
    ensures
        r == is_zip(path@),
{
    match find_extension(path) {
        Some(x) => same_text(x.as_str(), "zip") || same_text(x.as_str(), "ZIP"),
        None => false,
    }
}

pub fn is_7z_file(path: &str) -> (r: bool)
    ensures
        r == is_7z(path@),
{
    match find_extension(path) {
        Some(x) => same_text(x.as_str(), "7z") || same_text(x.as_str(), "7Z") || same_text(
            x.as_str(),
            "rar",
        ) || same_text(x.as_str(), "RAR"),
        None => false,
    }
}

pub fn is_archive_file(path: &str) -> (r: bool)
    ensures
        r == is_archive(path@),
{
    is_zip_file(path) || is_7z_file(path)
}

pub fn is_pak_file(path: &str) -> (r: bool)
    ensures
        r == is_pak(path@),
{
    match find_extension(path) {
        Some(x) => same_text(x.as_str(), "pak") || same_text(x.as_str(), "PAK"),
        None => false,
    }
}

/// The name of a file without its extension.
pub open spec fn file_stem(path: Seq<char>) -> Option<Seq<char>> {
    match paths::base_name(path) {
        Some(n) => Some(paths::stem_of(n)),
        None => None,
    }
}

pub fn source_label_for_archive(path: &str) -> (r: Option<String>)
    ensures
        text::text_opt(r) == file_stem(path@),
{
    match file_name(path) {
        Some(n) => Some(stem(n.as_str())),
        None => None,
    }
}

pub open spec fn pak_label(path: Seq<char>) -> Seq<char> {
    match file_stem(path) {
        Some(s) => s,
        None => payload::entry_name(path),
    }
}

pub fn display_pak_label(path: &str) -> (r: String)
    ensures
        r@ == pak_label(path@),
{
    match source_label_for_archive(path) {
        Some(s) => s,
        None => display_path_label(path),
    }
}

// ---------------------------------------------------------------------------
// Candidates
// ---------------------------------------------------------------------------

/// Whether the path is on the list.
pub open spec fn lists_path(list: Seq<UnitView>, path: Seq<char>) -> bool {
    exists|i: int|
        0 <= i < list.len() && paths::path_key((#[trigger] list[i]).path) == paths::path_key(path)
}

/// The list with one more; each path is on it once.
pub open spec fn pushed(list: Seq<UnitView>, c: UnitView) -> Seq<UnitView> {
    if lists_path(list, c.path) {
        list
    } else {
        list.push(c)
    }
}

pub open spec fn unit(kind: CandidateKind, path: Seq<char>) -> UnitView {
    UnitView {
        path,
        label: if kind == CandidateKind::PakFile {
            pak_label(path)
        } else {
            payload::entry_name(path)
        },
        kind,
    }
}

/// Whether the directory of a candidate holds the path.
pub open spec fn in_candidate(list: Seq<UnitView>, path: Seq<char>) -> bool {
    exists|i: int|
        0 <= i < list.len() && (#[trigger] list[i]).kind == CandidateKind::Directory
            && paths::is_within(path, list[i].path)
}

pub open spec fn lower_name(path: Seq<char>) -> Seq<char> {
    text::unicode_lowercase(payload::entry_name(path))
}

/// The files among the first `n` items.
pub open spec fn after_files(items: Seq<DirItem>, n: int) -> Seq<UnitView>
    decreases n,
{
    if n <= 0 {
        Seq::empty()
    } else {
        let before = after_files(items, n - 1);
        let e = items[n - 1];
        if deploy::is_ignored(e.path@) || !e.is_file {
            before
        } else if is_archive(e.path@) {
            pushed(before, unit(CandidateKind::ArchiveFile, e.path@))
        } else if is_pak(e.path@) {
            pushed(before, unit(CandidateKind::PakFile, e.path@))
        } else {
            before
        }
    }
}

/// Whether an item makes its directory a mod by itself.
pub open spec fn is_direct(e: DirItem) -> bool {
    let lower = lower_name(e.path@);
    &&& !deploy::is_ignored(e.path@)
    &&& if e.is_file {
        !is_archive(e.path@) && is_pak(e.path@)
    } else {
        e.is_dir && (lower == "data"@ || lower == "generated"@ || lower == "bin"@ || lower
            == "public"@)
    }
}

pub open spec fn has_direct(items: Seq<DirItem>) -> bool {
    exists|i: int| 0 <= i < items.len() && is_direct(#[trigger] items[i])
}

/// Whether an item is the directory `Mods`.
pub open spec fn is_mods_dir(e: DirItem) -> bool {
    !deploy::is_ignored(e.path@) && !e.is_file && e.is_dir && lower_name(e.path@) == "mods"@
}

/// Where the last directory `Mods` stands among the first `n`, or -1.
pub open spec fn mods_place(items: Seq<DirItem>, n: int) -> int
    decreases n,
{
    if n <= 0 {
        -1
    } else if is_mods_dir(items[n - 1]) {
        n - 1
    } else {
        mods_place(items, n - 1)
    }
}

/// With the first `n` items of the directory `Mods`.
pub open spec fn after_mods(start: Seq<UnitView>, items: Seq<DirItem>, n: int) -> Seq<UnitView>
    decreases n,
{
    if n <= 0 {
        start
    } else {
        let before = after_mods(start, items, n - 1);
        let e = items[n - 1];
        if deploy::is_ignored(e.path@) {
            before
        } else if e.is_file && is_pak(e.path@) {
            pushed(before, unit(CandidateKind::PakFile, e.path@))
        } else if e.is_dir && e.is_mod {
            pushed(before, unit(CandidateKind::Directory, e.path@))
        } else {
            before
        }
    }
}

/// With the first `n` directories other than `Mods`.
pub open spec fn after_dirs(start: Seq<UnitView>, items: Seq<DirItem>, n: int) -> Seq<UnitView>
    decreases n,
{
    if n <= 0 {
        start
    } else {
        let before = after_dirs(start, items, n - 1);
        let e = items[n - 1];
        if !deploy::is_ignored(e.path@) && !e.is_file && e.is_dir && !is_mods_dir(e) && e.is_mod {
            pushed(before, unit(CandidateKind::Directory, e.path@))
        } else {
            before
        }
    }
}

/// With the first `n` of what lies deeper.
pub open spec fn after_nested(start: Seq<UnitView>, items: Seq<DirItem>, n: int) -> Seq<UnitView>
    decreases n,
{
    if n <= 0 {
        start
    } else {
        let before = after_nested(start, items, n - 1);
        let e = items[n - 1];
        if deploy::is_ignored(e.path@) || !e.is_file {
            before
        } else if is_archive(e.path@) {
            pushed(before, unit(CandidateKind::ArchiveFile, e.path@))
        } else if is_pak(e.path@) && !in_candidate(before, e.path@) {
            pushed(before, unit(CandidateKind::PakFile, e.path@))
        } else {
            before
        }
    }
}

pub open spec fn label_before() -> spec_fn(UnitView, UnitView) -> bool {
    |a: UnitView, b: UnitView| sorting::text_before(a.label, b.label)
}

/// What is imported on its own, by label: nothing where the directory is itself a
/// mod.
pub open spec fn units(
    top: Seq<DirItem>,
    mods: Seq<DirItem>,
    nested: Seq<DirItem>,
) -> Seq<UnitView> {
    if has_direct(top) {
        Seq::empty()
    } else {
        let files = after_files(top, top.len() as int);
        let inner = if mods_place(top, top.len() as int) >= 0 {
            after_mods(files, mods, mods.len() as int)
        } else {
            files
        };
        let dirs = after_dirs(inner, top, top.len() as int);
        sorting::ranking_by(after_nested(dirs, nested, nested.len() as int), label_before())
    }
}

impl Ranked for ImportCandidate {
    open spec fn before(self, other: Self) -> bool {
        label_before()(self.shown(), other.shown())
    }

    proof fn before_asymmetric(a: Self, b: Self) {
        sorting::lemma_text_before_asymmetric(a.label@, b.label@);
    }

    proof fn before_splits(a: Self, b: Self, c: Self) {
        sorting::lemma_text_before_splits(a.label@, b.label@, c.label@);
    }

    fn is_before(&self, other: &Self) -> (r: bool) {
        is_text_before(self.label.as_str(), other.label.as_str())
    }
}

/// The candidates so far, and the paths among them.
struct Found {
    list: Vec<ImportCandidate>,
    seen: StringHashMap<bool>,
}

impl Found {
    spec fn shown(self) -> Seq<UnitView> {
        self.list@.map_values(unit_view())
    }

    spec fn well_formed(self) -> bool {
        forall|k: Seq<char>| #[trigger]
            self.seen@.contains_key(k) <==> exists|i: int|
                0 <= i < self.list@.len() && paths::path_key((#[trigger] self.list@[i]).path@) == k
    }

    fn new() -> (r: Self)
        ensures
            r.well_formed(),
            r.shown() == Seq::<UnitView>::empty(),
    {
        let r = Found { list: Vec::new(), seen: StringHashMap::new() };
        assert(r.shown() =~= Seq::<UnitView>::empty());
        r
    }

    fn push_candidate(&mut self, kind: CandidateKind, path: &str)
        requires
            old(self).well_formed(),
        ensures
            final(self).well_formed(),
            final(self).shown() == pushed(old(self).shown(), unit(kind, path@)),
    {
        let key = key_of(path);
        let ghost was = self.list@;
        let ghost views = self.shown();
        let ghost seen_was = self.seen@;
        if self.seen.contains_key(key.as_str()) {
            proof {
                let i = choose|i: int|
                    0 <= i < was.len() && paths::path_key((#[trigger] was[i]).path@) == key@;
                assert(views[i] == was[i].shown());
                assert(lists_path(views, path@));
            }
            return ;
        }
        proof {
            if lists_path(views, path@) {
                let i = choose|i: int|
                    0 <= i < views.len() && paths::path_key((#[trigger] views[i]).path)
                        == paths::path_key(path@);
                assert(views[i] == was[i].shown());
                assert(paths::path_key(was[i].path@) == key@);
                assert(false);
            }
        }
        let label = match kind {
            CandidateKind::PakFile => display_pak_label(path),
            _ => display_path_label(path),
        };
        let item = ImportCandidate { path: path.to_owned(), label, kind };
        self.list.push(item);
        self.seen.insert(key, true);
        proof {
            assert(self.shown() =~= views.push(item.shown()));
            assert forall|k: Seq<char>| #[trigger] self.seen@.contains_key(k) <==> exists|i: int|
                0 <= i < self.list@.len() && paths::path_key((#[trigger] self.list@[i]).path@)
                    == k by {
                if self.seen@.contains_key(k) {
                    if k == key@ {
                        assert(paths::path_key(self.list@[was.len() as int].path@) == k);
                    } else {
                        assert(seen_was.contains_key(k));
                        let i = choose|i: int|
                            0 <= i < was.len() && paths::path_key((#[trigger] was[i]).path@) == k;
                        assert(self.list@[i] == was[i]);
                    }
                }
                if exists|i: int|
                    0 <= i < self.list@.len() && paths::path_key((#[trigger] self.list@[i]).path@)
                        == k {
                    let i = choose|i: int|
                        0 <= i < self.list@.len() && paths::path_key(
                            (#[trigger] self.list@[i]).path@,
                        ) == k;
                    if i < was.len() {
                        assert(self.list@[i] == was[i]);
                        assert(seen_was.contains_key(k));
                    }
                }
            }
        }
    }

    fn has_candidate_dir_ancestor(&self, path: &str) -> (r: bool)
        ensures
            r == in_candidate(self.shown(), path@),
    {
        let ghost views = self.shown();
        let mut i: usize = 0;
        while i < self.list.len()
            invariant
                i <= self.list.len(),
                views == self.shown(),
                forall|k: int|
                    0 <= k < i ==> !((#[trigger] views[k]).kind == CandidateKind::Directory
                        && paths::is_within(path@, views[k].path)),
            decreases self.list.len() - i,
        {
            let c = &self.list[i];
            assert(views[i as int] == c.shown());
            if matches!(c.kind, CandidateKind::Directory) && lies_within(path, c.path.as_str()) {
                return true;
            }
            i = i + 1;
        }
        false
    }
}

fn find_lower_name(path: &str) -> (r: String)
    ensures
        r@ == lower_name(path@),
{
    let name = display_path_label(path);
    to_lowercase(name.as_str())
}

fn is_direct_item(e: &DirItem) -> (r: bool)
    ensures
        r == is_direct(*e),
{
    let path = e.path.as_str();
    if is_ignored_deploy_path(path) {
        return false;
    }
    if e.is_file {
        !is_archive_file(path) && is_pak_file(path)
    } else if e.is_dir {
        let lower = find_lower_name(path);
        let l = lower.as_str();
        same_text(l, "data") || same_text(l, "generated") || same_text(l, "bin") || same_text(
            l,
            "public",
        )
    } else {
        false
    }
}

/// Whether the directory is itself a mod.
pub fn has_direct_payload(top: &[DirItem]) -> (r: bool)
    ensures
        r == has_direct(top@),
{
    let mut i: usize = 0;
    while i < top.len()
        invariant
            i <= top.len(),
            forall|k: int| 0 <= k < i ==> !is_direct(#[trigger] top@[k]),
        decreases top.len() - i,
    {
        if is_direct_item(&top[i]) {
            return true;
        }
        i = i + 1;
    }
    false
}

fn is_mods_item(e: &DirItem) -> (r: bool)
    ensures
        r == is_mods_dir(*e),
{
    let path = e.path.as_str();
    !e.is_file && e.is_dir && !is_ignored_deploy_path(path) && same_text(
        find_lower_name(path).as_str(),
        "mods",
    )
}

/// The directory `Mods`, the last of several.
pub fn find_mods_dir(top: &[DirItem]) -> (r: Option<usize>)
    ensures
        match r {
            Some(i) => mods_place(top@, top@.len() as int) == i && i < top.len(),
            None => mods_place(top@, top@.len() as int) < 0,
        },
{
    let mut n: usize = top.len();
    while n > 0
        invariant
            n <= top.len(),
            mods_place(top@, n as int) == mods_place(top@, top@.len() as int),
        decreases n,
    {
        if is_mods_item(&top[n - 1]) {
            return Some(n - 1);
        }
        n = n - 1;
    }
    None
}

/// Collects what is imported on its own from what lies in a directory, in its
/// directory `Mods`, and deeper.
pub fn collect_import_candidates(
    top: &[DirItem],
    mods: &[DirItem],
    nested: &[DirItem],
) -> (out: Vec<ImportCandidate>)
    ensures
        out@.map_values(unit_view()) == units(top@, mods@, nested@),
{
    if has_direct_payload(top) {
        let out: Vec<ImportCandidate> = Vec::new();
        assert(out@.map_values(unit_view()) =~= Seq::<UnitView>::empty());
        return out;
    }
    let mut found = Found::new();
    let mut i: usize = 0;
    while i < top.len()
        invariant
            i <= top.len(),
            found.well_formed(),
            found.shown() == after_files(top@, i as int),
        decreases top.len() - i,
    {
        let e = &top[i];
        let path = e.path.as_str();
        if e.is_file && !is_ignored_deploy_path(path) {
            if is_archive_file(path) {
                found.push_candidate(CandidateKind::ArchiveFile, path);
            } else if is_pak_file(path) {
                found.push_candidate(CandidateKind::PakFile, path);
            }
        }
        i = i + 1;
    }
    let ghost files = found.shown();
    if let Some(_) = find_mods_dir(top) {
        let mut j: usize = 0;
        while j < mods.len()
            invariant
                j <= mods.len(),
                found.well_formed(),
                found.shown() == after_mods(files, mods@, j as int),
            decreases mods.len() - j,
        {
            let e = &mods[j];
            let path = e.path.as_str();
            if !is_ignored_deploy_path(path) {
                if e.is_file && is_pak_file(path) {
                    found.push_candidate(CandidateKind::PakFile, path);
                } else if e.is_dir && e.is_mod {
                    found.push_candidate(CandidateKind::Directory, path);
                }
            }
            j = j + 1;
        }
    }
    let ghost inner = found.shown();
    let mut k: usize = 0;
    while k < top.len()
        invariant
            k <= top.len(),
            found.well_formed(),
            found.shown() == after_dirs(inner, top@, k as int),
        decreases top.len() - k,
    {
        let e = &top[k];
        let path = e.path.as_str();
        if e.is_mod && !e.is_file && e.is_dir && !is_ignored_deploy_path(path) && !is_mods_item(
            e,
        ) {
            found.push_candidate(CandidateKind::Directory, path);
        }
        k = k + 1;
    }
    let ghost dirs = found.shown();
    let mut m: usize = 0;
    while m < nested.len()
        invariant
            m <= nested.len(),
            found.well_formed(),
            found.shown() == after_nested(dirs, nested@, m as int),
        decreases nested.len() - m,
    {
        let e = &nested[m];
        let path = e.path.as_str();
        if e.is_file && !is_ignored_deploy_path(path) {
            if is_archive_file(path) {
                found.push_candidate(CandidateKind::ArchiveFile, path);
            } else if is_pak_file(path) && !found.has_candidate_dir_ancestor(path) {
                found.push_candidate(CandidateKind::PakFile, path);
            }
        }
        m = m + 1;
    }
    proof {
        let before = sorting::order_of::<ImportCandidate>();
        assert forall|x: ImportCandidate, y: ImportCandidate| #[trigger]
            before(x, y) == label_before()(unit_view()(x), unit_view()(y)) by {}
        sorting::lemma_ranking_map(found.list@, unit_view(), before, label_before());
    }
    sort(found.list)
}

/// Whether no path is on the list twice.
pub open spec fn distinct_paths(list: Seq<UnitView>) -> bool {
    forall|i: int, j: int|
        0 <= i < j < list.len() ==> paths::path_key((#[trigger] list[i]).path) != paths::path_key(
            (#[trigger] list[j]).path,
        )
}

proof fn lemma_pushed(list: Seq<UnitView>, c: UnitView)
    requires
        distinct_paths(list),
    ensures
        distinct_paths(pushed(list, c)),
{
    let out = pushed(list, c);
    if !lists_path(list, c.path) {
        assert forall|i: int, j: int| 0 <= i < j < out.len() implies paths::path_key(
            (#[trigger] out[i]).path,
        ) != paths::path_key((#[trigger] out[j]).path) by {
            if j == list.len() {
                assert(out[i] == list[i]);
                assert(paths::path_key(list[i].path) != paths::path_key(c.path));
            }
        }
    }
}

proof fn lemma_after_files(items: Seq<DirItem>, n: int)
    ensures
        distinct_paths(after_files(items, n)),
    decreases n,
{
    if n > 0 {
        lemma_after_files(items, n - 1);
        let path = items[n - 1].path@;
        lemma_pushed(after_files(items, n - 1), unit(CandidateKind::ArchiveFile, path));
        lemma_pushed(after_files(items, n - 1), unit(CandidateKind::PakFile, path));
    }
}

proof fn lemma_after_mods(start: Seq<UnitView>, items: Seq<DirItem>, n: int)
    requires
        distinct_paths(start),
    ensures
        distinct_paths(after_mods(start, items, n)),
    decreases n,
{
    if n > 0 {
        lemma_after_mods(start, items, n - 1);
        let path = items[n - 1].path@;
        lemma_pushed(after_mods(start, items, n - 1), unit(CandidateKind::PakFile, path));
        lemma_pushed(after_mods(start, items, n - 1), unit(CandidateKind::Directory, path));
    }
}

proof fn lemma_after_dirs(start: Seq<UnitView>, items: Seq<DirItem>, n: int)
    requires
        distinct_paths(start),
    ensures
        distinct_paths(after_dirs(start, items, n)),
    decreases n,
{
    if n > 0 {
        lemma_after_dirs(start, items, n - 1);
        let path = items[n - 1].path@;
        lemma_pushed(after_dirs(start, items, n - 1), unit(CandidateKind::Directory, path));
    }
}

proof fn lemma_after_nested(start: Seq<UnitView>, items: Seq<DirItem>, n: int)
    requires
        distinct_paths(start),
    ensures
        distinct_paths(after_nested(start, items, n)),
    decreases n,
{
    if n > 0 {
        lemma_after_nested(start, items, n - 1);
        let path = items[n - 1].path@;
        lemma_pushed(after_nested(start, items, n - 1), unit(CandidateKind::ArchiveFile, path));
        lemma_pushed(after_nested(start, items, n - 1), unit(CandidateKind::PakFile, path));
    }
}

/// Nothing is imported twice: what is imported, by label, is a list on which each
/// path stands once.
pub proof fn law_each_path_once(top: Seq<DirItem>, mods: Seq<DirItem>, nested: Seq<DirItem>)
    ensures
        exists|list: Seq<UnitView>| #[trigger]
            distinct_paths(list) && list.to_multiset() == units(top, mods, nested).to_multiset()
                && list.len() == units(top, mods, nested).len(),
{
    if has_direct(top) {
        assert(distinct_paths(Seq::<UnitView>::empty()));
    } else {
        let files = after_files(top, top.len() as int);
        lemma_after_files(top, top.len() as int);
        let inner = if mods_place(top, top.len() as int) >= 0 {
            after_mods(files, mods, mods.len() as int)
        } else {
            files
        };
        lemma_after_mods(files, mods, mods.len() as int);
        let dirs = after_dirs(inner, top, top.len() as int);
        lemma_after_dirs(inner, top, top.len() as int);
        let list = after_nested(dirs, nested, nested.len() as int);
        lemma_after_nested(dirs, nested, nested.len() as int);
        sorting::law_ranking_permutes(list, label_before());
        assert(distinct_paths(list));
    }
}

} // verus!
