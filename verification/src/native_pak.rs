//! Packages in the game's own mod directory: which file belongs to a module.
use crate::library::PakInfo;
use crate::metadata::ModMeta;
use crate::paths;
use crate::paths::{file_name, has_extension, split_parts, stem};
use crate::sorting;
use crate::sorting::is_text_before;
use crate::text;
use crate::text::{from_range, has_prefix, has_text, same_text, to_alnum_key, to_chars};
use vstd::hash_map::StringHashMap;
use vstd::prelude::*;

verus! {

/// A package file, with the letters and digits of its name.
#[derive(Debug)]
pub struct NativePakEntry {
    pub path: String,
    pub normalized: String,
}

impl NativePakEntry {
    /// The letters and digits of the file name, in lower case.
    pub open spec fn key(self) -> Seq<char> {
        self.normalized@
    }
}

impl Clone for NativePakEntry {
    fn clone(&self) -> (r: Self)
        ensures
            r == *self,
    {
        NativePakEntry { path: self.path.clone(), normalized: self.normalized.clone() }
    }
}

/// A package file as it was when its metadata was read, with the keys that the
/// metadata gives it.
#[derive(Debug)]
pub struct NativePakMetaEntry {
    pub path: String,
    pub size: u64,
    pub modified: Option<i64>,
    pub uuid_key: Option<String>,
    pub folder_key: Option<String>,
    pub name_key: Option<String>,
}

impl Clone for NativePakMetaEntry {
    fn clone(&self) -> (r: Self)
        ensures
            r == *self,
    {
        NativePakMetaEntry {
            path: self.path.clone(),
            size: self.size,
            modified: self.modified,
            uuid_key: crate::lists::copy_opt(&self.uuid_key),
            folder_key: crate::lists::copy_opt(&self.folder_key),
            name_key: crate::lists::copy_opt(&self.name_key),
        }
    }
}

/// The size and the modification time of a file, if it can be looked at.
#[derive(Debug, Clone, Copy, PartialEq, Eq, Structural)]
pub struct PakSignature {
    pub size: u64,
    pub modified: Option<i64>,
}

/// The packages whose metadata was read, each with its signature of now.
#[derive(Debug)]
pub struct NativePakMetaIndex {
    pub entries: Vec<NativePakMetaEntry>,
    pub signatures: Vec<Option<PakSignature>>,
}

impl NativePakMetaIndex {
    /// Each package has a signature.
    pub open spec fn well_formed(self) -> bool {
        self.entries@.len() == self.signatures@.len()
    }

    /// Whether a package is as it was when its metadata was read.
    pub open spec fn is_fresh(self, i: int) -> bool {
        self.signatures@[i] matches Some(s) && s.size == self.entries@[i].size && s.modified
            == self.entries@[i].modified
    }
}

// ---------------------------------------------------------------------------
// The index of names
// ---------------------------------------------------------------------------

/// Whether a path is that of a package.
pub open spec fn is_package(path: Seq<char>) -> bool {
    paths::base_name(path) matches Some(name) && (paths::extension_of(name) matches Some(e)
        && text::same_ignoring_case(e, "pak"@))
}

/// The letters and digits of the name of a file, without its extension.
pub open spec fn name_key_of(path: Seq<char>) -> Seq<char> {
    match paths::base_name(path) {
        Some(name) => text::alnum_key(paths::stem_of(name)),
        None => Seq::empty(),
    }
}

/// Whether `index` lists the packages among `files`, in order.
pub open spec fn indexes_packages(index: Seq<NativePakEntry>, files: Seq<Seq<char>>) -> bool {
    let found = files.filter(|p: Seq<char>| is_package(p));
    &&& index.len() == found.len()
    &&& forall|i: int|
        0 <= i < index.len() ==> (#[trigger] index[i]).path@ == found[i] && index[i].key()
            == name_key_of(found[i])
}

pub fn normalize_pak_key(value: &str) -> (r: String)
    ensures
        r@ == text::alnum_key(value@),
{
    to_alnum_key(value)
}

/// Whether a path is that of a package.
pub fn is_package_path(path: &str) -> (r: bool)
    ensures
        r == is_package(path@),
{
    match file_name(path) {
        Some(name) => has_extension(name.as_str(), "pak"),
        None => false,
    }
}

fn make_entry(path: &String) -> (r: NativePakEntry)
    ensures
        r.path == *path,
        r.key() == name_key_of(path@),
{
    let normalized = match file_name(path.as_str()) {
        Some(name) => {
            let s = stem(name.as_str());
            normalize_pak_key(s.as_str())
        },
        None => String::new(),
    };
    NativePakEntry { path: path.clone(), normalized }
}

/// The packages among the files of a directory.
pub fn build_native_pak_index(files: &Vec<String>) -> (out: Vec<NativePakEntry>)
    ensures
        indexes_packages(out@, text::texts(files@)),
{
    let ghost all = text::texts(files@);
    let ghost test = |p: Seq<char>| is_package(p);
    let mut out: Vec<NativePakEntry> = Vec::new();
    let mut i: usize = 0;
    proof {
        crate::lists::lemma_filter_whole(all, test);
    }
    while i < files.len()
        invariant
            i <= files.len(),
            all == text::texts(files@),
            test == (|p: Seq<char>| is_package(p)),
            out.len() == all.take(i as int).filter(test).len(),
            forall|k: int|
                0 <= k < out.len() ==> (#[trigger] out@[k]).path@ == all.take(i as int).filter(
                    test,
                )[k] && out@[k].key() == name_key_of(all.take(i as int).filter(test)[k]),
        decreases files.len() - i,
    {
        proof {
            crate::lists::lemma_keep_item(all, i as int, test);
        }
        if is_package_path(files[i].as_str()) {
            out.push(make_entry(&files[i]));
        }
        i = i + 1;
    }
    proof {
        crate::lists::lemma_filter_whole(all, test);
    }
    out
}

/// A list of packages, and when the directory had been modified that it is of.
#[derive(Debug)]
pub struct NativePakIndexCacheEntry {
    pub modified: Option<i64>,
    pub entries: Vec<NativePakEntry>,
}

fn copy_index(v: &Vec<NativePakEntry>) -> (out: Vec<NativePakEntry>)
    ensures
        out@ == v@,
{
    let mut out: Vec<NativePakEntry> = Vec::new();
    let mut i: usize = 0;
    while i < v.len()
        invariant
            i <= v.len(),
            out@ == v@.take(i as int),
        decreases v.len() - i,
    {
        out.push(v[i].clone());
        i = i + 1;
        assert(v@.take(i as int).drop_last() =~= v@.take(i - 1));
    }
    assert(v@.take(i as int) =~= v@);
    out
}

/// The packages of a directory: those of the last time where the directory has
/// the same modification time, else those among `files`, which are kept for the
/// next time.
pub fn build_native_pak_index_cached(
    cache: &mut StringHashMap<NativePakIndexCacheEntry>,
    dir: &str,
    stamp: Option<i64>,
    files: &Vec<String>,
) -> (out: Vec<NativePakEntry>)
    ensures
        ({
            let known = old(cache)@.contains_key(dir@) && old(cache)@[dir@].modified == stamp;
            &&& known ==> out@ == old(cache)@[dir@].entries@ && final(cache)@ == old(cache)@
            &&& !known ==> indexes_packages(out@, text::texts(files@))
                && final(cache)@.contains_key(dir@) && final(cache)@[dir@].modified == stamp
                && final(cache)@[dir@].entries@ == out@ && final(cache)@.remove(dir@) == old(
                cache,
            )@.remove(dir@)
        }),
{
    let known: Option<Vec<NativePakEntry>> = match cache.get(dir) {
        Some(entry) => if entry.modified == stamp {
            Some(copy_index(&entry.entries))
        } else {
            None
        },
        None => None,
    };
    if let Some(list) = known {
        return list;
    }
    let out = build_native_pak_index(files);
    let kept = copy_index(&out);
    let ghost before = cache@;
    cache.insert(dir.to_owned(), NativePakIndexCacheEntry { modified: stamp, entries: kept });
    assert(cache@.remove(dir@) =~= before.remove(dir@));
    out
}

// ---------------------------------------------------------------------------
// The index of metadata
// ---------------------------------------------------------------------------

/// The letters and digits of a text, unless there are none.
pub open spec fn key_opt(value: Option<Seq<char>>) -> Option<Seq<char>> {
    match value {
        Some(v) => if text::alnum_key(v).len() > 0 {
            Some(text::alnum_key(v))
        } else {
            None
        },
        None => None,
    }
}

pub fn normalize_key_opt(value: &Option<String>) -> (r: Option<String>)
    ensures
        text::text_opt(r) == key_opt(text::text_opt(*value)),
{
    match value {
        Some(v) => {
            let key = normalize_pak_key(v.as_str());
            if key.as_str().is_empty() {
                None
            } else {
                Some(key)
            }
        },
        None => None,
    }
}

/// The keys that metadata gives a package: of its id, its folder and its name.
pub fn meta_keys(meta: &Option<ModMeta>) -> (r: (Option<String>, Option<String>, Option<String>))
    ensures
        match meta {
            Some(m) => {
                &&& text::text_opt(r.0) == key_opt(text::text_opt(m.uuid))
                &&& text::text_opt(r.1) == key_opt(text::text_opt(m.folder))
                &&& text::text_opt(r.2) == key_opt(text::text_opt(m.name))
            },
            None => r.0 is None && r.1 is None && r.2 is None,
        },
{
    match meta {
        Some(m) => (
            normalize_key_opt(&m.uuid),
            normalize_key_opt(&m.folder),
            normalize_key_opt(&m.name),
        ),
        None => (None, None, None),
    }
}

/// The entry of a package with this metadata.
pub fn make_meta_entry(path: String, signature: PakSignature, meta: &Option<ModMeta>) -> (r:
    NativePakMetaEntry)
    ensures
        r.path == path,
        r.size == signature.size,
        r.modified == signature.modified,
        match meta {
            Some(m) => {
                &&& text::text_opt(r.uuid_key) == key_opt(text::text_opt(m.uuid))
                &&& text::text_opt(r.folder_key) == key_opt(text::text_opt(m.folder))
                &&& text::text_opt(r.name_key) == key_opt(text::text_opt(m.name))
            },
            None => r.uuid_key is None && r.folder_key is None && r.name_key is None,
        },
{
    let (uuid_key, folder_key, name_key) = meta_keys(meta);
    NativePakMetaEntry {
        path,
        size: signature.size,
        modified: signature.modified,
        uuid_key,
        folder_key,
        name_key,
    }
}

/// What was known of a package is still true: it was read before, and has the
/// same size and modification time.
pub fn reuse_meta_entry(
    previous: &StringHashMap<NativePakMetaEntry>,
    path: &str,
    signature: PakSignature,
) -> (r: Option<NativePakMetaEntry>)
    ensures
        match r {
            Some(e) => previous@.contains_key(path@) && e == previous@[path@] && e.size
                == signature.size && e.modified == signature.modified,
            None => !previous@.contains_key(path@) || previous@[path@].size != signature.size
                || previous@[path@].modified != signature.modified,
        },
{
    match previous.get(path) {
        Some(entry) => if entry.size == signature.size && entry.modified == signature.modified {
            Some(entry.clone())
        } else {
            None
        },
        None => None,
    }
}

fn signature_matches(index: &NativePakMetaIndex, i: usize) -> (r: bool)
    requires
        index.well_formed(),
        i < index.entries.len(),
    ensures
        r == index.is_fresh(i as int),
{
    match index.signatures[i] {
        Some(s) => s.size == index.entries[i].size && s.modified == index.entries[i].modified,
        None => false,
    }
}

// ---------------------------------------------------------------------------
// The best match by metadata
// ---------------------------------------------------------------------------

/// Two for the folder, one for the name.
pub open spec fn meta_score(
    e: NativePakMetaEntry,
    folder_key: Seq<char>,
    name_key: Seq<char>,
) -> int {
    (if folder_key.len() > 0 && text::text_opt(e.folder_key) == Some(folder_key) {
        2int
    } else {
        0int
    }) + if name_key.len() > 0 && text::text_opt(e.name_key) == Some(name_key) {
        1int
    } else {
        0int
    }
}

pub open spec fn modified_of(e: NativePakMetaEntry) -> i64 {
    match e.modified {
        Some(m) => m,
        None => 0,
    }
}

/// Whether `a` is a better match than `b`: a higher score, then a later
/// modification, then the path that comes first.
pub open spec fn better_match(
    a: NativePakMetaEntry,
    b: NativePakMetaEntry,
    folder_key: Seq<char>,
    name_key: Seq<char>,
) -> bool {
    let x = meta_score(a, folder_key, name_key);
    let y = meta_score(b, folder_key, name_key);
    if x != y {
        x > y
    } else if modified_of(a) != modified_of(b) {
        modified_of(a) > modified_of(b)
    } else {
        sorting::text_before(a.path@, b.path@)
    }
}

/// Whether `r` is the first of the best matches among the candidates that are as
/// they were when they were read.
pub open spec fn is_best_match(
    index: NativePakMetaIndex,
    accepts: spec_fn(NativePakMetaEntry) -> bool,
    folder_key: Seq<char>,
    name_key: Seq<char>,
    r: Option<usize>,
) -> bool {
    match r {
        None => forall|i: int|
            0 <= i < index.entries@.len() && accepts(#[trigger] index.entries@[i])
                ==> !index.is_fresh(i),
        Some(k) => {
            &&& k < index.entries@.len()
            &&& accepts(index.entries@[k as int])
            &&& index.is_fresh(k as int)
            &&& forall|i: int|
                0 <= i < index.entries@.len() && accepts(#[trigger] index.entries@[i])
                    && index.is_fresh(i) ==> !better_match(
                    index.entries@[i],
                    index.entries@[k as int],
                    folder_key,
                    name_key,
                )
        },
    }
}

/// Being a better match is transitive, and never mutual.
pub proof fn law_better_match(
    a: NativePakMetaEntry,
    b: NativePakMetaEntry,
    c: NativePakMetaEntry,
    folder_key: Seq<char>,
    name_key: Seq<char>,
)
    ensures
        better_match(a, b, folder_key, name_key) ==> !better_match(b, a, folder_key, name_key),
        better_match(a, b, folder_key, name_key) && better_match(b, c, folder_key, name_key)
            ==> better_match(a, c, folder_key, name_key),
        !better_match(a, b, folder_key, name_key) && !better_match(b, c, folder_key, name_key)
            ==> !better_match(a, c, folder_key, name_key),
{
    if sorting::text_before(a.path@, b.path@) {
        sorting::lemma_text_before_asymmetric(a.path@, b.path@);
        if sorting::text_before(b.path@, c.path@) {
            sorting::lemma_text_before_transitive(a.path@, b.path@, c.path@);
        }
    }
    sorting::lemma_text_before_total(a.path@, b.path@);
    sorting::lemma_text_before_total(b.path@, c.path@);
    if sorting::text_before(a.path@, c.path@) {
        sorting::lemma_text_before_asymmetric(a.path@, c.path@);
        if sorting::text_before(c.path@, b.path@) {
            sorting::lemma_text_before_transitive(a.path@, c.path@, b.path@);
        }
        if sorting::text_before(b.path@, a.path@) {
            sorting::lemma_text_before_transitive(b.path@, a.path@, c.path@);
        }
    }
}

fn is_key(value: &Option<String>, key: &str) -> (r: bool)
    ensures
        r == (text::text_opt(*value) == Some(key@)),
{
    match value {
        Some(v) => same_text(v.as_str(), key),
        None => false,
    }
}

fn score_meta(e: &NativePakMetaEntry, folder_key: &str, name_key: &str) -> (r: i32)
    ensures
        r == meta_score(*e, folder_key@, name_key@),
{
    let mut score: i32 = 0;
    if !folder_key.is_empty() && is_key(&e.folder_key, folder_key) {
        score = score + 2;
    }
    if !name_key.is_empty() && is_key(&e.name_key, name_key) {
        score = score + 1;
    }
    score
}

fn is_better(
    a: &NativePakMetaEntry,
    b: &NativePakMetaEntry,
    folder_key: &str,
    name_key: &str,
) -> (r: bool)
    ensures
        r == better_match(*a, *b, folder_key@, name_key@),
{
    let x = score_meta(a, folder_key, name_key);
    let y = score_meta(b, folder_key, name_key);
    let m: i64 = match a.modified {
        Some(v) => v,
        None => 0,
    };
    let n: i64 = match b.modified {
        Some(v) => v,
        None => 0,
    };
    if x != y {
        x > y
    } else if m != n {
        m > n
    } else {
        is_text_before(a.path.as_str(), b.path.as_str())
    }
}

/// The best match among the packages at `places`.
fn pick_best_meta_match(
    index: &NativePakMetaIndex,
    places: &Vec<usize>,
    folder_key: &str,
    name_key: &str,
    Ghost(accepts): Ghost<spec_fn(NativePakMetaEntry) -> bool>,
) -> (r: Option<usize>)
    requires
        index.well_formed(),
        forall|k: int|
            0 <= k < places.len() ==> (#[trigger] places@[k]) < index.entries.len() && accepts(
                index.entries@[places@[k] as int],
            ),
        forall|i: int|
            0 <= i < index.entries@.len() && accepts(#[trigger] index.entries@[i]) ==> exists|
                k: int,
            |
                0 <= k < places.len() && (#[trigger] places@[k]) == i,
    ensures
        is_best_match(*index, accepts, folder_key@, name_key@, r),
{
    let mut best: Option<usize> = None;
    let mut k: usize = 0;
    while k < places.len()
        invariant
            k <= places.len(),
            index.well_formed(),
            forall|j: int|
                0 <= j < places.len() ==> (#[trigger] places@[j]) < index.entries.len() && accepts(
                    index.entries@[places@[j] as int],
                ),
            match best {
                None => forall|j: int|
                    0 <= j < k ==> !index.is_fresh((#[trigger] places@[j]) as int),
                Some(b) => {
                    &&& b < index.entries.len()
                    &&& accepts(index.entries@[b as int])
                    &&& index.is_fresh(b as int)
                    &&& forall|j: int|
                        0 <= j < k && index.is_fresh((#[trigger] places@[j]) as int)
                            ==> !better_match(
                            index.entries@[places@[j] as int],
                            index.entries@[b as int],
                            folder_key@,
                            name_key@,
                        )
                },
            },
        decreases places.len() - k,
    {
        let i = places[k];
        if signature_matches(index, i) {
            match best {
                None => {
                    proof {
                        law_better_match(
                            index.entries@[i as int],
                            index.entries@[i as int],
                            index.entries@[i as int],
                            folder_key@,
                            name_key@,
                        );
                    }
                    best = Some(i);
                },
                Some(b) => {
                    if is_better(&index.entries[i], &index.entries[b], folder_key, name_key) {
                        proof {
                            assert forall|j: int|
                                0 <= j < k + 1 && index.is_fresh(
                                    (#[trigger] places@[j]) as int,
                                ) implies !better_match(
                                index.entries@[places@[j] as int],
                                index.entries@[i as int],
                                folder_key@,
                                name_key@,
                            ) by {
                                let e = index.entries@[places@[j] as int];
                                law_better_match(
                                    index.entries@[i as int],
                                    index.entries@[b as int],
                                    e,
                                    folder_key@,
                                    name_key@,
                                );
                                law_better_match(
                                    e,
                                    index.entries@[b as int],
                                    index.entries@[i as int],
                                    folder_key@,
                                    name_key@,
                                );
                                law_better_match(e, e, e, folder_key@, name_key@);
                            }
                        }
                        best = Some(i);
                    }
                },
            }
        }
        k = k + 1;
    }
    proof {
        match best {
            None => {
                assert forall|i: int|
                    0 <= i < index.entries@.len() && accepts(
                        #[trigger] index.entries@[i],
                    ) implies !index.is_fresh(i) by {
                    let j = choose|j: int| 0 <= j < places.len() && (#[trigger] places@[j]) == i;
                    assert(!index.is_fresh(places@[j] as int));
                }
            },
            Some(b) => {
                assert forall|i: int|
                    0 <= i < index.entries@.len() && accepts(#[trigger] index.entries@[i])
                        && index.is_fresh(i) implies !better_match(
                    index.entries@[i],
                    index.entries@[b as int],
                    folder_key@,
                    name_key@,
                ) by {
                    let j = choose|j: int| 0 <= j < places.len() && (#[trigger] places@[j]) == i;
                    assert(index.is_fresh(places@[j] as int));
                }
            },
        }
    }
    best
}

pub open spec fn has_uuid(key: Seq<char>) -> spec_fn(NativePakMetaEntry) -> bool {
    |e: NativePakMetaEntry| text::text_opt(e.uuid_key) == Some(key)
}

pub open spec fn has_folder_or_name(
    folder: Seq<char>,
    name: Seq<char>,
) -> spec_fn(NativePakMetaEntry) -> bool {
    |e: NativePakMetaEntry|
        text::text_opt(e.folder_key) == Some(folder) || text::text_opt(e.name_key) == Some(name)
}

/// Whether some package is accepted.
pub open spec fn any_accepted(
    index: NativePakMetaIndex,
    accepts: spec_fn(NativePakMetaEntry) -> bool,
) -> bool {
    exists|i: int| 0 <= i < index.entries@.len() && accepts(#[trigger] index.entries@[i])
}

/// The packages with the id.
fn find_by_uuid(index: &NativePakMetaIndex, key: &str) -> (out: Vec<usize>)
    ensures
        forall|k: int|
            0 <= k < out.len() ==> (#[trigger] out@[k]) < index.entries.len() && has_uuid(key@)(
                index.entries@[out@[k] as int],
            ),
        forall|i: int|
            0 <= i < index.entries@.len() && has_uuid(key@)(#[trigger] index.entries@[i])
                ==> exists|k: int| 0 <= k < out.len() && (#[trigger] out@[k]) == i,
{
    let mut out: Vec<usize> = Vec::new();
    let mut i: usize = 0;
    while i < index.entries.len()
        invariant
            i <= index.entries.len(),
            forall|k: int|
                0 <= k < out.len() ==> (#[trigger] out@[k]) < index.entries.len() && has_uuid(
                    key@,
                )(index.entries@[out@[k] as int]),
            forall|j: int|
                0 <= j < i && has_uuid(key@)(#[trigger] index.entries@[j]) ==> exists|k: int|
                    0 <= k < out.len() && (#[trigger] out@[k]) == j,
        decreases index.entries.len() - i,
    {
        let ghost before = out@;
        if is_key(&index.entries[i].uuid_key, key) {
            out.push(i);
        }
        proof {
            assert forall|j: int|
                0 <= j < i + 1 && has_uuid(key@)(#[trigger] index.entries@[j]) implies exists|
                k: int,
            |
                0 <= k < out.len() && (#[trigger] out@[k]) == j by {
                if j < i {
                    let k = choose|k: int| 0 <= k < before.len() && (#[trigger] before[k]) == j;
                    assert(out@[k] == j);
                } else {
                    assert(out@[before.len() as int] == j);
                }
            }
        }
        i = i + 1;
    }
    out
}

/// The packages with the folder or the name.
fn find_by_names(index: &NativePakMetaIndex, folder: &str, name: &str) -> (out: Vec<usize>)
    ensures
        forall|k: int|
            0 <= k < out.len() ==> (#[trigger] out@[k]) < index.entries.len()
                && has_folder_or_name(folder@, name@)(index.entries@[out@[k] as int]),
        forall|i: int|
            0 <= i < index.entries@.len() && has_folder_or_name(folder@, name@)(
                #[trigger] index.entries@[i],
            ) ==> exists|k: int| 0 <= k < out.len() && (#[trigger] out@[k]) == i,
{
    let mut out: Vec<usize> = Vec::new();
    let mut i: usize = 0;
    while i < index.entries.len()
        invariant
            i <= index.entries.len(),
            forall|k: int|
                0 <= k < out.len() ==> (#[trigger] out@[k]) < index.entries.len()
                    && has_folder_or_name(folder@, name@)(index.entries@[out@[k] as int]),
            forall|j: int|
                0 <= j < i && has_folder_or_name(folder@, name@)(#[trigger] index.entries@[j])
                    ==> exists|k: int| 0 <= k < out.len() && (#[trigger] out@[k]) == j,
        decreases index.entries.len() - i,
    {
        let ghost before = out@;
        if is_key(&index.entries[i].folder_key, folder) || is_key(
            &index.entries[i].name_key,
            name,
        ) {
            out.push(i);
        }
        proof {
            assert forall|j: int|
                0 <= j < i + 1 && has_folder_or_name(folder@, name@)(
                    #[trigger] index.entries@[j],
                ) implies exists|k: int| 0 <= k < out.len() && (#[trigger] out@[k]) == j by {
                if j < i {
                    let k = choose|k: int| 0 <= k < before.len() && (#[trigger] before[k]) == j;
                    assert(out@[k] == j);
                } else {
                    assert(out@[before.len() as int] == j);
                }
            }
        }
        i = i + 1;
    }
    out
}

/// Whether `r` is the package of a module by metadata: the best match of those
/// with its id, or, where no package has it, of those with its folder or name.
pub open spec fn resolves_by_meta(
    info: PakInfo,
    index: NativePakMetaIndex,
    r: Option<usize>,
) -> bool {
    let uuid = text::alnum_key(info.uuid@);
    let folder = text::alnum_key(info.folder@);
    let name = text::alnum_key(info.name@);
    if uuid.len() > 0 && any_accepted(index, has_uuid(uuid)) {
        is_best_match(index, has_uuid(uuid), folder, name, r)
    } else if folder.len() == 0 && name.len() == 0 {
        r is None
    } else {
        is_best_match(index, has_folder_or_name(folder, name), folder, name, r)
    }
}

pub fn resolve_native_pak_path_by_meta(info: &PakInfo, index: &NativePakMetaIndex) -> (r: Option<
    usize,
>)
    requires
        index.well_formed(),
    ensures
        resolves_by_meta(*info, *index, r),
        r matches Some(k) ==> k < index.entries.len(),
{
    let uuid = normalize_pak_key(info.uuid.as_str());
    let folder = normalize_pak_key(info.folder.as_str());
    let name = normalize_pak_key(info.name.as_str());
    if !uuid.as_str().is_empty() {
        let places = find_by_uuid(index, uuid.as_str());
        if places.len() > 0 {
            assert(has_uuid(uuid@)(index.entries@[places@[0] as int]));
            assert(any_accepted(*index, has_uuid(uuid@)));
            return pick_best_meta_match(
                index,
                &places,
                folder.as_str(),
                name.as_str(),
                Ghost(has_uuid(uuid@)),
            );
        }
        assert(!any_accepted(*index, has_uuid(uuid@)));
    }
    if folder.as_str().is_empty() && name.as_str().is_empty() {
        return None;
    }
    let places = find_by_names(index, folder.as_str(), name.as_str());
    pick_best_meta_match(
        index,
        &places,
        folder.as_str(),
        name.as_str(),
        Ghost(has_folder_or_name(folder@, name@)),
    )
}

// ---------------------------------------------------------------------------
// The best match by file name
// ---------------------------------------------------------------------------

/// How well a name matches, and by how many characters it is longer.
#[derive(Debug, Clone, Copy, PartialEq, Eq, Structural)]
pub struct MatchDetail {
    pub score: i32,
    pub len_diff: usize,
}

/// How a key matches a name: as a whole, at its start, or somewhere in it.
pub open spec fn detail(
    hay: Seq<char>,
    needle: Seq<char>,
    exact: int,
    prefix: int,
    contains: int,
) -> Option<(int, nat)> {
    if needle.len() == 0 {
        None
    } else if hay == needle {
        Some((exact, 0nat))
    } else if text::starts_with(hay, needle) {
        Some((prefix, (hay.len() - needle.len()) as nat))
    } else if text::contains_text(hay, needle) {
        Some((contains, (hay.len() - needle.len()) as nat))
    } else {
        None
    }
}

pub fn match_detail(hay: &str, needle: &str, exact: i32, prefix: i32, contains: i32) -> (r: Option<
    MatchDetail,
>)
    ensures
        match r {
            Some(d) => detail(hay@, needle@, exact as int, prefix as int, contains as int) == Some(
                (d.score as int, d.len_diff as nat),
            ),
            None => detail(hay@, needle@, exact as int, prefix as int, contains as int) is None,
        },
{
    if needle.is_empty() {
        return None;
    }
    if same_text(hay, needle) {
        return Some(MatchDetail { score: exact, len_diff: 0 });
    }
    let h = to_chars(hay);
    let n = to_chars(needle);
    if has_prefix(hay, needle) {
        return Some(MatchDetail { score: prefix, len_diff: h.len() - n.len() });
    }
    if has_text(hay, needle) {
        proof {
            let i = choose|i: int| text::stands_at(hay@, needle@, i);
            assert(i + needle@.len() <= hay@.len());
        }
        return Some(MatchDetail { score: contains, len_diff: h.len() - n.len() });
    }
    None
}

/// The first `n` characters, if there are so many.
pub open spec fn head(s: Seq<char>, n: int) -> Seq<char> {
    if s.len() >= n {
        s.take(n)
    } else {
        Seq::empty()
    }
}

/// The keys that the name of a package is held against.
pub struct NameKeys {
    pub uuid: Seq<char>,
    pub uuid_prefix: Seq<char>,
    pub uuid_short: Seq<char>,
    pub folder: Seq<char>,
    pub folder_base: Seq<char>,
    pub name: Seq<char>,
}

/// The keys of a module: its id, the first sixteen or else twelve and the first
/// eight characters of it, its folder, what stands before the first underscore of
/// the folder, and its name.
pub open spec fn name_keys(info: PakInfo) -> NameKeys {
    let uuid = text::alnum_key(info.uuid@);
    let folder = text::alnum_key(info.folder@);
    let base = text::alnum_key(text::split_any(info.folder@, "_"@)[0]);
    NameKeys {
        uuid,
        uuid_prefix: if uuid.len() >= 16 {
            head(uuid, 16)
        } else {
            head(uuid, 12)
        },
        uuid_short: head(uuid, 8),
        folder,
        folder_base: if base == folder {
            Seq::empty()
        } else {
            base
        },
        name: text::alnum_key(info.name@),
    }
}

pub open spec fn least(a: nat, b: nat) -> nat {
    if a <= b {
        a
    } else {
        b
    }
}

/// The score so far with a match taken into account.
pub open spec fn plus(total: (int, nat), d: Option<(int, nat)>) -> (int, nat) {
    match d {
        Some((score, diff)) => (total.0 + score, least(total.1, diff)),
        None => total,
    }
}

/// How well the name of a package matches the keys, and how close it comes.
pub open spec fn name_score(hay: Seq<char>, k: NameKeys) -> (int, nat) {
    let a = plus((0int, usize::MAX as nat), detail(hay, k.uuid, 120, 110, 80));
    let b = plus(a, detail(hay, k.uuid_prefix, 70, 55, 35));
    let c = plus(b, detail(hay, k.uuid_short, 55, 40, 25));
    let d = plus(c, detail(hay, k.folder, 90, 70, 50));
    let e = plus(d, detail(hay, k.folder_base, 75, 55, 35));
    plus(e, detail(hay, k.name, 85, 65, 45))
}

/// Whether a score is better: higher, or as high and closer.
pub open spec fn better_score(a: (int, nat), b: (int, nat)) -> bool {
    a.0 > b.0 || (a.0 == b.0 && a.1 < b.1)
}

/// Whether `r` is the first of the packages whose names match best.
pub open spec fn resolves_by_name(
    info: PakInfo,
    index: Seq<NativePakEntry>,
    r: Option<usize>,
) -> bool {
    let k = name_keys(info);
    match r {
        None => forall|i: int| 0 <= i < index.len() ==> name_score((#[trigger] index[i]).key(), k).0 == 0,
        Some(b) => {
            &&& b < index.len()
            &&& name_score(index[b as int].key(), k).0 > 0
            &&& forall|i: int|
                0 <= i < index.len() ==> {
                    &&& !better_score(
                        name_score((#[trigger] index[i]).key(), k),
                        name_score(index[b as int].key(), k),
                    )
                    &&& i < b ==> better_score(
                        name_score(index[b as int].key(), k),
                        name_score(index[i].key(), k),
                    )
                }
        },
    }
}

/// The keys of a module, as texts.
struct KeyTexts {
    uuid: String,
    uuid_prefix: String,
    uuid_short: String,
    folder: String,
    folder_base: String,
    name: String,
}

impl KeyTexts {
    spec fn keys(self) -> NameKeys {
        NameKeys {
            uuid: self.uuid@,
            uuid_prefix: self.uuid_prefix@,
            uuid_short: self.uuid_short@,
            folder: self.folder@,
            folder_base: self.folder_base@,
            name: self.name@,
        }
    }
}

fn take_head(v: &Vec<char>, n: usize) -> (r: String)
    ensures
        r@ == head(v@, n as int),
{
    if v.len() >= n {
        let r = from_range(v, 0, n);
        assert(r@ =~= v@.take(n as int));
        r
    } else {
        String::new()
    }
}

fn make_keys(info: &PakInfo) -> (r: KeyTexts)
    ensures
        r.keys() == name_keys(*info),
{
    let uuid = normalize_pak_key(info.uuid.as_str());
    let folder = normalize_pak_key(info.folder.as_str());
    let pieces = text::split(info.folder.as_str(), "_");
    assert(text::texts(pieces@)[0] == pieces@[0]@);
    let base = normalize_pak_key(pieces[0].as_str());
    let v = to_chars(uuid.as_str());
    let uuid_prefix = if v.len() >= 16 {
        take_head(&v, 16)
    } else {
        take_head(&v, 12)
    };
    let uuid_short = take_head(&v, 8);
    let folder_base = if same_text(base.as_str(), folder.as_str()) {
        String::new()
    } else {
        base
    };
    KeyTexts {
        uuid,
        uuid_prefix,
        uuid_short,
        folder,
        folder_base,
        name: normalize_pak_key(info.name.as_str()),
    }
}

fn take_into_account(total: MatchDetail, d: Option<MatchDetail>) -> (r: MatchDetail)
    requires
        0 <= total.score <= 1000,
        d matches Some(x) ==> 0 < x.score <= 120,
    ensures
        (r.score as int, r.len_diff as nat) == plus(
            (total.score as int, total.len_diff as nat),
            match d {
                Some(x) => Some((x.score as int, x.len_diff as nat)),
                None => None,
            },
        ),
        0 <= r.score <= total.score + 120,
        d is Some ==> r.score > total.score,
{
    match d {
        Some(x) => MatchDetail {
            score: total.score + x.score,
            len_diff: if total.len_diff <= x.len_diff {
                total.len_diff
            } else {
                x.len_diff
            },
        },
        None => total,
    }
}

fn score_name(hay: &str, k: &KeyTexts) -> (r: MatchDetail)
    ensures
        (r.score as int, r.len_diff as nat) == name_score(hay@, k.keys()),
        r.score >= 0,
{
    let start = MatchDetail { score: 0, len_diff: usize::MAX };
    let a = take_into_account(start, match_detail(hay, k.uuid.as_str(), 120, 110, 80));
    let b = take_into_account(a, match_detail(hay, k.uuid_prefix.as_str(), 70, 55, 35));
    let c = take_into_account(b, match_detail(hay, k.uuid_short.as_str(), 55, 40, 25));
    let d = take_into_account(c, match_detail(hay, k.folder.as_str(), 90, 70, 50));
    let e = take_into_account(d, match_detail(hay, k.folder_base.as_str(), 75, 55, 35));
    take_into_account(e, match_detail(hay, k.name.as_str(), 85, 65, 45))
}

pub fn resolve_native_pak_path_by_filename(info: &PakInfo, index: &[NativePakEntry]) -> (r: Option<
    usize,
>)
    ensures
        resolves_by_name(*info, index@, r),
{
    let keys = make_keys(info);
    let ghost k = name_keys(*info);
    let mut best: Option<(usize, MatchDetail)> = None;
    let mut i: usize = 0;
    while i < index.len()
        invariant
            i <= index.len(),
            k == name_keys(*info),
            keys.keys() == k,
            match best {
                None => forall|j: int|
                    0 <= j < i ==> name_score((#[trigger] index@[j]).key(), k).0 == 0,
                Some((b, d)) => {
                    &&& b < i
                    &&& d.score > 0
                    &&& name_score(index@[b as int].key(), k) == (d.score as int, d.len_diff as nat)
                    &&& forall|j: int|
                        0 <= j < i ==> {
                            &&& !better_score(
                                name_score((#[trigger] index@[j]).key(), k),
                                (d.score as int, d.len_diff as nat),
                            )
                            &&& j < b ==> better_score(
                                (d.score as int, d.len_diff as nat),
                                name_score(index@[j].key(), k),
                            )
                        }
                },
            },
        decreases index.len() - i,
    {
        let d = score_name(index[i].normalized.as_str(), &keys);
        assert(name_score(index@[i as int].key(), k) == (d.score as int, d.len_diff as nat));
        if d.score > 0 {
            match best {
                None => {
                    best = Some((i, d));
                },
                Some((_, known)) => {
                    if d.score > known.score || (d.score == known.score && d.len_diff
                        < known.len_diff) {
                        best = Some((i, d));
                    }
                },
            }
        }
        i = i + 1;
    }
    match best {
        Some((b, _)) => Some(b),
        None => None,
    }
}

// ---------------------------------------------------------------------------
// Looking up a package
// ---------------------------------------------------------------------------

/// How a look-up ends: with a package, with the wish for a fresh index of
/// metadata, or with nothing.
#[derive(Debug)]
pub enum NativeLookup {
    Found(String),
    Refresh,
    NotFound,
}

/// Whether a path has a parent: it has a component.
pub open spec fn has_parent(path: Seq<char>) -> bool {
    paths::parts(path).len() > 0 || path == "."@ || text::starts_with(path, "./"@)
}

fn path_has_parent(path: &str) -> (r: bool)
    ensures
        r == has_parent(path@),
{
    let found = split_parts(path);
    found.len() > 0 || same_text(path, ".") || has_prefix(path, "./")
}

/// Finds the package of a module: by metadata, else, once the index of metadata
/// is fresh, by the name of the file.
pub fn resolve_native_pak_path(
    info: &PakInfo,
    index: &[NativePakEntry],
    meta: &NativePakMetaIndex,
    is_refreshed: bool,
) -> (r: NativeLookup)
    requires
        meta.well_formed(),
    ensures
        index@.len() == 0 ==> r is NotFound,
        index@.len() > 0 ==> exists|m: Option<usize>, n: Option<usize>|
            {
                &&& #[trigger] resolves_by_meta(*info, *meta, m)
                &&& #[trigger] resolves_by_name(*info, index@, n)
                &&& if has_parent(index@[0].path@) && m is Some {
                    r matches NativeLookup::Found(p) && p == meta.entries@[m->0 as int].path
                } else if has_parent(index@[0].path@) && !is_refreshed {
                    r is Refresh
                } else if n is Some {
                    r matches NativeLookup::Found(p) && p == index@[n->0 as int].path
                } else {
                    r is NotFound
                }
            },
{
    if index.len() == 0 {
        return NativeLookup::NotFound;
    }
    let m = resolve_native_pak_path_by_meta(info, meta);
    let n = resolve_native_pak_path_by_filename(info, index);
    assert(resolves_by_meta(*info, *meta, m));
    assert(resolves_by_name(*info, index@, n));
    if path_has_parent(index[0].path.as_str()) {
        if let Some(k) = m {
            return NativeLookup::Found(meta.entries[k].path.clone());
        }
        if !is_refreshed {
            return NativeLookup::Refresh;
        }
    }
    match n {
        Some(k) => NativeLookup::Found(index[k].path.clone()),
        None => NativeLookup::NotFound,
    }
}

/// Finds the package of a module by its id alone.
pub fn resolve_native_pak_path_by_uuid(
    uuid: &str,
    index: &[NativePakEntry],
    meta: &NativePakMetaIndex,
    is_refreshed: bool,
) -> (r: NativeLookup)
    requires
        meta.well_formed(),
    ensures
        ({
            let key = text::alnum_key(uuid@);
            if index@.len() == 0 || !has_parent(index@[0].path@) || key.len() == 0 {
                r is NotFound
            } else if !any_accepted(*meta, has_uuid(key)) {
                if is_refreshed {
                    r is NotFound
                } else {
                    r is Refresh
                }
            } else {
                exists|m: Option<usize>| #[trigger]
                    is_best_match(*meta, has_uuid(key), Seq::empty(), Seq::empty(), m) && match m {
                        Some(k) => r matches NativeLookup::Found(p) && p
                            == meta.entries@[k as int].path,
                        None => r is NotFound,
                    }
            }
        }),
{
    if index.len() == 0 || !path_has_parent(index[0].path.as_str()) {
        return NativeLookup::NotFound;
    }
    let key = normalize_pak_key(uuid);
    if key.as_str().is_empty() {
        return NativeLookup::NotFound;
    }
    let places = find_by_uuid(meta, key.as_str());
    if places.len() == 0 {
        return if is_refreshed {
            NativeLookup::NotFound
        } else {
            NativeLookup::Refresh
        };
    }
    assert(has_uuid(key@)(meta.entries@[places@[0] as int]));
    let empty = String::new();
    let m = pick_best_meta_match(
        meta,
        &places,
        empty.as_str(),
        empty.as_str(),
        Ghost(has_uuid(key@)),
    );
    assert(empty@ =~= Seq::empty());
    assert(is_best_match(*meta, has_uuid(key@), Seq::empty(), Seq::empty(), m));
    match m {
        Some(k) => NativeLookup::Found(meta.entries[k].path.clone()),
        None => NativeLookup::NotFound,
    }
}

/// The file name that a look-up found.
pub fn resolve_native_pak_filename(found: &NativeLookup) -> (r: Option<String>)
    ensures
        text::text_opt(r) == match found {
            NativeLookup::Found(p) => paths::base_name(p@),
            _ => None,
        },
{
    match found {
        NativeLookup::Found(p) => file_name(p.as_str()),
        _ => None,
    }
}

} // verus!
