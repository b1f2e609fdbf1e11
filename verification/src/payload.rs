//! What a directory that is imported holds.
use crate::deploy;
use crate::deploy::is_ignored_deploy_path;
use crate::info_json;
use crate::paths;
use crate::paths::{extension, file_name, lies_within, split_components, split_parts};
use crate::text;
use crate::text::{eq_ignore_case, has_text, same_text, to_ascii_lower, to_lowercase};
use vstd::prelude::*;

verus! {

/// A file or directory found below a directory.
#[derive(Debug)]
pub struct WalkedEntry {
    pub path: String,
    pub is_file: bool,
    pub is_dir: bool,
}

/// The parts of an import that are installed.
#[derive(Debug)]
pub struct PayloadScan {
    pub pak_files: Vec<String>,
    pub data_dir: Option<String>,
    pub generated_dir: Option<String>,
    pub bin_dir: Option<String>,
    pub public_dir: Option<String>,
    pub meta_file: Option<String>,
    pub info_json: Option<String>,
}

// ---------------------------------------------------------------------------
// Names and depths
// ---------------------------------------------------------------------------

/// The last name of a path; the path itself where it has none.
pub open spec fn entry_name(path: Seq<char>) -> Seq<char> {
    match paths::base_name(path) {
        Some(n) => n,
        None => path,
    }
}

/// What a path is called where it is shown.
pub fn display_path_label(path: &str) -> (r: String)
    ensures
        r@ == entry_name(path@),
{
    match file_name(path) {
        Some(n) => n,
        None => path.to_owned(),
    }
}

/// How many names a path has below a directory.
pub open spec fn depth_below(root: Seq<char>, path: Seq<char>) -> nat {
    if paths::is_within(path, root) {
        (paths::components(path).len() - paths::components(root).len()) as nat
    } else {
        usize::MAX as nat
    }
}

pub fn relative_depth(root: &str, path: &str) -> (r: usize)
    ensures
        r == depth_below(root@, path@),
{
    if lies_within(path, root) {
        let inner = split_components(path);
        let outer = split_components(root);
        assert(text::texts(inner@).len() == inner.len());
        assert(text::texts(outer@).len() == outer.len());
        inner.len() - outer.len()
    } else {
        usize::MAX
    }
}

/// Whether a directory above the path has the name, whatever the case.
pub open spec fn is_below_named(path: Seq<char>, name: Seq<char>) -> bool {
    exists|i: int|
        0 <= i < paths::parts(path).len() - 1 && text::same_ignoring_case(
            #[trigger] paths::parts(path)[i],
            name,
        )
}

pub fn has_parent_named(path: &str, needle: &str) -> (r: bool)
    ensures
        r == is_below_named(path@, needle@),
{
    let found = split_parts(path);
    let ghost all = paths::parts(path@);
    assert(text::texts(found@).len() == found.len());
    let mut i: usize = 0;
    while found.len() > 0 && i < found.len() - 1
        invariant
            i <= found.len(),
            all == paths::parts(path@),
            text::texts(found@) == all,
            all.len() == found.len(),
            forall|k: int| 0 <= k < i ==> !text::same_ignoring_case(#[trigger] all[k], needle@),
        decreases found.len() - i,
    {
        assert(all[i as int] == found@[i as int]@);
        if eq_ignore_case(found[i].as_str(), needle) {
            return true;
        }
        i = i + 1;
    }
    false
}

/// Whether a file beside the executable marks its directory.
pub open spec fn marks_bin(name: Seq<char>) -> bool {
    let lower = text::ascii_lower(name);
    ||| lower == "dwrite.dll"@
    ||| lower == "bink2w64.dll"@
    ||| lower == "scriptendersettings.json"@
    ||| text::contains_text(lower, "scriptextender"@)
    ||| text::contains_text(lower, "bg3se"@)
}

pub fn is_bin_root_file(name: &str) -> (r: bool)
    ensures
        r == marks_bin(name@),
{
    let lower = to_ascii_lower(name);
    let l = lower.as_str();
    same_text(l, "dwrite.dll") || same_text(l, "bink2w64.dll") || same_text(
        l,
        "scriptendersettings.json",
    ) || has_text(l, "scriptextender") || has_text(l, "bg3se")
}

/// The extension of a path's last name.
pub open spec fn path_extension(path: Seq<char>) -> Option<Seq<char>> {
    match paths::base_name(path) {
        Some(n) => paths::extension_of(n),
        None => None,
    }
}

pub fn find_extension(path: &str) -> (r: Option<String>)
    ensures
        text::text_opt(r) == path_extension(path@),
{
    match file_name(path) {
        Some(n) => extension(n.as_str()),
        None => None,
    }
}

// ---------------------------------------------------------------------------
// Picking the best
// ---------------------------------------------------------------------------

/// What something in an import can serve as.
#[derive(Debug, Clone, Copy, PartialEq, Eq, Structural)]
pub enum Role {
    Data,
    Generated,
    Bin,
    Public,
    Meta,
    Info,
}

/// How well an entry serves, the smaller the better.
pub open spec fn role_rank(role: Role, root: Seq<char>, e: WalkedEntry) -> Option<(nat, nat)> {
    let name = entry_name(e.path@);
    let lower = text::unicode_lowercase(name);
    let depth = depth_below(root, e.path@);
    if deploy::is_ignored(e.path@) {
        None
    } else {
        match role {
            Role::Data => if e.is_dir && lower == "data"@ {
                Some((0nat, depth))
            } else {
                None
            },
            Role::Generated => if e.is_dir && lower == "generated"@ {
                Some((0nat, depth))
            } else {
                None
            },
            Role::Bin => if e.is_dir && lower == "bin"@ {
                Some((0nat, depth))
            } else {
                None
            },
            Role::Public => if e.is_dir && lower == "public"@ && !is_below_named(
                e.path@,
                "generated"@,
            ) && !is_below_named(e.path@, "data"@) {
                Some((0nat, depth))
            } else {
                None
            },
            Role::Meta => if e.is_file && text::same_ignoring_case(name, "meta.lsx"@) {
                Some(
                    (
                        if is_below_named(e.path@, "Mods"@) {
                            0nat
                        } else {
                            1nat
                        },
                        depth,
                    ),
                )
            } else {
                None
            },
            Role::Info => if !e.is_file {
                None
            } else if text::ascii_lower(name) == "info.json"@ {
                Some((0nat, depth))
            } else if text::ascii_lower(name) == "mod.json"@ {
                Some((1nat, depth))
            } else if text::ascii_lower(name) == "modinfo.json"@ {
                Some((2nat, depth))
            } else {
                None
            },
        }
    }
}

fn is_dir_named(e: &WalkedEntry, name: &str) -> (r: bool)
    ensures
        r == (e.is_dir && text::unicode_lowercase(entry_name(e.path@)) == name@),
{
    if !e.is_dir {
        return false;
    }
    let shown = display_path_label(e.path.as_str());
    let lower = to_lowercase(shown.as_str());
    same_text(lower.as_str(), name)
}

fn find_rank(role: Role, root: &str, e: &WalkedEntry) -> (r: Option<(usize, usize)>)
    ensures
        match r {
            Some(k) => role_rank(role, root@, *e) == Some((k.0 as nat, k.1 as nat)),
            None => role_rank(role, root@, *e) is None,
        },
{
    let path = e.path.as_str();
    let first: Option<usize> = match role {
        Role::Data => if is_dir_named(e, "data") {
            Some(0)
        } else {
            None
        },
        Role::Generated => if is_dir_named(e, "generated") {
            Some(0)
        } else {
            None
        },
        Role::Bin => if is_dir_named(e, "bin") {
            Some(0)
        } else {
            None
        },
        Role::Public => if is_dir_named(e, "public") && !has_parent_named(path, "generated")
            && !has_parent_named(path, "data") {
            Some(0)
        } else {
            None
        },
        Role::Meta => if e.is_file && eq_ignore_case(
            display_path_label(path).as_str(),
            "meta.lsx",
        ) {
            if has_parent_named(path, "Mods") {
                Some(0)
            } else {
                Some(1)
            }
        } else {
            None
        },
        Role::Info => if e.is_file {
            let name = display_path_label(path);
            let lower = to_ascii_lower(name.as_str());
            if same_text(lower.as_str(), "info.json") {
                Some(0)
            } else if same_text(lower.as_str(), "mod.json") {
                Some(1)
            } else if same_text(lower.as_str(), "modinfo.json") {
                Some(2)
            } else {
                None
            }
        } else {
            None
        },
    };
    match first {
        Some(a) => if is_ignored_deploy_path(path) {
            None
        } else {
            Some((a, relative_depth(root, path)))
        },
        None => None,
    }
}

/// The entry among the first `n` that serves best, the first of several.
pub open spec fn best(role: Role, root: Seq<char>, list: Seq<WalkedEntry>, n: int) -> Option<
    (int, (nat, nat)),
>
    decreases n,
{
    if n <= 0 {
        None
    } else {
        let before = best(role, root, list, n - 1);
        match role_rank(role, root, list[n - 1]) {
            None => before,
            Some(k) => match before {
                None => Some((n - 1, k)),
                Some((i, b)) => if info_json::rank_before(k, b) {
                    Some((n - 1, k))
                } else {
                    before
                },
            },
        }
    }
}

/// The path of the entry that serves best.
pub open spec fn best_path(role: Role, root: Seq<char>, list: Seq<WalkedEntry>) -> Option<
    Seq<char>,
> {
    match best(role, root, list, list.len() as int) {
        Some((i, _)) => Some(list[i].path@),
        None => None,
    }
}

fn pick_best(role: Role, root: &str, list: &[WalkedEntry]) -> (r: Option<String>)
    ensures
        text::text_opt(r) == best_path(role, root@, list@),
{
    let mut found: Option<(usize, (usize, usize))> = None;
    let mut i: usize = 0;
    while i < list.len()
        invariant
            i <= list.len(),
            match found {
                Some((k, key)) => k < i && best(role, root@, list@, i as int) == Some(
                    (k as int, (key.0 as nat, key.1 as nat)),
                ),
                None => best(role, root@, list@, i as int) is None,
            },
        decreases list.len() - i,
    {
        if let Some(key) = find_rank(role, root, &list[i]) {
            let better = match found {
                Some((_, b)) => key.0 < b.0 || (key.0 == b.0 && key.1 < b.1),
                None => true,
            };
            if better {
                found = Some((i, key));
            }
        }
        i = i + 1;
    }
    match found {
        Some((k, _)) => Some(list[k].path.clone()),
        None => None,
    }
}

/// No entry serves better than the best, and none before it serves as well.
pub proof fn law_best_is_best(role: Role, root: Seq<char>, list: Seq<WalkedEntry>, n: int, j: int)
    requires
        0 <= j < n <= list.len(),
        role_rank(role, root, list[j]) is Some,
    ensures
        best(role, root, list, n) matches Some((i, k)) && 0 <= i < n && role_rank(role, root, list[i])
            == Some(k) && !info_json::rank_before(role_rank(role, root, list[j])->0, k) && (j < i
            ==> info_json::rank_before(k, role_rank(role, root, list[j])->0)),
    decreases n,
{
    lemma_best(role, root, list, n - 1);
    if j < n - 1 {
        law_best_is_best(role, root, list, n - 1, j);
    }
}

proof fn lemma_best(role: Role, root: Seq<char>, list: Seq<WalkedEntry>, n: int)
    requires
        n <= list.len(),
    ensures
        best(role, root, list, n) matches Some((i, k)) ==> 0 <= i < n && role_rank(role, root, list[i])
            == Some(k),
    decreases n,
{
    if n > 0 {
        lemma_best(role, root, list, n - 1);
    }
}

// ---------------------------------------------------------------------------
// The scan
// ---------------------------------------------------------------------------

pub open spec fn is_pak_entry(e: WalkedEntry) -> bool {
    &&& !deploy::is_ignored(e.path@)
    &&& e.is_file
    &&& path_extension(e.path@) matches Some(x) && text::same_ignoring_case(x, "pak"@)
}

/// The packages among the first `n` entries.
pub open spec fn pak_paths(list: Seq<WalkedEntry>, n: int) -> Seq<Seq<char>>
    decreases n,
{
    if n <= 0 {
        Seq::empty()
    } else if is_pak_entry(list[n - 1]) {
        pak_paths(list, n - 1).push(list[n - 1].path@)
    } else {
        pak_paths(list, n - 1)
    }
}

pub open spec fn is_bin_marker(root: Seq<char>, e: WalkedEntry) -> bool {
    &&& !deploy::is_ignored(e.path@)
    &&& e.is_file
    &&& depth_below(root, e.path@) == 1
    &&& marks_bin(entry_name(e.path@))
}

pub open spec fn has_bin_marker(root: Seq<char>, list: Seq<WalkedEntry>) -> bool {
    exists|i: int| 0 <= i < list.len() && is_bin_marker(root, #[trigger] list[i])
}

/// The directory of files that go beside the executable: the best that is called
/// so, or the whole import where a file marks it and nothing else is in it.
pub open spec fn bin_of(root: Seq<char>, list: Seq<WalkedEntry>) -> Option<Seq<char>> {
    let named = best_path(Role::Bin, root, list);
    if named is None && has_bin_marker(root, list) && pak_paths(list, list.len() as int).len() == 0
        && best_path(Role::Data, root, list) is None && best_path(Role::Generated, root, list)
        is None && best_path(Role::Public, root, list) is None {
        Some(root)
    } else {
        named
    }
}

/// Whether the scan is that of the entries below the root.
pub open spec fn scans(scan: PayloadScan, root: Seq<char>, list: Seq<WalkedEntry>) -> bool {
    &&& text::texts(scan.pak_files@) == pak_paths(list, list.len() as int)
    &&& text::text_opt(scan.data_dir) == best_path(Role::Data, root, list)
    &&& text::text_opt(scan.generated_dir) == best_path(Role::Generated, root, list)
    &&& text::text_opt(scan.bin_dir) == bin_of(root, list)
    &&& text::text_opt(scan.public_dir) == best_path(Role::Public, root, list)
    &&& text::text_opt(scan.meta_file) == best_path(Role::Meta, root, list)
    &&& text::text_opt(scan.info_json) == best_path(Role::Info, root, list)
}

pub fn scan_payload(root: &str, list: &[WalkedEntry]) -> (r: PayloadScan)
    ensures
        scans(r, root@, list@),
{
    let mut pak_files: Vec<String> = Vec::new();
    let mut marked = false;
    let mut i: usize = 0;
    assert(text::texts(pak_files@) =~= pak_paths(list@, 0));
    while i < list.len()
        invariant
            i <= list.len(),
            text::texts(pak_files@) == pak_paths(list@, i as int),
            marked == exists|k: int| 0 <= k < i && is_bin_marker(root@, #[trigger] list@[k]),
        decreases list.len() - i,
    {
        let e = &list[i];
        let path = e.path.as_str();
        if e.is_file && !is_ignored_deploy_path(path) {
            let is_pak = match find_extension(path) {
                Some(x) => eq_ignore_case(x.as_str(), "pak"),
                None => false,
            };
            if is_pak {
                let copy = e.path.clone();
                proof {
                    text::lemma_texts_push(pak_files@, copy);
                }
                pak_files.push(copy);
            }
            if relative_depth(root, path) == 1 && is_bin_root_file(
                display_path_label(path).as_str(),
            ) {
                assert(is_bin_marker(root@, list@[i as int]));
                marked = true;
            }
        }
        i = i + 1;
    }
    assert(text::texts(pak_files@).len() == pak_files.len());
    let data_dir = pick_best(Role::Data, root, list);
    let generated_dir = pick_best(Role::Generated, root, list);
    let public_dir = pick_best(Role::Public, root, list);
    let mut bin_dir = pick_best(Role::Bin, root, list);
    if bin_dir.is_none() && marked && pak_files.len() == 0 && data_dir.is_none()
        && generated_dir.is_none() && public_dir.is_none() {
        bin_dir = Some(root.to_owned());
    }
    PayloadScan {
        pak_files,
        data_dir,
        generated_dir,
        bin_dir,
        public_dir,
        meta_file: pick_best(Role::Meta, root, list),
        info_json: pick_best(Role::Info, root, list),
    }
}

/// A path of the walk that is not left out, and has the last name, whatever the case.
pub open spec fn walks_to(
    list: Seq<WalkedEntry>,
    path: Seq<char>,
    name: Seq<char>,
    dir: bool,
) -> bool {
    exists|i: int|
        0 <= i < list.len() && (#[trigger] list[i]).path@ == path && (if dir {
            list[i].is_dir
        } else {
            list[i].is_file
        }) && !deploy::is_ignored(path) && text::unicode_lowercase(entry_name(path)) == name
}

proof fn lemma_best_served(role: Role, root: Seq<char>, list: Seq<WalkedEntry>)
    ensures
        match best(role, root, list, list.len() as int) {
            Some((i, k)) => 0 <= i < list.len() && role_rank(role, root, list[i]) == Some(k)
                && best_path(role, root, list) == Some(list[i].path@) && forall|j: int|
                0 <= j < list.len() && (#[trigger] role_rank(role, root, list[j])) is Some
                    ==> !info_json::rank_before(role_rank(role, root, list[j])->0, k),
            None => best_path(role, root, list) is None && forall|j: int|
                0 <= j < list.len() ==> (#[trigger] role_rank(role, root, list[j])) is None,
        },
{
    let n = list.len() as int;
    lemma_best(role, root, list, n);
    assert forall|j: int| 0 <= j < n && (#[trigger] role_rank(role, root, list[j])) is Some implies
        best(role, root, list, n) matches Some((i, k)) && !info_json::rank_before(
        role_rank(role, root, list[j])->0,
        k,
    ) by {
        law_best_is_best(role, root, list, n, j);
    }
}

/// Each directory that is found is called by its role, whatever the case: the one for data
/// `data`, that for generated files `generated`, that for the executable's `bin` unless it
/// is the whole import, and the public one `public`, which lies in none called `generated`
/// or `data`. None is one that is left out.
pub proof fn law_found_by_name(scan: PayloadScan, root: Seq<char>, list: Seq<WalkedEntry>)
    requires
        scans(scan, root, list),
    ensures
        scan.data_dir matches Some(d) ==> walks_to(list, d@, "data"@, true),
        scan.generated_dir matches Some(d) ==> walks_to(list, d@, "generated"@, true),
        scan.bin_dir matches Some(d) ==> walks_to(list, d@, "bin"@, true) || d@ == root,
        scan.public_dir matches Some(d) ==> walks_to(list, d@, "public"@, true)
            && !is_below_named(d@, "generated"@) && !is_below_named(d@, "data"@),
        scan.meta_file matches Some(f) ==> exists|i: int|
            0 <= i < list.len() && (#[trigger] list[i]).path@ == f@ && list[i].is_file
                && text::same_ignoring_case(entry_name(f@), "meta.lsx"@),
        scan.info_json matches Some(f) ==> exists|i: int|
            0 <= i < list.len() && (#[trigger] list[i]).path@ == f@ && list[i].is_file && ({
                let lower = text::ascii_lower(entry_name(f@));
                lower == "info.json"@ || lower == "mod.json"@ || lower == "modinfo.json"@
            }),
        forall|i: int|
            0 <= i < scan.pak_files@.len() ==> exists|j: int|
                0 <= j < list.len() && (#[trigger] list[j]).path@ == (
                #[trigger] scan.pak_files@[i])@ && list[j].is_file && (path_extension(
                    list[j].path@,
                ) matches Some(x) && text::same_ignoring_case(x, "pak"@)),
{
    lemma_best_served(Role::Data, root, list);
    lemma_best_served(Role::Generated, root, list);
    lemma_best_served(Role::Bin, root, list);
    lemma_best_served(Role::Public, root, list);
    lemma_best_served(Role::Meta, root, list);
    lemma_best_served(Role::Info, root, list);
    let n = list.len() as int;
    lemma_pak_paths(list, n);
    assert forall|i: int| 0 <= i < scan.pak_files@.len() implies exists|j: int|
        0 <= j < list.len() && (#[trigger] list[j]).path@ == (#[trigger] scan.pak_files@[i])@
            && list[j].is_file && (path_extension(list[j].path@) matches Some(x)
            && text::same_ignoring_case(x, "pak"@)) by {
        let path = pak_paths(list, n)[i];
        assert(text::texts(scan.pak_files@)[i] == path);
        assert(pak_paths(list, n).contains(path));
    }
}

/// Where the walk holds a directory called by a role, whatever the case, that is not left
/// out, one is found for the role, and none such lies higher up. Every package that is not
/// left out is found.
pub proof fn law_named_is_found(
    scan: PayloadScan,
    root: Seq<char>,
    list: Seq<WalkedEntry>,
    path: Seq<char>,
)
    requires
        scans(scan, root, list),
    ensures
        walks_to(list, path, "data"@, true) ==> scan.data_dir is Some && depth_below(
            root,
            scan.data_dir->0@,
        ) <= depth_below(root, path),
        walks_to(list, path, "generated"@, true) ==> scan.generated_dir is Some && depth_below(
            root,
            scan.generated_dir->0@,
        ) <= depth_below(root, path),
        walks_to(list, path, "bin"@, true) ==> scan.bin_dir is Some && walks_to(
            list,
            scan.bin_dir->0@,
            "bin"@,
            true,
        ) && depth_below(root, scan.bin_dir->0@) <= depth_below(root, path),
        walks_to(list, path, "public"@, true) && !is_below_named(path, "generated"@)
            && !is_below_named(path, "data"@) ==> scan.public_dir is Some && depth_below(
            root,
            scan.public_dir->0@,
        ) <= depth_below(root, path),
        forall|j: int|
            0 <= j < list.len() && (#[trigger] list[j]).is_file && !deploy::is_ignored(
                list[j].path@,
            ) && (path_extension(list[j].path@) matches Some(x) && text::same_ignoring_case(
                x,
                "pak"@,
            )) ==> text::texts(scan.pak_files@).contains(list[j].path@),
{
    lemma_best_served(Role::Data, root, list);
    lemma_best_served(Role::Generated, root, list);
    lemma_best_served(Role::Bin, root, list);
    lemma_best_served(Role::Public, root, list);
    lemma_pak_paths(list, list.len() as int);
    if walks_to(list, path, "data"@, true) {
        let i = choose|i: int|
            0 <= i < list.len() && (#[trigger] list[i]).path@ == path && list[i].is_dir;
        assert(role_rank(Role::Data, root, list[i]) is Some);
    }
    if walks_to(list, path, "generated"@, true) {
        let i = choose|i: int|
            0 <= i < list.len() && (#[trigger] list[i]).path@ == path && list[i].is_dir;
        assert(role_rank(Role::Generated, root, list[i]) is Some);
    }
    if walks_to(list, path, "bin"@, true) {
        let i = choose|i: int|
            0 <= i < list.len() && (#[trigger] list[i]).path@ == path && list[i].is_dir;
        assert(role_rank(Role::Bin, root, list[i]) is Some);
    }
    if walks_to(list, path, "public"@, true) && !is_below_named(path, "generated"@)
        && !is_below_named(path, "data"@) {
        let i = choose|i: int|
            0 <= i < list.len() && (#[trigger] list[i]).path@ == path && list[i].is_dir;
        assert(role_rank(Role::Public, root, list[i]) is Some);
    }
}

proof fn lemma_pak_paths(list: Seq<WalkedEntry>, n: int)
    requires
        n <= list.len(),
    ensures
        forall|path: Seq<char>| #[trigger]
            pak_paths(list, n).contains(path) <==> exists|j: int|
                0 <= j < n && (#[trigger] list[j]).path@ == path && is_pak_entry(list[j]),
    decreases n,
{
    if n > 0 {
        lemma_pak_paths(list, n - 1);
        assert forall|path: Seq<char>| #[trigger] pak_paths(list, n).contains(path) <==> exists|
            j: int,
        | 0 <= j < n && (#[trigger] list[j]).path@ == path && is_pak_entry(list[j]) by {
            let before = pak_paths(list, n - 1);
            crate::lists::lemma_push_contains(before, list[n - 1].path@, path);
            assert(before.contains(path) || !before.contains(path));
        }
    }
}

/// Whether `child` lies in `parent` and is not the same.
pub open spec fn is_proper_parent(parent: Seq<char>, child: Seq<char>) -> bool {
    paths::is_within(child, parent) && paths::components(child) != paths::components(parent)
}

pub fn is_parent_path(parent: &str, child: &str) -> (r: bool)
    ensures
        r == is_proper_parent(parent@, child@),
{
    if !lies_within(child, parent) {
        return false;
    }
    let inner = split_components(child);
    let outer = split_components(parent);
    proof {
        let a = paths::components(child@);
        let b = paths::components(parent@);
        assert(a.len() == inner.len());
        assert(b.len() == outer.len());
        if a.len() == b.len() {
            assert(a.subrange(0, b.len() as int) =~= a);
        }
    }
    inner.len() != outer.len()
}

/// Whether one of two directories lies in the other.
pub open spec fn overlap(a: Option<String>, b: Option<String>) -> bool {
    match (a, b) {
        (Some(x), Some(y)) => is_proper_parent(x@, y@) || is_proper_parent(y@, x@),
        _ => false,
    }
}

fn do_overlap(a: &Option<String>, b: &Option<String>) -> (r: bool)
    ensures
        r == overlap(*a, *b),
{
    match (a, b) {
        (Some(x), Some(y)) => is_parent_path(x.as_str(), y.as_str()) || is_parent_path(
            y.as_str(),
            x.as_str(),
        ),
        _ => false,
    }
}

impl PayloadScan {
    pub open spec fn is_loose(self) -> bool {
        self.data_dir is Some || self.generated_dir is Some || self.bin_dir is Some
            || self.public_dir is Some
    }

    pub fn has_loose_targets(&self) -> (r: bool)
        ensures
            r == self.is_loose(),
    {
        self.data_dir.is_some() || self.generated_dir.is_some() || self.bin_dir.is_some()
            || self.public_dir.is_some()
    }

    pub open spec fn overlaps(self) -> bool {
        ||| overlap(self.data_dir, self.generated_dir)
        ||| overlap(self.data_dir, self.bin_dir)
        ||| overlap(self.data_dir, self.public_dir)
        ||| overlap(self.generated_dir, self.bin_dir)
        ||| overlap(self.generated_dir, self.public_dir)
        ||| overlap(self.bin_dir, self.public_dir)
    }

    /// Whether one of the directories lies in another.
    pub fn has_overlap(&self) -> (r: bool)
        ensures
            r == self.overlaps(),
    {
        do_overlap(&self.data_dir, &self.generated_dir) || do_overlap(
            &self.data_dir,
            &self.bin_dir,
        ) || do_overlap(&self.data_dir, &self.public_dir) || do_overlap(
            &self.generated_dir,
            &self.bin_dir,
        ) || do_overlap(&self.generated_dir, &self.public_dir) || do_overlap(
            &self.bin_dir,
            &self.public_dir,
        )
    }

    pub open spec fn is_mod(self) -> bool {
        self.pak_files@.len() > 0 || self.is_loose()
    }

    /// Whether there is anything to install.
    pub fn is_mod_candidate_dir(&self) -> (r: bool)
        ensures
            r == self.is_mod(),
    {
        !self.pak_files.is_empty() || self.has_loose_targets()
    }
}

} // verus!
