//! What holds of what a directory is taken apart into when it is brought in.
use crate::deploy;
use crate::import_scan;
use crate::import_scan::{CandidateKind, DirItem, UnitView};
use crate::paths;
use crate::payload;
use crate::sorting;
use crate::text;
use vstd::prelude::*;

verus! {

/// Files are told by their extensions, in small or in capital letters.
pub proof fn law_kinds_by_extension(path: Seq<char>)
    ensures
        ({
            let x = payload::path_extension(path);
            &&& import_scan::is_archive(path) <==> x == Some("zip"@) || x == Some("ZIP"@) || x
                == Some("7z"@) || x == Some("7Z"@) || x == Some("rar"@) || x == Some("RAR"@)
            &&& import_scan::is_pak(path) <==> x == Some("pak"@) || x == Some("PAK"@)
            &&& import_scan::is_zip(path) ==> import_scan::is_archive(path)
                && !import_scan::is_7z(path)
        }),
{
    reveal_strlit("zip");
    reveal_strlit("ZIP");
    reveal_strlit("7z");
    reveal_strlit("7Z");
    reveal_strlit("rar");
    reveal_strlit("RAR");
    assert("zip"@[0] == 'z' && "ZIP"@[0] == 'Z' && "7z"@[0] == '7' && "7Z"@[0] == '7' && "rar"@[0]
        == 'r' && "RAR"@[0] == 'R');
}

/// Whether an item of a directory makes the directory a mod itself: a package, or a
/// directory that the game has too.
pub open spec fn makes_a_mod(e: DirItem) -> bool {
    let name = text::unicode_lowercase(payload::entry_name(e.path@));
    &&& !deploy::is_ignored(e.path@)
    &&& {
        ||| e.is_file && import_scan::is_pak(e.path@)
        ||| !e.is_file && e.is_dir && (name == "data"@ || name == "generated"@ || name == "bin"@
            || name == "public"@)
    }
}

proof fn lemma_extensions(path: Seq<char>)
    ensures
        import_scan::is_pak(path) ==> !import_scan::is_archive(path),
{
    reveal_strlit("zip");
    reveal_strlit("ZIP");
    reveal_strlit("7z");
    reveal_strlit("7Z");
    reveal_strlit("rar");
    reveal_strlit("RAR");
    reveal_strlit("pak");
    reveal_strlit("PAK");
    assert("zip"@[0] == 'z' && "ZIP"@[0] == 'Z' && "7z"@[0] == '7' && "7Z"@[0] == '7' && "rar"@[0]
        == 'r' && "RAR"@[0] == 'R' && "pak"@[0] == 'p' && "PAK"@[0] == 'P');
}

/// A directory that is itself a mod is not taken apart.
pub proof fn law_mods_stay_whole(
    top: Seq<DirItem>,
    mods: Seq<DirItem>,
    nested: Seq<DirItem>,
    i: int,
)
    requires
        0 <= i < top.len(),
        makes_a_mod(top[i]),
    ensures
        import_scan::units(top, mods, nested).len() == 0,
{
    lemma_extensions(top[i].path@);
    assert(import_scan::is_direct(top[i]));
}

proof fn lemma_pushed_lists(list: Seq<UnitView>, c: UnitView, path: Seq<char>)
    ensures
        import_scan::lists_path(import_scan::pushed(list, c), c.path),
        import_scan::lists_path(list, path) ==> import_scan::lists_path(
            import_scan::pushed(list, c),
            path,
        ),
{
    let out = import_scan::pushed(list, c);
    if !import_scan::lists_path(list, c.path) {
        assert(out[list.len() as int] == c);
    }
    if import_scan::lists_path(list, path) {
        let i = choose|i: int|
            0 <= i < list.len() && paths::path_key((#[trigger] list[i]).path) == paths::path_key(
                path,
            );
        assert(out[i] == list[i]);
    }
}

proof fn lemma_files_listed(items: Seq<DirItem>, n: int, i: int)
    requires
        0 <= i < n <= items.len(),
        items[i].is_file,
        !deploy::is_ignored(items[i].path@),
        import_scan::is_archive(items[i].path@),
    ensures
        import_scan::lists_path(import_scan::after_files(items, n), items[i].path@),
    decreases n,
{
    let before = import_scan::after_files(items, n - 1);
    let p = items[n - 1].path@;
    let want = items[i].path@;
    lemma_pushed_lists(before, import_scan::unit(CandidateKind::ArchiveFile, p), want);
    lemma_pushed_lists(before, import_scan::unit(CandidateKind::PakFile, p), want);
    if i < n - 1 {
        lemma_files_listed(items, n - 1, i);
    }
}

proof fn lemma_mods_keep(start: Seq<UnitView>, items: Seq<DirItem>, n: int, path: Seq<char>)
    requires
        import_scan::lists_path(start, path),
    ensures
        import_scan::lists_path(import_scan::after_mods(start, items, n), path),
    decreases n,
{
    if n > 0 {
        lemma_mods_keep(start, items, n - 1, path);
        let before = import_scan::after_mods(start, items, n - 1);
        let p = items[n - 1].path@;
        lemma_pushed_lists(before, import_scan::unit(CandidateKind::PakFile, p), path);
        lemma_pushed_lists(before, import_scan::unit(CandidateKind::Directory, p), path);
    }
}

proof fn lemma_dirs_keep(start: Seq<UnitView>, items: Seq<DirItem>, n: int, path: Seq<char>)
    requires
        import_scan::lists_path(start, path),
    ensures
        import_scan::lists_path(import_scan::after_dirs(start, items, n), path),
    decreases n,
{
    if n > 0 {
        lemma_dirs_keep(start, items, n - 1, path);
        let before = import_scan::after_dirs(start, items, n - 1);
        let p = items[n - 1].path@;
        lemma_pushed_lists(before, import_scan::unit(CandidateKind::Directory, p), path);
    }
}

proof fn lemma_nested_keep(start: Seq<UnitView>, items: Seq<DirItem>, n: int, path: Seq<char>)
    requires
        import_scan::lists_path(start, path),
    ensures
        import_scan::lists_path(import_scan::after_nested(start, items, n), path),
    decreases n,
{
    if n > 0 {
        lemma_nested_keep(start, items, n - 1, path);
        let before = import_scan::after_nested(start, items, n - 1);
        let p = items[n - 1].path@;
        lemma_pushed_lists(before, import_scan::unit(CandidateKind::ArchiveFile, p), path);
        lemma_pushed_lists(before, import_scan::unit(CandidateKind::PakFile, p), path);
    }
}

proof fn lemma_nested_listed(start: Seq<UnitView>, items: Seq<DirItem>, n: int, i: int)
    requires
        0 <= i < n <= items.len(),
        items[i].is_file,
        !deploy::is_ignored(items[i].path@),
        import_scan::is_archive(items[i].path@),
    ensures
        import_scan::lists_path(import_scan::after_nested(start, items, n), items[i].path@),
    decreases n,
{
    let before = import_scan::after_nested(start, items, n - 1);
    let p = items[n - 1].path@;
    let want = items[i].path@;
    lemma_pushed_lists(before, import_scan::unit(CandidateKind::ArchiveFile, p), want);
    lemma_pushed_lists(before, import_scan::unit(CandidateKind::PakFile, p), want);
    if i < n - 1 {
        lemma_nested_listed(start, items, n - 1, i);
    }
}

proof fn lemma_dirs_listed(start: Seq<UnitView>, items: Seq<DirItem>, n: int, i: int)
    requires
        0 <= i < n <= items.len(),
        !items[i].is_file,
        items[i].is_dir,
        items[i].is_mod,
        !deploy::is_ignored(items[i].path@),
        !import_scan::is_mods_dir(items[i]),
    ensures
        import_scan::lists_path(import_scan::after_dirs(start, items, n), items[i].path@),
    decreases n,
{
    let before = import_scan::after_dirs(start, items, n - 1);
    let p = items[n - 1].path@;
    let want = items[i].path@;
    lemma_pushed_lists(before, import_scan::unit(CandidateKind::Directory, p), want);
    if i < n - 1 {
        lemma_dirs_listed(start, items, n - 1, i);
    }
}

proof fn lemma_sorted_lists(list: Seq<UnitView>, path: Seq<char>)
    requires
        import_scan::lists_path(list, path),
    ensures
        import_scan::lists_path(
            sorting::ranking_by(list, import_scan::label_before()),
            path,
        ),
{
    let out = sorting::ranking_by(list, import_scan::label_before());
    let i = choose|i: int|
        0 <= i < list.len() && paths::path_key((#[trigger] list[i]).path) == paths::path_key(path);
    sorting::lemma_in_ranking(list, import_scan::label_before(), list[i]);
    let j = choose|j: int| 0 <= j < out.len() && out[j] == list[i];
    assert(paths::path_key(out[j].path) == paths::path_key(path));
}

/// Of a directory that is not a mod itself every archive is brought in, on its first level
/// and deeper, and so is every directory in it that is a mod.
pub proof fn law_parts_come_in(
    top: Seq<DirItem>,
    mods: Seq<DirItem>,
    nested: Seq<DirItem>,
    i: int,
)
    requires
        forall|k: int| 0 <= k < top.len() ==> !makes_a_mod(#[trigger] top[k]),
    ensures
        0 <= i < top.len() && top[i].is_file && !deploy::is_ignored(top[i].path@)
            && import_scan::is_archive(top[i].path@) ==> import_scan::lists_path(
            import_scan::units(top, mods, nested),
            top[i].path@,
        ),
        0 <= i < nested.len() && nested[i].is_file && !deploy::is_ignored(nested[i].path@)
            && import_scan::is_archive(nested[i].path@) ==> import_scan::lists_path(
            import_scan::units(top, mods, nested),
            nested[i].path@,
        ),
        0 <= i < top.len() && !top[i].is_file && top[i].is_dir && top[i].is_mod
            && !deploy::is_ignored(top[i].path@) && text::unicode_lowercase(
            payload::entry_name(top[i].path@),
        ) != "mods"@ ==> import_scan::lists_path(
            import_scan::units(top, mods, nested),
            top[i].path@,
        ),
{
    if import_scan::has_direct(top) {
        let k = choose|k: int| 0 <= k < top.len() && import_scan::is_direct(#[trigger] top[k]);
        assert(makes_a_mod(top[k]));
    }
    let n = top.len() as int;
    let files = import_scan::after_files(top, n);
    let inner = if import_scan::mods_place(top, n) >= 0 {
        import_scan::after_mods(files, mods, mods.len() as int)
    } else {
        files
    };
    let dirs = import_scan::after_dirs(inner, top, n);
    let all = import_scan::after_nested(dirs, nested, nested.len() as int);
    if 0 <= i < top.len() && top[i].is_file && !deploy::is_ignored(top[i].path@)
        && import_scan::is_archive(top[i].path@) {
        let p = top[i].path@;
        lemma_files_listed(top, n, i);
        lemma_mods_keep(files, mods, mods.len() as int, p);
        lemma_dirs_keep(inner, top, n, p);
        lemma_nested_keep(dirs, nested, nested.len() as int, p);
        lemma_sorted_lists(all, p);
    }
    if 0 <= i < nested.len() && nested[i].is_file && !deploy::is_ignored(nested[i].path@)
        && import_scan::is_archive(nested[i].path@) {
        let p = nested[i].path@;
        lemma_nested_listed(dirs, nested, nested.len() as int, i);
        lemma_sorted_lists(all, p);
    }
    if 0 <= i < top.len() && !top[i].is_file && top[i].is_dir && top[i].is_mod
        && !deploy::is_ignored(top[i].path@) && text::unicode_lowercase(
        payload::entry_name(top[i].path@),
    ) != "mods"@ {
        let p = top[i].path@;
        lemma_dirs_listed(inner, top, n, i);
        lemma_nested_keep(dirs, nested, nested.len() as int, p);
        lemma_sorted_lists(all, p);
    }
}

/// Whether an item is what a unit says.
pub open spec fn is_unit_of(u: UnitView, e: DirItem) -> bool {
    &&& u.path == e.path@
    &&& !deploy::is_ignored(e.path@)
    &&& match u.kind {
        CandidateKind::ArchiveFile => e.is_file && import_scan::is_archive(e.path@),
        CandidateKind::PakFile => e.is_file && import_scan::is_pak(e.path@),
        CandidateKind::Directory => e.is_dir && e.is_mod,
    }
}

spec fn comes_from(u: UnitView, top: Seq<DirItem>, mods: Seq<DirItem>, nested: Seq<DirItem>) -> bool {
    exists|e: DirItem| #[trigger]
        is_unit_of(u, e) && (top.contains(e) || mods.contains(e) || nested.contains(e))
}

spec fn all_come_from(
    list: Seq<UnitView>,
    top: Seq<DirItem>,
    mods: Seq<DirItem>,
    nested: Seq<DirItem>,
) -> bool {
    forall|k: int| 0 <= k < list.len() ==> comes_from(#[trigger] list[k], top, mods, nested)
}

proof fn lemma_pushed_from(
    list: Seq<UnitView>,
    c: UnitView,
    e: DirItem,
    top: Seq<DirItem>,
    mods: Seq<DirItem>,
    nested: Seq<DirItem>,
)
    requires
        all_come_from(list, top, mods, nested),
        is_unit_of(c, e),
        top.contains(e) || mods.contains(e) || nested.contains(e),
    ensures
        all_come_from(import_scan::pushed(list, c), top, mods, nested),
{
    let out = import_scan::pushed(list, c);
    assert(comes_from(c, top, mods, nested));
    assert forall|k: int| 0 <= k < out.len() implies comes_from(
        #[trigger] out[k],
        top,
        mods,
        nested,
    ) by {
        if k < list.len() {
            assert(out[k] == list[k]);
        }
    }
}

proof fn lemma_files_from(top: Seq<DirItem>, mods: Seq<DirItem>, nested: Seq<DirItem>, n: int)
    requires
        0 <= n <= top.len(),
    ensures
        all_come_from(import_scan::after_files(top, n), top, mods, nested),
    decreases n,
{
    if n > 0 {
        lemma_files_from(top, mods, nested, n - 1);
        let before = import_scan::after_files(top, n - 1);
        let e = top[n - 1];
        assert(top.contains(e));
        if !deploy::is_ignored(e.path@) && e.is_file {
            if import_scan::is_archive(e.path@) {
                let c = import_scan::unit(CandidateKind::ArchiveFile, e.path@);
                lemma_pushed_from(before, c, e, top, mods, nested);
            } else if import_scan::is_pak(e.path@) {
                let c = import_scan::unit(CandidateKind::PakFile, e.path@);
                lemma_pushed_from(before, c, e, top, mods, nested);
            }
        }
    }
}

proof fn lemma_mods_from(
    start: Seq<UnitView>,
    top: Seq<DirItem>,
    mods: Seq<DirItem>,
    nested: Seq<DirItem>,
    n: int,
)
    requires
        0 <= n <= mods.len(),
        all_come_from(start, top, mods, nested),
    ensures
        all_come_from(import_scan::after_mods(start, mods, n), top, mods, nested),
    decreases n,
{
    if n > 0 {
        lemma_mods_from(start, top, mods, nested, n - 1);
        let before = import_scan::after_mods(start, mods, n - 1);
        let e = mods[n - 1];
        assert(mods.contains(e));
        if !deploy::is_ignored(e.path@) {
            if e.is_file && import_scan::is_pak(e.path@) {
                let c = import_scan::unit(CandidateKind::PakFile, e.path@);
                lemma_pushed_from(before, c, e, top, mods, nested);
            } else if e.is_dir && e.is_mod {
                let c = import_scan::unit(CandidateKind::Directory, e.path@);
                lemma_pushed_from(before, c, e, top, mods, nested);
            }
        }
    }
}

proof fn lemma_dirs_from(
    start: Seq<UnitView>,
    top: Seq<DirItem>,
    mods: Seq<DirItem>,
    nested: Seq<DirItem>,
    n: int,
)
    requires
        0 <= n <= top.len(),
        all_come_from(start, top, mods, nested),
    ensures
        all_come_from(import_scan::after_dirs(start, top, n), top, mods, nested),
    decreases n,
{
    if n > 0 {
        lemma_dirs_from(start, top, mods, nested, n - 1);
        let before = import_scan::after_dirs(start, top, n - 1);
        let e = top[n - 1];
        assert(top.contains(e));
        if !deploy::is_ignored(e.path@) && !e.is_file && e.is_dir && !import_scan::is_mods_dir(e)
            && e.is_mod {
            let c = import_scan::unit(CandidateKind::Directory, e.path@);
            lemma_pushed_from(before, c, e, top, mods, nested);
        }
    }
}

proof fn lemma_nested_from(
    start: Seq<UnitView>,
    top: Seq<DirItem>,
    mods: Seq<DirItem>,
    nested: Seq<DirItem>,
    n: int,
)
    requires
        0 <= n <= nested.len(),
        all_come_from(start, top, mods, nested),
    ensures
        all_come_from(import_scan::after_nested(start, nested, n), top, mods, nested),
    decreases n,
{
    if n > 0 {
        lemma_nested_from(start, top, mods, nested, n - 1);
        let before = import_scan::after_nested(start, nested, n - 1);
        let e = nested[n - 1];
        assert(nested.contains(e));
        if !deploy::is_ignored(e.path@) && e.is_file {
            if import_scan::is_archive(e.path@) {
                let c = import_scan::unit(CandidateKind::ArchiveFile, e.path@);
                lemma_pushed_from(before, c, e, top, mods, nested);
            } else if import_scan::is_pak(e.path@) && !import_scan::in_candidate(before, e.path@) {
                let c = import_scan::unit(CandidateKind::PakFile, e.path@);
                lemma_pushed_from(before, c, e, top, mods, nested);
            }
        }
    }
}

/// What is brought in was found: each part is an archive, a package or a directory that is
/// a mod, as it says, and nothing that is left out.
pub proof fn law_parts_were_found(
    top: Seq<DirItem>,
    mods: Seq<DirItem>,
    nested: Seq<DirItem>,
    k: int,
)
    requires
        0 <= k < import_scan::units(top, mods, nested).len(),
    ensures
        exists|e: DirItem| #[trigger]
            is_unit_of(import_scan::units(top, mods, nested)[k], e) && (top.contains(e)
                || mods.contains(e) || nested.contains(e)),
{
    let n = top.len() as int;
    let files = import_scan::after_files(top, n);
    lemma_files_from(top, mods, nested, n);
    lemma_mods_from(files, top, mods, nested, mods.len() as int);
    let inner = if import_scan::mods_place(top, n) >= 0 {
        import_scan::after_mods(files, mods, mods.len() as int)
    } else {
        files
    };
    lemma_dirs_from(inner, top, mods, nested, n);
    let dirs = import_scan::after_dirs(inner, top, n);
    lemma_nested_from(dirs, top, mods, nested, nested.len() as int);
    let all = import_scan::after_nested(dirs, nested, nested.len() as int);
    sorting::lemma_ranking_members(all, import_scan::label_before(), k);
    let j = choose|j: int| 0 <= j < all.len() && all[j] == import_scan::units(top, mods, nested)[k];
    assert(comes_from(all[j], top, mods, nested));
}

} // verus!
