//! What holds of what is read of packages and of loose files.
use crate::importer::SizedFile;
use crate::library::{InstallTarget, ModEntry, TargetKind};
use crate::lists;
use crate::mod_scan;
use crate::pak_index;
use crate::pak_index::{CompressionType, EntryView};
use crate::paths;
use crate::text;
use vstd::prelude::*;

verus! {

// ---------------------------------------------------------------------------
// Packages
// ---------------------------------------------------------------------------

/// A number in so many bytes, the lowest first.
pub open spec fn le_bytes(n: nat, k: nat) -> Seq<u8>
    decreases k,
{
    if k == 0 {
        Seq::empty()
    } else {
        seq![(n % 256) as u8] + le_bytes(n / 256, (k - 1) as nat)
    }
}

/// How many numbers so many bytes can tell apart.
pub open spec fn reach(k: nat) -> nat
    decreases k,
{
    if k == 0 {
        1
    } else {
        256 * reach((k - 1) as nat)
    }
}

/// A number that was written in bytes is read back.
pub proof fn law_number_is_read_back(n: nat, k: nat)
    requires
        n < reach(k),
    ensures
        le_bytes(n, k).len() == k,
        pak_index::le_value(le_bytes(n, k)) == n,
    decreases k,
{
    if k > 0 {
        law_number_is_read_back(n / 256, (k - 1) as nat);
        let s = le_bytes(n, k);
        assert(s.drop_first() =~= le_bytes(n / 256, (k - 1) as nat));
        assert(s[0] == (n % 256) as u8);
    }
}

/// The index of a package is found: behind the four letters, a version of eighteen or more
/// and the place of the index, there stand the number of files, the length of the packed
/// index, and the packed index itself.
pub proof fn law_index_is_found(
    version: nat,
    body: Seq<u8>,
    count: nat,
    table: Seq<u8>,
    rest: Seq<u8>,
)
    requires
        18 <= version < 4294967296,
        count < 4294967296,
        table.len() < 4294967296,
        16 + body.len() <= i64::MAX,
    ensures
        pak_index::packed_table(
            seq![76u8, 83, 80, 75] + le_bytes(version, 4) + le_bytes(16 + body.len(), 8) + body
                + le_bytes(count, 4) + le_bytes(table.len(), 4) + table + rest,
        ) == Ok::<(u32, Seq<u8>), pak_index::PakError>((count as u32, table)),
{
    reveal_with_fuel(reach, 9);
    let at = 16 + body.len();
    law_number_is_read_back(version, 4);
    law_number_is_read_back(at, 8);
    law_number_is_read_back(count, 4);
    law_number_is_read_back(table.len(), 4);
    let head = seq![76u8, 83, 80, 75];
    let v = le_bytes(version, 4);
    let f = le_bytes(at, 8);
    let c = le_bytes(count, 4);
    let l = le_bytes(table.len(), 4);
    let file = head + v + f + body + c + l + table + rest;
    let x = at as int;
    assert(file.take(4) =~= head);
    assert(file.subrange(4, 8) =~= v);
    assert(file.subrange(8, 16) =~= f);
    assert(file.subrange(x, x + 4) =~= c);
    assert(file.subrange(x + 4, x + 8) =~= l);
    assert(file.subrange(x + 8, x + 8 + table.len()) =~= table);
}

proof fn lemma_name_ends(name: Seq<u8>, rest: Seq<u8>)
    requires
        forall|i: int| 0 <= i < name.len() ==> #[trigger] name[i] != 0,
        rest.len() == 0 || rest[0] == 0,
    ensures
        pak_index::zero_at(name + rest) == name.len(),
    decreases name.len(),
{
    let s = name + rest;
    if name.len() > 0 {
        assert(s[0] == name[0]);
        assert(s.drop_first() =~= name.drop_first() + rest);
        assert forall|i: int| 0 <= i < name.drop_first().len() implies #[trigger] name.drop_first()[i]
            != 0 by {
            assert(name[i + 1] != 0);
        }
        lemma_name_ends(name.drop_first(), rest);
    } else {
        assert(s =~= rest);
    }
}

/// An entry of the index says what stands in it: a name up to the first zero, the place of
/// the file in six bytes, how it is packed in the lower half of a byte, its packed size and
/// its size.
pub proof fn law_entry_is_read(
    name: Seq<u8>,
    low: nat,
    high: nat,
    part: u8,
    flags: u8,
    packed: nat,
    size: nat,
)
    requires
        name.len() < 256,
        forall|i: int| 0 <= i < name.len() ==> #[trigger] name[i] != 0,
        low < 4294967296,
        high < 65536,
        packed < 4294967296,
        size < 4294967296,
    ensures
        ({
            let e = pak_index::entry_of(
                name + Seq::new((256 - name.len()) as nat, |i: int| 0u8) + le_bytes(low, 4)
                    + le_bytes(high, 2) + seq![part, flags] + le_bytes(packed, 4) + le_bytes(
                    size,
                    4,
                ),
            );
            &&& e.path == pak_index::package_path(pak_index::lossy_text(name))
            &&& e.offset == low + 4294967296 * high
            &&& e.compressed_size == packed
            &&& e.decompressed_size == size
            &&& flags % 16 == 0 ==> e.compression == CompressionType::Stored
            &&& flags % 16 == 1 ==> e.compression == CompressionType::Zlib
            &&& flags % 16 == 2 ==> e.compression == CompressionType::Lz4
        }),
{
    reveal_with_fuel(reach, 9);
    law_number_is_read_back(low, 4);
    law_number_is_read_back(high, 2);
    law_number_is_read_back(packed, 4);
    law_number_is_read_back(size, 4);
    let zeros = Seq::new((256 - name.len()) as nat, |i: int| 0u8);
    let a = le_bytes(low, 4);
    let b = le_bytes(high, 2);
    let c = le_bytes(packed, 4);
    let d = le_bytes(size, 4);
    let e = name + zeros + a + b + seq![part, flags] + c + d;
    lemma_name_ends(name, zeros);
    assert(e.take(256) =~= name + zeros);
    assert((name + zeros).take(name.len() as int) =~= name);
    assert(e.subrange(256, 260) =~= a);
    assert(e.subrange(260, 262) =~= b);
    assert(e.subrange(264, 268) =~= c);
    assert(e.subrange(268, 272) =~= d);
    assert(e[263] == flags);
}

/// A path in a package has no backslash, no slash in front and no capital letter of the
/// plain alphabet; one that has none of these is as it was.
pub proof fn law_package_paths_are_plain(raw: Seq<char>, i: int)
    ensures
        ({
            let p = pak_index::package_path(raw);
            &&& p.len() > 0 ==> p[0] != '/'
            &&& 0 <= i < p.len() ==> p[i] != '\\' && !('A' <= p[i] <= 'Z')
        }),
        (forall|j: int|
            0 <= j < raw.len() ==> #[trigger] raw[j] != '\\' && !('A' <= raw[j] <= 'Z')) && (
        raw.len() == 0 || raw[0] != '/') ==> pak_index::package_path(raw) == raw,
{
    let swapped = text::swap_char(raw, '\\', '/');
    lemma_no_slash(swapped);
    let rest = pak_index::without_leading_slash(swapped);
    let p = pak_index::package_path(raw);
    assert(p.len() == rest.len());
    if p.len() > 0 {
        assert(p[0] == text::lower(rest[0]));
    }
    if 0 <= i < p.len() {
        assert(p[i] == text::lower(rest[i]));
        let k = swapped.len() - rest.len();
        assert(rest[i] == swapped[k + i]);
    }
    if (forall|j: int|
        0 <= j < raw.len() ==> #[trigger] raw[j] != '\\' && !('A' <= raw[j] <= 'Z')) && (raw.len()
        == 0 || raw[0] != '/') {
        assert(swapped =~= raw);
        assert(p =~= raw);
    }
}

proof fn lemma_no_slash(s: Seq<char>)
    ensures
        ({
            let r = pak_index::without_leading_slash(s);
            &&& r.len() <= s.len()
            &&& r.len() > 0 ==> r[0] != '/'
            &&& r == s.skip(s.len() - r.len())
        }),
    decreases s.len(),
{
    if s.len() > 0 && s[0] == '/' {
        lemma_no_slash(s.drop_first());
        let r = pak_index::without_leading_slash(s);
        assert(s.drop_first().skip(s.drop_first().len() - r.len()) =~= s.skip(s.len() - r.len()));
    } else {
        assert(s.skip(0) =~= s);
    }
}

/// Whether an entry is a module description, and whether it lies below `mods`.
pub open spec fn is_description(e: EntryView) -> bool {
    let p = text::ascii_lower(e.path);
    text::ends_with(p, "/meta.lsx"@) || p == "meta.lsx"@
}

pub open spec fn is_below_mods(e: EntryView) -> bool {
    let p = text::ascii_lower(e.path);
    text::ends_with(p, "/meta.lsx"@) && text::contains_text(p, "/mods/"@)
}

/// The module description of a package is the first one below `mods`, and only where there
/// is none the first one anywhere; a package without one has none.
pub proof fn law_description_of_package(entries: Seq<EntryView>, i: int)
    requires
        0 <= i < entries.len(),
    ensures
        ({
            let k = pak_index::meta_entry(entries);
            &&& is_description(entries[i]) || is_below_mods(entries[i]) ==> k >= 0
            &&& k >= 0 ==> k < entries.len() && (is_description(entries[k]) || is_below_mods(
                entries[k],
            ))
            &&& is_below_mods(entries[i]) ==> is_below_mods(entries[k]) && k <= i
            &&& k >= 0 && !is_below_mods(entries[k]) && is_description(entries[i]) ==> k <= i
        }),
{
    let below = |p: Seq<char>| pak_index::is_module_meta(p);
    let any = |p: Seq<char>| pak_index::is_any_meta(p);
    lemma_first_entry(entries, below, 0);
    lemma_first_entry(entries, any, 0);
    let p = text::ascii_lower(entries[i].path);
    assert(below(p) == is_below_mods(entries[i]));
    assert(any(p) == is_description(entries[i]));
    let k = pak_index::meta_entry(entries);
    if k >= 0 {
        let q = text::ascii_lower(entries[k].path);
        assert(below(q) == is_below_mods(entries[k]));
        assert(any(q) == is_description(entries[k]));
    }
}

proof fn lemma_first_entry(entries: Seq<EntryView>, accepts: spec_fn(Seq<char>) -> bool, from: int)
    requires
        0 <= from <= entries.len(),
    ensures
        ({
            let k = pak_index::first_entry(entries, accepts, from);
            &&& k >= 0 ==> from <= k < entries.len() && accepts(text::ascii_lower(entries[k].path))
            &&& forall|j: int|
                from <= j < entries.len() && accepts(text::ascii_lower((#[trigger] entries[j]).path))
                    ==> k >= 0 && k <= j
        }),
    decreases entries.len() - from,
{
    if from < entries.len() && !accepts(text::ascii_lower(entries[from].path)) {
        lemma_first_entry(entries, accepts, from + 1);
    }
}

// ---------------------------------------------------------------------------
// Loose files
// ---------------------------------------------------------------------------

/// The word that the files of a kind are told apart by.
pub open spec fn word_for(t: InstallTarget) -> Seq<char> {
    match t {
        InstallTarget::Pak { .. } => "pak"@,
        InstallTarget::Generated { .. } => "generated"@,
        InstallTarget::Data { .. } => "data"@,
        InstallTarget::Bin { .. } => "bin"@,
    }
}

/// The directory of loose files of a target.
pub open spec fn dir_for(t: InstallTarget) -> Option<Seq<char>> {
    match t {
        InstallTarget::Pak { .. } => None,
        InstallTarget::Generated { dir } => Some(dir@),
        InstallTarget::Data { dir } => Some(dir@),
        InstallTarget::Bin { dir } => Some(dir@),
    }
}

/// Whether the file at `f` below the target at `t` of a mod counts, under a key and with a
/// size: it is there, it is no leftover of a system or a tool, and its key is the word of
/// its kind and its plain path.
pub open spec fn counts_as(
    m: ModEntry,
    root: Seq<char>,
    walks: Seq<Option<Vec<SizedFile>>>,
    t: int,
    f: int,
    key: Seq<char>,
    size: u64,
) -> bool {
    &&& 0 <= t < m.targets@.len()
    &&& dir_for(m.targets@[t]) matches Some(dir)
    &&& walks[t] matches Some(files)
    &&& 0 <= f < files@.len()
    &&& !mod_scan::is_foreign(paths::joined(paths::joined(root, dir), files@[f].path@))
    &&& key == word_for(m.targets@[t]) + ":"@ + pak_index::package_path(files@[f].path@)
    &&& size == files@[f].size
}

/// The loose files that a mod is scanned for are those that count, and no others.
pub proof fn law_loose_files_are_counted(
    m: ModEntry,
    root: Seq<char>,
    walks: Seq<Option<Vec<SizedFile>>>,
    key: Seq<char>,
    size: u64,
)
    requires
        walks.len() == m.targets@.len(),
    ensures
        mod_scan::loose_in(m, root, walks, m.targets@.len() as int).contains((key, size))
            <==> exists|t: int, f: int| counts_as(m, root, walks, t, f, key, size),
{
    lemma_loose(m, root, walks, m.targets@.len() as int, key, size);
    if exists|t: int, f: int| counts_as(m, root, walks, t, f, key, size) {
        let (t, f) = choose|t: int, f: int| counts_as(m, root, walks, t, f, key, size);
        assert(t < m.targets@.len() && counts_as(m, root, walks, t, f, key, size));
    }
}

proof fn lemma_keyed(
    root: Seq<char>,
    kind: TargetKind,
    files: Seq<SizedFile>,
    n: int,
    key: Seq<char>,
    size: u64,
)
    requires
        0 <= n <= files.len(),
    ensures
        mod_scan::keyed(root, kind, files, n).contains((key, size)) <==> exists|f: int|
            0 <= f < n && !mod_scan::is_foreign(paths::joined(root, (#[trigger] files[f]).path@))
                && key == mod_scan::key_word(kind) + ":"@ + pak_index::package_path(
                files[f].path@,
            ) && size == files[f].size,
    decreases n,
{
    if n > 0 {
        lemma_keyed(root, kind, files, n - 1, key, size);
        let before = mod_scan::keyed(root, kind, files, n - 1);
        let f = files[n - 1];
        let here = (
            mod_scan::key_word(kind) + ":"@ + pak_index::package_path(f.path@),
            f.size,
        );
        lists::lemma_push_contains(before, here, (key, size));
        if before.contains((key, size)) {
            let k = choose|k: int|
                0 <= k < n - 1 && !mod_scan::is_foreign(
                    paths::joined(root, (#[trigger] files[k]).path@),
                ) && key == mod_scan::key_word(kind) + ":"@ + pak_index::package_path(
                    files[k].path@,
                ) && size == files[k].size;
            assert(0 <= k < n && files[k].size == size);
        }
        assert(files[n - 1] == f);
    }
}

proof fn lemma_loose(
    m: ModEntry,
    root: Seq<char>,
    walks: Seq<Option<Vec<SizedFile>>>,
    n: int,
    key: Seq<char>,
    size: u64,
)
    requires
        0 <= n <= m.targets@.len(),
    ensures
        mod_scan::loose_in(m, root, walks, n).contains((key, size)) <==> exists|t: int, f: int|
            t < n && counts_as(m, root, walks, t, f, key, size),
    decreases n,
{
    if n > 0 {
        lemma_loose(m, root, walks, n - 1, key, size);
        let before = mod_scan::loose_in(m, root, walks, n - 1);
        let t = m.targets@[n - 1];
        if let (Some(dir), Some(files)) = (mod_scan::loose_dir(t), walks[n - 1]) {
            let more = mod_scan::keyed(
                paths::joined(root, dir),
                t.kind_of(),
                files@,
                files@.len() as int,
            );
            lemma_keyed(
                paths::joined(root, dir),
                t.kind_of(),
                files@,
                files@.len() as int,
                key,
                size,
            );
            lemma_sum(before, more, (key, size));
            if more.contains((key, size)) {
                let f = choose|f: int|
                    0 <= f < files@.len() && !mod_scan::is_foreign(
                        paths::joined(paths::joined(root, dir), (#[trigger] files@[f]).path@),
                    ) && key == mod_scan::key_word(t.kind_of()) + ":"@ + pak_index::package_path(
                        files@[f].path@,
                    ) && size == files@[f].size;
                assert(counts_as(m, root, walks, n - 1, f, key, size));
            }
            let at = n - 1;
            if exists|f: int| counts_as(m, root, walks, at, f, key, size) {
                let f = choose|f: int| counts_as(m, root, walks, at, f, key, size);
                assert(files@[f].size == size);
            }
        }
        if before.contains((key, size)) {
            let (a, f) = choose|a: int, f: int|
                a < n - 1 && counts_as(m, root, walks, a, f, key, size);
            assert(a < n && counts_as(m, root, walks, a, f, key, size));
        }
        if exists|a: int, f: int| a < n && counts_as(m, root, walks, a, f, key, size) {
            let (a, f) = choose|a: int, f: int| a < n && counts_as(m, root, walks, a, f, key, size);
            if a < n - 1 {
                assert(a < n - 1 && counts_as(m, root, walks, a, f, key, size));
            } else {
                assert(counts_as(m, root, walks, n - 1, f, key, size));
            }
        }
    }
}

proof fn lemma_sum<T>(a: Seq<T>, b: Seq<T>, x: T)
    ensures
        (a + b).contains(x) <==> a.contains(x) || b.contains(x),
{
    let s = a + b;
    if a.contains(x) {
        let i = choose|i: int| 0 <= i < a.len() && a[i] == x;
        assert(s[i] == x);
    }
    if b.contains(x) {
        let i = choose|i: int| 0 <= i < b.len() && b[i] == x;
        assert(s[a.len() + i] == x);
    }
    if s.contains(x) {
        let i = choose|i: int| 0 <= i < s.len() && s[i] == x;
        if i < a.len() {
            assert(a[i] == x);
        } else {
            assert(b[i - a.len()] == x);
        }
    }
}

/// A path is no part of a mod just where a part of it is `__MACOSX`, in any case, or one of
/// the directories that tools keep.
pub proof fn law_leftovers_by_name(path: Seq<char>)
    ensures
        mod_scan::is_foreign(path) <==> exists|i: int|
            0 <= i < paths::components(path).len() && (text::ascii_lower(
                #[trigger] paths::components(path)[i],
            ) == "__macosx"@ || paths::components(path)[i] == ".git"@ || paths::components(path)[i]
                == ".svn"@ || paths::components(path)[i] == ".vscode"@),
{
    reveal_strlit("__MACOSX");
    reveal_strlit("__macosx");
    assert(text::ascii_lower("__MACOSX"@) =~= "__macosx"@);
    let parts = paths::components(path);
    if mod_scan::is_foreign(path) {
        let i = choose|i: int| 0 <= i < parts.len() && mod_scan::is_foreign_part(
            #[trigger] parts[i],
        );
        assert(text::ascii_lower(parts[i]) == "__macosx"@ || parts[i] == ".git"@ || parts[i]
            == ".svn"@ || parts[i] == ".vscode"@);
    }
    if exists|i: int|
        0 <= i < parts.len() && (text::ascii_lower(#[trigger] parts[i]) == "__macosx"@ || parts[i]
            == ".git"@ || parts[i] == ".svn"@ || parts[i] == ".vscode"@) {
        let i = choose|i: int|
            0 <= i < parts.len() && (text::ascii_lower(#[trigger] parts[i]) == "__macosx"@
                || parts[i] == ".git"@ || parts[i] == ".svn"@ || parts[i] == ".vscode"@);
        assert(mod_scan::is_foreign_part(parts[i]));
    }
}

} // verus!
