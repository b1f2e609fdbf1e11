//! What an import promises: what becomes of packages and directories, and when a mod is
//! taken for one that is there already.
use crate::duplicates;
use crate::duplicates::{Clash, DuplicateDecision};
use crate::import_batch;
use crate::import_batch::ImportRoute;
use crate::importer;
use crate::importer::SourceTimes;
use crate::library;
use crate::library::{InstallTarget, ModEntry, ModSource, PakInfo, TargetKind};
use crate::lists;
use crate::metadata::{JsonModInfo, ModMeta};
use crate::paths;
use crate::payload;
use crate::payload::PayloadScan;
use crate::text;
use crate::versions;
use vstd::prelude::*;

verus! {

// ---------------------------------------------------------------------------
// Directories
// ---------------------------------------------------------------------------

/// Each directory that is found is copied to where the target for it looks: data to `Data`,
/// generated files to `Generated`, files for the executable to `bin`. A public directory goes
/// into the generated ones, and only where there are none. There is a target for each of
/// them, and for nothing else.
pub proof fn law_copies_meet_targets(scan: PayloadScan, root: Seq<char>)
    ensures
        ({
            let copies = importer::copies_of(scan, root);
            let dirs = importer::dirs_wanted(scan);
            &&& scan.data_dir matches Some(d) ==> copies.contains(
                (d@, paths::joined(root, "Data"@)),
            ) && dirs.contains((TargetKind::Data, Some("Data"@)))
            &&& scan.generated_dir matches Some(d) ==> copies.contains(
                (d@, paths::joined(root, "Generated"@)),
            ) && dirs.contains((TargetKind::Generated, Some("Generated"@)))
            &&& scan.bin_dir matches Some(d) ==> copies.contains((d@, paths::joined(root, "bin"@)))
                && dirs.contains((TargetKind::Bin, Some("bin"@)))
            &&& scan.generated_dir is None ==> (scan.public_dir matches Some(d) ==> copies.contains(
                (d@, paths::joined(paths::joined(root, "Generated"@), "Public"@)),
            ) && dirs.contains((TargetKind::Generated, Some("Generated"@))))
            &&& copies.len() == dirs.len()
            &&& dirs.contains((TargetKind::Data, Some("Data"@))) ==> scan.data_dir is Some
            &&& dirs.contains((TargetKind::Bin, Some("bin"@))) ==> scan.bin_dir is Some
            &&& dirs.contains((TargetKind::Generated, Some("Generated"@))) ==> scan.generated_dir
                is Some || scan.public_dir is Some
            &&& forall|i: int|
                0 <= i < dirs.len() ==> (#[trigger] dirs[i]).0 != TargetKind::Pak
            &&& forall|i: int, j: int|
                0 <= i < j < dirs.len() ==> (#[trigger] dirs[i]).0 != (#[trigger] dirs[j]).0
        }),
{
    let copies = importer::copies_of(scan, root);
    let dirs = importer::dirs_wanted(scan);
    let a: int = if scan.data_dir is Some {
        1
    } else {
        0
    };
    let b: int = if scan.generated_dir is Some || scan.public_dir is Some {
        1
    } else {
        0
    };
    if scan.data_dir is Some {
        assert(copies[0] == copies[0]);
        assert(dirs[0] == (TargetKind::Data, Some("Data"@)));
        assert(copies.contains(copies[0]) && dirs.contains(dirs[0]));
    }
    if scan.generated_dir is Some || scan.public_dir is Some {
        assert(dirs[a] == (TargetKind::Generated, Some("Generated"@)));
        assert(copies.contains(copies[a]) && dirs.contains(dirs[a]));
    }
    if scan.bin_dir is Some {
        assert(dirs[a + b] == (TargetKind::Bin, Some("bin"@)));
        assert(copies.contains(copies[a + b]) && dirs.contains(dirs[a + b]));
    }
}

/// A directory is imported as it is; a file goes by what stands behind the last dot of its
/// name: packages by `pak`, archives by `zip`, `7z` or `rar`, all in small or in capital
/// letters. What is not there is not imported, and no other file is.
pub proof fn law_route_by_name(path: Seq<char>, there: bool, dir: bool)
    ensures
        ({
            let r = import_batch::route(path, there, dir);
            let x = payload::path_extension(path);
            &&& r == ImportRoute::Missing <==> !there
            &&& r == ImportRoute::Directory <==> there && dir
            &&& r == ImportRoute::Pak <==> there && !dir && (x == Some("pak"@) || x == Some(
                "PAK"@,
            ))
            &&& r == ImportRoute::Zip <==> there && !dir && (x == Some("zip"@) || x == Some(
                "ZIP"@,
            ))
            &&& r == ImportRoute::SevenZip <==> there && !dir && (x == Some("7z"@) || x == Some(
                "7Z"@,
            ) || x == Some("rar"@) || x == Some("RAR"@))
        }),
{
    reveal_strlit("pak");
    reveal_strlit("PAK");
    reveal_strlit("zip");
    reveal_strlit("ZIP");
    reveal_strlit("7z");
    reveal_strlit("7Z");
    reveal_strlit("rar");
    reveal_strlit("RAR");
    assert("pak"@[0] != "zip"@[0] && "pak"@[0] != "ZIP"@[0] && "PAK"@[0] != "zip"@[0]
        && "PAK"@[0] != "ZIP"@[0]);
    assert("pak"@[0] != "rar"@[0] && "pak"@[0] != "RAR"@[0] && "PAK"@[0] != "rar"@[0]
        && "PAK"@[0] != "RAR"@[0]);
    assert("zip"@[0] != "rar"@[0] && "zip"@[0] != "RAR"@[0] && "ZIP"@[0] != "rar"@[0]
        && "ZIP"@[0] != "RAR"@[0]);
}

// ---------------------------------------------------------------------------
// Packages
// ---------------------------------------------------------------------------

/// Metadata describes a module exactly where it states an id. What it states is taken
/// over; a missing folder is called by the name, and a missing name by the folder.
pub proof fn law_meta_becomes_info(meta: ModMeta)
    ensures
        importer::meta_info(meta) is Some <==> meta.uuid is Some,
        importer::meta_info(meta) matches Some(i) ==> {
            &&& meta.uuid == Some(i.uuid)
            &&& meta.name is Some ==> meta.name == Some(i.name)
            &&& meta.folder is Some ==> meta.folder == Some(i.folder)
            &&& meta.name is Some && meta.folder is None ==> i.folder == i.name
            &&& meta.name is None ==> i.name == i.folder
            &&& meta.name is None && meta.folder is None ==> i.folder == i.uuid
            &&& meta.version is Some ==> meta.version == Some(i.version)
            &&& meta.version is None ==> i.version == 0
            &&& i.md5 == meta.md5
            &&& i.publish_handle == meta.publish_handle
            &&& i.author == meta.author
            &&& i.description == meta.description
            &&& i.module_type == meta.module_type
        },
{
}

/// Whether an information file names a module: by its id, its folder or its name.
pub open spec fn names_module(j: JsonModInfo, info: PakInfo) -> bool {
    ||| text::text_opt(j.uuid) == Some(info.uuid@)
    ||| text::text_opt(j.folder) == Some(info.folder@)
    ||| text::text_opt(j.name) == Some(info.name@)
}

proof fn lemma_stated(json: Seq<JsonModInfo>, info: PakInfo, n: int, d: Seq<char>)
    requires
        0 <= n <= json.len(),
    ensures
        importer::stated_dependencies(json, info, n).contains(d) <==> exists|k: int|
            0 <= k < n && names_module(#[trigger] json[k], info) && text::texts(
                json[k].dependencies@,
            ).contains(d),
    decreases n,
{
    if n > 0 {
        lemma_stated(json, info, n - 1, d);
        let before = importer::stated_dependencies(json, info, n - 1);
        let more = text::texts(json[n - 1].dependencies@);
        assert(importer::is_about(json[n - 1], info) == names_module(json[n - 1], info));
        lemma_sum_contains(before, more, d);
        assert(before.contains(d) || !before.contains(d));
    }
}

proof fn lemma_sum_contains<T>(a: Seq<T>, b: Seq<T>, x: T)
    ensures
        (a + b).contains(x) <==> a.contains(x) || b.contains(x),
{
    if a.contains(x) {
        let i = choose|i: int| 0 <= i < a.len() && a[i] == x;
        assert((a + b)[i] == x);
    }
    if b.contains(x) {
        let i = choose|i: int| 0 <= i < b.len() && b[i] == x;
        assert((a + b)[a.len() + i] == x);
    }
    if (a + b).contains(x) {
        let i = choose|i: int| 0 <= i < (a + b).len() && (a + b)[i] == x;
        if i < a.len() {
            assert(a[i] == x);
        } else {
            assert(b[i - a.len()] == x);
        }
    }
}

/// The mod of a package goes by the id and the name of its module, has that one package,
/// kept under the name of its folder, and needs what its metadata and the information files
/// that name it state, but never itself.
pub proof fn law_package_becomes_mod(
    e: ModEntry,
    info: PakInfo,
    meta: ModMeta,
    json: Seq<JsonModInfo>,
    label: Option<String>,
    times: SourceTimes,
    now: i64,
    d: Seq<char>,
)
    requires
        importer::is_pak_entry(e, info, meta, json, label, times, now),
    ensures
        e.id@ == info.uuid@,
        e.name@ == info.name@,
        e.source == ModSource::Managed,
        e.added_at == now,
        e.source_label == label,
        e.target_overrides@.len() == 0,
        e.targets@.len() == 1,
        e.targets@[0] matches InstallTarget::Pak { file, info: i } && i == info && file@
            == info.folder@ + ".pak"@,
        text::texts(e.dependencies@).contains(d) <==> !text::same_ignoring_case(d, info.uuid@) && (
        text::texts(meta.dependencies@).contains(d) || exists|k: int|
            0 <= k < json.len() && names_module(#[trigger] json[k], info) && text::texts(
                json[k].dependencies@,
            ).contains(d)),
        (forall|k: int|
            0 <= k < json.len() && names_module(#[trigger] json[k], info) ==> json[k].created_at
                is None) && meta.created_at is Some ==> e.created_at == meta.created_at,
        forall|k: int|
            0 <= k < json.len() && names_module(#[trigger] json[k], info) && json[k].created_at
                is Some && (forall|j: int|
                0 <= j < k && names_module(#[trigger] json[j], info) ==> json[j].created_at
                    is None) ==> e.created_at == json[k].created_at,
        e.created_at matches Some(c) ==> e.modified_at matches Some(m) && c <= m,
{
    let all = text::texts(meta.dependencies@) + importer::stated_dependencies(
        json,
        info,
        json.len() as int,
    );
    let keep = |d: Seq<char>| !text::same_ignoring_case(d, info.uuid@);
    lemma_stated(json, info, json.len() as int, d);
    lemma_sum_contains(
        text::texts(meta.dependencies@),
        importer::stated_dependencies(json, info, json.len() as int),
        d,
    );
    lists::lemma_filter_contains(all, keep, d);
    assert(text::texts(e.dependencies@).contains(d) <==> importer::needed(
        meta,
        json,
        info,
    ).contains(d));
    if forall|k: int|
        0 <= k < json.len() && names_module(#[trigger] json[k], info) ==> json[k].created_at
            is None {
        lemma_none_stated(json, info, 0);
    }
    assert forall|k: int|
        0 <= k < json.len() && names_module(#[trigger] json[k], info) && json[k].created_at is Some
            && (forall|j: int|
            0 <= j < k && names_module(#[trigger] json[j], info) ==> json[j].created_at
                is None) implies e.created_at == json[k].created_at by {
        lemma_first_stated(json, info, 0, k);
    }
}

proof fn lemma_none_stated(json: Seq<JsonModInfo>, info: PakInfo, from: int)
    requires
        0 <= from <= json.len(),
        forall|k: int|
            0 <= k < json.len() && names_module(#[trigger] json[k], info) ==> json[k].created_at
                is None,
    ensures
        importer::stated_created(json, info, from) is None,
    decreases json.len() - from,
{
    if from < json.len() {
        lemma_none_stated(json, info, from + 1);
        assert(importer::is_about(json[from], info) == names_module(json[from], info));
    }
}

proof fn lemma_first_stated(json: Seq<JsonModInfo>, info: PakInfo, from: int, k: int)
    requires
        0 <= from <= k < json.len(),
        names_module(json[k], info),
        json[k].created_at is Some,
        forall|j: int|
            0 <= j < k && names_module(#[trigger] json[j], info) ==> json[j].created_at is None,
    ensures
        importer::stated_created(json, info, from) == json[k].created_at,
    decreases k - from,
{
    assert(importer::is_about(json[from], info) == names_module(json[from], info));
    if from < k {
        lemma_first_stated(json, info, from + 1, k);
    }
}

// ---------------------------------------------------------------------------
// Times
// ---------------------------------------------------------------------------

/// When a directory was made is the earliest time of its files, and when it was changed the
/// latest: each is that of a file, and none lies beyond.
pub proof fn law_times_are_the_outermost(files: Seq<SourceTimes>, n: int, i: int)
    requires
        0 <= i < n <= files.len(),
    ensures
        files[i].created_at matches Some(t) ==> importer::first_created(files, n) matches Some(c)
            && c <= t,
        files[i].created_at is None ==> (files[i].modified_at matches Some(t)
            ==> importer::first_created(files, n) matches Some(c) && c <= t),
        files[i].modified_at matches Some(t) ==> importer::last_modified(files, n) matches Some(m)
            && t <= m,
        importer::first_created(files, n) matches Some(c) ==> exists|k: int|
            0 <= k < n && ((#[trigger] files[k]).created_at == Some(c) || (files[k].created_at
                is None && files[k].modified_at == Some(c))),
        importer::last_modified(files, n) matches Some(m) ==> exists|k: int|
            0 <= k < n && (#[trigger] files[k]).modified_at == Some(m),
    decreases n,
{
    if n > 1 {
        let j: int = if i < n - 1 {
            i
        } else {
            0
        };
        law_times_are_the_outermost(files, n - 1, j);
    } else {
        reveal_with_fuel(importer::first_created, 2);
        reveal_with_fuel(importer::last_modified, 2);
        assert(files[i] == files[0]);
    }
}

// ---------------------------------------------------------------------------
// Mods that are there already
// ---------------------------------------------------------------------------

/// A mod clashes by name exactly where one that is there has the same name, whatever the
/// case and the space around it, and then with the first such.
pub proof fn law_same_name_clashes(mods: Seq<ModEntry>, m: ModEntry, i: int)
    requires
        0 <= i < mods.len(),
        mods.len() <= usize::MAX,
        text::same_ignoring_case(text::trimmed(mods[i].name@), text::trimmed(m.name@)),
    ensures
        duplicates::clash(mods, m) matches Clash::SameName { at } && at <= i
            && text::same_ignoring_case(
            text::trimmed(mods[at as int].name@),
            text::trimmed(m.name@),
        ),
{
    duplicates::lemma_first_named(mods, m.name@);
    assert(versions::has_name(mods[i], m.name@));
}

/// A mod that clashes by name meets one that has its name.
pub proof fn law_clash_has_name(mods: Seq<ModEntry>, m: ModEntry)
    requires
        mods.len() <= usize::MAX,
    ensures
        duplicates::clash(mods, m) matches Clash::SameName { at } ==> at < mods.len()
            && text::same_ignoring_case(
            text::trimmed(mods[at as int].name@),
            text::trimmed(m.name@),
        ),
{
    duplicates::lemma_first_named(mods, m.name@);
}

/// Whether two mods come from files with names so alike that at most twelve letters in a
/// hundred differ, and of six letters or more, once they are brought to a common form.
pub open spec fn alike(a: ModEntry, b: ModEntry) -> bool {
    let x = versions::origin_key(a);
    let y = versions::origin_key(b);
    let bytes_x = vstd::utf8::encode_utf8(x);
    let bytes_y = vstd::utf8::encode_utf8(y);
    let longer = if bytes_x.len() >= bytes_y.len() {
        bytes_x.len()
    } else {
        bytes_y.len()
    };
    &&& x.len() >= 6
    &&& y.len() >= 6
    &&& bytes_x.len() + bytes_y.len() < usize::MAX
    &&& 100 * versions::distance(bytes_x, bytes_y) <= 12 * longer
}

/// How many letters of the names of two mods' files differ, and of how many: as many as
/// the longer name has.
pub open spec fn differing(a: ModEntry, b: ModEntry) -> (nat, nat) {
    let x = vstd::utf8::encode_utf8(versions::origin_key(a));
    let y = vstd::utf8::encode_utf8(versions::origin_key(b));
    (
        versions::distance(x, y),
        if x.len() >= y.len() {
            x.len()
        } else {
            y.len()
        },
    )
}

proof fn lemma_shares(x: (nat, nat), y: (nat, nat), z: (nat, nat))
    requires
        x.0 * y.1 < y.0 * x.1,
        y.0 * z.1 <= z.0 * y.1,
        y.1 > 0,
        z.1 > 0,
    ensures
        x.0 * z.1 < z.0 * x.1,
{
    let (a, b, c, d, e, f): (int, int, int, int, int, int) = (
        x.0 as int,
        x.1 as int,
        y.0 as int,
        y.1 as int,
        z.0 as int,
        z.1 as int,
    );
    assert(a * d * f < c * b * f) by (nonlinear_arith)
        requires
            a * d < c * b,
            f > 0,
    ;
    assert(c * f * b <= e * d * b) by (nonlinear_arith)
        requires
            c * f <= e * d,
            b >= 0,
    ;
    assert(c * b * f == c * f * b) by (nonlinear_arith);
    assert(a * d * f == (a * f) * d) by (nonlinear_arith);
    assert(e * d * b == (e * b) * d) by (nonlinear_arith);
    assert(a * f < e * b) by (nonlinear_arith)
        requires
            (a * f) * d < (e * b) * d,
            d > 0,
    ;
}

proof fn lemma_alike_is_long(a: ModEntry, b: ModEntry)
    requires
        alike(a, b),
    ensures
        differing(a, b).1 > 0,
{
    let x = versions::origin_key(a);
    assert(vstd::utf8::encode_utf8(x) == vstd::utf8::encode_scalar(x[0] as u32)
        + vstd::utf8::encode_utf8(x.drop_first()));
}

proof fn lemma_similar(mods: Seq<ModEntry>, m: ModEntry, n: int)
    requires
        0 <= n <= mods.len(),
    ensures
        ({
            let k = versions::most_similar(mods, m, n);
            &&& -1 <= k < n
            &&& k >= 0 ==> alike(m, mods[k])
            &&& k < 0 ==> forall|j: int| 0 <= j < n ==> !alike(m, #[trigger] mods[j])
            &&& k >= 0 ==> forall|j: int|
                0 <= j < n && alike(m, #[trigger] mods[j]) ==> differing(m, mods[k]).0 * differing(
                    m,
                    mods[j],
                ).1 <= differing(m, mods[j]).0 * differing(m, mods[k]).1
            &&& k >= 0 ==> forall|j: int|
                0 <= j < k && alike(m, #[trigger] mods[j]) ==> differing(m, mods[k]).0 * differing(
                    m,
                    mods[j],
                ).1 < differing(m, mods[j]).0 * differing(m, mods[k]).1
        }),
    decreases n,
{
    if n > 0 {
        let last = n - 1;
        lemma_similar(mods, m, last);
        assert(versions::is_similar(mods, m, last) == alike(m, mods[last]));
        let before = versions::most_similar(mods, m, last);
        if alike(m, mods[last]) && before >= 0 {
            let x = differing(m, mods[before]);
            let y = differing(m, mods[last]);
            assert(x == versions::likeness(versions::origin_key(m), versions::origin_key(mods[before])));
            assert(y == versions::likeness(versions::origin_key(m), versions::origin_key(mods[last])));
            if x.0 * y.1 > y.0 * x.1 {
                assert forall|j: int| 0 <= j < last && alike(m, #[trigger] mods[j]) implies y.0
                    * differing(m, mods[j]).1 < differing(m, mods[j]).0 * y.1 by {
                    lemma_alike_is_long(m, mods[before]);
                    lemma_alike_is_long(m, mods[j]);
                    lemma_shares(y, x, differing(m, mods[j]));
                }
            }
        }
    }
}

/// A mod that has no namesake clashes with one that comes from a file with a like name,
/// where there is one; where there is neither, it is free.
pub proof fn law_like_names_clash(mods: Seq<ModEntry>, m: ModEntry)
    requires
        mods.len() <= usize::MAX,
        forall|i: int|
            0 <= i < mods.len() ==> !text::same_ignoring_case(
                text::trimmed((#[trigger] mods[i]).name@),
                text::trimmed(m.name@),
            ),
    ensures
        duplicates::clash(mods, m) is Free <==> forall|j: int|
            0 <= j < mods.len() ==> !alike(m, #[trigger] mods[j]),
        duplicates::clash(mods, m) matches Clash::Similar { at } ==> at < mods.len() && alike(
            m,
            mods[at as int],
        ),
{
    duplicates::lemma_first_named(mods, m.name@);
    let named = duplicates::first_named(mods, m.name@);
    if named >= 0 {
        assert(versions::has_name(mods[named], m.name@));
    }
    lemma_similar(mods, m, mods.len() as int);
}

/// Of several mods that come from files with like names, a new one clashes with the one
/// whose name differs in the smallest share of its letters, and of those that differ
/// alike with the first.
pub proof fn law_most_like_clashes(mods: Seq<ModEntry>, m: ModEntry, j: int)
    requires
        mods.len() <= usize::MAX,
        0 <= j < mods.len(),
        alike(m, mods[j]),
        duplicates::clash(mods, m) is Similar,
    ensures
        duplicates::clash(mods, m) matches Clash::Similar { at } ==> differing(
            m,
            mods[at as int],
        ).0 * differing(m, mods[j]).1 <= differing(m, mods[j]).0 * differing(m, mods[at as int]).1
            && (j < at ==> differing(m, mods[at as int]).0 * differing(m, mods[j]).1 < differing(
            m,
            mods[j],
        ).0 * differing(m, mods[at as int]).1),
{
    lemma_similar(mods, m, mods.len() as int);
}

/// A decision is about the mod that was imported and the one that it clashes with, and
/// speaks for the newer of two files with like names.
pub proof fn law_decision_is_about_both(d: DuplicateDecision, mods: Seq<ModEntry>, m: ModEntry)
    requires
        duplicates::is_decision(d, mods, m),
    ensures
        d.mod_entry == m,
        exists|i: int| 0 <= i < mods.len() && (#[trigger] mods[i]).id@ == d.existing_id@,
        d.kind matches duplicates::DuplicateKind::Similar {
            new_label,
            existing_label,
            new_stamp,
            existing_stamp,
            likeness,
        } ==> (new_stamp matches Some(a) ==> existing_stamp matches Some(b) ==> (
        d.default_overwrite == Some(true) <==> b < a) && (d.default_overwrite == Some(false) <==> a
            <= b)),
{
    match duplicates::clash(mods, m) {
        Clash::SameName { at } => {
            assert(mods[at as int].id@ == d.existing_id@);
        },
        Clash::Similar { at } => {
            assert(mods[at as int].id@ == d.existing_id@);
        },
        Clash::Free => {},
    }
}

proof fn lemma_highest(targets: Seq<InstallTarget>, n: int, t: int)
    requires
        0 <= n <= targets.len(),
    ensures
        versions::highest_version(targets, n) matches Some(v) ==> v > 0 && exists|k: int|
            0 <= k < n && (#[trigger] targets[k] matches InstallTarget::Pak { file, info }
                && info.version == v),
        0 <= t < n && (targets[t] matches InstallTarget::Pak { file, info } && info.version > 0)
            ==> (versions::highest_version(targets, n) matches Some(v) && v
            >= targets[t]->Pak_info.version),
    decreases n,
{
    if n > 0 {
        lemma_highest(targets, n - 1, t);
    }
}

/// The version of a mod whose label names none is the highest of its packages.
pub proof fn law_version_of_packages(m: ModEntry, t: int)
    requires
        versions::version_from(versions::origin(m), 0) is None,
        0 <= t < m.targets@.len(),
        m.targets@[t] matches InstallTarget::Pak { file, info } && info.version > 0,
    ensures
        versions::version_stamp(m) matches Some(v) && v >= m.targets@[t]->Pak_info.version
            && exists|k: int|
            0 <= k < m.targets@.len() && (#[trigger] m.targets@[k] matches InstallTarget::Pak {
                file,
                info,
            } && info.version == v),
{
    lemma_highest(m.targets@, m.targets@.len() as int, t);
}

/// The newer of two mods of one name takes the place of the older: by version where both
/// have one and they differ, else by age where both are known. Never are both taken for the
/// newer.
pub proof fn law_newer_takes_the_place(new: ModEntry, old: ModEntry)
    ensures
        versions::version_stamp(new) matches Some(a) ==> versions::version_stamp(old) matches Some(
            b,
        ) ==> (a > b ==> versions::default_overwrite(new, old) == Some(true)) && (a < b
            ==> versions::default_overwrite(new, old) == Some(false)),
        versions::version_stamp(new) is None || versions::version_stamp(old) is None
            || versions::version_stamp(new) == versions::version_stamp(old) ==> match (
            versions::age_stamp(new),
            versions::age_stamp(old),
        ) {
            (Some(a), Some(b)) => versions::default_overwrite(new, old) == Some(b < a),
            _ => versions::default_overwrite(new, old) is None,
        },
        !(versions::default_overwrite(new, old) == Some(true) && versions::default_overwrite(
            old,
            new,
        ) == Some(true)),
{
}

/// How old a mod is told by the number of eight digits or more in what it comes from, else
/// by when it was made, else by when it was changed.
pub proof fn law_age_of_mod(m: ModEntry)
    ensures
        versions::timestamp(versions::origin(m)) matches Some(t) && t <= i64::MAX
            ==> versions::age_stamp(m) == Some(versions::timestamp(versions::origin(m))->0 as int),
        versions::timestamp(versions::origin(m)) is None ==> (m.created_at matches Some(t)
            ==> versions::age_stamp(m) == Some(t as int)),
        versions::timestamp(versions::origin(m)) is None && m.created_at is None ==> (m.modified_at
            matches Some(t) ==> versions::age_stamp(m) == Some(t as int)),
        m.source_label matches Some(l) ==> versions::origin(m) == l@,
        m.source_label is None ==> versions::origin(m) == m.name@,
{
}

/// Versions are ordered by their first number, then by the second, the third and the
/// fourth, as long as those behind the first have three digits at most.
pub proof fn law_versions_in_order(
    a: int,
    b: int,
    c: int,
    d: int,
    e: int,
    f: int,
    g: int,
    h: int,
)
    requires
        0 <= a <= 1_000_000_000,
        0 <= e <= 1_000_000_000,
        0 <= b < 1000,
        0 <= c < 1000,
        0 <= d < 1000,
        0 <= f < 1000,
        0 <= g < 1000,
        0 <= h < 1000,
    ensures
        versions::version_number(a, b, c, d) < versions::version_number(e, f, g, h) <==> (a < e || (
        a == e && (b < f || (b == f && (c < g || (c == g && d < h)))))),
        versions::version_number(a, b, c, d) == versions::version_number(e, f, g, h) <==> a == e
            && b == f && c == g && d == h,
{
}

} // verus!
