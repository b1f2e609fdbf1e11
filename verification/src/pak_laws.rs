//! What holds of the package that is found for a module of the game's settings.
use crate::library::PakInfo;
use crate::native_pak;
use crate::native_pak::{NameKeys, NativePakEntry, NativePakMetaIndex};
use crate::text;
use vstd::prelude::*;

verus! {

// ---------------------------------------------------------------------------
// By name
// ---------------------------------------------------------------------------

/// Whether letters and digits, if there are any, stand in the name of a package.
pub open spec fn stands_in(hay: Seq<char>, key: Seq<char>) -> bool {
    key.len() > 0 && text::contains_text(hay, key)
}

/// Whether the name of a package tells of a module: the module's folder, the folder's
/// first part or the module's name stands in it, or its id, or the first sixteen, or
/// twelve of a shorter id, or the first eight letters of the id.
pub open spec fn tells_of(hay: Seq<char>, info: PakInfo) -> bool {
    let uuid = text::alnum_key(info.uuid@);
    ||| stands_in(hay, text::alnum_key(info.folder@))
    ||| stands_in(hay, text::alnum_key(text::split_any(info.folder@, "_"@)[0]))
    ||| stands_in(hay, text::alnum_key(info.name@))
    ||| stands_in(hay, uuid)
    ||| uuid.len() >= 16 && stands_in(hay, uuid.take(16))
    ||| 12 <= uuid.len() < 16 && stands_in(hay, uuid.take(12))
    ||| uuid.len() >= 8 && stands_in(hay, uuid.take(8))
}

/// A module finds a package by name just where the name of some package tells of it, and
/// then the name of the package that it finds does.
pub proof fn law_found_where_told(info: PakInfo, index: Seq<NativePakEntry>, r: Option<usize>)
    requires
        native_pak::resolves_by_name(info, index, r),
    ensures
        r is Some <==> exists|i: int|
            0 <= i < index.len() && tells_of((#[trigger] index[i]).key(), info),
        r matches Some(b) ==> b < index.len() && tells_of(index[b as int].key(), info),
{
    assert forall|i: int| 0 <= i < index.len() implies (tells_of((#[trigger] index[i]).key(), info)
        <==> native_pak::name_score(index[i].key(), native_pak::name_keys(info)).0 > 0) by {
        lemma_told(index[i].key(), info);
    }
}

proof fn lemma_detail(hay: Seq<char>, key: Seq<char>, exact: int, prefix: int, contains: int)
    requires
        0 < contains,
        0 < prefix,
        0 < exact,
    ensures
        native_pak::detail(hay, key, exact, prefix, contains) is Some <==> stands_in(hay, key),
        native_pak::detail(hay, key, exact, prefix, contains) matches Some(d) ==> d.0 > 0,
{
    if key.len() > 0 && hay == key {
        assert(hay.subrange(0, hay.len() as int) =~= key);
        assert(text::stands_at(hay, key, 0));
    }
    if text::starts_with(hay, key) {
        assert(text::stands_at(hay, key, 0));
    }
}

proof fn lemma_told(hay: Seq<char>, info: PakInfo)
    ensures
        tells_of(hay, info) <==> native_pak::name_score(hay, native_pak::name_keys(info)).0 > 0,
{
    let k = native_pak::name_keys(info);
    lemma_detail(hay, k.uuid, 120, 110, 80);
    lemma_detail(hay, k.uuid_prefix, 70, 55, 35);
    lemma_detail(hay, k.uuid_short, 55, 40, 25);
    lemma_detail(hay, k.folder, 90, 70, 50);
    lemma_detail(hay, k.folder_base, 75, 55, 35);
    lemma_detail(hay, k.name, 85, 65, 45);
}

/// Whether of the keys of a module none but its folder, the folder's first part or its name,
/// as `which` says, stands in the name of a package.
pub open spec fn told_by_one(hay: Seq<char>, k: NameKeys, which: int) -> bool {
    &&& !stands_in(hay, k.uuid)
    &&& !stands_in(hay, k.uuid_prefix)
    &&& !stands_in(hay, k.uuid_short)
    &&& which != 0 ==> !stands_in(hay, k.folder)
    &&& which != 1 ==> !stands_in(hay, k.folder_base)
    &&& which != 2 ==> !stands_in(hay, k.name)
}

pub open spec fn key_of(k: NameKeys, which: int) -> Seq<char> {
    if which == 0 {
        k.folder
    } else if which == 1 {
        k.folder_base
    } else {
        k.name
    }
}

/// Of two packages that one key of a module tells of, the better is the one that is called
/// by it; else the one whose name starts with it; else the one that has the shorter name.
pub proof fn law_closer_name_is_better(a: Seq<char>, b: Seq<char>, k: NameKeys, which: int)
    requires
        0 <= which <= 2,
        told_by_one(a, k, which),
        told_by_one(b, k, which),
        stands_in(a, key_of(k, which)),
        stands_in(b, key_of(k, which)),
    ensures
        ({
            let key = key_of(k, which);
            let better = native_pak::better_score(
                native_pak::name_score(a, k),
                native_pak::name_score(b, k),
            );
            &&& a == key && b != key ==> better
            &&& a != key && b != key && text::starts_with(a, key) && !text::starts_with(b, key)
                ==> better
            &&& a != key && b != key && text::starts_with(a, key) == text::starts_with(b, key)
                && a.len() < b.len() <= usize::MAX ==> better
        }),
{
    lemma_one(a, k, which);
    lemma_one(b, k, which);
}

proof fn lemma_one(hay: Seq<char>, k: NameKeys, which: int)
    requires
        0 <= which <= 2,
        told_by_one(hay, k, which),
    ensures
        native_pak::name_score(hay, k) == native_pak::plus(
            (0int, usize::MAX as nat),
            if which == 0 {
                native_pak::detail(hay, k.folder, 90, 70, 50)
            } else if which == 1 {
                native_pak::detail(hay, k.folder_base, 75, 55, 35)
            } else {
                native_pak::detail(hay, k.name, 85, 65, 45)
            },
        ),
{
    lemma_detail(hay, k.uuid, 120, 110, 80);
    lemma_detail(hay, k.uuid_prefix, 70, 55, 35);
    lemma_detail(hay, k.uuid_short, 55, 40, 25);
    lemma_detail(hay, k.folder, 90, 70, 50);
    lemma_detail(hay, k.folder_base, 75, 55, 35);
    lemma_detail(hay, k.name, 85, 65, 45);
}

/// A package that is called by a module's id is better than one that is called by its
/// folder and has nothing else of it, that better than one called by its name alone, and
/// that better than one called by the first part of its folder alone.
pub proof fn law_id_counts_most(info: PakInfo, by_id: Seq<char>, hay: Seq<char>)
    requires
        text::alnum_key(info.uuid@).len() >= 16,
        by_id == text::alnum_key(info.uuid@),
    ensures
        ({
            let k = native_pak::name_keys(info);
            let score = native_pak::name_score(hay, k);
            &&& hay == k.folder && told_by_folder(hay, k) ==> native_pak::better_score(
                native_pak::name_score(by_id, k),
                score,
            )
            &&& hay == k.name && told_by_one(hay, k, 2) && k.folder.len() > 0
                ==> native_pak::better_score(native_pak::name_score(k.folder, k), score)
            &&& hay == k.folder_base && told_by_one(hay, k, 1) && k.name.len() > 0
                ==> native_pak::better_score(native_pak::name_score(k.name, k), score)
        }),
{
    let k = native_pak::name_keys(info);
    lemma_details(by_id, k);
    lemma_details(hay, k);
    lemma_details(k.folder, k);
    lemma_details(k.name, k);
    assert(native_pak::detail(by_id, k.uuid, 120, 110, 80) == Some((120int, 0nat)));
    let p = k.uuid.take(16);
    let q = k.uuid.take(8);
    assert(k.uuid.subrange(0, 16) =~= p);
    assert(k.uuid.subrange(0, 8) =~= q);
    assert(text::starts_with(by_id, p) && text::starts_with(by_id, q));
    assert(q.len() != by_id.len());
    if told_by_one(hay, k, 2) {
        lemma_one(hay, k, 2);
    }
    if told_by_one(hay, k, 1) {
        lemma_one(hay, k, 1);
    }
}

/// Whether of a module nothing but its folder stands in the name of a package.
pub open spec fn told_by_folder(hay: Seq<char>, k: NameKeys) -> bool {
    &&& !stands_in(hay, k.uuid)
    &&& !stands_in(hay, k.uuid_prefix)
    &&& !stands_in(hay, k.uuid_short)
    &&& !stands_in(hay, k.name)
}

proof fn lemma_details(hay: Seq<char>, k: NameKeys)
    ensures
        native_pak::detail(hay, k.uuid, 120, 110, 80) is Some <==> stands_in(hay, k.uuid),
        native_pak::detail(hay, k.uuid_prefix, 70, 55, 35) is Some <==> stands_in(
            hay,
            k.uuid_prefix,
        ),
        native_pak::detail(hay, k.uuid_short, 55, 40, 25) is Some <==> stands_in(hay, k.uuid_short),
        native_pak::detail(hay, k.folder, 90, 70, 50) is Some <==> stands_in(hay, k.folder),
        native_pak::detail(hay, k.folder_base, 75, 55, 35) is Some <==> stands_in(
            hay,
            k.folder_base,
        ),
        native_pak::detail(hay, k.name, 85, 65, 45) is Some <==> stands_in(hay, k.name),
{
    lemma_detail(hay, k.uuid, 120, 110, 80);
    lemma_detail(hay, k.uuid_prefix, 70, 55, 35);
    lemma_detail(hay, k.uuid_short, 55, 40, 25);
    lemma_detail(hay, k.folder, 90, 70, 50);
    lemma_detail(hay, k.folder_base, 75, 55, 35);
    lemma_detail(hay, k.name, 85, 65, 45);
}

// ---------------------------------------------------------------------------
// By metadata
// ---------------------------------------------------------------------------

/// Whether the metadata of the package at `i` states the id.
pub open spec fn states_id(index: NativePakMetaIndex, i: int, uuid: Seq<char>) -> bool {
    text::text_opt(index.entries@[i].uuid_key) == Some(text::alnum_key(uuid))
}

pub open spec fn states_folder(index: NativePakMetaIndex, i: int, folder: Seq<char>) -> bool {
    text::text_opt(index.entries@[i].folder_key) == Some(text::alnum_key(folder))
}

pub open spec fn states_name(index: NativePakMetaIndex, i: int, name: Seq<char>) -> bool {
    text::text_opt(index.entries@[i].name_key) == Some(text::alnum_key(name))
}

/// Where the metadata of some package states the id of a module, the module finds a package
/// that states it, or none where none of them is as it was when it was read. A package whose
/// file has changed since is never found.
pub proof fn law_found_by_id(info: PakInfo, index: NativePakMetaIndex, r: Option<usize>, i: int)
    requires
        native_pak::resolves_by_meta(info, index, r),
        0 <= i < index.entries@.len(),
        text::alnum_key(info.uuid@).len() > 0,
        states_id(index, i, info.uuid@),
    ensures
        r matches Some(b) ==> {
            &&& b < index.entries@.len()
            &&& states_id(index, b as int, info.uuid@)
            &&& index.is_fresh(b as int)
        },
        index.is_fresh(i) ==> r is Some,
{
    let key = text::alnum_key(info.uuid@);
    assert(native_pak::has_uuid(key)(index.entries@[i]));
    assert(native_pak::any_accepted(index, native_pak::has_uuid(key)));
}

/// Where no package states the id, one that states the folder or the name is found, and one
/// that states the folder before one that states the name alone.
pub proof fn law_found_by_folder(info: PakInfo, index: NativePakMetaIndex, r: Option<usize>, i: int)
    requires
        native_pak::resolves_by_meta(info, index, r),
        0 <= i < index.entries@.len(),
        index.is_fresh(i),
        forall|j: int| 0 <= j < index.entries@.len() ==> !#[trigger] states_id(index, j, info.uuid@),
        text::alnum_key(info.folder@).len() > 0,
        text::alnum_key(info.name@).len() > 0,
        states_folder(index, i, info.folder@) || states_name(index, i, info.name@),
    ensures
        r matches Some(b) && {
            let k = b as int;
            &&& b < index.entries@.len()
            &&& index.is_fresh(k)
            &&& states_folder(index, k, info.folder@) || states_name(index, k, info.name@)
            &&& states_folder(index, i, info.folder@) ==> states_folder(index, k, info.folder@)
            &&& states_folder(index, i, info.folder@) && states_name(index, i, info.name@)
                ==> states_folder(index, k, info.folder@) && states_name(index, k, info.name@)
            &&& states_folder(index, k, info.folder@) == states_folder(index, i, info.folder@)
                && states_name(index, k, info.name@) == states_name(index, i, info.name@)
                ==> native_pak::modified_of(index.entries@[k]) >= native_pak::modified_of(
                index.entries@[i],
            )
        },
{
    let uuid = text::alnum_key(info.uuid@);
    let folder = text::alnum_key(info.folder@);
    let name = text::alnum_key(info.name@);
    if native_pak::any_accepted(index, native_pak::has_uuid(uuid)) {
        let j = choose|j: int|
            0 <= j < index.entries@.len() && native_pak::has_uuid(uuid)(
                #[trigger] index.entries@[j],
            );
        assert(states_id(index, j, info.uuid@));
    }
    let accepts = native_pak::has_folder_or_name(folder, name);
    assert(accepts(index.entries@[i]));
    if let Some(b) = r {
        assert(!native_pak::better_match(index.entries@[i], index.entries@[b as int], folder, name));
    }
}

/// A module that states neither id, folder nor name finds nothing by metadata.
pub proof fn law_nothing_finds_nothing(info: PakInfo, index: NativePakMetaIndex, r: Option<usize>)
    requires
        native_pak::resolves_by_meta(info, index, r),
        text::alnum_key(info.uuid@).len() == 0,
        text::alnum_key(info.folder@).len() == 0,
        text::alnum_key(info.name@).len() == 0,
    ensures
        r is None,
{
}

// ---------------------------------------------------------------------------
// Keys
// ---------------------------------------------------------------------------

/// The letters and digits of two texts in a row are those of the first and then those of
/// the second; those of one character are the character in lower case, or nothing.
pub proof fn law_letters_and_digits(a: Seq<char>, b: Seq<char>, c: char)
    ensures
        text::alnum_key(a + b) == text::alnum_key(a) + text::alnum_key(b),
        ('a' <= c <= 'z' || '0' <= c <= '9') ==> text::alnum_key(seq![c]) == seq![c],
        'A' <= c <= 'Z' ==> text::alnum_key(seq![c]) == seq![(c as u32 + 32) as char],
        !('a' <= c <= 'z' || '0' <= c <= '9' || 'A' <= c <= 'Z') ==> text::alnum_key(seq![c])
            == Seq::<char>::empty(),
    decreases b.len(),
{
    if b.len() > 0 {
        law_letters_and_digits(a, b.drop_last(), c);
        assert((a + b).drop_last() =~= a + b.drop_last());
        assert((a + b).last() == b.last());
        let x = text::alnum_key(a);
        let y = text::alnum_key(b.drop_last());
        assert((x + y).push(text::lower(b.last())) =~= x + y.push(text::lower(b.last())));
    } else {
        assert(a + b =~= a);
        assert(text::alnum_key(a) + text::alnum_key(b) =~= text::alnum_key(a));
    }
    let one = seq![c];
    assert(one.drop_last() =~= Seq::<char>::empty());
    assert(one.last() == c);
    assert(text::alnum_key(one.drop_last()) =~= Seq::<char>::empty());
    assert(Seq::<char>::empty().push(text::lower(c)) =~= seq![text::lower(c)]);
}

} // verus!
