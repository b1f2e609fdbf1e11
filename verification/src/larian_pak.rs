//! Packages as `larian_formats` reads them, and what is known of a package in the end.
use crate::library::ModuleInfo;
use crate::metadata::{byte_range, parse_meta_lsx, ModMeta};
use crate::pak_index;
use crate::pak_index::{
    check_block, decode_entries, fill_dependency_fallback, fitting_size, locate_table, pick_meta,
    read_meta_lsx_from_pak_custom, unpack_block, zlib_decompress, PakIndexEntry,
};
use crate::text;
use vstd::prelude::*;

verus! {

// ---------------------------------------------------------------------------
// What can be read
// ---------------------------------------------------------------------------

/// How a listed file is packed.
pub open spec fn packing(table: Seq<u8>, i: int) -> u8 {
    table[272 * i + 263] % 16
}

/// The entry of a listed file.
pub open spec fn listed(table: Seq<u8>, i: int) -> pak_index::EntryView {
    pak_index::entry_of(table.subrange(272 * i, 272 * i + 272))
}

/// Whether the bytes of a listed file lie within the package.
pub open spec fn lies_inside(file: Seq<u8>, e: pak_index::EntryView) -> bool {
    e.compressed_size == 0 || e.offset + e.compressed_size <= file.len()
}

/// The packed bytes of a listed file.
pub open spec fn packed_bytes(file: Seq<u8>, e: pak_index::EntryView) -> Seq<u8> {
    if e.compressed_size == 0 {
        Seq::empty()
    } else {
        file.subrange(e.offset as int, (e.offset + e.compressed_size) as int)
    }
}

/// Whether the reader goes on behind a listed file: the file is there whole and can be
/// unpacked.
pub open spec fn is_unpacked(file: Seq<u8>, table: Seq<u8>, i: int) -> bool {
    let e = listed(table, i);
    &&& 272 * i + 272 <= table.len()
    &&& packing(table, i) <= 2
    &&& lies_inside(file, e)
    &&& {
        ||| e.decompressed_size == 0
        ||| packing(table, i) == 0
        ||| packing(table, i) == 1 && pak_index::zlib_bytes(
            packed_bytes(file, e),
            e.decompressed_size,
        ) is Some
        ||| packing(table, i) == 2 && pak_index::block_bytes(
            packed_bytes(file, e),
            e.decompressed_size,
        ) is Some
    }
}

/// Whether the reader gets as far as the file at `n`.
pub open spec fn reaches(file: Seq<u8>, table: Seq<u8>, n: int) -> bool
    decreases n,
{
    n <= 0 || reaches(file, table, n - 1) && is_unpacked(file, table, n - 1)
}

/// Whether the reader breaks off at a listed file: the index ends within its entry, it is
/// packed in an unknown way, its bytes lie outside the package, it does not fit in
/// memory, or a length in its block is too large.
pub open spec fn breaks_at(file: Seq<u8>, table: Seq<u8>, i: int) -> bool {
    &&& 272 * i < table.len()
    &&& {
        ||| 272 * i + 272 > table.len()
        ||| packing(table, i) > 3
        ||| packing(table, i) < 3 && !lies_inside(file, listed(table, i))
        ||| packing(table, i) < 3 && listed(table, i).decompressed_size > isize::MAX
        ||| packing(table, i) == 2 && listed(table, i).decompressed_size > 0
            && !pak_index::is_block(packed_bytes(file, listed(table, i)))
    }
}

/// Whether the reader breaks off at none of the listed files that it gets to.
pub open spec fn gets_through(file: Seq<u8>, table: Seq<u8>, count: u32) -> bool {
    forall|i: int|
        0 <= i < count && #[trigger] reaches(file, table, i) ==> !breaks_at(file, table, i)
}

/// Whether the reader goes through a package to its end or to an error.
pub open spec fn readable(file: Seq<u8>) -> bool {
    match pak_index::packed_table(file) {
        Err(_) => true,
        Ok((count, compressed)) => match pak_index::table_size(count) {
            None => false,
            Some(size) => pak_index::is_block(compressed) && match pak_index::lz4_bytes(
                compressed,
                size,
            ) {
                None => true,
                Some(table) => gets_through(file, table, count),
            },
        },
    }
}

proof fn lemma_reaches_less(file: Seq<u8>, table: Seq<u8>, n: int, k: int)
    requires
        0 <= n <= k,
        reaches(file, table, k),
    ensures
        reaches(file, table, n),
    decreases k,
{
    if n < k {
        lemma_reaches_less(file, table, n, k - 1);
    }
}

fn take_packed(file: &[u8], e: &PakIndexEntry) -> (r: Option<Vec<u8>>)
    ensures
        match r {
            Some(bytes) => lies_inside(file@, e.entry()) && bytes@ == packed_bytes(
                file@,
                e.entry(),
            ),
            None => !lies_inside(file@, e.entry()),
        },
{
    if e.compressed_size == 0 {
        let none: Vec<u8> = Vec::new();
        assert(none@ =~= Seq::empty());
        return Some(none);
    }
    let len: u64 = file.len() as u64;
    if e.offset > len || e.compressed_size as u64 > len - e.offset {
        return None;
    }
    let start: usize = e.offset as usize;
    let size: usize = e.compressed_size as usize;
    Some(byte_range(file, start, start + size))
}

/// Whether a listed file that lies within the package can be unpacked.
fn can_unpack(packed: &Vec<u8>, kind: u8, e: &PakIndexEntry) -> (r: bool)
    requires
        kind <= 2,
        e.decompressed_size <= isize::MAX,
    ensures
        r == {
            ||| e.decompressed_size == 0
            ||| kind == 0
            ||| kind == 1 && pak_index::zlib_bytes(
                packed@,
                e.entry().decompressed_size,
            ) is Some
            ||| kind == 2 && pak_index::block_bytes(packed@, e.entry().decompressed_size) is Some
        },
{
    let full: usize = e.decompressed_size as usize;
    if full == 0 || kind == 0 {
        return true;
    }
    if kind == 1 {
        return zlib_decompress(packed.as_slice(), full).is_some();
    }
    unpack_block(packed.as_slice(), full).is_some()
}

fn goes_through(file: &[u8], table: &[u8], count: u32) -> (r: bool)
    ensures
        r == gets_through(file@, table@, count),
{
    let entries = decode_entries(table, count);
    let mut i: usize = 0;
    let mut at: usize = 0;
    while i < entries.len()
        invariant
            i <= entries.len(),
            at == 272 * i,
            at <= table.len(),
            pak_index::entry_views(entries@) == pak_index::entries_of(table@, count as nat),
            reaches(file@, table@, i as int),
            forall|j: int|
                0 <= j < i && #[trigger] reaches(file@, table@, j) ==> !breaks_at(
                    file@,
                    table@,
                    j,
                ),
        decreases entries.len() - i,
    {
        assert(pak_index::entry_views(entries@)[i as int] == entries@[i as int].entry());
        assert(pak_index::entry_views(entries@).len() == pak_index::full_entries(
            table@.len(),
            count as nat,
        ));
        assert(272 * i + 272 <= table@.len());
        let kind: u8 = table[at + 263] % 16;
        let e = &entries[i];
        assert(e.entry() == listed(table@, i as int));
        assert(kind == packing(table@, i as int));
        if kind > 3 {
            assert(breaks_at(file@, table@, i as int));
            return false;
        }
        let mut goes_on = false;
        if kind < 3 {
            let packed = match take_packed(file, e) {
                Some(bytes) => bytes,
                None => {
                    assert(breaks_at(file@, table@, i as int));
                    return false;
                },
            };
            if e.decompressed_size as u64 > isize::MAX as u64 {
                assert(breaks_at(file@, table@, i as int));
                return false;
            }
            if kind == 2 && e.decompressed_size > 0 && !check_block(packed.as_slice()) {
                assert(breaks_at(file@, table@, i as int));
                return false;
            }
            goes_on = can_unpack(&packed, kind, e);
        }
        assert(!breaks_at(file@, table@, i as int));
        if !goes_on {
            proof {
                assert(!is_unpacked(file@, table@, i as int));
                assert forall|k: int|
                    0 <= k < count && #[trigger] reaches(file@, table@, k) implies !breaks_at(
                    file@,
                    table@,
                    k,
                ) by {
                    if k > i {
                        lemma_reaches_less(file@, table@, i + 1, k);
                    }
                }
            }
            return true;
        }
        assert(is_unpacked(file@, table@, i as int));
        i = i + 1;
        at = at + 272;
    }
    proof {
        assert(pak_index::entry_views(entries@).len() == pak_index::full_entries(
            table@.len(),
            count as nat,
        ));
    }
    if i as u64 >= count as u64 {
        return true;
    }
    if at < table.len() {
        assert(breaks_at(file@, table@, i as int));
        return false;
    }
    proof {
        assert forall|k: int|
            0 <= k < count && #[trigger] reaches(file@, table@, k) implies !breaks_at(
            file@,
            table@,
            k,
        ) by {
            if k > i {
                lemma_reaches_less(file@, table@, i + 1, k);
            }
        }
    }
    true
}

/// Whether the reader goes through a package to its end or to an error.
pub fn is_readable(file: &[u8]) -> (r: bool)
    ensures
        r == readable(file@),
{
    let table = match locate_table(file) {
        Ok(t) => t,
        Err(_) => return true,
    };
    let size = match fitting_size(table.count) {
        Some(n) => n,
        None => return false,
    };
    if !check_block(table.compressed.as_slice()) {
        return false;
    }
    match unpack_block(table.compressed.as_slice(), size) {
        Some(bytes) => {
            assert(pak_index::lz4_bytes(table.compressed@, size as nat) == Some(bytes@));
            goes_through(file, bytes.as_slice(), table.count)
        },
        None => true,
    }
}

// ---------------------------------------------------------------------------
// The module description
// ---------------------------------------------------------------------------

/// The description that `larian_formats` takes out of a package: what
/// `extract_meta_lsx` finds among the files that `lspk::Reader` reads.
pub uninterp spec fn larian_meta(file: Seq<u8>) -> Option<Seq<u8>>;

/// Calls `larian_formats::lspk::Reader` on the bytes of a package, and
/// `extract_meta_lsx` on what it reads: the bytes of the description, where there is one
/// and the package can be read, as a function of the bytes of the package. The reader
/// breaks off with a panic on packages that are not `readable`.
#[verifier::external_body]
fn extract_meta_lsx(file: &[u8]) -> (r: Option<Vec<u8>>)
    requires
        readable(file@),
    ensures
        pak_index::bytes_opt(r) == larian_meta(file@),
{
    let mut reader = larian_formats::lspk::Reader::new(std::io::Cursor::new(file)).ok()?;
    let package = reader.read().ok()?;
    Some(package.extract_meta_lsx().ok()?.decompressed_bytes)
}

/// What a module says of itself, in mathematical values.
#[verifier::ext_equal]
pub struct ModuleView {
    pub uuid: Seq<char>,
    pub name: Seq<char>,
    pub folder: Seq<char>,
    pub version: u64,
    pub md5: Option<Seq<char>>,
    pub author: Option<Seq<char>>,
    pub description: Option<Seq<char>>,
    pub module_type: Option<Seq<char>>,
}

pub open spec fn module_view(m: Option<ModuleInfo>) -> Option<ModuleView> {
    match m {
        None => None,
        Some(m) => Some(
            ModuleView {
                uuid: m.uuid@,
                name: m.name@,
                folder: m.folder@,
                version: m.version,
                md5: text::text_opt(m.md5),
                author: text::text_opt(m.author),
                description: text::text_opt(m.description),
                module_type: text::text_opt(m.module_type),
            },
        ),
    }
}

/// What `DecompressedFile::deserialize_as_mod_pak` reads of a module in a description.
pub uninterp spec fn larian_module(bytes: Seq<u8>) -> Option<ModuleView>;

/// Whether bytes hold `<!`.
pub open spec fn has_markup(bytes: Seq<u8>) -> bool {
    text::contains_text(bytes, seq![60u8, 33u8])
}

/// Whether bytes hold `<@` or `:@`.
pub open spec fn has_odd_tag(bytes: Seq<u8>) -> bool {
    text::contains_text(bytes, seq![60u8, 64u8]) || text::contains_text(bytes, seq![58u8, 64u8])
}

/// Whether a description can be read: where it holds something that begins with `<!`, it
/// holds no tag whose name, or whose name behind a prefix, begins with `@`, which is no XML.
pub open spec fn is_plain(bytes: Seq<u8>) -> bool {
    !has_markup(bytes) || !has_odd_tag(bytes)
}

/// Whether one byte stands right before another.
fn has_pair(bytes: &[u8], first: u8, second: u8) -> (r: bool)
    ensures
        r == text::contains_text(bytes@, seq![first, second]),
{
    let ghost pair = seq![first, second];
    let mut i: usize = 1;
    while i < bytes.len()
        invariant
            1 <= i,
            pair == seq![first, second],
            forall|k: int| k + 1 < i ==> !#[trigger] text::stands_at(bytes@, pair, k),
        decreases bytes.len() - i,
    {
        let ghost here = bytes@.subrange(i - 1, i + 1);
        if bytes[i - 1] == first && bytes[i] == second {
            assert(here =~= pair);
            assert(text::stands_at(bytes@, pair, i - 1));
            return true;
        }
        assert(!text::stands_at(bytes@, pair, i - 1)) by {
            assert(here[0] == bytes@[i - 1] && here[1] == bytes@[i as int]);
            assert(pair[0] == first && pair[1] == second);
        }
        i = i + 1;
    }
    false
}

/// Whether a description can be read.
pub fn check_description(bytes: &[u8]) -> (r: bool)
    ensures
        r == is_plain(bytes@),
{
    !has_pair(bytes, 60, 33) || !(has_pair(bytes, 60, 64) || has_pair(bytes, 58, 64))
}

/// Calls `larian_formats::lspk::DecompressedFile::deserialize_as_mod_pak` on the bytes of
/// a description: what the module says of itself, where the description holds all that
/// is asked for, as a function of the bytes. The deserializer underneath breaks off with a
/// panic where a text value is interrupted by a document type; a description has no text
/// values, unless a tag stands in for an attribute, which its name behind the first colon
/// tells.
#[verifier::external_body]
fn deserialize_as_mod_pak(bytes: &[u8]) -> (r: Option<ModuleInfo>)
    requires
        is_plain(bytes@),
    ensures
        module_view(r) == larian_module(bytes@),
{
    let path = std::path::PathBuf::new();
    let file = larian_formats::lspk::DecompressedFile { path, decompressed_bytes: bytes.to_vec() };
    let m = file.deserialize_as_mod_pak().ok()?.module_info;
    Some(ModuleInfo {
        uuid: m.uuid,
        name: m.name,
        folder: m.folder,
        version: m.version,
        md5: m.md5,
        author: m.author,
        description: m.description,
        module_type: m.module_type,
    })
}

/// The metadata of a package. The reader of `larian_formats` is asked only where the
/// index points to no description, and breaks off on packages that are not readable.
pub fn read_meta_lsx_from_pak(file: &[u8]) -> (r: Option<ModMeta>)
    requires
        pak_index::indexed_meta(file@) is Some || readable(file@),
    ensures
        pak_index::is_meta(r, file@, larian_meta(file@)),
{
    if let Some(found) = read_meta_lsx_from_pak_custom(file) {
        let mut meta = found;
        let ghost m0 = meta;
        fill_dependency_fallback(&mut meta, file);
        assert(m0.says(pak_index::described(pak_index::indexed_meta(file@)->0)));
        return Some(meta);
    }
    let extracted = extract_meta_lsx(file);
    pick_meta(file, extracted)
}

/// The metadata of a package, where it can be read.
pub fn try_read_meta_lsx_from_pak(file: &[u8]) -> (r: Option<Option<ModMeta>>)
    ensures
        r is Some <==> pak_index::indexed_meta(file@) is Some || readable(file@),
        r matches Some(m) ==> pak_index::is_meta(m, file@, larian_meta(file@)),
{
    if read_meta_lsx_from_pak_custom(file).is_some() || is_readable(file) {
        Some(read_meta_lsx_from_pak(file))
    } else {
        None
    }
}

/// What a package says of the module in it, and all else that is known of it.
pub struct PakDescription {
    pub module: Option<ModuleInfo>,
    pub meta: Option<ModMeta>,
}

/// Whether a description is what a package says, given what `larian_formats` takes out
/// of the package and reads in that.
pub open spec fn describes(
    d: PakDescription,
    file: Seq<u8>,
    extracted: Option<Seq<u8>>,
    module: Option<ModuleView>,
) -> bool {
    match extracted {
        Some(bytes) => {
            &&& module_view(d.module) == module
            &&& d.meta matches Some(m) && m.says(pak_index::described(bytes))
        },
        None => d.module is None && pak_index::is_meta(d.meta, file, None),
    }
}

/// What `larian_formats` reads in what it takes out of a package.
pub open spec fn module_in(extracted: Option<Seq<u8>>) -> Option<ModuleView> {
    match extracted {
        Some(bytes) => larian_module(bytes),
        None => None,
    }
}

/// What a package says, given the description that was taken out of it.
pub fn describe_extracted(file: &[u8], extracted: Option<Vec<u8>>) -> (d: PakDescription)
    requires
        extracted matches Some(bytes) ==> is_plain(bytes@),
    ensures
        describes(
            d,
            file@,
            pak_index::bytes_opt(extracted),
            module_in(pak_index::bytes_opt(extracted)),
        ),
{
    match extracted {
        Some(bytes) => PakDescription {
            module: deserialize_as_mod_pak(bytes.as_slice()),
            meta: Some(parse_meta_lsx(bytes.as_slice())),
        },
        None => PakDescription { module: None, meta: pick_meta(file, None) },
    }
}

/// Whether a package can be read for an import: the reader goes through it, and the
/// description in it can be read.
pub open spec fn can_describe(file: Seq<u8>) -> bool {
    readable(file) && (larian_meta(file) matches Some(bytes) ==> is_plain(bytes))
}

/// Reads a package for an import, where it can be read.
pub fn try_describe_pak(file: &[u8]) -> (r: Option<PakDescription>)
    ensures
        r is Some <==> can_describe(file@),
        r matches Some(d) ==> describes(d, file@, larian_meta(file@), module_in(larian_meta(file@))),
{
    if !is_readable(file) {
        return None;
    }
    let extracted = extract_meta_lsx(file);
    if let Some(bytes) = &extracted {
        if !check_description(bytes.as_slice()) {
            return None;
        }
    }
    Some(describe_extracted(file, extracted))
}

} // verus!
