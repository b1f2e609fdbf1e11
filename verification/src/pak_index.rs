//! Package files: the index of a package and the files that it lists.
use crate::metadata;
use crate::metadata::{
    byte_range, find_bytes_from, is_uuid_like_str, parse_meta_lsx, scan_dependency_refs, ModMeta,
};
use crate::sorting;
use crate::text;
use crate::text::{has_suffix, has_text, same_text, to_chars};
use vstd::prelude::*;

verus! {

// ---------------------------------------------------------------------------
// Decompression
// ---------------------------------------------------------------------------

/// What `lz4_flex::block::decompress` returns for a block and a size.
pub uninterp spec fn lz4_bytes(input: Seq<u8>, size: nat) -> Option<Seq<u8>>;

/// What `zstd::bulk::decompress` returns for a frame and a capacity.
pub uninterp spec fn zstd_bytes(input: Seq<u8>, capacity: nat) -> Option<Seq<u8>>;

/// The first bytes of what `flate2::read::ZlibDecoder` reads from a stream.
pub uninterp spec fn zlib_bytes(input: Seq<u8>, size: nat) -> Option<Seq<u8>>;

/// What `String::from_utf8_lossy` makes of bytes.
pub uninterp spec fn lossy_text(bytes: Seq<u8>) -> Seq<char>;

pub open spec fn bytes_opt(v: Option<Vec<u8>>) -> Option<Seq<u8>> {
    match v {
        Some(b) => Some(b@),
        None => None,
    }
}

/// From how many bytes 255 in a row on a length in a block may be too large: each adds 255
/// to a number of 32 bits, and the sum is added to a place in memory.
pub open spec fn run_limit() -> nat {
    if usize::MAX <= u32::MAX {
        8_388_608
    } else {
        16_843_009
    }
}

/// Whether the bytes from `at` on start with a run of `n` bytes 255.
pub open spec fn runs_at(input: Seq<u8>, at: int, n: nat) -> bool {
    &&& 0 <= at
    &&& at + n <= input.len()
    &&& forall|k: int| at <= k < at + n ==> (#[trigger] input[k]) == 255
}

/// Whether no length in a block is too large to be read.
pub open spec fn is_block(input: Seq<u8>) -> bool {
    forall|at: int| !#[trigger] runs_at(input, at, run_limit())
}

/// Whether no length in a block is too large to be read.
pub fn check_block(input: &[u8]) -> (r: bool)
    ensures
        r == is_block(input@),
{
    let limit: usize = if usize::MAX as u64 <= u32::MAX as u64 {
        8_388_608
    } else {
        16_843_009
    };
    let mut run: usize = 0;
    let mut i: usize = 0;
    while i < input.len()
        invariant
            i <= input.len(),
            run <= i,
            run < limit,
            limit == run_limit(),
            runs_at(input@, i - run, run as nat),
            i > run ==> input@[i - run - 1] != 255,
            forall|at: int| at + limit <= i ==> !#[trigger] runs_at(input@, at, limit as nat),
        decreases input.len() - i,
    {
        let ghost start = i - run;
        if input[i] == 255 {
            run = run + 1;
        } else {
            run = 0;
        }
        i = i + 1;
        if run == limit {
            assert(runs_at(input@, start, run_limit()));
            return false;
        }
        proof {
            assert forall|at: int| at + limit <= i implies !#[trigger] runs_at(
                input@,
                at,
                limit as nat,
            ) by {
                if at + limit == i && runs_at(input@, at, limit as nat) {
                    if run == 0 {
                        assert(input@[i - 1] == 255);
                    } else {
                        assert(at <= start - 1);
                        assert(input@[start - 1] == 255);
                    }
                }
            }
        }
    }
    true
}

/// Calls `lz4_flex::block::decompress`: the bytes that the block holds, where it
/// is well formed and they fit in `size`, as a function of the two arguments. Lengths in
/// the block are added up in 32 bits, which may overflow where it is no `is_block`.
#[verifier::external_body]
fn lz4_decompress(input: &[u8], size: usize) -> (r: Option<Vec<u8>>)
    requires
        size <= isize::MAX,
        is_block(input@),
    ensures
        bytes_opt(r) == lz4_bytes(input@, size as nat),
{
    lz4_flex::block::decompress(input, size).ok()
}

/// The bytes that a block holds. One with a length that is too large holds none.
pub open spec fn block_bytes(input: Seq<u8>, size: nat) -> Option<Seq<u8>> {
    if is_block(input) {
        lz4_bytes(input, size)
    } else {
        None
    }
}

pub fn unpack_block(input: &[u8], size: usize) -> (r: Option<Vec<u8>>)
    requires
        size <= isize::MAX,
    ensures
        bytes_opt(r) == block_bytes(input@, size as nat),
{
    if check_block(input) {
        lz4_decompress(input, size)
    } else {
        None
    }
}

/// Calls `zstd::bulk::decompress`: the bytes that the frame holds, where it is
/// well formed and they fit in `capacity`, as a function of the two arguments.
#[verifier::external_body]
fn zstd_decompress(input: &[u8], capacity: usize) -> (r: Option<Vec<u8>>)
    requires
        capacity <= isize::MAX,
    ensures
        bytes_opt(r) == zstd_bytes(input@, capacity as nat),
{
    zstd::bulk::decompress(input, capacity).ok()
}

/// Calls `read_exact` on a `flate2::read::ZlibDecoder`: the first `size` bytes
/// that the stream holds, where there are so many and they can be read, as a
/// function of the two arguments.
#[verifier::external_body]
pub(crate) fn zlib_decompress(input: &[u8], size: usize) -> (r: Option<Vec<u8>>)
    requires
        size <= isize::MAX,
    ensures
        bytes_opt(r) == zlib_bytes(input@, size as nat),
{
    let mut decoder = flate2::read::ZlibDecoder::new(input);
    let mut out = vec![0u8; size];
    std::io::Read::read_exact(&mut decoder, &mut out).ok()?;
    Some(out)
}

/// Calls `String::from_utf8_lossy`: the text that the bytes encode, with a mark in
/// place of what is no text; bytes below 128 stand for themselves.
#[verifier::external_body]
fn from_utf8_lossy(bytes: &[u8]) -> (r: String)
    ensures
        r@ == lossy_text(bytes@),
        (forall|i: int| 0 <= i < bytes@.len() ==> bytes@[i] < 128) ==> r@ == metadata::ascii_text(
            bytes@,
        ),
{
    String::from_utf8_lossy(bytes).into_owned()
}

// ---------------------------------------------------------------------------
// Numbers in a file
// ---------------------------------------------------------------------------

/// The number that bytes stand for, the lowest byte first.
pub open spec fn le_value(bytes: Seq<u8>) -> nat
    decreases bytes.len(),
{
    if bytes.len() == 0 {
        0
    } else {
        bytes[0] as nat + 256 * le_value(bytes.drop_first())
    }
}

/// The number in the `n` bytes at `at`, if the file reaches so far.
pub open spec fn le_at(file: Seq<u8>, at: int, n: int) -> Option<nat> {
    if 0 <= at && at + n <= file.len() {
        Some(le_value(file.subrange(at, at + n)))
    } else {
        None
    }
}

proof fn lemma_le4(b: Seq<u8>)
    requires
        b.len() == 4,
    ensures
        le_value(b) == b[0] + 256 * b[1] + 65536 * b[2] + 16777216 * b[3],
{
    reveal_with_fuel(le_value, 5);
}

fn u32_here(file: &[u8], at: usize) -> (r: u32)
    requires
        at + 4 <= file.len(),
    ensures
        r == le_value(file@.subrange(at as int, at + 4)),
{
    let b0: u32 = file[at] as u32;
    let b1: u32 = file[at + 1] as u32;
    let b2: u32 = file[at + 2] as u32;
    let b3: u32 = file[at + 3] as u32;
    proof {
        lemma_le4(file@.subrange(at as int, at + 4));
    }
    b0 + 256 * b1 + 65536 * b2 + 16777216 * b3
}

pub fn read_u32(file: &[u8], at: usize) -> (r: Option<u32>)
    ensures
        match r {
            Some(v) => le_at(file@, at as int, 4) == Some(v as nat),
            None => le_at(file@, at as int, 4) is None,
        },
{
    if file.len() < 4 || at > file.len() - 4 {
        None
    } else {
        Some(u32_here(file, at))
    }
}

pub fn read_u64(file: &[u8], at: usize) -> (r: Option<u64>)
    ensures
        match r {
            Some(v) => le_at(file@, at as int, 8) == Some(v as nat),
            None => le_at(file@, at as int, 8) is None,
        },
{
    if file.len() < 8 || at > file.len() - 8 {
        None
    } else {
        let low = u32_here(file, at);
        let high = u32_here(file, at + 4);
        proof {
            let b = file@.subrange(at as int, at + 8);
            reveal_with_fuel(le_value, 9);
            lemma_le4(b.subrange(0, 4));
            lemma_le4(b.subrange(4, 8));
            assert(b.subrange(0, 4) =~= file@.subrange(at as int, at + 4));
            assert(b.subrange(4, 8) =~= file@.subrange(at + 4, at + 8));
            assert(b.drop_first().drop_first().drop_first().drop_first() =~= b.subrange(4, 8));
        }
        Some(low as u64 + 4294967296 * (high as u64))
    }
}

// ---------------------------------------------------------------------------
// The index
// ---------------------------------------------------------------------------

#[derive(Debug, Clone, Copy, PartialEq, Eq, Structural)]
pub enum CompressionType {
    Stored,
    Zlib,
    Lz4,
    Zstd,
}

/// A file in a package.
#[derive(Debug)]
pub struct PakIndexEntry {
    pub path: String,
    pub offset: u64,
    pub compressed_size: u32,
    pub decompressed_size: u32,
    pub compression: CompressionType,
}

/// Why the index of a package cannot be read.
#[derive(Debug, Clone, Copy, PartialEq, Eq, Structural)]
pub enum PakError {
    Truncated,
    BadHeader,
    OldVersion(u32),
    BadOffset,
    BadTable,
}

/// A packed index: how many files it lists, and its compressed bytes.
pub struct PackedTable {
    pub count: u32,
    pub compressed: Vec<u8>,
}

/// The four bytes at the start of a package.
pub open spec fn signature() -> Seq<u8> {
    seq![76u8, 83, 80, 75]
}

/// Where the packed index of a package stands: the number of files and the
/// compressed bytes.
pub open spec fn packed_table(file: Seq<u8>) -> Result<(u32, Seq<u8>), PakError> {
    if file.len() < 4 {
        Err(PakError::Truncated)
    } else if file.take(4) != signature() {
        Err(PakError::BadHeader)
    } else {
        match le_at(file, 4, 4) {
            None => Err(PakError::Truncated),
            Some(version) => if version < 18 {
                Err(PakError::OldVersion(version as u32))
            } else {
                match le_at(file, 8, 8) {
                    None => Err(PakError::Truncated),
                    Some(footer) => if footer > i64::MAX {
                        Err(PakError::BadOffset)
                    } else {
                        match (le_at(file, footer as int, 4), le_at(file, footer as int + 4, 4)) {
                            (Some(count), Some(len)) => if footer + 8 + len <= file.len() {
                                Ok(
                                    (
                                        count as u32,
                                        file.subrange(footer as int + 8, (footer + 8 + len) as int),
                                    ),
                                )
                            } else {
                                Err(PakError::Truncated)
                            },
                            _ => Err(PakError::Truncated),
                        }
                    },
                }
            },
        }
    }
}

pub fn locate_table(file: &[u8]) -> (r: Result<PackedTable, PakError>)
    ensures
        match r {
            Ok(t) => packed_table(file@) == Ok::<(u32, Seq<u8>), PakError>(
                (t.count, t.compressed@),
            ),
            Err(e) => packed_table(file@) == Err::<(u32, Seq<u8>), PakError>(e),
        },
{
    if file.len() < 4 {
        return Err(PakError::Truncated);
    }
    let head = file[0] == 76 && file[1] == 83 && file[2] == 80 && file[3] == 75;
    proof {
        let t = file@.take(4);
        assert(t[0] == file@[0] && t[1] == file@[1] && t[2] == file@[2] && t[3] == file@[3]);
        if head {
            assert(t =~= signature());
        } else if t == signature() {
            assert(t[0] == 76 && t[1] == 83 && t[2] == 80 && t[3] == 75);
        }
    }
    if !head {
        return Err(PakError::BadHeader);
    }
    let version = match read_u32(file, 4) {
        Some(v) => v,
        None => return Err(PakError::Truncated),
    };
    if version < 18 {
        return Err(PakError::OldVersion(version));
    }
    let footer64 = match read_u64(file, 8) {
        Some(v) => v,
        None => return Err(PakError::Truncated),
    };
    if footer64 > i64::MAX as u64 {
        return Err(PakError::BadOffset);
    }
    if file.len() < 8 || footer64 > (file.len() - 8) as u64 {
        return Err(PakError::Truncated);
    }
    let footer: usize = footer64 as usize;
    let count = match read_u32(file, footer) {
        Some(v) => v,
        None => return Err(PakError::Truncated),
    };
    let len = match read_u32(file, footer + 4) {
        Some(v) => v,
        None => return Err(PakError::Truncated),
    };
    if len as u64 > (file.len() - footer - 8) as u64 {
        return Err(PakError::Truncated);
    }
    let size: usize = len as usize;
    let compressed = byte_range(file, footer + 8, footer + 8 + size);
    Ok(PackedTable { count, compressed })
}

/// A path in a package in its plain form: slashes, none at the start, lower case.
pub open spec fn package_path(raw: Seq<char>) -> Seq<char> {
    text::ascii_lower(without_leading_slash(text::swap_char(raw, '\\', '/')))
}

pub open spec fn without_leading_slash(s: Seq<char>) -> Seq<char>
    decreases s.len(),
{
    if s.len() > 0 && s[0] == '/' {
        without_leading_slash(s.drop_first())
    } else {
        s
    }
}

pub fn normalize_path(path: &str) -> (r: String)
    ensures
        r@ == package_path(path@),
{
    let swapped = text::replace_char(path, '\\', '/');
    let v = to_chars(swapped.as_str());
    let mut i: usize = 0;
    assert(v@.skip(0) =~= v@);
    while i < v.len() && v[i] == '/'
        invariant
            i <= v.len(),
            without_leading_slash(v@.skip(i as int)) == without_leading_slash(v@),
        decreases v.len() - i,
    {
        assert(v@.skip(i as int).drop_first() =~= v@.skip(i + 1));
        i = i + 1;
    }
    let rest = text::from_range(&v, i, v.len());
    assert(rest@ =~= v@.skip(i as int));
    text::to_ascii_lower(rest.as_str())
}

/// How many of the bytes come before the first zero.
pub open spec fn zero_at(bytes: Seq<u8>) -> nat
    decreases bytes.len(),
{
    if bytes.len() == 0 || bytes[0] == 0 {
        0
    } else {
        1 + zero_at(bytes.drop_first())
    }
}

/// What an index entry says, in mathematical values.
pub struct EntryView {
    pub path: Seq<char>,
    pub offset: nat,
    pub compressed_size: nat,
    pub decompressed_size: nat,
    pub compression: CompressionType,
}

impl PakIndexEntry {
    pub open spec fn entry(self) -> EntryView {
        EntryView {
            path: self.path@,
            offset: self.offset as nat,
            compressed_size: self.compressed_size as nat,
            decompressed_size: self.decompressed_size as nat,
            compression: self.compression,
        }
    }
}

pub open spec fn compression_of(b: u8) -> CompressionType {
    let low = b % 16;
    if low == 0 {
        CompressionType::Stored
    } else if low == 1 {
        CompressionType::Zlib
    } else if low == 2 {
        CompressionType::Lz4
    } else {
        CompressionType::Zstd
    }
}

/// What the 272 bytes of an index entry say.
pub open spec fn entry_of(e: Seq<u8>) -> EntryView {
    let raw = e.take(256);
    EntryView {
        path: package_path(lossy_text(raw.take(zero_at(raw) as int))),
        offset: le_value(e.subrange(256, 260)) + 4294967296 * le_value(e.subrange(260, 262)),
        compressed_size: le_value(e.subrange(264, 268)),
        decompressed_size: le_value(e.subrange(268, 272)),
        compression: compression_of(e[263]),
    }
}

/// How many of `count` entries an index of so many bytes holds in full.
pub open spec fn full_entries(len: nat, count: nat) -> nat {
    if count <= len / 272 {
        count
    } else {
        len / 272
    }
}

/// The entries of an index.
pub open spec fn entries_of(table: Seq<u8>, count: nat) -> Seq<EntryView> {
    Seq::new(
        full_entries(table.len(), count),
        |i: int| entry_of(table.subrange(272 * i, 272 * i + 272)),
    )
}

pub open spec fn entry_views(list: Seq<PakIndexEntry>) -> Seq<EntryView> {
    Seq::new(list.len(), |i: int| list[i].entry())
}

proof fn lemma_zero_at(bytes: Seq<u8>, n: int)
    requires
        0 <= n <= bytes.len(),
        forall|i: int| 0 <= i < n ==> bytes[i] != 0,
        n < bytes.len() ==> bytes[n] == 0,
    ensures
        zero_at(bytes) == n,
    decreases n,
{
    if n > 0 {
        let rest = bytes.drop_first();
        assert(forall|i: int| 0 <= i < n - 1 ==> rest[i] == bytes[i + 1]);
        lemma_zero_at(rest, n - 1);
    }
}

fn decode_entry(table: &[u8], at: usize) -> (r: PakIndexEntry)
    requires
        at + 272 <= table.len(),
    ensures
        r.entry() == entry_of(table@.subrange(at as int, at + 272)),
{
    let ghost e = table@.subrange(at as int, at + 272);
    let mut end: usize = 0;
    while end < 256 && table[at + end] != 0
        invariant
            end <= 256,
            at + 272 <= table.len(),
            e == table@.subrange(at as int, at + 272),
            forall|i: int| 0 <= i < end ==> e[i] != 0,
        decreases 256 - end,
    {
        end = end + 1;
    }
    let raw = byte_range(table, at, at + end);
    let shown = from_utf8_lossy(raw.as_slice());
    let path = normalize_path(shown.as_str());
    let upper = u32_here(table, at + 256);
    let low: u32 = table[at + 260] as u32;
    let high: u32 = table[at + 261] as u32;
    let lower: u32 = low + 256 * high;
    let kind = table[at + 263];
    let compression = if kind % 16 == 0 {
        CompressionType::Stored
    } else if kind % 16 == 1 {
        CompressionType::Zlib
    } else if kind % 16 == 2 {
        CompressionType::Lz4
    } else {
        CompressionType::Zstd
    };
    let compressed_size = u32_here(table, at + 264);
    let decompressed_size = u32_here(table, at + 268);
    proof {
        lemma_zero_at(e.take(256), end as int);
        assert(e.take(256).take(end as int) =~= raw@);
        assert(e.subrange(256, 260) =~= table@.subrange(at + 256, at + 260));
        assert(e.subrange(264, 268) =~= table@.subrange(at + 264, at + 268));
        assert(e.subrange(268, 272) =~= table@.subrange(at + 268, at + 272));
        reveal_with_fuel(le_value, 3);
        assert(le_value(e.subrange(260, 262)) == lower);
    }
    PakIndexEntry {
        path,
        offset: upper as u64 + 4294967296 * (lower as u64),
        compressed_size,
        decompressed_size,
        compression,
    }
}

/// The entries of an index that has been decompressed.
pub fn decode_entries(table: &[u8], count: u32) -> (out: Vec<PakIndexEntry>)
    ensures
        entry_views(out@) == entries_of(table@, count as nat),
{
    let mut out: Vec<PakIndexEntry> = Vec::new();
    let mut i: u32 = 0;
    let mut at: usize = 0;
    while i < count && table.len() - at >= 272
        invariant
            i <= count,
            at == 272 * i,
            at <= table.len(),
            out.len() == i,
            forall|j: int|
                0 <= j < i ==> (#[trigger] out@[j]).entry() == entry_of(
                    table@.subrange(272 * j, 272 * j + 272),
                ),
        decreases count - i,
    {
        let entry = decode_entry(table, at);
        out.push(entry);
        i = i + 1;
        at = at + 272;
    }
    assert(full_entries(table@.len(), count as nat) == i);
    assert(entry_views(out@) =~= entries_of(table@, count as nat));
    out
}

/// How many bytes an index of so many files takes up, where that fits in memory.
pub open spec fn table_size(count: u32) -> Option<nat> {
    if 272 * count <= isize::MAX {
        Some((272 * count) as nat)
    } else {
        None
    }
}

pub(crate) fn fitting_size(count: u32) -> (r: Option<usize>)
    ensures
        match r {
            Some(n) => table_size(count) == Some(n as nat) && n <= isize::MAX,
            None => table_size(count) is None,
        },
{
    let wide: u64 = 272 * (count as u64);
    if wide <= isize::MAX as u64 {
        Some(wide as usize)
    } else {
        None
    }
}

/// The files that a package lists, its index read with LZ4 alone.
pub open spec fn listed_files(file: Seq<u8>) -> Result<Seq<EntryView>, PakError> {
    match packed_table(file) {
        Err(e) => Err(e),
        Ok((count, compressed)) => match table_size(count) {
            None => Err(PakError::BadTable),
            Some(size) => match block_bytes(compressed, size) {
                Some(table) => Ok(entries_of(table, count as nat)),
                None => Err(PakError::BadTable),
            },
        },
    }
}

/// The files that a package lists, its index read with LZ4 or else with Zstandard.
pub open spec fn indexed_files(file: Seq<u8>) -> Option<Seq<EntryView>> {
    match packed_table(file) {
        Err(_) => None,
        Ok((count, compressed)) => match table_size(count) {
            None => None,
            Some(size) => match (block_bytes(compressed, size), zstd_bytes(compressed, size)) {
                (Some(table), _) => Some(entries_of(table, count as nat)),
                (None, Some(table)) => Some(entries_of(table, count as nat)),
                (None, None) => None,
            },
        },
    }
}

/// Reads the index of a package.
pub fn read_pak_index_entries(file: &[u8]) -> (r: Option<Vec<PakIndexEntry>>)
    ensures
        match r {
            Some(list) => indexed_files(file@) == Some(entry_views(list@)),
            None => indexed_files(file@) is None,
        },
{
    let table = match locate_table(file) {
        Ok(t) => t,
        Err(_) => return None,
    };
    let size = match fitting_size(table.count) {
        Some(n) => n,
        None => return None,
    };
    match unpack_block(table.compressed.as_slice(), size) {
        Some(bytes) => Some(decode_entries(bytes.as_slice(), table.count)),
        None => match zstd_decompress(table.compressed.as_slice(), size) {
            Some(bytes) => Some(decode_entries(bytes.as_slice(), table.count)),
            None => None,
        },
    }
}

/// A file that a mod brings: a key by which it meets those of other mods, and its
/// size.
#[derive(Debug)]
pub struct FileEntry {
    pub key: String,
    pub size: u64,
}

pub open spec fn file_views(list: Seq<FileEntry>) -> Seq<(Seq<char>, u64)> {
    Seq::new(list.len(), |i: int| (list[i].key@, list[i].size))
}

/// The paths and sizes of the files of an index.
pub open spec fn files_of(entries: Seq<EntryView>) -> Seq<(Seq<char>, u64)> {
    Seq::new(entries.len(), |i: int| (entries[i].path, entries[i].decompressed_size as u64))
}

/// The files that a package brings.
pub fn scan_pak_index(file: &[u8]) -> (r: Result<Vec<FileEntry>, PakError>)
    ensures
        match (r, listed_files(file@)) {
            (Ok(list), Ok(entries)) => file_views(list@) == files_of(entries),
            (Err(a), Err(b)) => a == b,
            _ => false,
        },
{
    let table = match locate_table(file) {
        Ok(t) => t,
        Err(e) => return Err(e),
    };
    let size = match fitting_size(table.count) {
        Some(n) => n,
        None => return Err(PakError::BadTable),
    };
    let entries = match unpack_block(table.compressed.as_slice(), size) {
        Some(bytes) => decode_entries(bytes.as_slice(), table.count),
        None => return Err(PakError::BadTable),
    };
    let mut out: Vec<FileEntry> = Vec::new();
    let mut i: usize = 0;
    while i < entries.len()
        invariant
            i <= entries.len(),
            out.len() == i,
            forall|j: int|
                0 <= j < i ==> (#[trigger] out@[j]).key@ == entries@[j].path@ && out@[j].size
                    == entries@[j].decompressed_size,
        decreases entries.len() - i,
    {
        out.push(
            FileEntry {
                key: entries[i].path.clone(),
                size: entries[i].decompressed_size as u64,
            },
        );
        i = i + 1;
    }
    assert(file_views(out@) =~= files_of(entry_views(entries@)));
    Ok(out)
}

// ---------------------------------------------------------------------------
// The module description in a package
// ---------------------------------------------------------------------------

/// Whether the path is that of a module description below a `mods` directory.
pub open spec fn is_module_meta(path: Seq<char>) -> bool {
    text::ends_with(path, "/meta.lsx"@) && text::contains_text(path, "/mods/"@)
}

/// Whether the path is that of a module description anywhere.
pub open spec fn is_any_meta(path: Seq<char>) -> bool {
    text::ends_with(path, "/meta.lsx"@) || path == "meta.lsx"@
}

/// The first entry with such a path, or -1.
pub open spec fn first_entry(
    entries: Seq<EntryView>,
    accepts: spec_fn(Seq<char>) -> bool,
    from: int,
) -> int
    decreases entries.len() - from,
{
    if from < 0 || from >= entries.len() {
        -1
    } else if accepts(text::ascii_lower(entries[from].path)) {
        from
    } else {
        first_entry(entries, accepts, from + 1)
    }
}

/// The entry of the module description, or -1.
pub open spec fn meta_entry(entries: Seq<EntryView>) -> int {
    let below_mods = first_entry(entries, |p: Seq<char>| is_module_meta(p), 0);
    if below_mods >= 0 {
        below_mods
    } else {
        first_entry(entries, |p: Seq<char>| is_any_meta(p), 0)
    }
}

/// Finds the entry of the module description.
pub fn find_meta_entry(entries: &Vec<PakIndexEntry>) -> (r: Option<usize>)
    ensures
        match r {
            Some(i) => meta_entry(entry_views(entries@)) == i && i < entries.len(),
            None => meta_entry(entry_views(entries@)) == -1,
        },
{
    let ghost all = entry_views(entries@);
    let ghost below = |p: Seq<char>| is_module_meta(p);
    let ghost any = |p: Seq<char>| is_any_meta(p);
    let mut i: usize = 0;
    while i < entries.len()
        invariant
            i <= entries.len(),
            all == entry_views(entries@),
            below == (|p: Seq<char>| is_module_meta(p)),
            first_entry(all, below, i as int) == first_entry(all, below, 0),
        decreases entries.len() - i,
    {
        let lower = text::to_ascii_lower(entries[i].path.as_str());
        if has_suffix(lower.as_str(), "/meta.lsx") && has_text(lower.as_str(), "/mods/") {
            return Some(i);
        }
        i = i + 1;
    }
    let mut k: usize = 0;
    while k < entries.len()
        invariant
            k <= entries.len(),
            all == entry_views(entries@),
            any == (|p: Seq<char>| is_any_meta(p)),
            first_entry(all, |p: Seq<char>| is_module_meta(p), 0) == -1,
            first_entry(all, any, k as int) == first_entry(all, any, 0),
        decreases entries.len() - k,
    {
        let lower = text::to_ascii_lower(entries[k].path.as_str());
        if has_suffix(lower.as_str(), "/meta.lsx") || same_text(lower.as_str(), "meta.lsx") {
            return Some(k);
        }
        k = k + 1;
    }
    None
}

/// The bytes that an entry stands for, taken out of the package.
pub open spec fn unpacked(file: Seq<u8>, e: EntryView) -> Option<Seq<u8>> {
    if e.offset + e.compressed_size > file.len() || e.decompressed_size > isize::MAX {
        None
    } else {
        let packed = file.subrange(e.offset as int, (e.offset + e.compressed_size) as int);
        match e.compression {
            CompressionType::Stored => Some(packed),
            CompressionType::Lz4 => block_bytes(packed, e.decompressed_size),
            CompressionType::Zlib => zlib_bytes(packed, e.decompressed_size),
            CompressionType::Zstd => zstd_bytes(packed, e.decompressed_size),
        }
    }
}

/// Takes the bytes that an entry stands for out of the package.
pub fn unpack(file: &[u8], e: &PakIndexEntry) -> (r: Option<Vec<u8>>)
    ensures
        bytes_opt(r) == unpacked(file@, e.entry()),
{
    let len: u64 = file.len() as u64;
    if e.offset > len || e.compressed_size as u64 > len - e.offset {
        return None;
    }
    if e.decompressed_size as u64 > isize::MAX as u64 {
        return None;
    }
    let start: usize = e.offset as usize;
    let size: usize = e.compressed_size as usize;
    let full: usize = e.decompressed_size as usize;
    let packed = byte_range(file, start, start + size);
    match e.compression {
        CompressionType::Stored => Some(packed),
        CompressionType::Lz4 => unpack_block(packed.as_slice(), full),
        CompressionType::Zlib => zlib_decompress(packed.as_slice(), full),
        CompressionType::Zstd => zstd_decompress(packed.as_slice(), full),
    }
}

/// The bytes of the module description that the index of a package points to.
pub open spec fn indexed_meta(file: Seq<u8>) -> Option<Seq<u8>> {
    match indexed_files(file) {
        None => None,
        Some(entries) => if meta_entry(entries) < 0 {
            None
        } else {
            unpacked(file, entries[meta_entry(entries)])
        },
    }
}

/// What a module description in XML says.
pub open spec fn described(bytes: Seq<u8>) -> metadata::MetaState {
    metadata::after_items(metadata::blank_state(), metadata::xml_events(bytes))
}

/// Reads the module description that the index of a package points to.
pub fn read_meta_lsx_from_pak_custom(file: &[u8]) -> (r: Option<ModMeta>)
    ensures
        match (r, indexed_meta(file@)) {
            (Some(meta), Some(bytes)) => meta.says(described(bytes)),
            (None, None) => true,
            _ => false,
        },
{
    let entries = match read_pak_index_entries(file) {
        Some(list) => list,
        None => return None,
    };
    let at = match find_meta_entry(&entries) {
        Some(i) => i,
        None => return None,
    };
    assert(entry_views(entries@)[at as int] == entries@[at as int].entry());
    match unpack(file, &entries[at]) {
        Some(bytes) => Some(parse_meta_lsx(bytes.as_slice())),
        None => None,
    }
}

/// Where an XML document stands among the bytes of a package: from the first
/// `<?xml` through the first `</save>` behind it.
pub open spec fn embedded_xml(file: Seq<u8>) -> Option<Seq<u8>> {
    let start = metadata::first_at(file, seq![60u8, 63, 120, 109, 108], 0);
    let end = metadata::first_at(file, seq![60u8, 47, 115, 97, 118, 101, 62], start);
    if start < 0 || end < start || end + 7 > file.len() {
        None
    } else {
        Some(file.subrange(start, end + 7))
    }
}

/// Whether a description names something.
pub open spec fn names_something(s: metadata::MetaState) -> bool {
    s.dependencies.len() > 0 || s.uuid is Some || s.folder is Some || s.name is Some
}

/// Whether `meta` is what the bytes of a package yield without its index: the
/// description that stands in them, if it names something, or else the
/// dependencies that they name.
pub open spec fn fuzzy_meta(meta: Option<ModMeta>, file: Seq<u8>) -> bool {
    match embedded_xml(file) {
        None => meta is None,
        Some(xml) => if names_something(described(xml)) {
            meta matches Some(m) && m.says(described(xml))
        } else {
            raw_meta(meta, file)
        },
    }
}

/// Whether `meta` holds the dependencies that the bytes name and nothing else, or
/// is absent where they name none.
pub open spec fn raw_meta(meta: Option<ModMeta>, file: Seq<u8>) -> bool {
    match meta {
        None => metadata::scanned_refs(Seq::empty(), file),
        Some(m) => {
            &&& m.dependencies@.len() > 0
            &&& metadata::scanned_refs(text::texts(m.dependencies@), file)
            &&& m.tags@.len() == 0 && m.created_at is None && m.uuid is None && m.folder is None
            &&& m.name is None && m.version is None && m.md5 is None && m.author is None
            &&& m.description is None && m.publish_handle is None && m.module_type is None
        },
    }
}

pub fn read_meta_lsx_from_pak_raw(bytes: &[u8]) -> (r: Option<ModMeta>)
    ensures
        raw_meta(r, bytes@),
{
    let deps = scan_dependency_refs(bytes);
    if deps.is_empty() {
        assert(text::texts(deps@) =~= Seq::empty());
        return None;
    }
    let mut meta = ModMeta::default();
    meta.dependencies = deps;
    Some(meta)
}

pub fn read_meta_lsx_from_pak_fuzzy(bytes: &[u8]) -> (r: Option<ModMeta>)
    ensures
        fuzzy_meta(r, bytes@),
{
    let open: Vec<u8> = vec![60u8, 63, 120, 109, 108];
    let close: Vec<u8> = vec![60u8, 47, 115, 97, 118, 101, 62];
    assert(open@ =~= seq![60u8, 63, 120, 109, 108]);
    assert(close@ =~= seq![60u8, 47, 115, 97, 118, 101, 62]);
    let start = match find_bytes_from(bytes, open.as_slice(), 0) {
        Some(i) => i,
        None => return None,
    };
    let end = match find_bytes_from(bytes, close.as_slice(), start) {
        Some(i) => i,
        None => return None,
    };
    let xml = byte_range(bytes, start, end + 7);
    let meta = parse_meta_lsx(xml.as_slice());
    if !meta.dependencies.is_empty() || meta.uuid.is_some() || meta.folder.is_some()
        || meta.name.is_some() {
        return Some(meta);
    }
    read_meta_lsx_from_pak_raw(bytes)
}

/// Whether `list` is `deps` with what the bytes of the package name added, where
/// each of `deps` is a bare id and the bytes name something.
pub open spec fn with_fallback(
    deps: Seq<Seq<char>>,
    list: Seq<Seq<char>>,
    file: Seq<u8>,
) -> bool {
    let bare = forall|i: int| 0 <= i < deps.len() ==> metadata::is_uuid_text(#[trigger] deps[i]);
    if !bare || metadata::scanned_refs(Seq::empty(), file) {
        list == deps
    } else {
        &&& sorting::ascending(list)
        &&& forall|t: Seq<char>| #[trigger]
            list.contains(t) <==> deps.contains(t) || (metadata::refs_from(file, 0).contains(t)
                && !metadata::base_uuid(t) && !metadata::base_label(t))
    }
}

pub fn fill_dependency_fallback(meta: &mut ModMeta, bytes: &[u8])
    ensures
        with_fallback(
            text::texts(old(meta).dependencies@),
            text::texts(final(meta).dependencies@),
            bytes@,
        ),
        *final(meta) == (ModMeta { dependencies: final(meta).dependencies, ..*old(meta) }),
{
    let ghost deps = text::texts(meta.dependencies@);
    let mut i: usize = 0;
    while i < meta.dependencies.len()
        invariant
            i <= meta.dependencies.len(),
            *meta == *old(meta),
            deps == text::texts(meta.dependencies@),
            forall|j: int| 0 <= j < i ==> metadata::is_uuid_text(#[trigger] deps[j]),
        decreases meta.dependencies.len() - i,
    {
        assert(deps[i as int] == meta.dependencies@[i as int]@);
        if !is_uuid_like_str(meta.dependencies[i].as_str()) {
            return;
        }
        i = i + 1;
    }
    let mut found = scan_dependency_refs(bytes);
    let ghost scanned = text::texts(found@);
    if found.is_empty() {
        assert(scanned =~= Seq::empty());
        return;
    }
    let mut k: usize = 0;
    while k < meta.dependencies.len()
        invariant
            k <= meta.dependencies.len(),
            *meta == *old(meta),
            deps == text::texts(meta.dependencies@),
            sorting::ascending(text::texts(found@)),
            forall|t: Seq<char>| #[trigger]
                text::texts(found@).contains(t) <==> scanned.contains(t) || deps.take(
                    k as int,
                ).contains(t),
        decreases meta.dependencies.len() - k,
    {
        proof {
            let now = deps.take(k as int);
            let next = deps.take(k + 1);
            assert(next =~= now.push(deps[k as int]));
            assert forall|t: Seq<char>| #[trigger] next.contains(t) <==> now.contains(t) || t
                == deps[k as int] by {
                crate::lists::lemma_push_contains(now, deps[k as int], t);
            }
        }
        sorting::insert_sorted(&mut found, meta.dependencies[k].clone());
        k = k + 1;
    }
    proof {
        assert(deps.take(k as int) =~= deps);
        if metadata::scanned_refs(Seq::empty(), bytes@) {
            assert(scanned.contains(scanned[0]));
            assert(Seq::<Seq<char>>::empty().contains(scanned[0]));
        }
    }
    meta.dependencies = found;
}

/// Whether `r` is the metadata of a package: what its index points to, else what
/// `extracted` holds, else what stands among its bytes; with the dependencies that its
/// bytes name, where only bare ids are known.
pub open spec fn is_meta(r: Option<ModMeta>, file: Seq<u8>, extracted: Option<Seq<u8>>) -> bool {
    match (indexed_meta(file), extracted) {
        (Some(bytes), _) => r matches Some(m) && exists|m0: ModMeta|
            {
                &&& #[trigger] m0.says(described(bytes))
                &&& m == (ModMeta { dependencies: m.dependencies, ..m0 })
                &&& with_fallback(
                    text::texts(m0.dependencies@),
                    text::texts(m.dependencies@),
                    file,
                )
            },
        (None, Some(bytes)) => r matches Some(m) && exists|m0: ModMeta|
            {
                &&& #[trigger] m0.says(described(bytes))
                &&& m == (ModMeta { dependencies: m.dependencies, ..m0 })
                &&& with_fallback(
                    text::texts(m0.dependencies@),
                    text::texts(m.dependencies@),
                    file,
                )
            },
        (None, None) => match r {
            None => fuzzy_meta(None, file),
            Some(m) => exists|m0: ModMeta|
                {
                    &&& #[trigger] fuzzy_meta(Some(m0), file)
                    &&& m == (ModMeta { dependencies: m.dependencies, ..m0 })
                    &&& with_fallback(
                        text::texts(m0.dependencies@),
                        text::texts(m.dependencies@),
                        file,
                    )
                },
        },
    }
}

/// The metadata of a package, from the description that was taken out of it.
pub fn pick_meta(file: &[u8], extracted: Option<Vec<u8>>) -> (r: Option<ModMeta>)
    ensures
        is_meta(r, file@, bytes_opt(extracted)),
{
    if let Some(found) = read_meta_lsx_from_pak_custom(file) {
        let mut meta = found;
        let ghost m0 = meta;
        fill_dependency_fallback(&mut meta, file);
        assert(m0.says(described(indexed_meta(file@)->0)));
        return Some(meta);
    }
    if let Some(bytes) = extracted {
        let mut meta = parse_meta_lsx(bytes.as_slice());
        let ghost m0 = meta;
        fill_dependency_fallback(&mut meta, file);
        assert(m0.says(described(bytes@)));
        return Some(meta);
    }
    match read_meta_lsx_from_pak_fuzzy(file) {
        Some(found) => {
            let mut meta = found;
            let ghost m0 = meta;
            fill_dependency_fallback(&mut meta, file);
            assert(fuzzy_meta(Some(m0), file@));
            Some(meta)
        },
        None => None,
    }
}

} // verus!
