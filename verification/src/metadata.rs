//! Mod metadata: the module description, the dependencies it names and when it
//! was made.
use crate::text;
use crate::text::{same_text, split, to_alnum_key, to_ascii_lower, to_chars, trim, trim_non_empty};
use vstd::prelude::*;

verus! {

/// What a mod's metadata says of it.
#[derive(Debug)]
pub struct ModMeta {
    pub dependencies: Vec<String>,
    pub tags: Vec<String>,
    pub created_at: Option<i64>,
    pub uuid: Option<String>,
    pub folder: Option<String>,
    pub name: Option<String>,
    pub version: Option<u64>,
    pub md5: Option<String>,
    pub author: Option<String>,
    pub description: Option<String>,
    pub publish_handle: Option<u64>,
    pub module_type: Option<String>,
}

/// What an information file says of one mod.
#[derive(Debug)]
pub struct JsonModInfo {
    pub uuid: Option<String>,
    pub folder: Option<String>,
    pub name: Option<String>,
    pub created_at: Option<i64>,
    pub dependencies: Vec<String>,
}

impl ModMeta {
    /// Metadata that says nothing.
    pub open spec fn is_empty_meta(self) -> bool {
        &&& self.dependencies@.len() == 0
        &&& self.tags@.len() == 0
        &&& self.created_at is None
        &&& self.uuid is None
        &&& self.folder is None
        &&& self.name is None
        &&& self.version is None
        &&& self.md5 is None
        &&& self.author is None
        &&& self.description is None
        &&& self.publish_handle is None
        &&& self.module_type is None
    }
}

impl Default for ModMeta {
    fn default() -> (r: Self)
        ensures
            r.is_empty_meta(),
    {
        ModMeta {
            dependencies: Vec::new(),
            tags: Vec::new(),
            created_at: None,
            uuid: None,
            folder: None,
            name: None,
            version: None,
            md5: None,
            author: None,
            description: None,
            publish_handle: None,
            module_type: None,
        }
    }
}

// ---------------------------------------------------------------------------
// Modules that come with the game
// ---------------------------------------------------------------------------

/// The letters and digits, in lower case, of the names of modules that come with
/// the game.
pub open spec fn is_base_name(key: Seq<char>) -> bool {
    ||| key == "gustav"@
    ||| key == "gustavdev"@
    ||| key == "gustavx"@
    ||| key == "shared"@
    ||| key == "shareddev"@
    ||| key == "fw3"@
    ||| key == "engine"@
    ||| key == "game"@
    ||| key == "diceset01"@
    ||| key == "diceset02"@
    ||| key == "diceset03"@
    ||| key == "diceset04"@
    ||| key == "diceset06"@
    ||| key == "honour"@
    ||| key == "honourx"@
    ||| key == "modbrowser"@
    ||| key == "mainui"@
    ||| key == "crossplayui"@
    ||| key == "photomode"@
}

/// The ids, in lower case, of modules that come with the game.
pub open spec fn is_base_id(id: Seq<char>) -> bool {
    // Gustav, GustavX, GustavDev
    ||| id == "991c9c7a-fb80-40cb-8f0d-b92d4e80e9b1"@
    ||| id == "cb555efe-2d9e-131f-8195-a89329d218ea"@
    ||| id == "28ac9ce2-2aba-8cda-b3b5-6e922f71b6b8"@
    // Shared, SharedDev
    ||| id == "ed539163-bb70-431b-96a7-f5b2eda5376b"@
    ||| id == "3d0c5ff8-c95d-c907-ff3e-34b204f1c630"@
    // FW3, Engine
    ||| id == "e5c9077e-1fca-4f24-b55d-464f512c98a8"@
    ||| id == "9dff4c3b-fda7-43de-a763-ce1383039999"@
    // Game, which some modules name by this word
    ||| id == "game"@
    // DiceSet_01, DiceSet_02, DiceSet_03, DiceSet_04, DiceSet_06
    ||| id == "e842840a-2449-588c-b0c4-22122cfce31b"@
    ||| id == "b176a0ac-d79f-ed9d-5a87-5c2c80874e10"@
    ||| id == "e0a4d990-7b9b-8fa9-d7c6-04017c6cf5b1"@
    ||| id == "77a2155f-4b35-4f0c-e7ff-4338f91426a4"@
    ||| id == "ee4989eb-aab8-968f-8674-812ea2f4bfd7"@
    // Honour, HonourX
    ||| id == "b77b6210-ac50-4cb1-a3d5-5702fb9c744c"@
    ||| id == "767d0062-d82c-279c-e16b-dfee7fe94cdd"@
    // ModBrowser, MainUI, CrossplayUI, PhotoMode
    ||| id == "ee5a55ff-eb38-0b27-c5b0-f358dc306d34"@
    ||| id == "630daa32-70f8-3da5-41b9-154fe8410236"@
    ||| id == "e1ce736b-52e6-e713-e9e7-e6abbb15a198"@
    ||| id == "55ef175c-59e3-b44b-3fb2-8f86acc5d550"@
}

pub open spec fn base_label(label: Seq<char>) -> bool {
    is_base_name(text::alnum_key(label))
}

pub open spec fn base_uuid(uuid: Seq<char>) -> bool {
    is_base_id(text::ascii_lower(uuid))
}

pub fn is_base_dependency_label(label: &str) -> (r: bool)
    ensures
        r == base_label(label@),
{
    let key = to_alnum_key(label);
    let k = key.as_str();
    same_text(k, "gustav") || same_text(k, "gustavdev") || same_text(k, "gustavx") || same_text(
        k,
        "shared",
    ) || same_text(k, "shareddev") || same_text(k, "fw3") || same_text(k, "engine") || same_text(
        k,
        "game",
    ) || same_text(k, "diceset01") || same_text(k, "diceset02") || same_text(k, "diceset03")
        || same_text(k, "diceset04") || same_text(k, "diceset06") || same_text(k, "honour")
        || same_text(k, "honourx") || same_text(k, "modbrowser") || same_text(k, "mainui")
        || same_text(k, "crossplayui") || same_text(k, "photomode")
}

pub fn is_base_dependency_uuid(uuid: &str) -> (r: bool)
    ensures
        r == base_uuid(uuid@),
{
    let lowered = to_ascii_lower(uuid);
    let u = lowered.as_str();
    same_text(u, "991c9c7a-fb80-40cb-8f0d-b92d4e80e9b1")
        || same_text(u, "cb555efe-2d9e-131f-8195-a89329d218ea")
        || same_text(u, "28ac9ce2-2aba-8cda-b3b5-6e922f71b6b8")
        || same_text(u, "ed539163-bb70-431b-96a7-f5b2eda5376b")
        || same_text(u, "3d0c5ff8-c95d-c907-ff3e-34b204f1c630")
        || same_text(u, "e5c9077e-1fca-4f24-b55d-464f512c98a8")
        || same_text(u, "9dff4c3b-fda7-43de-a763-ce1383039999")
        || same_text(u, "game")
        || same_text(u, "e842840a-2449-588c-b0c4-22122cfce31b")
        || same_text(u, "b176a0ac-d79f-ed9d-5a87-5c2c80874e10")
        || same_text(u, "e0a4d990-7b9b-8fa9-d7c6-04017c6cf5b1")
        || same_text(u, "77a2155f-4b35-4f0c-e7ff-4338f91426a4")
        || same_text(u, "ee4989eb-aab8-968f-8674-812ea2f4bfd7")
        || same_text(u, "b77b6210-ac50-4cb1-a3d5-5702fb9c744c")
        || same_text(u, "767d0062-d82c-279c-e16b-dfee7fe94cdd")
        || same_text(u, "ee5a55ff-eb38-0b27-c5b0-f358dc306d34")
        || same_text(u, "630daa32-70f8-3da5-41b9-154fe8410236")
        || same_text(u, "e1ce736b-52e6-e713-e9e7-e6abbb15a198")
        || same_text(u, "55ef175c-59e3-b44b-3fb2-8f86acc5d550")
}

// ---------------------------------------------------------------------------
// Times
// ---------------------------------------------------------------------------

/// The seconds since the Unix epoch that `OffsetDateTime::parse` reads from a
/// text in the format of RFC 3339.
pub uninterp spec fn rfc3339_seconds(value: Seq<char>) -> Option<i64>;

/// The seconds since the Unix epoch, in UTC, that `PrimitiveDateTime::parse`
/// reads from a text in a format that `format_description::parse` accepts.
pub uninterp spec fn datetime_seconds(value: Seq<char>, format: Seq<char>) -> Option<i64>;

/// The seconds from the Unix epoch to the start, in UTC, of the day that
/// `Date::parse` reads from a text in a format that `format_description::parse`
/// accepts.
pub uninterp spec fn date_seconds(value: Seq<char>, format: Seq<char>) -> Option<i64>;

/// Calls `time::OffsetDateTime::parse` with the format RFC 3339: the result is a
/// function of the text alone.
#[verifier::external_body]
fn parse_rfc3339(value: &str) -> (r: Option<i64>)
    ensures
        r == rfc3339_seconds(value@),
{
    let format = time::format_description::well_known::Rfc3339;
    time::OffsetDateTime::parse(value, &format).ok().map(|dt| dt.unix_timestamp())
}

/// Calls `time::PrimitiveDateTime::parse` with a format description that is given
/// as text: the result is a function of the two texts alone. Nothing is claimed of other
/// formats than the two in use.
#[verifier::external_body]
fn parse_datetime(value: &str, format: &str) -> (r: Option<i64>)
    requires
        format@ == "[year]-[month]-[day]T[hour]:[minute]:[second]"@ || format@
            == "[year]-[month]-[day] [hour]:[minute]:[second]"@,
    ensures
        r == datetime_seconds(value@, format@),
{
    let items = time::format_description::parse(format).ok()?;
    let read = time::PrimitiveDateTime::parse(value, &items).ok()?;
    Some(read.assume_utc().unix_timestamp())
}

/// Calls `time::Date::parse` with a format description that is given as text: the
/// result is a function of the two texts alone. Nothing is claimed of other formats than
/// the one in use.
#[verifier::external_body]
fn parse_date(value: &str, format: &str) -> (r: Option<i64>)
    requires
        format@ == "[year]-[month]-[day]"@,
    ensures
        r == date_seconds(value@, format@),
{
    let items = time::format_description::parse(format).ok()?;
    let read = time::Date::parse(value, &items).ok()?;
    Some(read.midnight().assume_utc().unix_timestamp())
}

/// The first reading of a time that succeeds: RFC 3339, date and time without an
/// offset, with `T` or a space between them, or a date alone.
pub open spec fn first_reading(
    rfc3339: Option<i64>,
    naive: Option<i64>,
    spaced: Option<i64>,
    date: Option<i64>,
) -> Option<i64> {
    if rfc3339 is Some {
        rfc3339
    } else if naive is Some {
        naive
    } else if spaced is Some {
        spaced
    } else {
        date
    }
}

/// The creation time that a text states.
pub open spec fn created_seconds(value: Seq<char>) -> Option<i64> {
    let t = text::trimmed(value);
    if t.len() == 0 {
        None
    } else {
        first_reading(
            rfc3339_seconds(t),
            datetime_seconds(t, "[year]-[month]-[day]T[hour]:[minute]:[second]"@),
            datetime_seconds(t, "[year]-[month]-[day] [hour]:[minute]:[second]"@),
            date_seconds(t, "[year]-[month]-[day]"@),
        )
    }
}

/// The first of the readings that succeeds.
pub fn pick_reading(
    rfc3339: Option<i64>,
    naive: Option<i64>,
    spaced: Option<i64>,
    date: Option<i64>,
) -> (r: Option<i64>)
    ensures
        r == first_reading(rfc3339, naive, spaced, date),
{
    if rfc3339.is_some() {
        rfc3339
    } else if naive.is_some() {
        naive
    } else if spaced.is_some() {
        spaced
    } else {
        date
    }
}

pub fn parse_created_at_value(value: &str) -> (r: Option<i64>)
    ensures
        r == created_seconds(value@),
{
    let trimmed = trim(value);
    let t = trimmed.as_str();
    if t.is_empty() {
        return None;
    }
    pick_reading(
        parse_rfc3339(t),
        parse_datetime(t, "[year]-[month]-[day]T[hour]:[minute]:[second]"),
        parse_datetime(t, "[year]-[month]-[day] [hour]:[minute]:[second]"),
        parse_date(t, "[year]-[month]-[day]"),
    )
}

// ---------------------------------------------------------------------------
// Module ids in raw bytes
// ---------------------------------------------------------------------------

pub open spec fn is_hex_byte(b: u8) -> bool {
    48 <= b <= 57 || 97 <= b <= 102 || 65 <= b <= 70
}

/// A letter, a digit or an underscore.
pub open spec fn is_word_byte(b: u8) -> bool {
    48 <= b <= 57 || 97 <= b <= 122 || 65 <= b <= 90 || b == 95
}

/// Where the dashes of a module id stand.
pub open spec fn is_dash_place(i: int) -> bool {
    i == 8 || i == 13 || i == 18 || i == 23
}

/// Whether the bytes are a module id: thirty-six of them, hexadecimal digits but
/// for the dashes.
pub open spec fn is_uuid(bytes: Seq<u8>) -> bool {
    &&& bytes.len() == 36
    &&& forall|i: int|
        0 <= i < 36 ==> if is_dash_place(i) {
            #[trigger] bytes[i] == 45
        } else {
            is_hex_byte(bytes[i])
        }
}

/// Whether the text is a module id.
pub open spec fn is_uuid_text(s: Seq<char>) -> bool {
    &&& s.len() == 36
    &&& forall|i: int|
        0 <= i < 36 ==> if is_dash_place(i) {
            #[trigger] s[i] == '-'
        } else {
            text::is_hex_digit(s[i])
        }
}

/// The text that bytes below 128 stand for.
pub open spec fn ascii_text(bytes: Seq<u8>) -> Seq<char> {
    Seq::new(bytes.len(), |i: int| bytes[i] as char)
}

fn hex_byte(b: u8) -> (r: bool)
    ensures
        r == is_hex_byte(b),
{
    (48 <= b && b <= 57) || (97 <= b && b <= 102) || (65 <= b && b <= 70)
}

fn word_byte(b: u8) -> (r: bool)
    ensures
        r == is_word_byte(b),
{
    (48 <= b && b <= 57) || (97 <= b && b <= 122) || (65 <= b && b <= 90) || b == 95
}

/// Whether a module id stands in `bytes` from `at` on.
fn uuid_at(bytes: &[u8], at: usize) -> (r: bool)
    requires
        at + 36 <= bytes.len(),
    ensures
        r == is_uuid(bytes@.subrange(at as int, at + 36)),
{
    let ghost s = bytes@.subrange(at as int, at + 36);
    let mut i: usize = 0;
    while i < 36
        invariant
            i <= 36,
            at + 36 <= bytes.len(),
            s == bytes@.subrange(at as int, at + 36),
            forall|j: int|
                0 <= j < i ==> if is_dash_place(j) {
                    #[trigger] s[j] == 45
                } else {
                    is_hex_byte(s[j])
                },
        decreases 36 - i,
    {
        let b = bytes[at + i];
        assert(s[i as int] == b);
        if i == 8 || i == 13 || i == 18 || i == 23 {
            if b != 45 {
                assert(is_dash_place(i as int));
                return false;
            }
        } else if !hex_byte(b) {
            assert(!is_dash_place(i as int));
            return false;
        }
        i = i + 1;
    }
    true
}

pub fn is_uuid_bytes(bytes: &[u8]) -> (r: bool)
    ensures
        r == is_uuid(bytes@),
{
    if bytes.len() != 36 {
        return false;
    }
    assert(bytes@.subrange(0, 36) =~= bytes@);
    uuid_at(bytes, 0)
}

/// Whether a text is a module id.
pub fn is_uuid_like_str(value: &str) -> (r: bool)
    ensures
        r == is_uuid_text(value@),
{
    let v = to_chars(value);
    if v.len() != 36 {
        return false;
    }
    let mut i: usize = 0;
    while i < 36
        invariant
            i <= 36,
            v@ == value@,
            v.len() == 36,
            forall|j: int|
                0 <= j < i ==> if is_dash_place(j) {
                    #[trigger] v@[j] == '-'
                } else {
                    text::is_hex_digit(v@[j])
                },
        decreases 36 - i,
    {
        let c = v[i];
        if i == 8 || i == 13 || i == 18 || i == 23 {
            if c != '-' {
                assert(is_dash_place(i as int));
                return false;
            }
        } else if !text::hex_char(c) {
            assert(!is_dash_place(i as int));
            return false;
        }
        i = i + 1;
    }
    true
}

/// The text of the bytes from `from` up to `to`.
fn ascii_range(bytes: &[u8], from: usize, to: usize) -> (out: String)
    requires
        from <= to <= bytes.len(),
    ensures
        out@ == ascii_text(bytes@.subrange(from as int, to as int)),
{
    let mut out = String::new();
    let mut i: usize = from;
    while i < to
        invariant
            from <= i <= to <= bytes.len(),
            out@ == ascii_text(bytes@.subrange(from as int, i as int)),
        decreases to - i,
    {
        let b = bytes[i];
        out.push(b as char);
        i = i + 1;
        assert(out@ =~= ascii_text(bytes@.subrange(from as int, i as int)));
    }
    out
}

/// The module ids in the bytes from `i` on, found from the left without overlap,
/// in lower case.
pub open spec fn uuids_from(bytes: Seq<u8>, i: int) -> Seq<Seq<char>>
    decreases bytes.len() - i,
{
    if i < 0 || i + 36 > bytes.len() {
        Seq::empty()
    } else if is_uuid(bytes.subrange(i, i + 36)) {
        seq![text::ascii_lower(ascii_text(bytes.subrange(i, i + 36)))] + uuids_from(bytes, i + 36)
    } else {
        uuids_from(bytes, i + 1)
    }
}

/// Whether an underscore and a module id stand at `i`.
pub open spec fn suffix_at(bytes: Seq<u8>, i: int) -> bool {
    0 <= i && i + 37 <= bytes.len() && bytes[i] == 95 && is_uuid(bytes.subrange(i + 1, i + 37))
}

/// The module ids behind an underscore, found as in `uuids_from`.
pub open spec fn suffixes_from(bytes: Seq<u8>, i: int) -> Seq<Seq<char>>
    decreases bytes.len() - i,
{
    if i < 0 || i + 37 > bytes.len() {
        Seq::empty()
    } else if suffix_at(bytes, i) {
        seq![text::ascii_lower(ascii_text(bytes.subrange(i + 1, i + 37)))] + suffixes_from(
            bytes,
            i + 37,
        )
    } else {
        suffixes_from(bytes, i + 1)
    }
}

/// Where the run of letters, digits and underscores that ends before `i` starts.
pub open spec fn run_start(bytes: Seq<u8>, i: int) -> int
    decreases i,
{
    if 0 < i <= bytes.len() && is_word_byte(bytes[i - 1]) {
        run_start(bytes, i - 1)
    } else {
        i
    }
}

/// The name before the underscore at `i`.
pub open spec fn name_before(bytes: Seq<u8>, i: int) -> Seq<char> {
    ascii_text(bytes.subrange(run_start(bytes, i), i))
}

/// The module ids behind a name and an underscore, each with its name, which has
/// at least three characters and is not one of the game's own modules.
pub open spec fn labels_from(bytes: Seq<u8>, i: int) -> Seq<Seq<char>>
    decreases bytes.len() - i,
{
    if i < 0 || i + 37 > bytes.len() {
        Seq::empty()
    } else if suffix_at(bytes, i) {
        let name = name_before(bytes, i);
        let rest = labels_from(bytes, i + 37);
        if name.len() >= 3 && !base_label(name) {
            seq![name + "_"@ + ascii_text(bytes.subrange(i + 1, i + 37))] + rest
        } else {
            rest
        }
    } else {
        labels_from(bytes, i + 1)
    }
}

fn has_suffix_at(bytes: &[u8], i: usize) -> (r: bool)
    requires
        i + 37 <= bytes.len(),
    ensures
        r == suffix_at(bytes@, i as int),
{
    bytes[i] == 95 && uuid_at(bytes, i + 1)
}

proof fn lemma_run_start(bytes: Seq<u8>, i: int, start: int)
    requires
        0 <= start <= i <= bytes.len(),
        forall|j: int| start <= j < i ==> is_word_byte(bytes[j]),
        start > 0 ==> !is_word_byte(bytes[start - 1]),
    ensures
        run_start(bytes, i) == start,
    decreases i,
{
    if start < i {
        lemma_run_start(bytes, i - 1, start);
    }
}

pub fn extract_uuid_strings(bytes: &[u8]) -> (out: Vec<String>)
    ensures
        text::texts(out@) == uuids_from(bytes@, 0),
{
    let mut out: Vec<String> = Vec::new();
    let mut i: usize = 0;
    assert(text::texts(out@) + uuids_from(bytes@, 0) =~= uuids_from(bytes@, 0));
    while bytes.len() >= 36 && i <= bytes.len() - 36
        invariant
            i <= bytes.len(),
            text::texts(out@) + uuids_from(bytes@, i as int) == uuids_from(bytes@, 0),
        decreases bytes.len() - i,
    {
        if uuid_at(bytes, i) {
            let value = ascii_range(bytes, i, i + 36);
            let found = to_ascii_lower(value.as_str());
            proof {
                text::lemma_texts_push(out@, found);
                let rest = uuids_from(bytes@, i + 36);
                assert(text::texts(out@) + (seq![found@] + rest) =~= text::texts(out@).push(
                    found@,
                ) + rest);
            }
            out.push(found);
            i = i + 36;
        } else {
            i = i + 1;
        }
    }
    assert(text::texts(out@) + uuids_from(bytes@, i as int) =~= text::texts(out@));
    out
}

pub fn extract_uuid_suffix_strings(bytes: &[u8]) -> (out: Vec<String>)
    ensures
        text::texts(out@) == suffixes_from(bytes@, 0),
{
    let mut out: Vec<String> = Vec::new();
    let mut i: usize = 0;
    assert(text::texts(out@) + suffixes_from(bytes@, 0) =~= suffixes_from(bytes@, 0));
    while bytes.len() >= 37 && i <= bytes.len() - 37
        invariant
            i <= bytes.len(),
            text::texts(out@) + suffixes_from(bytes@, i as int) == suffixes_from(bytes@, 0),
        decreases bytes.len() - i,
    {
        if has_suffix_at(bytes, i) {
            let value = ascii_range(bytes, i + 1, i + 37);
            let found = to_ascii_lower(value.as_str());
            proof {
                text::lemma_texts_push(out@, found);
                let rest = suffixes_from(bytes@, i + 37);
                assert(text::texts(out@) + (seq![found@] + rest) =~= text::texts(out@).push(
                    found@,
                ) + rest);
            }
            out.push(found);
            i = i + 37;
        } else {
            i = i + 1;
        }
    }
    assert(text::texts(out@) + suffixes_from(bytes@, i as int) =~= text::texts(out@));
    out
}

pub fn extract_dependency_label_strings(bytes: &[u8]) -> (out: Vec<String>)
    ensures
        text::texts(out@) == labels_from(bytes@, 0),
{
    let mut out: Vec<String> = Vec::new();
    let mut i: usize = 0;
    assert(text::texts(out@) + labels_from(bytes@, 0) =~= labels_from(bytes@, 0));
    while bytes.len() >= 37 && i <= bytes.len() - 37
        invariant
            i <= bytes.len(),
            text::texts(out@) + labels_from(bytes@, i as int) == labels_from(bytes@, 0),
        decreases bytes.len() - i,
    {
        if has_suffix_at(bytes, i) {
            let mut start: usize = i;
            while start > 0 && word_byte(bytes[start - 1])
                invariant
                    start <= i < bytes.len(),
                    forall|j: int| start <= j < i ==> is_word_byte(bytes@[j]),
                decreases start,
            {
                start = start - 1;
            }
            proof {
                lemma_run_start(bytes@, i as int, start as int);
            }
            let name = ascii_range(bytes, start, i);
            assert(name@ == name_before(bytes@, i as int));
            if i - start >= 3 && !is_base_dependency_label(name.as_str()) {
                let id = ascii_range(bytes, i + 1, i + 37);
                let found = text::concat3(name.as_str(), "_", id.as_str());
                proof {
                    text::lemma_texts_push(out@, found);
                    let rest = labels_from(bytes@, i + 37);
                    assert(text::texts(out@) + (seq![found@] + rest) =~= text::texts(out@).push(
                        found@,
                    ) + rest);
                }
                out.push(found);
            }
            i = i + 37;
        } else {
            i = i + 1;
        }
    }
    assert(text::texts(out@) + labels_from(bytes@, i as int) =~= text::texts(out@));
    out
}

/// The first index at or after `from` at which `needle` stands in `hay`, or -1.
pub open spec fn first_at(hay: Seq<u8>, needle: Seq<u8>, from: int) -> int
    decreases hay.len() + 1 - from,
{
    if from < 0 || from + needle.len() > hay.len() {
        -1
    } else if text::stands_at(hay, needle, from) {
        from
    } else {
        first_at(hay, needle, from + 1)
    }
}

fn stands_at_bytes(hay: &[u8], needle: &[u8], at: usize) -> (r: bool)
    requires
        at + needle.len() <= hay.len(),
    ensures
        r == text::stands_at(hay@, needle@, at as int),
{
    let mut k: usize = 0;
    while k < needle.len()
        invariant
            k <= needle.len(),
            at + needle.len() <= hay.len(),
            forall|j: int| 0 <= j < k ==> hay@[at + j] == needle@[j],
        decreases needle.len() - k,
    {
        if hay[at + k] != needle[k] {
            assert(hay@.subrange(at as int, at + needle@.len())[k as int] != needle@[k as int]);
            return false;
        }
        k = k + 1;
    }
    assert(hay@.subrange(at as int, at + needle@.len()) =~= needle@);
    true
}

/// The first index at or after `from` at which `needle` stands in `hay`.
pub fn find_bytes_from(hay: &[u8], needle: &[u8], from: usize) -> (r: Option<usize>)
    requires
        from <= hay.len(),
    ensures
        match r {
            Some(i) => first_at(hay@, needle@, from as int) == i && from <= i && i + needle@.len()
                <= hay@.len(),
            None => first_at(hay@, needle@, from as int) == -1,
        },
{
    if needle.len() > hay.len() {
        return None;
    }
    let last: usize = hay.len() - needle.len();
    let mut i: usize = from;
    while i <= last
        invariant
            from <= i,
            last + needle.len() == hay.len(),
            first_at(hay@, needle@, i as int) == first_at(hay@, needle@, from as int),
        decreases last + 1 - i,
    {
        if stands_at_bytes(hay, needle, i) {
            return Some(i);
        }
        assert(first_at(hay@, needle@, i + 1) == first_at(hay@, needle@, from as int));
        if i == last {
            return None;
        }
        i = i + 1;
    }
    None
}

/// The first index at which `needle`, which is not empty, stands in `haystack`.
pub fn find_bytes(haystack: &[u8], needle: &[u8]) -> (r: Option<usize>)
    ensures
        match r {
            Some(i) => needle@.len() > 0 && first_at(haystack@, needle@, 0) == i,
            None => needle@.len() == 0 || first_at(haystack@, needle@, 0) == -1,
        },
{
    if needle.is_empty() {
        return None;
    }
    find_bytes_from(haystack, needle, 0)
}

/// What names a dependency in one window of bytes: names with ids, else ids
/// behind an underscore, else ids.
pub open spec fn window_refs(window: Seq<u8>) -> Seq<Seq<char>> {
    if labels_from(window, 0).len() > 0 {
        labels_from(window, 0)
    } else if suffixes_from(window, 0).len() > 0 {
        suffixes_from(window, 0)
    } else {
        uuids_from(window, 0)
    }
}

/// The word that opens a list of dependencies.
pub open spec fn dependencies_word() -> Seq<u8> {
    seq![68u8, 101, 112, 101, 110, 100, 101, 110, 99, 105, 101, 115]
}

/// The window of at most 4096 bytes from `start` on.
pub open spec fn window_at(bytes: Seq<u8>, start: int) -> Seq<u8> {
    bytes.subrange(
        start,
        if start + 4096 <= bytes.len() {
            start + 4096
        } else {
            bytes.len() as int
        },
    )
}

/// What the windows behind each `Dependencies` from `from` on name.
pub open spec fn refs_from(bytes: Seq<u8>, from: int) -> Seq<Seq<char>>
    decreases bytes.len() - from,
{
    let at = first_at(bytes, dependencies_word(), from);
    if from < 0 || at < from || at + 12 > bytes.len() {
        Seq::empty()
    } else {
        window_refs(window_at(bytes, at)) + refs_from(bytes, at + 12)
    }
}

/// Whether `out` is the sorted list of what the bytes name as dependencies,
/// without the game's own modules.
pub open spec fn scanned_refs(out: Seq<Seq<char>>, bytes: Seq<u8>) -> bool {
    &&& crate::sorting::ascending(out)
    &&& forall|t: Seq<char>| #[trigger]
        out.contains(t) <==> refs_from(bytes, 0).contains(t) && !base_uuid(t) && !base_label(t)
}

fn find_window_refs(window: &[u8]) -> (out: Vec<String>)
    ensures
        text::texts(out@) == window_refs(window@),
{
    let labels = extract_dependency_label_strings(window);
    if !labels.is_empty() {
        return labels;
    }
    let suffixes = extract_uuid_suffix_strings(window);
    if !suffixes.is_empty() {
        return suffixes;
    }
    extract_uuid_strings(window)
}

/// The bytes from `from` up to `to`.
pub fn byte_range(bytes: &[u8], from: usize, to: usize) -> (out: Vec<u8>)
    requires
        from <= to <= bytes.len(),
    ensures
        out@ == bytes@.subrange(from as int, to as int),
{
    let mut out: Vec<u8> = Vec::new();
    let mut i: usize = from;
    while i < to
        invariant
            from <= i <= to <= bytes.len(),
            out@ == bytes@.subrange(from as int, i as int),
        decreases to - i,
    {
        out.push(bytes[i]);
        i = i + 1;
        assert(bytes@.subrange(from as int, i as int).drop_last() =~= bytes@.subrange(
            from as int,
            i - 1,
        ));
    }
    out
}

pub fn scan_dependency_refs(bytes: &[u8]) -> (out: Vec<String>)
    ensures
        scanned_refs(text::texts(out@), bytes@),
{
    let word: Vec<u8> = vec![68u8, 101, 112, 101, 110, 100, 101, 110, 99, 105, 101, 115];
    assert(word@ =~= dependencies_word());
    let mut out: Vec<String> = Vec::new();
    let mut offset: usize = 0;
    let ghost all = refs_from(bytes@, 0);
    let ghost mut seen = Seq::<Seq<char>>::empty();
    assert(seen + refs_from(bytes@, 0) =~= all);
    loop
        invariant_except_break
            offset <= bytes.len(),
            word@ == dependencies_word(),
            seen + refs_from(bytes@, offset as int) == all,
            crate::sorting::ascending(text::texts(out@)),
            forall|t: Seq<char>| #[trigger]
                text::texts(out@).contains(t) <==> seen.contains(t) && !base_uuid(t)
                    && !base_label(t),
        ensures
            seen == all,
            crate::sorting::ascending(text::texts(out@)),
            forall|t: Seq<char>| #[trigger]
                text::texts(out@).contains(t) <==> seen.contains(t) && !base_uuid(t)
                    && !base_label(t),
        decreases bytes.len() - offset,
    {
        match find_bytes_from(bytes, word.as_slice(), offset) {
            None => {
                assert(seen + refs_from(bytes@, offset as int) =~= seen);
                break;
            },
            Some(start) => {
                let end: usize = if bytes.len() - start > 4096 {
                    start + 4096
                } else {
                    bytes.len()
                };
                let window = byte_range(bytes, start, end);
                assert(window@ == window_at(bytes@, start as int));
                let found = find_window_refs(window.as_slice());
                let ghost refs = text::texts(found@);
                let mut k: usize = 0;
                while k < found.len()
                    invariant
                        k <= found.len(),
                        refs == text::texts(found@),
                        crate::sorting::ascending(text::texts(out@)),
                        forall|t: Seq<char>| #[trigger]
                            text::texts(out@).contains(t) <==> (seen + refs.take(k as int)).contains(
                                t,
                            ) && !base_uuid(t) && !base_label(t),
                    decreases found.len() - k,
                {
                    proof {
                        let now = seen + refs.take(k as int);
                        let next = seen + refs.take(k + 1);
                        assert(next =~= now.push(refs[k as int]));
                        assert forall|t: Seq<char>| #[trigger] next.contains(t) <==> now.contains(
                            t,
                        ) || t == refs[k as int] by {
                            crate::lists::lemma_push_contains(now, refs[k as int], t);
                        }
                    }
                    if !is_base_dependency_uuid(found[k].as_str()) && !is_base_dependency_label(
                        found[k].as_str(),
                    ) {
                        crate::sorting::insert_sorted(&mut out, found[k].clone());
                    }
                    k = k + 1;
                }
                proof {
                    assert(refs.take(k as int) =~= refs);
                    assert(seen + (refs + refs_from(bytes@, start + 12)) =~= seen + refs
                        + refs_from(bytes@, start + 12));
                    seen = seen + refs;
                }
                offset = start + 12;
            },
        }
    }
    out
}

// ---------------------------------------------------------------------------
// Module descriptions in XML
// ---------------------------------------------------------------------------

/// The reader of `quick_xml`, which hands out the events of a document.
#[verifier::external_type_specification]
#[verifier::external_body]
#[verifier::reject_recursive_types(R)]
pub struct ExXmlReader<R>(quick_xml::Reader<R>);

/// An opening tag of `quick_xml`, with its attributes.
#[verifier::external_type_specification]
#[verifier::external_body]
pub struct ExBytesStart<'a>(quick_xml::events::BytesStart<'a>);

/// A tag: its name and its attributes. One that is well formed has its key, and its value
/// where the value can be read.
pub struct XmlTag {
    pub name: Seq<u8>,
    pub attributes: Seq<Option<(Seq<u8>, Option<Seq<char>>)>>,
}

/// One event of a document.
pub enum XmlItem {
    Start(XmlTag),
    Empty(XmlTag),
    End(Seq<u8>),
    Other,
    Eof,
    Failed,
}

/// The events that `Reader::from_reader` with `trim_text(true)` yields for bytes,
/// up to the end of the document or the first error, which is the last event.
pub uninterp spec fn xml_events(bytes: Seq<u8>) -> Seq<XmlItem>;

/// The events that a reader has still to hand out.
pub uninterp spec fn pending_events(reader: quick_xml::Reader<&[u8]>) -> Seq<XmlItem>;

/// The name and the attributes that an opening tag holds.
pub uninterp spec fn tag_content(tag: quick_xml::events::BytesStart<'static>) -> XmlTag;

/// An event as the reader hands it out.
pub enum XmlEvent {
    Start(quick_xml::events::BytesStart<'static>),
    Empty(quick_xml::events::BytesStart<'static>),
    End(Vec<u8>),
    Other,
    Eof,
    Failed,
}

pub open spec fn item_of(e: XmlEvent) -> XmlItem {
    match e {
        XmlEvent::Start(tag) => XmlItem::Start(tag_content(tag)),
        XmlEvent::Empty(tag) => XmlItem::Empty(tag_content(tag)),
        XmlEvent::End(name) => XmlItem::End(name@),
        XmlEvent::Other => XmlItem::Other,
        XmlEvent::Eof => XmlItem::Eof,
        XmlEvent::Failed => XmlItem::Failed,
    }
}

/// Whether no event follows.
pub open spec fn is_last_item(item: XmlItem) -> bool {
    item is Eof || item is Failed
}

/// Calls `quick_xml::Reader::from_reader` and `trim_text`: the reader has the
/// events of the bytes before it, at least the one that ends the document.
#[verifier::external_body]
fn open_xml(bytes: &[u8]) -> (r: quick_xml::Reader<&[u8]>)
    ensures
        pending_events(r) == xml_events(bytes@),
        pending_events(r).len() > 0,
{
    let mut reader = quick_xml::Reader::from_reader(bytes);
    reader.trim_text(true);
    reader
}

/// Calls `quick_xml::Reader::read_event_into`: it hands out the next event, and
/// the last one is the end of the document or an error.
#[verifier::external_body]
fn next_event(reader: &mut quick_xml::Reader<&[u8]>) -> (e: XmlEvent)
    ensures
        pending_events(*old(reader)).len() > 0 ==> item_of(e) == pending_events(
            *old(reader),
        ).first() && pending_events(*final(reader)) == pending_events(*old(reader)).drop_first(),
        pending_events(*old(reader)).len() > 0 && !is_last_item(item_of(e)) ==> pending_events(
            *final(reader),
        ).len() > 0,
{
    let mut buf = Vec::new();
    match reader.read_event_into(&mut buf) {
        Ok(quick_xml::events::Event::Start(tag)) => XmlEvent::Start(tag.into_owned()),
        Ok(quick_xml::events::Event::Empty(tag)) => XmlEvent::Empty(tag.into_owned()),
        Ok(quick_xml::events::Event::End(tag)) => XmlEvent::End(tag.name().as_ref().to_vec()),
        Ok(quick_xml::events::Event::Eof) => XmlEvent::Eof,
        Ok(_) => XmlEvent::Other,
        Err(_) => XmlEvent::Failed,
    }
}

/// Calls `quick_xml::events::BytesStart::name`: the name of the tag.
#[verifier::external_body]
fn tag_name(tag: &quick_xml::events::BytesStart<'static>) -> (r: Vec<u8>)
    ensures
        r@ == tag_content(*tag).name,
{
    tag.name().as_ref().to_vec()
}

/// Calls `quick_xml::events::BytesStart::attributes` and `unescape_value`: the
/// attributes of the tag in turn, each that is well formed with its key and its value
/// where the value can be unescaped.
#[verifier::external_body]
fn tag_attributes(tag: &quick_xml::events::BytesStart<'static>) -> (r: Vec<
    Option<(Vec<u8>, Option<String>)>,
>)
    ensures
        attribute_views(r@) == tag_content(*tag).attributes,
{
    let unescaped = |a: quick_xml::events::attributes::Attribute| {
        (a.key.as_ref().to_vec(), a.unescape_value().ok().map(|v| v.into_owned()))
    };
    tag.attributes().map(|a| a.ok().map(unescaped)).collect()
}

pub open spec fn attribute_view(item: Option<(Vec<u8>, Option<String>)>) -> Option<
    (Seq<u8>, Option<Seq<char>>),
> {
    match item {
        Some(a) => Some((a.0@, text::text_opt(a.1))),
        None => None,
    }
}

pub open spec fn attribute_views(list: Seq<Option<(Vec<u8>, Option<String>)>>) -> Seq<
    Option<(Seq<u8>, Option<Seq<char>>)>,
> {
    Seq::new(list.len(), |i: int| attribute_view(list[i]))
}

/// A tag in plain values.
#[derive(Debug)]
pub struct TagData {
    pub name: Vec<u8>,
    pub attributes: Vec<Option<(Vec<u8>, Option<String>)>>,
}

impl TagData {
    pub open spec fn tag(self) -> XmlTag {
        XmlTag { name: self.name@, attributes: attribute_views(self.attributes@) }
    }
}

/// An event in plain values.
#[derive(Debug)]
pub enum MetaEvent {
    Start(TagData),
    Empty(TagData),
    End(Vec<u8>),
    Other,
}

impl MetaEvent {
    pub open spec fn item(self) -> XmlItem {
        match self {
            MetaEvent::Start(tag) => XmlItem::Start(tag.tag()),
            MetaEvent::Empty(tag) => XmlItem::Empty(tag.tag()),
            MetaEvent::End(name) => XmlItem::End(name@),
            MetaEvent::Other => XmlItem::Other,
        }
    }
}

/// The value of the first attribute with the key that has a readable value.
pub open spec fn attribute(
    list: Seq<Option<(Seq<u8>, Option<Seq<char>>)>>,
    key: Seq<u8>,
) -> Option<Seq<char>>
    decreases list.len(),
{
    if list.len() == 0 {
        None
    } else {
        match list[0] {
            Some((k, Some(value))) if k == key => Some(value),
            _ => attribute(list.drop_first(), key),
        }
    }
}

/// The words `node`, `attribute`, `id` and `value` as bytes.
pub open spec fn node_word() -> Seq<u8> {
    seq![110u8, 111, 100, 101]
}

pub open spec fn attribute_word() -> Seq<u8> {
    seq![97u8, 116, 116, 114, 105, 98, 117, 116, 101]
}

pub open spec fn id_word() -> Seq<u8> {
    seq![105u8, 100]
}

pub open spec fn value_word() -> Seq<u8> {
    seq![118u8, 97, 108, 117, 101]
}

/// What has been read of a module description.
pub struct MetaState {
    pub stack: Seq<Seq<char>>,
    pub dependencies: Seq<Seq<char>>,
    pub tags: Seq<Seq<char>>,
    pub created_at: Option<i64>,
    pub uuid: Option<Seq<char>>,
    pub folder: Option<Seq<char>>,
    pub name: Option<Seq<char>>,
    pub version: Option<u64>,
    pub md5: Option<Seq<char>>,
    pub author: Option<Seq<char>>,
    pub description: Option<Seq<char>>,
    pub publish_handle: Option<u64>,
    pub module_type: Option<Seq<char>>,
    pub dep_uuid: Option<Seq<char>>,
    pub dep_label: Option<Seq<char>>,
}

/// Nothing read yet.
pub open spec fn blank_state() -> MetaState {
    MetaState {
        stack: Seq::empty(),
        dependencies: Seq::empty(),
        tags: Seq::empty(),
        created_at: None,
        uuid: None,
        folder: None,
        name: None,
        version: None,
        md5: None,
        author: None,
        description: None,
        publish_handle: None,
        module_type: None,
        dep_uuid: None,
        dep_label: None,
    }
}

/// Whether a node of this id describes one dependency.
pub open spec fn is_dependency_node(id: Seq<char>) -> bool {
    id == "Dependency"@ || id == "ModuleShortDesc"@
}

/// Whether the reader is inside the description of one dependency.
pub open spec fn inside_dependency(s: MetaState) -> bool {
    s.stack.contains("Dependencies"@) && (s.stack.contains("Dependency"@) || s.stack.contains(
        "ModuleShortDesc"@,
    ))
}

/// The reference to a dependency: its name and its id joined by an underscore, or
/// the one that is known; none for the game's own modules.
pub open spec fn dependency_ref(uuid: Option<Seq<char>>, label: Option<Seq<char>>) -> Option<
    Seq<char>,
> {
    let name = match label {
        Some(l) => if text::trimmed(l).len() > 0 && !base_label(text::trimmed(l)) {
            Some(text::trimmed(l))
        } else {
            None
        },
        None => None,
    };
    match (uuid, name) {
        (Some(u), _) if base_uuid(u) => None,
        (Some(u), Some(n)) => Some(n + "_"@ + u),
        (None, Some(n)) => Some(n),
        (Some(u), None) => Some(u),
        (None, None) => None,
    }
}

/// The state after a node with this id opened.
pub open spec fn after_open(s: MetaState, id: Seq<char>) -> MetaState {
    if is_dependency_node(id) {
        MetaState { stack: s.stack.push(id), dep_uuid: None, dep_label: None, ..s }
    } else {
        MetaState { stack: s.stack.push(id), ..s }
    }
}

/// The state after a node closed.
pub open spec fn after_close(s: MetaState) -> MetaState {
    if s.stack.len() == 0 {
        s
    } else if is_dependency_node(s.stack.last()) {
        MetaState {
            stack: s.stack.drop_last(),
            dependencies: match dependency_ref(s.dep_uuid, s.dep_label) {
                Some(d) => s.dependencies.push(d),
                None => s.dependencies,
            },
            dep_uuid: None,
            dep_label: None,
            ..s
        }
    } else {
        MetaState { stack: s.stack.drop_last(), ..s }
    }
}

/// The state after an attribute of a dependency.
pub open spec fn after_dependency_attribute(
    s: MetaState,
    id: Seq<char>,
    value: Seq<char>,
) -> MetaState {
    if id == "UUID"@ {
        MetaState { dep_uuid: Some(value), ..s }
    } else if id == "Name"@ || ((id == "Folder"@ || id == "DisplayName"@) && s.dep_label is None) {
        MetaState { dep_label: Some(value), ..s }
    } else {
        s
    }
}

/// The pieces of a list of tags.
pub open spec fn tag_list(value: Seq<char>) -> Seq<Seq<char>> {
    text::non_empty(text::trimmed_each(text::split_any(value, ";,|"@)))
}

/// The earlier of the known times.
pub open spec fn earliest(a: Option<i64>, b: Option<i64>) -> Option<i64> {
    match (a, b) {
        (Some(x), Some(y)) => Some(crate::library::earlier(x, y)),
        (Some(x), None) => Some(x),
        (None, Some(y)) => Some(y),
        (None, None) => None,
    }
}

/// The state after an attribute of the module.
pub open spec fn after_module_attribute(
    s: MetaState,
    id: Seq<char>,
    value: Seq<char>,
) -> MetaState {
    if id == "Tags"@ {
        MetaState { tags: s.tags + tag_list(value), ..s }
    } else if id == "Created"@ {
        MetaState { created_at: earliest(s.created_at, created_seconds(value)), ..s }
    } else if id == "UUID"@ {
        MetaState { uuid: Some(value), ..s }
    } else if id == "Folder"@ {
        MetaState { folder: Some(value), ..s }
    } else if id == "Name"@ {
        MetaState { name: Some(value), ..s }
    } else if (id == "Version64"@ || id == "Version"@) && text::u64_value(value) is Some {
        MetaState { version: text::u64_value(value), ..s }
    } else if id == "MD5"@ {
        MetaState { md5: Some(value), ..s }
    } else if id == "Author"@ {
        MetaState { author: Some(value), ..s }
    } else if id == "Description"@ {
        MetaState { description: Some(value), ..s }
    } else if id == "PublishHandle"@ && text::u64_value(value) is Some {
        MetaState { publish_handle: text::u64_value(value), ..s }
    } else if id == "Type"@ || id == "ModuleType"@ {
        MetaState { module_type: Some(value), ..s }
    } else {
        s
    }
}

/// The state after an attribute element.
pub open spec fn after_attribute(s: MetaState, id: Seq<char>, value: Seq<char>) -> MetaState {
    let t = if inside_dependency(s) {
        after_dependency_attribute(s, id, value)
    } else {
        s
    };
    if s.stack.contains("ModuleInfo"@) {
        after_module_attribute(t, id, value)
    } else if s.created_at is None && id == "Created"@ {
        MetaState { created_at: created_seconds(value), ..t }
    } else {
        t
    }
}

/// The state after an event.
pub open spec fn after_item(s: MetaState, item: XmlItem) -> MetaState {
    match item {
        XmlItem::Start(tag) => {
            let id = attribute(tag.attributes, id_word());
            if tag.name == node_word() && id is Some {
                after_open(s, id->0)
            } else {
                s
            }
        },
        XmlItem::Empty(tag) => {
            let id = attribute(tag.attributes, id_word());
            let value = attribute(tag.attributes, value_word());
            if tag.name == attribute_word() && id is Some && value is Some {
                after_attribute(s, id->0, value->0)
            } else {
                s
            }
        },
        XmlItem::End(name) => if name == node_word() {
            after_close(s)
        } else {
            s
        },
        _ => s,
    }
}

/// The state after the events up to the end or the first error.
pub open spec fn after_items(s: MetaState, items: Seq<XmlItem>) -> MetaState
    decreases items.len(),
{
    if items.len() == 0 || is_last_item(items[0]) {
        s
    } else {
        after_items(after_item(s, items[0]), items.drop_first())
    }
}

impl ModMeta {
    /// Whether the metadata is what has been read.
    pub open spec fn says(self, s: MetaState) -> bool {
        &&& text::texts(self.dependencies@) == s.dependencies
        &&& text::texts(self.tags@) == s.tags
        &&& self.created_at == s.created_at
        &&& text::text_opt(self.uuid) == s.uuid
        &&& text::text_opt(self.folder) == s.folder
        &&& text::text_opt(self.name) == s.name
        &&& self.version == s.version
        &&& text::text_opt(self.md5) == s.md5
        &&& text::text_opt(self.author) == s.author
        &&& text::text_opt(self.description) == s.description
        &&& self.publish_handle == s.publish_handle
        &&& text::text_opt(self.module_type) == s.module_type
    }
}

/// Reads a module description event by event.
#[derive(Debug)]
pub struct MetaReader {
    pub stack: Vec<String>,
    pub meta: ModMeta,
    pub dep_uuid: Option<String>,
    pub dep_label: Option<String>,
}

/// Whether two byte strings are the same.
pub fn same_bytes(a: &[u8], b: &[u8]) -> (r: bool)
    ensures
        r == (a@ == b@),
{
    if a.len() != b.len() {
        return false;
    }
    let mut i: usize = 0;
    while i < a.len()
        invariant
            i <= a.len(),
            a.len() == b.len(),
            forall|j: int| 0 <= j < i ==> a@[j] == b@[j],
        decreases a.len() - i,
    {
        if a[i] != b[i] {
            return false;
        }
        i = i + 1;
    }
    assert(a@ =~= b@);
    true
}

/// The value of the first attribute with the key that has a readable value.
pub fn attr_value(list: &Vec<Option<(Vec<u8>, Option<String>)>>, key: &[u8]) -> (r: Option<String>)
    ensures
        text::text_opt(r) == attribute(attribute_views(list@), key@),
{
    let ghost all = attribute_views(list@);
    let mut i: usize = 0;
    assert(all.skip(0) =~= all);
    while i < list.len()
        invariant
            i <= list.len(),
            all == attribute_views(list@),
            attribute(all.skip(i as int), key@) == attribute(all, key@),
        decreases list.len() - i,
    {
        assert(all.skip(i as int)[0] == all[i as int]);
        if let Some((k, value)) = &list[i] {
            if same_bytes(k.as_slice(), key) {
                if let Some(value) = value {
                    return Some(value.clone());
                }
            }
        }
        assert(all.skip(i as int).drop_first() =~= all.skip(i + 1));
        i = i + 1;
    }
    None
}

/// The pieces of a list of tags.
pub fn split_tags(value: &str) -> (out: Vec<String>)
    ensures
        text::texts(out@) == tag_list(value@),
{
    let pieces = split(value, ";,|");
    trim_non_empty(&pieces)
}

/// Adds the reference to a dependency, if there is one to add.
pub fn push_dependency_ref(deps: &mut Vec<String>, uuid: Option<String>, label: Option<String>)
    ensures
        text::texts(final(deps)@) == match dependency_ref(
            text::text_opt(uuid),
            text::text_opt(label),
        ) {
            Some(d) => text::texts(old(deps)@).push(d),
            None => text::texts(old(deps)@),
        },
{
    if let Some(u) = &uuid {
        if is_base_dependency_uuid(u.as_str()) {
            return;
        }
    }
    let name: Option<String> = match label {
        Some(l) => {
            let t = trim(l.as_str());
            if !t.as_str().is_empty() && !is_base_dependency_label(t.as_str()) {
                Some(t)
            } else {
                None
            }
        },
        None => None,
    };
    let found: Option<String> = match (uuid, name) {
        (Some(u), Some(n)) => Some(text::concat3(n.as_str(), "_", u.as_str())),
        (None, Some(n)) => Some(n),
        (Some(u), None) => Some(u),
        (None, None) => None,
    };
    if let Some(d) = found {
        proof {
            text::lemma_texts_push(deps@, d);
        }
        deps.push(d);
    }
}

impl MetaReader {
    pub open spec fn state(self) -> MetaState {
        MetaState {
            stack: text::texts(self.stack@),
            dependencies: text::texts(self.meta.dependencies@),
            tags: text::texts(self.meta.tags@),
            created_at: self.meta.created_at,
            uuid: text::text_opt(self.meta.uuid),
            folder: text::text_opt(self.meta.folder),
            name: text::text_opt(self.meta.name),
            version: self.meta.version,
            md5: text::text_opt(self.meta.md5),
            author: text::text_opt(self.meta.author),
            description: text::text_opt(self.meta.description),
            publish_handle: self.meta.publish_handle,
            module_type: text::text_opt(self.meta.module_type),
            dep_uuid: text::text_opt(self.dep_uuid),
            dep_label: text::text_opt(self.dep_label),
        }
    }

    pub fn new() -> (r: Self)
        ensures
            r.state() == blank_state(),
    {
        let r = MetaReader {
            stack: Vec::new(),
            meta: ModMeta::default(),
            dep_uuid: None,
            dep_label: None,
        };
        assert(text::texts(r.stack@) =~= Seq::empty());
        assert(text::texts(r.meta.dependencies@) =~= Seq::empty());
        assert(text::texts(r.meta.tags@) =~= Seq::empty());
        r
    }

    fn open_node(&mut self, id: String)
        ensures
            final(self).state() == after_open(old(self).state(), id@),
    {
        let is_dependency = same_text(id.as_str(), "Dependency") || same_text(
            id.as_str(),
            "ModuleShortDesc",
        );
        proof {
            text::lemma_texts_push(self.stack@, id);
        }
        self.stack.push(id);
        if is_dependency {
            self.dep_uuid = None;
            self.dep_label = None;
        }
    }

    fn close_node(&mut self)
        ensures
            final(self).state() == after_close(old(self).state()),
    {
        let ghost before = self.stack@;
        match self.stack.pop() {
            None => {
                assert(before =~= self.stack@);
            },
            Some(id) => {
                assert(text::texts(self.stack@) =~= text::texts(before).drop_last());
                assert(text::texts(before).last() == id@);
                if same_text(id.as_str(), "Dependency") || same_text(
                    id.as_str(),
                    "ModuleShortDesc",
                ) {
                    let uuid = self.dep_uuid.take();
                    let label = self.dep_label.take();
                    push_dependency_ref(&mut self.meta.dependencies, uuid, label);
                }
            },
        }
    }

    fn dependency_attribute(&mut self, id: &str, value: &String)
        ensures
            final(self).state() == after_dependency_attribute(old(self).state(), id@, value@),
    {
        if same_text(id, "UUID") {
            self.dep_uuid = Some(value.clone());
        } else if same_text(id, "Name") || ((same_text(id, "Folder") || same_text(
            id,
            "DisplayName",
        )) && self.dep_label.is_none()) {
            self.dep_label = Some(value.clone());
        }
    }

    fn module_attribute(&mut self, id: &str, value: &String)
        ensures
            final(self).state() == after_module_attribute(old(self).state(), id@, value@),
    {
        if same_text(id, "Tags") {
            let mut found = split_tags(value.as_str());
            let ghost before = self.meta.tags@;
            let ghost added = found@;
            self.meta.tags.append(&mut found);
            assert(text::texts(self.meta.tags@) =~= text::texts(before) + text::texts(added));
        } else if same_text(id, "Created") {
            if let Some(parsed) = parse_created_at_value(value.as_str()) {
                self.meta.created_at =
                match self.meta.created_at {
                    Some(existing) => Some(crate::library::min_i64(existing, parsed)),
                    None => Some(parsed),
                };
            }
        } else if same_text(id, "UUID") {
            self.meta.uuid = Some(value.clone());
        } else if same_text(id, "Folder") {
            self.meta.folder = Some(value.clone());
        } else if same_text(id, "Name") {
            self.meta.name = Some(value.clone());
        } else if same_text(id, "Version64") || same_text(id, "Version") {
            if let Some(parsed) = text::parse_u64(value.as_str()) {
                self.meta.version = Some(parsed);
            } else {
                proof {
                    lemma_other_words();
                }
            }
        } else if same_text(id, "MD5") {
            self.meta.md5 = Some(value.clone());
        } else if same_text(id, "Author") {
            self.meta.author = Some(value.clone());
        } else if same_text(id, "Description") {
            self.meta.description = Some(value.clone());
        } else if same_text(id, "PublishHandle") {
            if let Some(parsed) = text::parse_u64(value.as_str()) {
                self.meta.publish_handle = Some(parsed);
            } else {
                proof {
                    lemma_other_words();
                }
            }
        } else if same_text(id, "Type") || same_text(id, "ModuleType") {
            self.meta.module_type = Some(value.clone());
        }
    }

    fn read_attribute(&mut self, id: &str, value: &String)
        ensures
            final(self).state() == after_attribute(old(self).state(), id@, value@),
    {
        let inside = crate::sorting::has_string(self.stack.as_slice(), "Dependencies") && (
        crate::sorting::has_string(self.stack.as_slice(), "Dependency")
            || crate::sorting::has_string(self.stack.as_slice(), "ModuleShortDesc"));
        let in_module = crate::sorting::has_string(self.stack.as_slice(), "ModuleInfo");
        if inside {
            self.dependency_attribute(id, value);
        }
        if in_module {
            self.module_attribute(id, value);
        } else if self.meta.created_at.is_none() && same_text(id, "Created") {
            self.meta.created_at = parse_created_at_value(value.as_str());
        }
    }

    /// Takes one event into account.
    pub fn apply(&mut self, event: &MetaEvent)
        ensures
            final(self).state() == after_item(old(self).state(), event.item()),
    {
        let node: Vec<u8> = vec![110u8, 111, 100, 101];
        let attr: Vec<u8> = vec![97u8, 116, 116, 114, 105, 98, 117, 116, 101];
        let id_key: Vec<u8> = vec![105u8, 100];
        let value_key: Vec<u8> = vec![118u8, 97, 108, 117, 101];
        assert(node@ =~= node_word());
        assert(attr@ =~= attribute_word());
        assert(id_key@ =~= id_word());
        assert(value_key@ =~= value_word());
        match event {
            MetaEvent::Start(tag) => {
                if same_bytes(tag.name.as_slice(), node.as_slice()) {
                    if let Some(id) = attr_value(&tag.attributes, id_key.as_slice()) {
                        self.open_node(id);
                    }
                }
            },
            MetaEvent::Empty(tag) => {
                if same_bytes(tag.name.as_slice(), attr.as_slice()) {
                    let id = attr_value(&tag.attributes, id_key.as_slice());
                    let value = attr_value(&tag.attributes, value_key.as_slice());
                    if let (Some(i), Some(v)) = (id, value) {
                        self.read_attribute(i.as_str(), &v);
                    }
                }
            },
            MetaEvent::End(name) => {
                if same_bytes(name.as_slice(), node.as_slice()) {
                    self.close_node();
                }
            },
            MetaEvent::Other => {},
        }
    }
}

/// The words for a version and a handle are none of the other words that a module
/// is described with.
proof fn lemma_other_words()
    ensures
        "Version64"@ != "MD5"@,
        "Version64"@ != "Author"@,
        "Version64"@ != "Description"@,
        "Version64"@ != "PublishHandle"@,
        "Version64"@ != "Type"@,
        "Version64"@ != "ModuleType"@,
        "Version"@ != "MD5"@,
        "Version"@ != "Author"@,
        "Version"@ != "Description"@,
        "Version"@ != "PublishHandle"@,
        "Version"@ != "Type"@,
        "Version"@ != "ModuleType"@,
        "PublishHandle"@ != "Type"@,
        "PublishHandle"@ != "ModuleType"@,
{
    reveal_strlit("Version64");
    reveal_strlit("Version");
    reveal_strlit("PublishHandle");
    reveal_strlit("MD5");
    reveal_strlit("Author");
    reveal_strlit("Description");
    reveal_strlit("Type");
    reveal_strlit("ModuleType");
    assert("Version64"@[0] == 'V');
    assert("Version"@[0] == 'V');
    assert("PublishHandle"@[0] == 'P');
    assert("MD5"@[0] == 'M');
    assert("Author"@[0] == 'A');
    assert("Description"@[0] == 'D');
    assert("Type"@[0] == 'T');
    assert("ModuleType"@[0] == 'M');
}

/// Reads a module description: what its events say up to the end of the document
/// or the first error.
pub fn parse_meta_lsx(bytes: &[u8]) -> (r: ModMeta)
    ensures
        r.says(after_items(blank_state(), xml_events(bytes@))),
{
    let mut reader = open_xml(bytes);
    let mut state = MetaReader::new();
    loop
        invariant_except_break
            pending_events(reader).len() > 0,
            after_items(state.state(), pending_events(reader)) == after_items(
                blank_state(),
                xml_events(bytes@),
            ),
        ensures
            state.state() == after_items(blank_state(), xml_events(bytes@)),
        decreases pending_events(reader).len(),
    {
        let event = next_event(&mut reader);
        let plain: MetaEvent = match &event {
            XmlEvent::Start(tag) => MetaEvent::Start(
                TagData { name: tag_name(tag), attributes: tag_attributes(tag) },
            ),
            XmlEvent::Empty(tag) => MetaEvent::Empty(
                TagData { name: tag_name(tag), attributes: tag_attributes(tag) },
            ),
            XmlEvent::End(name) => MetaEvent::End(byte_range(name.as_slice(), 0, name.len())),
            XmlEvent::Other => MetaEvent::Other,
            XmlEvent::Eof => break,
            XmlEvent::Failed => break,
        };
        proof {
            if let XmlEvent::End(name) = event {
                assert(name@.subrange(0, name@.len() as int) =~= name@);
            }
            assert(plain.item() == item_of(event));
        }
        state.apply(&plain);
    }
    state.meta
}

} // verus!
