//! Names and keys that are made by hashing.
use crate::library;
use crate::library::{find_profile, InstallTarget, Library, ModEntry, ModSource, ProfileEntry};
use crate::modsettings::{ModSettingsModule, ModSettingsSnapshot};
use crate::sorting;
use crate::sorting::{is_text_before, sort, sort_texts, Ranked};
use crate::text;
use crate::text::{concat2, concat3, push_text};
use vstd::prelude::*;

verus! {

/// The BLAKE3 hash of bytes, in lower-case hexadecimal digits.
pub uninterp spec fn blake3_digest(data: Seq<u8>) -> Seq<char>;

/// Calls `blake3::hash` and `to_hex`: the hash of the bytes, in hexadecimal digits.
#[verifier::external_body]
fn blake3_hex(data: &[u8]) -> (r: String)
    ensures
        r@ == blake3_digest(data@),
{
    blake3::hash(data).to_hex().to_string()
}

/// The bytes of a text in UTF-8.
pub open spec fn utf8(s: Seq<char>) -> Seq<u8> {
    vstd::utf8::encode_utf8(s)
}

/// Adds bytes at the end.
fn push_bytes(out: &mut Vec<u8>, more: &[u8])
    ensures
        final(out)@ == old(out)@ + more@,
{
    let ghost start = out@;
    let mut i: usize = 0;
    assert(start + more@.take(0) =~= start);
    while i < more.len()
        invariant
            i <= more.len(),
            out@ == start + more@.take(i as int),
        decreases more.len() - i,
    {
        out.push(more[i]);
        assert(more@.take(i + 1) =~= more@.take(i as int).push(more@[i as int]));
        assert(out@ =~= start + more@.take(i + 1));
        i = i + 1;
    }
    assert(more@.take(i as int) =~= more@);
}

/// Adds a text at the end.
fn push_utf8(out: &mut Vec<u8>, s: &str)
    ensures
        final(out)@ == old(out)@ + utf8(s@),
{
    push_bytes(out, s.as_bytes());
}

/// What a path is hashed from: its text, and when it was last changed.
pub open spec fn path_bytes(path: Seq<char>, modified: Option<u64>) -> Seq<u8> {
    match modified {
        Some(t) => utf8(path) + vstd::bytes::spec_u64_to_le_bytes(t),
        None => utf8(path),
    }
}

/// The id of a mod that has none of its own.
pub fn hash_path_with_prefix(path: &str, modified: Option<u64>, prefix: &str) -> (r: String)
    ensures
        r@ == prefix@ + "-"@ + blake3_digest(path_bytes(path@, modified)),
{
    let mut data: Vec<u8> = Vec::new();
    push_utf8(&mut data, path);
    assert(data@ =~= utf8(path@));
    if let Some(t) = modified {
        let more = vstd::bytes::u64_to_le_bytes(t);
        push_bytes(&mut data, more.as_slice());
    }
    let hex = blake3_hex(data.as_slice());
    concat3(prefix, "-", hex.as_str())
}

/// The id of a mod made of loose files.
pub fn hash_path(path: &str, modified: Option<u64>) -> (r: String)
    ensures
        r@ == "loose"@ + "-"@ + blake3_digest(path_bytes(path@, modified)),
{
    hash_path_with_prefix(path, modified, "loose")
}

// ---------------------------------------------------------------------------
// The game's settings
// ---------------------------------------------------------------------------

/// The bytes of texts, one behind the other.
pub open spec fn all_utf8(list: Seq<Seq<char>>) -> Seq<u8>
    decreases list.len(),
{
    if list.len() == 0 {
        Seq::empty()
    } else {
        all_utf8(list.drop_last()) + utf8(list.last())
    }
}

fn push_all(out: &mut Vec<u8>, list: &Vec<String>)
    ensures
        final(out)@ == old(out)@ + all_utf8(text::texts(list@)),
{
    let ghost start = out@;
    let ghost all = text::texts(list@);
    let mut i: usize = 0;
    assert(start + all_utf8(all.take(0)) =~= start);
    while i < list.len()
        invariant
            i <= list.len(),
            all == text::texts(list@),
            out@ == start + all_utf8(all.take(i as int)),
        decreases list.len() - i,
    {
        push_utf8(out, list[i].as_str());
        assert(all.take(i + 1).drop_last() =~= all.take(i as int));
        assert(out@ =~= start + all_utf8(all.take(i + 1)));
        i = i + 1;
    }
    assert(all.take(i as int) =~= all);
}

pub open spec fn module_ids(list: Seq<ModSettingsModule>) -> Seq<Seq<char>> {
    Seq::new(list.len(), |i: int| list[i].info.uuid@)
}

/// What the game's settings are hashed from: which modules there are, whatever
/// their places, and the order in which they are loaded.
pub open spec fn settings_bytes(s: ModSettingsSnapshot) -> Seq<u8> {
    utf8("modsettings-v1"@) + all_utf8(sorting::sorted_texts(module_ids(s.modules@))) + utf8(
        "|order|"@,
    ) + all_utf8(text::texts(s.order@))
}

pub fn collect_module_ids(list: &Vec<ModSettingsModule>) -> (out: Vec<String>)
    ensures
        text::texts(out@) == module_ids(list@),
{
    let mut out: Vec<String> = Vec::new();
    let mut i: usize = 0;
    assert(text::texts(out@) =~= module_ids(list@).take(0));
    while i < list.len()
        invariant
            i <= list.len(),
            text::texts(out@) == module_ids(list@).take(i as int),
        decreases list.len() - i,
    {
        let id = list[i].info.uuid.clone();
        proof {
            text::lemma_texts_push(out@, id);
            assert(module_ids(list@).take(i + 1) =~= module_ids(list@).take(i as int).push(id@));
        }
        out.push(id);
        i = i + 1;
    }
    assert(module_ids(list@).take(i as int) =~= module_ids(list@));
    out
}

/// The fingerprint of the game's settings.
pub fn modsettings_fingerprint(snapshot: &ModSettingsSnapshot) -> (r: String)
    ensures
        r@ == blake3_digest(settings_bytes(*snapshot)),
{
    let mut data: Vec<u8> = Vec::new();
    push_utf8(&mut data, "modsettings-v1");
    assert(data@ =~= utf8("modsettings-v1"@));
    let ids = sort_texts(collect_module_ids(&snapshot.modules));
    push_all(&mut data, &ids);
    push_utf8(&mut data, "|order|");
    push_all(&mut data, &snapshot.order);
    blake3_hex(data.as_slice())
}

// ---------------------------------------------------------------------------
// Mods
// ---------------------------------------------------------------------------

/// A target as it is hashed.
pub open spec fn target_key(t: InstallTarget) -> Seq<char> {
    match t {
        InstallTarget::Pak { file, info } => "pak|"@ + file@ + "|"@ + info.uuid@ + "|"@
            + info.folder@,
        InstallTarget::Generated { dir } => "gen|"@ + dir@,
        InstallTarget::Data { dir } => "data|"@ + dir@,
        InstallTarget::Bin { dir } => "bin|"@ + dir@,
    }
}

fn make_target_key(t: &InstallTarget) -> (r: String)
    ensures
        r@ == target_key(*t),
{
    match t {
        InstallTarget::Pak { file, info } => {
            let mut r = concat3("pak|", file.as_str(), "|");
            push_text(&mut r, info.uuid.as_str());
            push_text(&mut r, "|");
            push_text(&mut r, info.folder.as_str());
            r
        },
        InstallTarget::Generated { dir } => concat2("gen|", dir.as_str()),
        InstallTarget::Data { dir } => concat2("data|", dir.as_str()),
        InstallTarget::Bin { dir } => concat2("bin|", dir.as_str()),
    }
}

pub open spec fn target_keys(targets: Seq<InstallTarget>) -> Seq<Seq<char>> {
    Seq::new(targets.len(), |i: int| target_key(targets[i]))
}

fn collect_target_keys(targets: &Vec<InstallTarget>) -> (out: Vec<String>)
    ensures
        text::texts(out@) == target_keys(targets@),
{
    let mut out: Vec<String> = Vec::new();
    let mut i: usize = 0;
    assert(text::texts(out@) =~= target_keys(targets@).take(0));
    while i < targets.len()
        invariant
            i <= targets.len(),
            text::texts(out@) == target_keys(targets@).take(i as int),
        decreases targets.len() - i,
    {
        let key = make_target_key(&targets[i]);
        proof {
            text::lemma_texts_push(out@, key);
            assert(target_keys(targets@).take(i + 1) =~= target_keys(targets@).take(
                i as int,
            ).push(key@));
        }
        out.push(key);
        i = i + 1;
    }
    assert(target_keys(targets@).take(i as int) =~= target_keys(targets@));
    out
}

/// What a mod is hashed from.
pub open spec fn mod_bytes(m: ModEntry) -> Seq<u8> {
    let label = match m.source_label {
        Some(l) => utf8(l@),
        None => Seq::empty(),
    };
    let source = seq![
        if m.source == ModSource::Managed {
            0u8
        } else {
            1u8
        },
    ];
    utf8(m.id@) + utf8(m.name@) + label + source + all_utf8(
        sorting::sorted_texts(target_keys(m.targets@)),
    )
}

/// A mod and its id.
struct IdRow {
    id: String,
    place: usize,
}

pub open spec fn row_order() -> spec_fn((Seq<char>, int), (Seq<char>, int)) -> bool {
    |a: (Seq<char>, int), b: (Seq<char>, int)| sorting::text_before(a.0, b.0)
}

impl Ranked for IdRow {
    closed spec fn before(self, other: Self) -> bool {
        sorting::text_before(self.id@, other.id@)
    }

    proof fn before_asymmetric(a: Self, b: Self) {
        sorting::lemma_text_before_asymmetric(a.id@, b.id@);
    }

    proof fn before_splits(a: Self, b: Self, c: Self) {
        sorting::lemma_text_before_splits(a.id@, b.id@, c.id@);
    }

    fn is_before(&self, other: &Self) -> (r: bool) {
        is_text_before(self.id.as_str(), other.id.as_str())
    }
}

/// The mods by their ids, each with its place.
pub open spec fn by_id(mods: Seq<ModEntry>) -> Seq<(Seq<char>, int)> {
    sorting::ranking_by(Seq::new(mods.len(), |i: int| (mods[i].id@, i)), row_order())
}

/// What the first `n` of the mods, by their ids, are hashed from.
pub open spec fn mods_bytes(mods: Seq<ModEntry>, n: int) -> Seq<u8>
    decreases n,
{
    if n <= 0 {
        Seq::empty()
    } else {
        mods_bytes(mods, n - 1) + mod_bytes(mods[by_id(mods)[n - 1].1])
    }
}

fn push_mod(out: &mut Vec<u8>, m: &ModEntry)
    ensures
        final(out)@ == old(out)@ + mod_bytes(*m),
{
    let ghost start = out@;
    push_utf8(out, m.id.as_str());
    push_utf8(out, m.name.as_str());
    if let Some(l) = &m.source_label {
        push_utf8(out, l.as_str());
    }
    match m.source {
        ModSource::Managed => out.push(0),
        ModSource::Native => out.push(1),
    }
    let keys = sort_texts(collect_target_keys(&m.targets));
    push_all(out, &keys);
    assert(out@ =~= start + mod_bytes(*m));
}

/// The version of what is stored of the mods' metadata.
pub const METADATA_CACHE_VERSION: u32 = 2;

/// The key of what is known of the mods: it changes with the mods, not with their
/// places.
pub open spec fn mods_key(mods: Seq<ModEntry>) -> Seq<char> {
    blake3_digest(utf8("metadata-cache-v1"@) + mods_bytes(mods, mods.len() as int))
}

pub fn metadata_cache_key(mods: &Vec<ModEntry>) -> (r: String)
    ensures
        r@ == mods_key(mods@),
{
    let ghost view = |r: IdRow| (r.id@, r.place as int);
    let ghost wanted = Seq::new(mods@.len(), |i: int| (mods@[i].id@, i));
    let mut rows: Vec<IdRow> = Vec::new();
    let mut i: usize = 0;
    assert(rows@.map_values(view) =~= wanted.take(0));
    while i < mods.len()
        invariant
            i <= mods.len(),
            view == (|r: IdRow| (r.id@, r.place as int)),
            wanted == Seq::new(mods@.len(), |i: int| (mods@[i].id@, i)),
            rows@.map_values(view) == wanted.take(i as int),
            forall|k: int| 0 <= k < rows.len() ==> (#[trigger] rows@[k]).place < mods.len(),
        decreases mods.len() - i,
    {
        let row = IdRow { id: mods[i].id.clone(), place: i };
        let ghost before = rows@;
        rows.push(row);
        assert(rows@.map_values(view) =~= before.map_values(view).push(view(row)));
        assert(wanted.take(i + 1) =~= wanted.take(i as int).push(wanted[i as int]));
        i = i + 1;
    }
    assert(wanted.take(i as int) =~= wanted);
    let ghost unsorted = rows@;
    proof {
        assert(sorting::keeps_order(rows@, view, sorting::order_of::<IdRow>(), row_order()));
        sorting::lemma_ranking_map(rows@, view, sorting::order_of::<IdRow>(), row_order());
    }
    let sorted = sort(rows);
    proof {
        assert forall|k: int| 0 <= k < sorted.len() implies (#[trigger] sorted@[k]).place
            < mods.len() by {
            sorting::lemma_ranking_members(unsorted, sorting::order_of::<IdRow>(), k);
        }
        assert(sorted@.map_values(view) == by_id(mods@));
    }
    let mut data: Vec<u8> = Vec::new();
    push_utf8(&mut data, "metadata-cache-v1");
    let ghost head = utf8("metadata-cache-v1"@);
    assert(data@ =~= head);
    let mut k: usize = 0;
    assert(head + mods_bytes(mods@, 0) =~= head);
    while k < sorted.len()
        invariant
            k <= sorted.len(),
            view == (|r: IdRow| (r.id@, r.place as int)),
            sorted@.map_values(view) == by_id(mods@),
            forall|q: int| 0 <= q < sorted.len() ==> (#[trigger] sorted@[q]).place < mods.len(),
            data@ == head + mods_bytes(mods@, k as int),
        decreases sorted.len() - k,
    {
        assert(by_id(mods@)[k as int] == view(sorted@[k as int]));
        push_mod(&mut data, &mods[sorted[k].place]);
        assert(data@ =~= head + mods_bytes(mods@, k + 1));
        k = k + 1;
    }
    blake3_hex(data.as_slice())
}

/// The id of a mod whose layout is not known.
pub fn unknown_id(path: &str, modified: Option<u64>) -> (r: String)
    ensures
        r@ == "unknown"@ + "-"@ + blake3_digest(path_bytes(path@, modified)),
{
    hash_path_with_prefix(path, modified, "unknown")
}

// ---------------------------------------------------------------------------
// The load order
// ---------------------------------------------------------------------------

/// What the first `n` entries of a load order are hashed from.
pub open spec fn order_bytes(order: Seq<ProfileEntry>, n: int) -> Seq<u8>
    decreases n,
{
    if n <= 0 {
        Seq::empty()
    } else {
        order_bytes(order, n - 1) + utf8(order[n - 1].id@) + seq![
            if order[n - 1].enabled {
                1u8
            } else {
                0u8
            },
        ]
    }
}

/// The key of a load order: it changes with its name, its order and its switches.
pub open spec fn profile_key(library: Library) -> Seq<char> {
    let at = library::profile_index(library.profiles@, library.active_profile@);
    blake3_digest(
        if at >= 0 {
            utf8(library.profiles@[at].name@) + order_bytes(
                library.profiles@[at].order@,
                library.profiles@[at].order@.len() as int,
            )
        } else {
            Seq::empty()
        },
    )
}

pub fn smart_rank_profile_key_for(library: &Library) -> (r: String)
    ensures
        r@ == profile_key(*library),
{
    let mut data: Vec<u8> = Vec::new();
    proof {
        library::lemma_profile_index(library.profiles@, library.active_profile@);
    }
    if let Some(at) = find_profile(&library.profiles, library.active_profile.as_str()) {
        push_utf8(&mut data, library.profiles[at].name.as_str());
        let order = &library.profiles[at].order;
        let ghost name = utf8(library.profiles@[at as int].name@);
        let mut i: usize = 0;
        assert(data@ =~= name + order_bytes(order@, 0));
        while i < order.len()
            invariant
                i <= order.len(),
                data@ == name + order_bytes(order@, i as int),
            decreases order.len() - i,
        {
            push_utf8(&mut data, order[i].id.as_str());
            data.push(
                if order[i].enabled {
                    1
                } else {
                    0
                },
            );
            i = i + 1;
            assert(data@ =~= name + order_bytes(order@, i as int));
        }
    } else {
        assert(data@ =~= Seq::<u8>::empty());
    }
    blake3_hex(data.as_slice())
}

} // verus!
