//! Information files in JSON, and where a mod's description files are found.
use crate::metadata;
use crate::metadata::{parse_created_at_value, JsonModInfo};
use crate::paths;
use crate::paths::{file_name, has_component};
use crate::sorting;
use crate::text;
use crate::text::{eq_ignore_case, same_text, to_lowercase, trim};
use serde_json::Value;
use vstd::prelude::*;

verus! {

/// A JSON value of `serde_json`.
#[verifier::external_type_specification]
#[verifier::external_body]
pub struct ExValue(serde_json::Value);

/// A JSON value; what is neither text, list nor object is told apart no further.
pub enum JsonView {
    Text(Seq<char>),
    List(Seq<JsonView>),
    Object(Map<Seq<char>, JsonView>),
    Other,
}

/// What a JSON value holds.
pub uninterp spec fn json_view(value: Value) -> JsonView;

/// What `serde_json::from_slice` reads from bytes.
pub uninterp spec fn json_document(bytes: Seq<u8>) -> Option<JsonView>;

/// Calls `serde_json::from_slice`: the value that the bytes encode, if they are a
/// JSON document, as a function of the bytes.
#[verifier::external_body]
fn parse_json(bytes: &[u8]) -> (r: Option<Value>)
    ensures
        match r {
            Some(v) => json_document(bytes@) == Some(json_view(v)),
            None => json_document(bytes@) is None,
        },
{
    serde_json::from_slice(bytes).ok()
}

/// Calls `serde_json::Value::get` with a key: the member of an object with that
/// key, and nothing of any other value.
#[verifier::external_body]
fn json_get<'a>(value: &'a Value, key: &str) -> (r: Option<&'a Value>)
    ensures
        match r {
            Some(v) => member(json_view(*value), key@) == Some(json_view(*v)),
            None => member(json_view(*value), key@) is None,
        },
{
    value.get(key)
}

/// `serde_json::Value::as_array` gives the items of a list, and nothing of any
/// other value.
pub assume_specification[ serde_json::Value::as_array ](value: &Value) -> (r: Option<&Vec<Value>>)
    ensures
        match r {
            Some(items) => items_of(json_view(*value)) == Some(views(items@)),
            None => items_of(json_view(*value)) is None,
        },
;

/// `serde_json::Value::as_str` gives the text of a string, and nothing of any
/// other value.
pub assume_specification[ serde_json::Value::as_str ](value: &Value) -> (r: Option<&str>)
    ensures
        match r {
            Some(s) => text_of(json_view(*value)) == Some(s@),
            None => text_of(json_view(*value)) is None,
        },
;

/// `serde_json::Value::is_object` tells whether a value is an object.
pub assume_specification[ serde_json::Value::is_object ](value: &Value) -> (r: bool)
    ensures
        r == (json_view(*value) is Object),
;

pub open spec fn views(items: Seq<Value>) -> Seq<JsonView> {
    Seq::new(items.len(), |i: int| json_view(items[i]))
}

pub open spec fn member(v: JsonView, key: Seq<char>) -> Option<JsonView> {
    match v {
        JsonView::Object(m) => if m.contains_key(key) {
            Some(m[key])
        } else {
            None
        },
        _ => None,
    }
}

pub open spec fn items_of(v: JsonView) -> Option<Seq<JsonView>> {
    match v {
        JsonView::List(items) => Some(items),
        _ => None,
    }
}

pub open spec fn text_of(v: JsonView) -> Option<Seq<char>> {
    match v {
        JsonView::Text(s) => Some(s),
        _ => None,
    }
}

/// The text of the member with the key, if it is one.
pub open spec fn text_member(v: JsonView, key: Seq<char>) -> Option<Seq<char>> {
    match member(v, key) {
        Some(m) => text_of(m),
        None => None,
    }
}

fn get_text<'a>(value: &'a Value, key: &str) -> (r: Option<&'a str>)
    ensures
        match r {
            Some(s) => text_member(json_view(*value), key@) == Some(s@),
            None => text_member(json_view(*value), key@) is None,
        },
{
    match json_get(value, key) {
        Some(v) => v.as_str(),
        None => None,
    }
}

fn get_owned(value: &Value, key: &str) -> (r: Option<String>)
    ensures
        text::text_opt(r) == text_member(json_view(*value), key@),
{
    match get_text(value, key) {
        Some(s) => Some(s.to_owned()),
        None => None,
    }
}

// ---------------------------------------------------------------------------
// Dependencies
// ---------------------------------------------------------------------------

/// A text without the white space at its ends, unless nothing is left.
pub open spec fn stated(value: Option<Seq<char>>) -> Seq<Seq<char>> {
    match value {
        Some(s) => if text::trimmed(s).len() > 0 {
            seq![text::trimmed(s)]
        } else {
            Seq::empty()
        },
        None => Seq::empty(),
    }
}

/// What one item of a dependency list names: itself, if it is text, or the ids of
/// an object.
pub open spec fn item_refs(item: JsonView) -> Seq<Seq<char>> {
    match item {
        JsonView::Text(s) => stated(Some(s)),
        _ => stated(text_member(item, "UUID"@)) + stated(text_member(item, "Uuid"@)) + stated(
            text_member(item, "ModUUID"@),
        ) + stated(text_member(item, "mod_uuid"@)) + stated(text_member(item, "uuid"@)),
    }
}

pub open spec fn items_refs(items: Seq<JsonView>) -> Seq<Seq<char>>
    decreases items.len(),
{
    if items.len() == 0 {
        Seq::empty()
    } else {
        items_refs(items.drop_last()) + item_refs(items.last())
    }
}

/// What a dependency list names.
pub open spec fn list_refs(value: Option<JsonView>) -> Seq<Seq<char>> {
    match value {
        Some(JsonView::List(items)) => items_refs(items),
        _ => Seq::empty(),
    }
}

/// What the dependency lists of a mod name.
pub open spec fn object_refs(v: JsonView) -> Seq<Seq<char>> {
    list_refs(member(v, "Dependencies"@)) + list_refs(member(v, "dependencies"@)) + list_refs(
        member(v, "RequiredMods"@),
    ) + list_refs(member(v, "requiredMods"@))
}

fn push_stated(out: &mut Vec<String>, value: Option<&str>)
    ensures
        text::texts(final(out)@) == text::texts(old(out)@) + match value {
            Some(s) => stated(Some(s@)),
            None => stated(None),
        },
{
    if let Some(s) = value {
        let t = trim(s);
        if !t.as_str().is_empty() {
            proof {
                text::lemma_texts_push(out@, t);
                assert(text::texts(out@).push(t@) =~= text::texts(out@) + seq![t@]);
            }
            out.push(t);
            return;
        }
    }
    assert(text::texts(out@) + Seq::<Seq<char>>::empty() =~= text::texts(out@));
}

pub fn parse_json_dependency_list(value: &Value) -> (out: Vec<String>)
    ensures
        text::texts(out@) == list_refs(Some(json_view(*value))),
{
    let mut out: Vec<String> = Vec::new();
    let items = match value.as_array() {
        Some(items) => items,
        None => {
            assert(text::texts(out@) =~= Seq::empty());
            return out;
        },
    };
    let ghost all = views(items@);
    let mut i: usize = 0;
    assert(text::texts(out@) =~= items_refs(all.take(0)));
    while i < items.len()
        invariant
            i <= items.len(),
            all == views(items@),
            text::texts(out@) == items_refs(all.take(i as int)),
        decreases items.len() - i,
    {
        let item = &items[i];
        let ghost before = text::texts(out@);
        proof {
            assert(all.take(i + 1).drop_last() =~= all.take(i as int));
            assert(all.take(i + 1).last() == json_view(*item));
        }
        if let Some(s) = item.as_str() {
            push_stated(&mut out, Some(s));
        } else {
            push_stated(&mut out, get_text(item, "UUID"));
            push_stated(&mut out, get_text(item, "Uuid"));
            push_stated(&mut out, get_text(item, "ModUUID"));
            push_stated(&mut out, get_text(item, "mod_uuid"));
            push_stated(&mut out, get_text(item, "uuid"));
            assert(text::texts(out@) =~= before + item_refs(json_view(*item)));
        }
        i = i + 1;
    }
    assert(all.take(i as int) =~= all);
    out
}

/// Adds what a dependency list of a mod names.
fn add_list(out: &mut Vec<String>, value: &Value, key: &str)
    ensures
        text::texts(final(out)@) == text::texts(old(out)@) + list_refs(
            member(json_view(*value), key@),
        ),
{
    match json_get(value, key) {
        Some(list) => {
            let mut found = parse_json_dependency_list(list);
            let ghost added = found@;
            let ghost before = out@;
            out.append(&mut found);
            assert(text::texts(out@) =~= text::texts(before) + text::texts(added));
        },
        None => {
            assert(text::texts(out@) + Seq::<Seq<char>>::empty() =~= text::texts(out@));
        },
    }
}

pub fn parse_json_dependencies(value: &Value) -> (out: Vec<String>)
    ensures
        sorting::sorted_set_of(text::texts(out@), object_refs(json_view(*value))),
{
    let mut found: Vec<String> = Vec::new();
    add_list(&mut found, value, "Dependencies");
    add_list(&mut found, value, "dependencies");
    add_list(&mut found, value, "RequiredMods");
    add_list(&mut found, value, "requiredMods");
    assert(text::texts(found@) =~= object_refs(json_view(*value)));
    sorting::sort_dedup(found.as_slice())
}

// ---------------------------------------------------------------------------
// Mods
// ---------------------------------------------------------------------------

/// Whether `info` is what an object says of a mod.
pub open spec fn describes(info: JsonModInfo, v: JsonView) -> bool {
    let created = match member(v, "Created"@) {
        Some(c) => Some(c),
        None => member(v, "created"@),
    };
    &&& text::text_opt(info.uuid) == text_member(v, "UUID"@)
    &&& text::text_opt(info.folder) == text_member(v, "Folder"@)
    &&& text::text_opt(info.name) == text_member(v, "Name"@)
    &&& info.created_at == match created {
        Some(JsonView::Text(s)) => metadata::created_seconds(s),
        _ => None,
    }
    &&& sorting::sorted_set_of(text::texts(info.dependencies@), object_refs(v))
}

/// The objects among the items.
pub open spec fn objects(items: Seq<JsonView>) -> Seq<JsonView> {
    items.filter(|v: JsonView| v is Object)
}

/// The mods that a document describes: the objects of its list `Mods`, or the
/// document itself.
pub open spec fn described_mods(v: JsonView) -> Seq<JsonView> {
    match member(v, "Mods"@) {
        Some(JsonView::List(items)) => objects(items),
        _ => objects(seq![v]),
    }
}

pub fn parse_json_mod(value: &Value) -> (r: Option<JsonModInfo>)
    ensures
        match r {
            Some(info) => json_view(*value) is Object && describes(info, json_view(*value)),
            None => !(json_view(*value) is Object),
        },
{
    if !value.is_object() {
        return None;
    }
    let stamp = match json_get(value, "Created") {
        Some(v) => Some(v),
        None => json_get(value, "created"),
    };
    let created_at = match stamp {
        Some(v) => match v.as_str() {
            Some(s) => parse_created_at_value(s),
            None => None,
        },
        None => None,
    };
    Some(
        JsonModInfo {
            uuid: get_owned(value, "UUID"),
            folder: get_owned(value, "Folder"),
            name: get_owned(value, "Name"),
            created_at,
            dependencies: parse_json_dependencies(value),
        },
    )
}

/// The mods that a JSON document describes.
pub fn parse_json_mods(value: &Value) -> (out: Vec<JsonModInfo>)
    ensures
        out@.len() == described_mods(json_view(*value)).len(),
        forall|i: int|
            0 <= i < out@.len() ==> describes(
                #[trigger] out@[i],
                described_mods(json_view(*value))[i],
            ),
{
    let mut out: Vec<JsonModInfo> = Vec::new();
    let ghost is_object = |v: JsonView| v is Object;
    if let Some(list) = json_get(value, "Mods") {
        if let Some(items) = list.as_array() {
            let ghost all = views(items@);
            let mut i: usize = 0;
            proof {
                crate::lists::lemma_filter_whole(all, is_object);
            }
            while i < items.len()
                invariant
                    i <= items.len(),
                    all == views(items@),
                    is_object == (|v: JsonView| v is Object),
                    out@.len() == all.take(i as int).filter(is_object).len(),
                    forall|k: int|
                        0 <= k < out@.len() ==> describes(
                            #[trigger] out@[k],
                            all.take(i as int).filter(is_object)[k],
                        ),
                decreases items.len() - i,
            {
                proof {
                    crate::lists::lemma_keep_item(all, i as int, is_object);
                }
                if let Some(info) = parse_json_mod(&items[i]) {
                    out.push(info);
                }
                i = i + 1;
            }
            proof {
                crate::lists::lemma_filter_whole(all, is_object);
            }
            return out;
        }
    }
    let ghost single = seq![json_view(*value)];
    proof {
        crate::lists::lemma_filter_whole(single, is_object);
        crate::lists::lemma_keep_item(single, 0, is_object);
    }
    if let Some(info) = parse_json_mod(value) {
        out.push(info);
    }
    out
}

/// The mods that the bytes of an information file describe; none where they are no
/// JSON document.
pub fn read_json_mods(bytes: &[u8]) -> (out: Vec<JsonModInfo>)
    ensures
        match json_document(bytes@) {
            None => out@.len() == 0,
            Some(v) => out@.len() == described_mods(v).len() && forall|i: int|
                0 <= i < out@.len() ==> describes(#[trigger] out@[i], described_mods(v)[i]),
        },
{
    match parse_json(bytes) {
        Some(value) => parse_json_mods(&value),
        None => Vec::new(),
    }
}

// ---------------------------------------------------------------------------
// Files that describe a mod
// ---------------------------------------------------------------------------

/// A file found below a directory, and how deep.
#[derive(Debug)]
pub struct FoundFile {
    pub path: String,
    pub depth: usize,
}

/// How well a file serves as module description, the smaller the better: files
/// below a `Mods` directory first, then those less deep.
pub open spec fn meta_rank(f: FoundFile) -> Option<(nat, nat)> {
    match paths::base_name(f.path@) {
        Some(name) => if text::same_ignoring_case(name, "meta.lsx"@) {
            Some(
                (
                    if paths::has_part(f.path@, "Mods"@) {
                        0nat
                    } else {
                        1nat
                    },
                    f.depth as nat,
                ),
            )
        } else {
            None
        },
        None => None,
    }
}

/// How well a file serves as information file, the smaller the better.
pub open spec fn info_rank(f: FoundFile) -> Option<(nat, nat)> {
    match paths::base_name(f.path@) {
        Some(name) => {
            let lower = text::unicode_lowercase(name);
            if lower == "info.json"@ {
                Some((0nat, f.depth as nat))
            } else if lower == "mod.json"@ {
                Some((1nat, f.depth as nat))
            } else if lower == "modinfo.json"@ {
                Some((2nat, f.depth as nat))
            } else {
                None
            }
        },
        None => None,
    }
}

pub open spec fn rank_before(a: (nat, nat), b: (nat, nat)) -> bool {
    a.0 < b.0 || (a.0 == b.0 && a.1 < b.1)
}

/// Whether `r` is the first of the files with the best rank.
pub open spec fn is_best(
    files: Seq<FoundFile>,
    rank: spec_fn(FoundFile) -> Option<(nat, nat)>,
    r: Option<usize>,
) -> bool {
    match r {
        None => forall|i: int| 0 <= i < files.len() ==> rank(#[trigger] files[i]) is None,
        Some(k) => {
            &&& k < files.len()
            &&& rank(files[k as int]) is Some
            &&& forall|i: int|
                0 <= i < files.len() && rank(#[trigger] files[i]) is Some ==> {
                    &&& !rank_before(rank(files[i])->0, rank(files[k as int])->0)
                    &&& i < k ==> rank_before(rank(files[k as int])->0, rank(files[i])->0)
                }
        },
    }
}

fn rank_meta(f: &FoundFile) -> (r: Option<(usize, usize)>)
    ensures
        match r {
            Some(k) => meta_rank(*f) == Some((k.0 as nat, k.1 as nat)),
            None => meta_rank(*f) is None,
        },
{
    match file_name(f.path.as_str()) {
        Some(name) => {
            if eq_ignore_case(name.as_str(), "meta.lsx") {
                let first: usize = if has_component(f.path.as_str(), "Mods") {
                    0
                } else {
                    1
                };
                Some((first, f.depth))
            } else {
                None
            }
        },
        None => None,
    }
}

fn rank_info(f: &FoundFile) -> (r: Option<(usize, usize)>)
    ensures
        match r {
            Some(k) => info_rank(*f) == Some((k.0 as nat, k.1 as nat)),
            None => info_rank(*f) is None,
        },
{
    match file_name(f.path.as_str()) {
        Some(name) => {
            let lower = to_lowercase(name.as_str());
            if same_text(lower.as_str(), "info.json") {
                Some((0, f.depth))
            } else if same_text(lower.as_str(), "mod.json") {
                Some((1, f.depth))
            } else if same_text(lower.as_str(), "modinfo.json") {
                Some((2, f.depth))
            } else {
                None
            }
        },
        None => None,
    }
}

/// The file that serves best as module description.
pub fn find_meta_lsx(files: &[FoundFile]) -> (r: Option<usize>)
    ensures
        is_best(files@, |f: FoundFile| meta_rank(f), r),
{
    let mut best: Option<(usize, (usize, usize))> = None;
    let mut i: usize = 0;
    while i < files.len()
        invariant
            i <= files.len(),
            match best {
                None => forall|j: int| 0 <= j < i ==> meta_rank(#[trigger] files@[j]) is None,
                Some((k, key)) => {
                    &&& k < i
                    &&& meta_rank(files@[k as int]) == Some((key.0 as nat, key.1 as nat))
                    &&& forall|j: int|
                        0 <= j < i && meta_rank(#[trigger] files@[j]) is Some ==> {
                            &&& !rank_before(
                                meta_rank(files@[j])->0,
                                (key.0 as nat, key.1 as nat),
                            )
                            &&& j < k ==> rank_before(
                                (key.0 as nat, key.1 as nat),
                                meta_rank(files@[j])->0,
                            )
                        }
                },
            },
        decreases files.len() - i,
    {
        if let Some(key) = rank_meta(&files[i]) {
            match best {
                None => {
                    best = Some((i, key));
                },
                Some((k, old_key)) => {
                    if key.0 < old_key.0 || (key.0 == old_key.0 && key.1 < old_key.1) {
                        best = Some((i, key));
                    }
                },
            }
        }
        i = i + 1;
    }
    match best {
        Some((k, _)) => Some(k),
        None => None,
    }
}

/// The file that serves best as information file.
pub fn find_info_json(files: &[FoundFile]) -> (r: Option<usize>)
    ensures
        is_best(files@, |f: FoundFile| info_rank(f), r),
{
    let mut best: Option<(usize, (usize, usize))> = None;
    let mut i: usize = 0;
    while i < files.len()
        invariant
            i <= files.len(),
            match best {
                None => forall|j: int| 0 <= j < i ==> info_rank(#[trigger] files@[j]) is None,
                Some((k, key)) => {
                    &&& k < i
                    &&& info_rank(files@[k as int]) == Some((key.0 as nat, key.1 as nat))
                    &&& forall|j: int|
                        0 <= j < i && info_rank(#[trigger] files@[j]) is Some ==> {
                            &&& !rank_before(
                                info_rank(files@[j])->0,
                                (key.0 as nat, key.1 as nat),
                            )
                            &&& j < k ==> rank_before(
                                (key.0 as nat, key.1 as nat),
                                info_rank(files@[j])->0,
                            )
                        }
                },
            },
        decreases files.len() - i,
    {
        if let Some(key) = rank_info(&files[i]) {
            match best {
                None => {
                    best = Some((i, key));
                },
                Some((k, old_key)) => {
                    if key.0 < old_key.0 || (key.0 == old_key.0 && key.1 < old_key.1) {
                        best = Some((i, key));
                    }
                },
            }
        }
        i = i + 1;
    }
    match best {
        Some((k, _)) => Some(k),
        None => None,
    }
}

} // verus!
