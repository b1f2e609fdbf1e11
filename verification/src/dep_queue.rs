//! The list of what is missing, before mods are switched on.
use crate::dep_keys;
use crate::dep_keys::{
    dependency_display_label, dependency_search_label, dependency_search_link,
    dependency_signature, dependency_uuid,
};
use crate::dep_lookup::DependencyLookup;
use crate::dep_missing;
use crate::dep_missing::check_lacking;
use crate::library::ModEntry;
use crate::rank_order;
use crate::sorting;
use crate::sorting::{sort, sort_dedup, Ranked};
use crate::text;
use crate::text::same_text;
use vstd::prelude::*;

verus! {

#[derive(Debug, Clone, Copy, PartialEq, Eq, Structural)]
pub enum DependencyStatus {
    Missing,
    Waiting,
    Downloaded,
    Skipped,
}

#[derive(Debug, Clone, Copy, PartialEq, Eq, Structural)]
pub enum DependencyItemKind {
    Missing,
    OverrideAction,
}

/// Something that is missing, or the choice to go on without.
#[derive(Debug)]
pub struct DependencyItem {
    pub label: String,
    pub display_label: String,
    pub uuid: Option<String>,
    /// The names of the mods that need it.
    pub required_by: Vec<String>,
    pub status: DependencyStatus,
    pub link: Option<String>,
    pub search_link: Option<String>,
    pub search_label: String,
    pub kind: DependencyItemKind,
}

#[derive(Debug)]
pub struct DependencyQueue {
    pub items: Vec<DependencyItem>,
    pub selected: usize,
}

impl DependencyItem {
    pub fn is_override_action(&self) -> (r: bool)
        ensures
            r == (self.kind == DependencyItemKind::OverrideAction),
    {
        matches!(self.kind, DependencyItemKind::OverrideAction)
    }
}

/// The choice to go on without what is missing.
pub open spec fn is_override(i: DependencyItem) -> bool {
    &&& i.label@ == "override"@
    &&& i.display_label@ == "Override dependencies"@
    &&& i.uuid is None
    &&& i.required_by@.len() == 0
    &&& i.status == DependencyStatus::Skipped
    &&& i.link is None
    &&& i.search_link is None
    &&& i.search_label@.len() == 0
    &&& i.kind == DependencyItemKind::OverrideAction
}

pub fn override_dependency_item() -> (r: DependencyItem)
    ensures
        is_override(r),
{
    DependencyItem {
        label: "override".to_owned(),
        display_label: "Override dependencies".to_owned(),
        uuid: None,
        required_by: Vec::new(),
        status: DependencyStatus::Skipped,
        link: None,
        search_link: None,
        search_label: String::new(),
        kind: DependencyItemKind::OverrideAction,
    }
}

// ---------------------------------------------------------------------------
// What is missing
// ---------------------------------------------------------------------------

pub struct ItemView {
    pub label: Seq<char>,
    pub display_label: Seq<char>,
    pub uuid: Option<Seq<char>>,
    pub required_by: Seq<Seq<char>>,
    pub status: DependencyStatus,
    pub link: Option<Seq<char>>,
    pub search_link: Option<Seq<char>>,
    pub search_label: Seq<char>,
    pub kind: DependencyItemKind,
}

pub open spec fn item_view(i: DependencyItem) -> ItemView {
    ItemView {
        label: i.label@,
        display_label: i.display_label@,
        uuid: text::text_opt(i.uuid),
        required_by: text::texts(i.required_by@),
        status: i.status,
        link: text::text_opt(i.link),
        search_link: text::text_opt(i.search_link),
        search_label: i.search_label@,
        kind: i.kind,
    }
}

/// What is missing, as it stands when it is first met.
pub open spec fn new_item(dep: Seq<char>) -> ItemView {
    let label = dep_keys::display_label(dep);
    let uuid = dep_keys::uuid_of(dep);
    let words = dep_keys::search_words(label, uuid, dep);
    ItemView {
        label: dep,
        display_label: label,
        uuid,
        required_by: Seq::empty(),
        status: DependencyStatus::Missing,
        link: None,
        search_link: dep_keys::search_link(words),
        search_label: words,
        kind: DependencyItemKind::Missing,
    }
}

/// By what two ways to name something missing are known to mean the same.
pub open spec fn signature_of(dep: Seq<char>) -> Seq<char> {
    dep_keys::signature(dep_keys::display_label(dep), dep_keys::uuid_of(dep), dep)
}

/// The item after another mod that needs it. A name takes the place of none, and an
/// id the place of none.
pub open spec fn needed_by(i: ItemView, dep: Seq<char>, by: Seq<char>) -> ItemView {
    let label = dep_keys::display_label(dep);
    let uuid = dep_keys::uuid_of(dep);
    let words = dep_keys::search_words(label, uuid, dep);
    let named = i.display_label == "Unknown dependency"@ && label != "Unknown dependency"@;
    ItemView {
        display_label: if named {
            label
        } else {
            i.display_label
        },
        uuid: if i.uuid is None {
            uuid
        } else {
            i.uuid
        },
        required_by: i.required_by.push(by),
        search_link: if named {
            dep_keys::search_link(words)
        } else {
            i.search_link
        },
        search_label: if named {
            words
        } else {
            i.search_label
        },
        ..i
    }
}

/// Where the item with a signature stands, or -1.
pub open spec fn place_of(list: Seq<(Seq<char>, ItemView)>, signature: Seq<char>) -> int
    decreases list.len(),
{
    if list.len() == 0 {
        -1
    } else {
        let before = place_of(list.drop_last(), signature);
        if before >= 0 {
            before
        } else if list.last().0 == signature {
            list.len() - 1
        } else {
            -1
        }
    }
}

/// The list after another need that is not met.
pub open spec fn with_need(
    list: Seq<(Seq<char>, ItemView)>,
    dep: Seq<char>,
    by: Seq<char>,
) -> Seq<(Seq<char>, ItemView)> {
    let signature = signature_of(dep);
    let at = place_of(list, signature);
    if at >= 0 {
        list.update(at, (signature, needed_by(list[at].1, dep, by)))
    } else {
        list.push((signature, needed_by(new_item(dep), dep, by)))
    }
}

/// The list after the first `n` needs of a mod.
pub open spec fn with_needs(
    list: Seq<(Seq<char>, ItemView)>,
    library: Seq<ModEntry>,
    m: ModEntry,
    deps: Seq<Seq<char>>,
    n: int,
) -> Seq<(Seq<char>, ItemView)>
    decreases n,
{
    if n <= 0 {
        list
    } else {
        let before = with_needs(list, library, m, deps, n - 1);
        if dep_missing::is_lacking(library, deps[n - 1], m.id@) {
            with_need(before, deps[n - 1], m.shown_name())
        } else {
            before
        }
    }
}

/// What the first `n` mods lack.
pub open spec fn missing_items(
    library: Seq<ModEntry>,
    mods: Seq<ModEntry>,
    deps: Seq<Vec<String>>,
    n: int,
) -> Seq<(Seq<char>, ItemView)>
    decreases n,
{
    if n <= 0 {
        Seq::empty()
    } else {
        let needs = dep_missing::needs_at(deps, n - 1);
        with_needs(
            missing_items(library, mods, deps, n - 1),
            library,
            mods[n - 1],
            needs,
            needs.len() as int,
        )
    }
}

struct Row {
    signature: String,
    item: DependencyItem,
}

spec fn row_views(rows: Seq<Row>) -> Seq<(Seq<char>, ItemView)> {
    Seq::new(rows.len(), |i: int| (rows[i].signature@, item_view(rows[i].item)))
}

/// Whether the items are of things that are missing.
spec fn plain_rows(rows: Seq<Row>) -> bool {
    forall|i: int|
        0 <= i < rows.len() ==> (#[trigger] rows[i]).item.status == DependencyStatus::Missing
            && rows[i].item.link is None && rows[i].item.kind == DependencyItemKind::Missing
}

fn find_place(rows: &Vec<Row>, signature: &str) -> (r: Option<usize>)
    ensures
        match r {
            Some(i) => place_of(row_views(rows@), signature@) == i && i < rows@.len()
                && rows@[i as int].signature@ == signature@,
            None => place_of(row_views(rows@), signature@) < 0,
        },
{
    let ghost all = row_views(rows@);
    let mut i: usize = 0;
    assert(all.take(0) =~= Seq::<(Seq<char>, ItemView)>::empty());
    while i < rows.len()
        invariant
            i <= rows.len(),
            all == row_views(rows@),
            place_of(all.take(i as int), signature@) < 0,
        decreases rows.len() - i,
    {
        assert(all.take(i + 1).drop_last() =~= all.take(i as int));
        if same_text(rows[i].signature.as_str(), signature) {
            proof {
                assert(place_of(all.take(i + 1), signature@) == i);
                lemma_place_kept(all, signature@, i + 1);
            }
            return Some(i);
        }
        i = i + 1;
    }
    assert(all.take(i as int) =~= all);
    None
}

proof fn lemma_place_kept(list: Seq<(Seq<char>, ItemView)>, signature: Seq<char>, n: int)
    requires
        0 <= n <= list.len(),
        place_of(list.take(n), signature) >= 0,
    ensures
        place_of(list, signature) == place_of(list.take(n), signature),
    decreases list.len() - n,
{
    if n < list.len() {
        assert(list.take(n + 1).drop_last() =~= list.take(n));
        lemma_place_kept(list, signature, n + 1);
    } else {
        assert(list.take(n) =~= list);
    }
}

fn add_need(rows: &mut Vec<Row>, dep: &str, by: &str)
    requires
        plain_rows(old(rows)@),
    ensures
        plain_rows(final(rows)@),
        row_views(final(rows)@) == with_need(row_views(old(rows)@), dep@, by@),
{
    let ghost before = row_views(rows@);
    let label = dependency_display_label(dep);
    let uuid = dependency_uuid(dep);
    let signature = dependency_signature(label.as_str(), &uuid, dep);
    let found = find_place(rows, signature.as_str());
    let at = match found {
        Some(at) => at,
        None => {
            let words = dependency_search_label(label.as_str(), &uuid, dep);
            let link = dependency_search_link(words.as_str());
            let item = DependencyItem {
                label: dep.to_owned(),
                display_label: label.clone(),
                uuid: crate::lists::copy_opt(&uuid),
                required_by: Vec::new(),
                status: DependencyStatus::Missing,
                link: None,
                search_link: link,
                search_label: words,
                kind: DependencyItemKind::Missing,
            };
            assert(text::texts(item.required_by@) =~= Seq::<Seq<char>>::empty());
            assert(item_view(item) == new_item(dep@));
            rows.push(Row { signature: signature.clone(), item });
            assert(row_views(rows@) =~= before.push((signature@, new_item(dep@))));
            rows.len() - 1
        },
    };
    let ghost mid = rows@;
    let named = same_text(rows[at].item.display_label.as_str(), "Unknown dependency")
        && !same_text(label.as_str(), "Unknown dependency");
    let name = by.to_owned();
    proof {
        text::lemma_texts_push(rows@[at as int].item.required_by@, name);
    }
    rows[at].item.required_by.push(name);
    if named {
        let words = dependency_search_label(label.as_str(), &uuid, dep);
        let link = dependency_search_link(words.as_str());
        rows[at].item.display_label = label;
        rows[at].item.search_label = words;
        rows[at].item.search_link = link;
    }
    if rows[at].item.uuid.is_none() {
        rows[at].item.uuid = uuid;
    }
    proof {
        assert(item_view(rows@[at as int].item) == needed_by(
            item_view(mid[at as int].item),
            dep@,
            by@,
        ));
        assert(row_views(rows@) =~= with_need(before, dep@, by@));
    }
}

fn add_needs(
    rows: &mut Vec<Row>,
    lookup: &DependencyLookup,
    m: &ModEntry,
    deps: &Vec<String>,
    Ghost(library): Ghost<Seq<ModEntry>>,
)
    requires
        plain_rows(old(rows)@),
        lookup.is_of(library),
    ensures
        plain_rows(final(rows)@),
        row_views(final(rows)@) == with_needs(
            row_views(old(rows)@),
            library,
            *m,
            text::texts(deps@),
            deps@.len() as int,
        ),
{
    let ghost start = row_views(rows@);
    let by = m.display_name();
    let mut i: usize = 0;
    while i < deps.len()
        invariant
            i <= deps.len(),
            plain_rows(rows@),
            lookup.is_of(library),
            by@ == m.shown_name(),
            row_views(rows@) == with_needs(start, library, *m, text::texts(deps@), i as int),
        decreases deps.len() - i,
    {
        if check_lacking(lookup, deps[i].as_str(), m.id.as_str(), Ghost(library)) {
            add_need(rows, deps[i].as_str(), by.as_str());
        }
        i = i + 1;
    }
}

pub open spec fn label_order() -> spec_fn(ItemView, ItemView) -> bool {
    |a: ItemView, b: ItemView| sorting::text_before(a.label, b.label)
}

impl Ranked for DependencyItem {
    open spec fn before(self, other: Self) -> bool {
        sorting::text_before(self.label@, other.label@)
    }

    proof fn before_asymmetric(a: Self, b: Self) {
        sorting::lemma_text_before_asymmetric(a.label@, b.label@);
    }

    proof fn before_splits(a: Self, b: Self, c: Self) {
        sorting::lemma_text_before_splits(a.label@, b.label@, c.label@);
    }

    fn is_before(&self, other: &Self) -> (r: bool) {
        sorting::is_text_before(self.label.as_str(), other.label.as_str())
    }
}

/// An item with the names of the mods in order and each once.
pub open spec fn settled(i: ItemView) -> ItemView {
    ItemView { required_by: sorting::sorted_set(i.required_by), ..i }
}

pub open spec fn settled_items(list: Seq<(Seq<char>, ItemView)>) -> Seq<ItemView> {
    Seq::new(list.len(), |i: int| settled(list[i].1))
}

pub open spec fn item_views(list: Seq<DependencyItem>) -> Seq<ItemView> {
    Seq::new(list.len(), |i: int| item_view(list[i]))
}

/// Whether an item is of something that is missing.
pub open spec fn is_missing(i: DependencyItem) -> bool {
    i.status == DependencyStatus::Missing && i.link is None && i.kind == DependencyItemKind::Missing
}

/// Whether a list is the one of what mods lack, by name, with the choice to go on
/// without at its end.
pub open spec fn lists_missing(q: DependencyQueue, items: Seq<ItemView>) -> bool {
    &&& q.selected == 0
    &&& q.items@.len() == items.len() + 1
    &&& is_override(q.items@.last())
    &&& item_views(q.items@.drop_last()) == sorting::ranking_by(items, label_order())
    &&& forall|i: int| 0 <= i < items.len() ==> is_missing(#[trigger] q.items@[i])
}

fn settle_rows(rows: Vec<Row>) -> (out: Vec<DependencyItem>)
    requires
        plain_rows(rows@),
    ensures
        item_views(out@) == settled_items(row_views(rows@)),
        forall|i: int| 0 <= i < out@.len() ==> is_missing(#[trigger] out@[i]),
{
    let ghost all = rows@;
    let ghost goal = settled_items(row_views(all));
    let mut left = rows;
    let mut out: Vec<DependencyItem> = Vec::new();
    assert(left@ =~= all.skip(0));
    assert(item_views(out@) =~= goal.take(0));
    while left.len() > 0
        invariant
            left.len() <= all.len(),
            plain_rows(all),
            left@ == all.skip(all.len() - left.len()),
            goal == settled_items(row_views(all)),
            item_views(out@) == goal.take(all.len() - left.len()),
            forall|i: int| 0 <= i < out@.len() ==> is_missing(#[trigger] out@[i]),
        decreases left.len(),
    {
        let ghost at = all.len() - left.len();
        let ghost before = out@;
        assert(left@[0] == all[at]);
        let row = left.remove(0);
        let mut item = row.item;
        let sorted = sort_dedup(item.required_by.as_slice());
        proof {
            sorting::lemma_sorted_set(text::texts(sorted@), text::texts(item.required_by@));
        }
        item.required_by = sorted;
        proof {
            assert(item_view(item) == settled(item_view(all[at].item)));
            assert(is_missing(all[at].item));
        }
        out.push(item);
        assert(left@ =~= all.skip(at + 1));
        assert(item_views(out@) =~= item_views(before).push(item_view(item)));
        assert(goal.take(at + 1) =~= goal.take(at).push(goal[at]));
    }
    assert(goal.take(all.len() as int) =~= goal);
    out
}

fn finish_queue(rows: Vec<Row>) -> (r: Option<DependencyQueue>)
    requires
        plain_rows(rows@),
    ensures
        match r {
            Some(q) => rows@.len() > 0 && lists_missing(q, settled_items(row_views(rows@))),
            None => rows@.len() == 0,
        },
{
    if rows.is_empty() {
        return None;
    }
    let ghost items = row_views(rows@);
    let list = settle_rows(rows);
    let ghost plain = list@;
    let mut out = sort(list);
    let ghost sorted = out@;
    proof {
        let f = |i: DependencyItem| item_view(i);
        sorting::lemma_ranking_map(plain, f, sorting::order_of::<DependencyItem>(), label_order());
        assert(item_views(plain) =~= plain.map_values(f));
        assert(item_views(sorted) =~= sorted.map_values(f));
        assert(item_views(plain).len() == settled_items(items).len());
        assert forall|k: int| 0 <= k < sorted.len() implies is_missing(#[trigger] sorted[k]) by {
            sorting::lemma_ranking_members(plain, sorting::order_of::<DependencyItem>(), k);
            let j = choose|j: int| 0 <= j < plain.len() && plain[j] == sorted[k];
            assert(is_missing(plain[j]));
        }
        sorting::law_ranking_permutes(plain, sorting::order_of::<DependencyItem>());
    }
    out.push(override_dependency_item());
    assert(out@.drop_last() =~= sorted);
    Some(DependencyQueue { items: out, selected: 0 })
}

/// What mods lack, unless they lack nothing. `deps` are the needs of these mods.
pub fn build_dependency_queue_for_mods(
    library: &Vec<ModEntry>,
    mods: &Vec<ModEntry>,
    deps: &Vec<Vec<String>>,
) -> (r: Option<DependencyQueue>)
    requires
        deps@.len() == mods@.len(),
    ensures
        ({
            let items = missing_items(library@, mods@, deps@, mods@.len() as int);
            match r {
                Some(q) => items.len() > 0 && lists_missing(q, settled_items(items)),
                None => items.len() == 0,
            }
        }),
{
    let lookup = DependencyLookup::new(library);
    let mut rows: Vec<Row> = Vec::new();
    let mut i: usize = 0;
    assert(row_views(rows@) =~= Seq::<(Seq<char>, ItemView)>::empty());
    while i < mods.len()
        invariant
            i <= mods.len() == deps.len(),
            plain_rows(rows@),
            lookup.is_of(library@),
            row_views(rows@) == missing_items(library@, mods@, deps@, i as int),
        decreases mods.len() - i,
    {
        add_needs(&mut rows, &lookup, &mods[i], &deps[i], Ghost(library@));
        i = i + 1;
    }
    assert(row_views(rows@).len() == rows@.len());
    finish_queue(rows)
}

/// What the mods at the first `n` of the places lack.
pub open spec fn missing_items_at(
    mods: Seq<ModEntry>,
    places: Seq<int>,
    deps: Seq<Vec<String>>,
    n: int,
) -> Seq<(Seq<char>, ItemView)>
    decreases n,
{
    if n <= 0 {
        Seq::empty()
    } else {
        let needs = dep_missing::needs_at(deps, places[n - 1]);
        with_needs(
            missing_items_at(mods, places, deps, n - 1),
            mods,
            mods[places[n - 1]],
            needs,
            needs.len() as int,
        )
    }
}

/// What some mods of a library lack, unless they lack nothing. `deps` are the needs
/// of all its mods.
pub fn build_dependency_queue_at(
    mods: &Vec<ModEntry>,
    places: &Vec<usize>,
    deps: &Vec<Vec<String>>,
) -> (r: Option<DependencyQueue>)
    requires
        deps@.len() == mods@.len(),
        forall|i: int| 0 <= i < places@.len() ==> (#[trigger] places@[i]) < mods@.len(),
    ensures
        ({
            let items = missing_items_at(
                mods@,
                rank_order::as_ints(places@),
                deps@,
                places@.len() as int,
            );
            match r {
                Some(q) => items.len() > 0 && lists_missing(q, settled_items(items)),
                None => items.len() == 0,
            }
        }),
{
    let lookup = DependencyLookup::new(mods);
    let ghost all = rank_order::as_ints(places@);
    let mut rows: Vec<Row> = Vec::new();
    let mut i: usize = 0;
    assert(row_views(rows@) =~= Seq::<(Seq<char>, ItemView)>::empty());
    while i < places.len()
        invariant
            i <= places.len(),
            deps@.len() == mods@.len(),
            forall|k: int| 0 <= k < places@.len() ==> (#[trigger] places@[k]) < mods@.len(),
            plain_rows(rows@),
            lookup.is_of(mods@),
            all == rank_order::as_ints(places@),
            row_views(rows@) == missing_items_at(mods@, all, deps@, i as int),
        decreases places.len() - i,
    {
        let at = places[i];
        assert(all[i as int] == at);
        add_needs(&mut rows, &lookup, &mods[at], &deps[at], Ghost(mods@));
        i = i + 1;
    }
    assert(row_views(rows@).len() == rows@.len());
    finish_queue(rows)
}

} // verus!
