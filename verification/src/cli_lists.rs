//! The lists that the command line shows.
use crate::bg3::GamePaths;
use crate::cli;
use crate::cli::{CliError, ErrorView, ModSortKey, ModsListOptions};
use crate::config::GameConfig;
use crate::library;
use crate::library::{
    find_profile, InstallTarget, Library, ModEntry, ModSource, Profile, ProfileEntry,
};
use crate::lists;
use crate::paths;
use crate::paths::join_path;
use crate::sorting;
use crate::sorting::{is_text_before, sort, sort_dedup, Ranked};
use crate::text;
use crate::text::{
    concat2, concat3, eq_ignore_case, has_text, pad_left, pad_right, push_text, same_text,
    show_usize, to_ascii_lower,
};
use vstd::hash_map::StringHashMap;
use vstd::prelude::*;

verus! {

// ---------------------------------------------------------------------------
// Profiles
// ---------------------------------------------------------------------------

/// The profile that a command is about: the one that is named, else the active one.
pub fn resolve_profile(library: &Library, override_name: &Option<String>) -> (r: Result<
    usize,
    CliError,
>)
    ensures
        ({
            let name = match override_name {
                Some(n) => n@,
                None => library.active_profile@,
            };
            match r {
                Ok(i) => library::profile_index(library.profiles@, name) == i && i
                    < library.profiles.len(),
                Err(e) => library::profile_index(library.profiles@, name) < 0 && e.shown()
                    == match override_name {
                    Some(n) => ErrorView::UnknownProfile(n@),
                    None => ErrorView::NoActiveProfile,
                },
            }
        }),
{
    match override_name {
        Some(name) => {
            proof {
                library::lemma_profile_index(library.profiles@, name@);
            }
            match find_profile(&library.profiles, name.as_str()) {
                Some(i) => Ok(i),
                None => Err(CliError::UnknownProfile(name.clone())),
            }
        },
        None => {
            proof {
                library::lemma_profile_index(library.profiles@, library.active_profile@);
            }
            match find_profile(&library.profiles, library.active_profile.as_str()) {
                Some(i) => Ok(i),
                None => Err(CliError::NoActiveProfile),
            }
        },
    }
}

#[derive(Debug)]
pub struct ProfileListItem {
    pub name: String,
    pub active: bool,
}

/// The profiles, and which is active.
pub fn list_profiles(library: &Library) -> (out: Vec<ProfileListItem>)
    ensures
        out.len() == library.profiles.len(),
        forall|i: int|
            0 <= i < out.len() ==> (#[trigger] out@[i]).name == library.profiles@[i].name
                && out@[i].active == (library.profiles@[i].name@ == library.active_profile@),
{
    let mut out: Vec<ProfileListItem> = Vec::new();
    let mut i: usize = 0;
    while i < library.profiles.len()
        invariant
            i <= library.profiles.len(),
            i == out.len(),
            forall|k: int|
                0 <= k < i ==> (#[trigger] out@[k]).name == library.profiles@[k].name
                    && out@[k].active == (library.profiles@[k].name@ == library.active_profile@),
        decreases library.profiles.len() - i,
    {
        let name = &library.profiles[i].name;
        out.push(
            ProfileListItem {
                name: name.clone(),
                active: same_text(name.as_str(), library.active_profile.as_str()),
            },
        );
        i = i + 1;
    }
    out
}

/// A profile as it is shown.
pub fn profile_line(item: &ProfileListItem) -> (r: String)
    ensures
        r@ == (if item.active {
            "* "@
        } else {
            "  "@
        }) + item.name@,
{
    if item.active {
        concat2("* ", item.name.as_str())
    } else {
        concat2("  ", item.name.as_str())
    }
}

// ---------------------------------------------------------------------------
// Mods
// ---------------------------------------------------------------------------

#[derive(Debug)]
pub struct ModListItem {
    pub id: String,
    pub name: String,
    pub display_name: String,
    pub kind: String,
    pub created_at: Option<i64>,
    pub added_at: i64,
    pub enabled: bool,
    pub order: Option<usize>,
}

#[verifier::ext_equal]
pub struct ItemView {
    pub id: Seq<char>,
    pub name: Seq<char>,
    pub display_name: Seq<char>,
    pub kind: Seq<char>,
    pub created_at: Option<i64>,
    pub added_at: i64,
    pub enabled: bool,
    pub order: Option<int>,
}

impl ModListItem {
    pub open spec fn shown(self) -> ItemView {
        ItemView {
            id: self.id@,
            name: self.name@,
            display_name: self.display_name@,
            kind: self.kind@,
            created_at: self.created_at,
            added_at: self.added_at,
            enabled: self.enabled,
            order: match self.order {
                Some(n) => Some(n as int),
                None => None,
            },
        }
    }
}

pub open spec fn item_view() -> spec_fn(ModListItem) -> ItemView {
    |i: ModListItem| i.shown()
}

/// Where the last entry for an id stands in a load order, or -1.
pub open spec fn last_entry(order: Seq<ProfileEntry>, id: Seq<char>) -> int
    decreases order.len(),
{
    if order.len() == 0 {
        -1
    } else if order.last().id@ == id {
        order.len() - 1
    } else {
        last_entry(order.drop_last(), id)
    }
}

/// Where the last entry for each id stands.
pub open spec fn finds_entries(map: Map<Seq<char>, usize>, order: Seq<ProfileEntry>) -> bool {
    forall|id: Seq<char>|
        if #[trigger] map.contains_key(id) {
            last_entry(order, id) == map[id] as int && 0 <= map[id] < order.len()
        } else {
            last_entry(order, id) < 0
        }
}

pub fn index_entries(order: &Vec<ProfileEntry>) -> (r: StringHashMap<usize>)
    ensures
        finds_entries(r@, order@),
{
    let mut r: StringHashMap<usize> = StringHashMap::new();
    let mut i: usize = 0;
    while i < order.len()
        invariant
            i <= order.len(),
            finds_entries(r@, order@.take(i as int)),
        decreases order.len() - i,
    {
        let ghost known = r@;
        let ghost after = order@.take(i + 1);
        r.insert(order[i].id.clone(), i);
        proof {
            assert(after.drop_last() =~= order@.take(i as int));
            assert forall|id: Seq<char>|
                if #[trigger] r@.contains_key(id) {
                    last_entry(after, id) == r@[id] as int && 0 <= r@[id] < after.len()
                } else {
                    last_entry(after, id) < 0
                } by {
                assert(known.contains_key(id) || !known.contains_key(id));
            }
        }
        i = i + 1;
    }
    assert(order@.take(i as int) =~= order@);
    r
}

pub open spec fn kind_of(m: ModEntry) -> Seq<char> {
    if library::kind_names(m.targets@).len() == 0 {
        "Unknown"@
    } else {
        text::join(library::kind_names(m.targets@), "+"@)
    }
}

/// A mod with its place in a load order.
pub open spec fn item_of(m: ModEntry, order: Seq<ProfileEntry>) -> ItemView {
    let at = last_entry(order, m.id@);
    ItemView {
        id: m.id@,
        name: m.name@,
        display_name: m.shown_name(),
        kind: kind_of(m),
        created_at: m.created_at,
        added_at: m.added_at,
        enabled: at >= 0 && order[at].enabled,
        order: if at >= 0 {
            Some(at + 1)
        } else {
            None
        },
    }
}

/// Whether the filter lets an item through.
pub open spec fn passes(item: ItemView, filter: Option<Seq<char>>) -> bool {
    match filter {
        Some(f) => text::contains_text(
            text::ascii_lower(item.display_name),
            text::ascii_lower(f),
        ),
        None => true,
    }
}

/// The items of the first `n` mods that the filter lets through.
pub open spec fn items(
    mods: Seq<ModEntry>,
    order: Seq<ProfileEntry>,
    filter: Option<Seq<char>>,
    n: int,
) -> Seq<ItemView>
    decreases n,
{
    if n <= 0 {
        Seq::empty()
    } else {
        let item = item_of(mods[n - 1], order);
        if passes(item, filter) {
            items(mods, order, filter, n - 1).push(item)
        } else {
            items(mods, order, filter, n - 1)
        }
    }
}

pub open spec fn order_or_last(o: Option<int>) -> int {
    match o {
        Some(n) => n,
        None => usize::MAX as int,
    }
}

pub open spec fn time_or_zero(t: Option<i64>) -> int {
    match t {
        Some(x) => x as int,
        None => 0,
    }
}

/// The order of a list.
pub open spec fn item_before(key: ModSortKey) -> spec_fn(ItemView, ItemView) -> bool {
    |a: ItemView, b: ItemView|
        match key {
            ModSortKey::Order => order_or_last(a.order) < order_or_last(b.order),
            ModSortKey::Name => sorting::text_before(a.display_name, b.display_name),
            ModSortKey::Created => time_or_zero(a.created_at) < time_or_zero(b.created_at),
            ModSortKey::Added => a.added_at < b.added_at,
            ModSortKey::Kind => sorting::text_before(a.kind, b.kind),
        }
}

spec fn key_place(key: ModSortKey) -> int {
    match key {
        ModSortKey::Order => 0,
        ModSortKey::Name => 1,
        ModSortKey::Created => 2,
        ModSortKey::Added => 3,
        ModSortKey::Kind => 4,
    }
}

fn find_key_place(key: ModSortKey) -> (r: u8)
    ensures
        r == key_place(key),
{
    match key {
        ModSortKey::Order => 0,
        ModSortKey::Name => 1,
        ModSortKey::Created => 2,
        ModSortKey::Added => 3,
        ModSortKey::Kind => 4,
    }
}

/// An item, and how the list that it is on is ordered. Items of lists with other
/// orders stand apart.
struct SortedItem {
    key: ModSortKey,
    item: ModListItem,
}

impl Ranked for SortedItem {
    closed spec fn before(self, other: Self) -> bool {
        key_place(self.key) < key_place(other.key) || (self.key == other.key && item_before(
            self.key,
        )(self.item.shown(), other.item.shown()))
    }

    proof fn before_asymmetric(a: Self, b: Self) {
        if sorting::text_before(a.item.display_name@, b.item.display_name@) {
            sorting::lemma_text_before_asymmetric(a.item.display_name@, b.item.display_name@);
        }
        if sorting::text_before(a.item.kind@, b.item.kind@) {
            sorting::lemma_text_before_asymmetric(a.item.kind@, b.item.kind@);
        }
    }

    proof fn before_splits(a: Self, b: Self, c: Self) {
        if sorting::text_before(a.item.display_name@, b.item.display_name@) {
            sorting::lemma_text_before_splits(
                a.item.display_name@,
                b.item.display_name@,
                c.item.display_name@,
            );
        }
        if sorting::text_before(a.item.kind@, b.item.kind@) {
            sorting::lemma_text_before_splits(a.item.kind@, b.item.kind@, c.item.kind@);
        }
    }

    fn is_before(&self, other: &Self) -> (r: bool) {
        let a = &self.item;
        let b = &other.item;
        if self.key != other.key {
            return find_key_place(self.key) < find_key_place(other.key);
        }
        match self.key {
            ModSortKey::Order => {
                let x: usize = match a.order {
                    Some(n) => n,
                    None => usize::MAX,
                };
                let y: usize = match b.order {
                    Some(n) => n,
                    None => usize::MAX,
                };
                x < y
            },
            ModSortKey::Name => is_text_before(a.display_name.as_str(), b.display_name.as_str()),
            ModSortKey::Created => {
                let x: i64 = match a.created_at {
                    Some(t) => t,
                    None => 0,
                };
                let y: i64 = match b.created_at {
                    Some(t) => t,
                    None => 0,
                };
                x < y
            },
            ModSortKey::Added => a.added_at < b.added_at,
            ModSortKey::Kind => is_text_before(a.kind.as_str(), b.kind.as_str()),
        }
    }
}

/// The list of mods that is asked for.
pub open spec fn listed_mods(
    mods: Seq<ModEntry>,
    order: Seq<ProfileEntry>,
    options: cli::ListView,
) -> Seq<ItemView> {
    let sorted = sorting::ranking_by(
        items(mods, order, options.filter, mods.len() as int),
        item_before(options.sort),
    );
    if options.reverse {
        sorted.reverse()
    } else {
        sorted
    }
}

fn make_item(m: &ModEntry, order: &Vec<ProfileEntry>, index: &StringHashMap<usize>) -> (r:
    ModListItem)
    requires
        finds_entries(index@, order@),
    ensures
        r.shown() == item_of(*m, order@),
{
    assert(index@.contains_key(m.id@) || !index@.contains_key(m.id@));
    assert(order.len() <= usize::MAX);
    let (enabled, place): (bool, Option<usize>) = match index.get(m.id.as_str()) {
        Some(at) => (order[*at].enabled, Some(*at + 1)),
        None => (false, None),
    };
    let r = ModListItem {
        id: m.id.clone(),
        name: m.name.clone(),
        display_name: m.display_name(),
        kind: m.display_type(),
        created_at: m.created_at,
        added_at: m.added_at,
        enabled,
        order: place,
    };
    assert(r.shown() =~= item_of(*m, order@));
    r
}

/// The items of sorted rows, the last first.
fn take_backwards(sorted: Vec<SortedItem>) -> (out: Vec<ModListItem>)
    ensures
        out@.map_values(item_view()) == sorted@.map_values(
            |s: SortedItem| s.item.shown(),
        ).reverse(),
{
    let ghost view = |s: SortedItem| s.item.shown();
    let ghost all = sorted@;
    let ghost rows = all.map_values(view);
    let mut left = sorted;
    let mut out: Vec<ModListItem> = Vec::new();
    while left.len() > 0
        invariant
            left.len() <= all.len(),
            view == (|s: SortedItem| s.item.shown()),
            rows == all.map_values(view),
            left@ == all.take(left.len() as int),
            out@.map_values(item_view()) == rows.skip(left.len() as int).reverse(),
        decreases left.len(),
    {
        let ghost n = left.len() as int;
        let ghost had = out@;
        let row = left.remove(left.len() - 1);
        out.push(row.item);
        proof {
            assert(left@ =~= all.take(n - 1));
            assert(row == all[n - 1]);
            assert(out@.map_values(item_view()) =~= had.map_values(item_view()).push(
                row.item.shown(),
            ));
            assert(rows.skip(n - 1).reverse() =~= rows.skip(n).reverse().push(rows[n - 1]));
        }
    }
    assert(rows.skip(0) =~= rows);
    out
}

/// The items, the last first.
fn turn_round(v: Vec<ModListItem>) -> (out: Vec<ModListItem>)
    ensures
        out@ == v@.reverse(),
{
    let ghost all = v@;
    let mut left = v;
    let mut out: Vec<ModListItem> = Vec::new();
    while left.len() > 0
        invariant
            left.len() <= all.len(),
            left@ == all.take(left.len() as int),
            out@ == all.skip(left.len() as int).reverse(),
        decreases left.len(),
    {
        let ghost n = left.len() as int;
        let item = left.remove(left.len() - 1);
        out.push(item);
        assert(left@ =~= all.take(n - 1));
        assert(all.skip(n - 1).reverse() =~= all.skip(n).reverse().push(all[n - 1]));
    }
    assert(all.skip(0) =~= all);
    out
}

/// The mods with their places in a profile, as the options ask.
pub fn list_mods(mods: &Vec<ModEntry>, profile: &Profile, options: &ModsListOptions) -> (out: Vec<
    ModListItem,
>)
    ensures
        out@.map_values(item_view()) == listed_mods(mods@, profile.order@, options.shown()),
{
    let index = index_entries(&profile.order);
    let ghost filter = text::text_opt(options.filter);
    let needle = match &options.filter {
        Some(f) => Some(to_ascii_lower(f.as_str())),
        None => None,
    };
    let ghost view = |s: SortedItem| s.item.shown();
    let ghost key = options.sort;
    let mut found: Vec<SortedItem> = Vec::new();
    let mut i: usize = 0;
    assert(found@.map_values(view) =~= items(mods@, profile.order@, filter, 0));
    while i < mods.len()
        invariant
            i <= mods.len(),
            finds_entries(index@, profile.order@),
            filter == text::text_opt(options.filter),
            view == (|s: SortedItem| s.item.shown()),
            key == options.sort,
            match filter {
                Some(f) => needle matches Some(n) && n@ == text::ascii_lower(f),
                None => needle is None,
            },
            found@.map_values(view) == items(mods@, profile.order@, filter, i as int),
            forall|k: int| 0 <= k < found.len() ==> (#[trigger] found@[k]).key == key,
        decreases mods.len() - i,
    {
        let item = make_item(&mods[i], &profile.order, &index);
        let pass = match &needle {
            Some(n) => {
                let lower = to_ascii_lower(item.display_name.as_str());
                has_text(lower.as_str(), n.as_str())
            },
            None => true,
        };
        assert(pass == passes(item.shown(), filter));
        if pass {
            let ghost before = found@;
            let row = SortedItem { key: options.sort, item };
            found.push(row);
            assert(found@.map_values(view) =~= before.map_values(view).push(view(row)));
        }
        i = i + 1;
    }
    proof {
        let before = sorting::order_of::<SortedItem>();
        assert forall|x: SortedItem, y: SortedItem|
            found@.contains(x) && found@.contains(y) implies #[trigger] before(x, y)
            == item_before(key)(view(x), view(y)) by {}
        sorting::lemma_ranking_map(found@, view, before, item_before(key));
    }
    let sorted = sort(found);
    let back = take_backwards(sorted);
    if options.reverse {
        back
    } else {
        let out = turn_round(back);
        proof {
            let rows = sorted@.map_values(view);
            assert(back@.reverse().map_values(item_view()) =~= back@.map_values(
                item_view(),
            ).reverse());
            assert(rows.reverse().reverse() =~= rows);
        }
        out
    }
}

/// A mod as it is shown, with its dates.
pub fn mod_line(item: &ModListItem, created: &str, added: &str) -> (r: String)
    ensures
        ({
            let order = match item.order {
                Some(n) => text::decimal(n as nat),
                None => "-"@,
            };
            r@ == text::right_in(order, 3, ' ') + " ["@ + (if item.enabled {
                "x"@
            } else {
                " "@
            }) + "] "@ + text::left_in(item.kind@, 10, ' ') + " "@ + created@ + " "@ + added@
                + " "@ + item.display_name@
        }),
{
    let order = match item.order {
        Some(n) => show_usize(n),
        None => "-".to_owned(),
    };
    let mut r = pad_left(order.as_str(), 3, ' ');
    push_text(&mut r, " [");
    if item.enabled {
        push_text(&mut r, "x");
    } else {
        push_text(&mut r, " ");
    }
    push_text(&mut r, "] ");
    let kind = pad_right(item.kind.as_str(), 10, ' ');
    push_text(&mut r, kind.as_str());
    push_text(&mut r, " ");
    push_text(&mut r, created);
    push_text(&mut r, " ");
    push_text(&mut r, added);
    push_text(&mut r, " ");
    push_text(&mut r, item.display_name.as_str());
    r
}

// ---------------------------------------------------------------------------
// Dependencies
// ---------------------------------------------------------------------------

/// The directory of the packages of a mod: that of the game for one of its own, where it
/// is known, else that of the mod.
pub open spec fn pak_dir(m: ModEntry, root: Seq<char>, game_dir: Option<Seq<char>>) -> Seq<char> {
    match game_dir {
        Some(dir) if m.source == ModSource::Native => dir,
        _ => root,
    }
}

/// Where the packages among the first `n` targets are to be.
pub open spec fn planned_paks(targets: Seq<InstallTarget>, dir: Seq<char>, n: int) -> Seq<Seq<char>>
    decreases n,
{
    if n <= 0 {
        Seq::empty()
    } else {
        match targets[n - 1] {
            InstallTarget::Pak { file, .. } => planned_paks(targets, dir, n - 1).push(
                paths::joined(dir, file@),
            ),
            _ => planned_paks(targets, dir, n - 1),
        }
    }
}

/// Where the packages of a mod are to be.
pub fn plan_pak_paths(m: &ModEntry, mod_root: &str, game_dir: &Option<String>) -> (out: Vec<String>)
    ensures
        text::texts(out@) == planned_paks(
            m.targets@,
            pak_dir(*m, mod_root@, text::text_opt(*game_dir)),
            m.targets@.len() as int,
        ),
{
    let native = m.is_native();
    let dir = match game_dir {
        Some(dir) => if native {
            dir.as_str()
        } else {
            mod_root
        },
        None => mod_root,
    };
    let mut out: Vec<String> = Vec::new();
    let mut i: usize = 0;
    assert(text::texts(out@) =~= Seq::<Seq<char>>::empty());
    while i < m.targets.len()
        invariant
            i <= m.targets.len(),
            text::texts(out@) == planned_paks(m.targets@, dir@, i as int),
        decreases m.targets.len() - i,
    {
        if let InstallTarget::Pak { file, .. } = &m.targets[i] {
            text::add_line(&mut out, join_path(dir, file.as_str()));
        }
        i = i + 1;
    }
    out
}

/// The paths at which packages are read: where they are to be, or where one of the game's
/// own that is not there was found.
pub open spec fn chosen_paks(
    native: bool,
    planned: Seq<Seq<char>>,
    there: Seq<bool>,
    found: Option<Seq<char>>,
) -> Seq<Seq<char>> {
    Seq::new(
        planned.len(),
        |i: int|
            match found {
                Some(path) if native && !there[i] => path,
                _ => planned[i],
            },
    )
}

/// The paths at which the packages of a mod are read. `there` tells which of the planned
/// ones are there, `found` where the first package was found otherwise.
pub fn choose_pak_paths(
    m: &ModEntry,
    planned: &Vec<String>,
    there: &Vec<bool>,
    found: &Option<String>,
) -> (out: Vec<String>)
    requires
        there@.len() == planned@.len(),
    ensures
        text::texts(out@) == chosen_paks(
            m.source == ModSource::Native,
            text::texts(planned@),
            there@,
            text::text_opt(*found),
        ),
{
    let native = m.is_native();
    let ghost all = chosen_paks(native, text::texts(planned@), there@, text::text_opt(*found));
    let mut out: Vec<String> = Vec::new();
    let mut i: usize = 0;
    assert(text::texts(out@) =~= all.take(0));
    while i < planned.len()
        invariant
            i <= planned.len() == there.len(),
            native == (m.source == ModSource::Native),
            all == chosen_paks(native, text::texts(planned@), there@, text::text_opt(*found)),
            text::texts(out@) == all.take(i as int),
        decreases planned.len() - i,
    {
        let path = match found {
            Some(path) => if native && !there[i] {
                path.clone()
            } else {
                planned[i].clone()
            },
            None => planned[i].clone(),
        };
        assert(path@ == all[i as int]);
        assert(all.take(i + 1) =~= all.take(i as int).push(path@));
        text::add_line(&mut out, path);
        i = i + 1;
    }
    assert(all.take(i as int) =~= all);
    out
}

/// What a mod needs: what its packages say, or what its metadata says where they
/// say nothing, but never itself.
pub fn collect_dependencies(id: &str, in_paks: &Vec<String>, in_meta: &Vec<String>) -> (out: Vec<
    String,
>)
    ensures
        sorting::sorted_set_of(
            text::texts(out@),
            text::texts(
                if in_paks@.len() > 0 {
                    in_paks@
                } else {
                    in_meta@
                },
            ).filter(|d: Seq<char>| !text::same_ignoring_case(d, id@)),
        ),
{
    let list = if in_paks.is_empty() {
        in_meta
    } else {
        in_paks
    };
    let ghost all = text::texts(list@);
    let ghost keeps = |d: Seq<char>| !text::same_ignoring_case(d, id@);
    let mut kept: Vec<String> = Vec::new();
    let mut i: usize = 0;
    proof {
        lists::lemma_filter_whole(all, keeps);
        assert(text::texts(kept@) =~= all.take(0).filter(keeps));
    }
    while i < list.len()
        invariant
            i <= list.len(),
            all == text::texts(list@),
            keeps == (|d: Seq<char>| !text::same_ignoring_case(d, id@)),
            text::texts(kept@) == all.take(i as int).filter(keeps),
        decreases list.len() - i,
    {
        proof {
            lists::lemma_keep_item(all, i as int, keeps);
            assert(all[i as int] == list@[i as int]@);
        }
        if !eq_ignore_case(list[i].as_str(), id) {
            let dep = list[i].clone();
            proof {
                text::lemma_texts_push(kept@, dep);
            }
            kept.push(dep);
        }
        i = i + 1;
    }
    proof {
        lists::lemma_filter_whole(all, keeps);
    }
    sort_dedup(kept.as_slice())
}

/// Whether a load order switches the mod on.
pub open spec fn enabled_in(order: Seq<ProfileEntry>, id: Seq<char>) -> bool {
    exists|i: int| 0 <= i < order.len() && (#[trigger] order[i]).enabled && order[i].id@ == id
}

pub open spec fn holds_enabled(map: Map<Seq<char>, bool>, order: Seq<ProfileEntry>) -> bool {
    forall|id: Seq<char>| #[trigger] map.contains_key(id) <==> enabled_in(order, id)
}

pub fn index_enabled(order: &Vec<ProfileEntry>) -> (r: StringHashMap<bool>)
    ensures
        holds_enabled(r@, order@),
{
    let mut r: StringHashMap<bool> = StringHashMap::new();
    let mut i: usize = 0;
    while i < order.len()
        invariant
            i <= order.len(),
            holds_enabled(r@, order@.take(i as int)),
        decreases order.len() - i,
    {
        let ghost known = r@;
        let ghost before = order@.take(i as int);
        let ghost after = order@.take(i + 1);
        if order[i].enabled {
            r.insert(order[i].id.clone(), true);
        }
        proof {
            assert forall|id: Seq<char>| #[trigger] r@.contains_key(id) <==> enabled_in(
                after,
                id,
            ) by {
                assert(known.contains_key(id) <==> enabled_in(before, id));
                if enabled_in(before, id) {
                    let k = choose|k: int|
                        0 <= k < before.len() && (#[trigger] before[k]).enabled && before[k].id@
                            == id;
                    assert(after[k] == before[k]);
                }
                if enabled_in(after, id) {
                    let k = choose|k: int|
                        0 <= k < after.len() && (#[trigger] after[k]).enabled && after[k].id@
                            == id;
                    if k < i {
                        assert(before[k] == after[k]);
                    }
                }
                assert(after[i as int] == order@[i as int]);
            }
        }
        i = i + 1;
    }
    assert(order@.take(i as int) =~= order@);
    r
}

#[derive(Debug)]
pub struct DependencyRef {
    pub id: String,
    pub name: Option<String>,
    pub enabled: bool,
}

#[derive(Debug)]
pub struct DependencyListItem {
    pub mod_name: String,
    pub mod_id: String,
    pub dependencies: Vec<DependencyRef>,
}

#[verifier::ext_equal]
pub struct RefView {
    pub id: Seq<char>,
    pub name: Option<Seq<char>>,
    pub enabled: bool,
}

#[verifier::ext_equal]
pub struct DependencyView {
    pub mod_name: Seq<char>,
    pub mod_id: Seq<char>,
    pub dependencies: Seq<RefView>,
}

impl DependencyRef {
    pub open spec fn shown(self) -> RefView {
        RefView { id: self.id@, name: text::text_opt(self.name), enabled: self.enabled }
    }
}

pub open spec fn ref_views(list: Seq<DependencyRef>) -> Seq<RefView> {
    Seq::new(list.len(), |i: int| list[i].shown())
}

impl DependencyListItem {
    pub open spec fn shown(self) -> DependencyView {
        DependencyView {
            mod_name: self.mod_name@,
            mod_id: self.mod_id@,
            dependencies: ref_views(self.dependencies@),
        }
    }
}

pub open spec fn dependency_views(list: Seq<DependencyListItem>) -> Seq<DependencyView> {
    Seq::new(list.len(), |i: int| list[i].shown())
}

/// A mod that another needs.
pub open spec fn ref_of(
    mods: Seq<ModEntry>,
    order: Seq<ProfileEntry>,
    id: Seq<char>,
) -> RefView {
    let at = library::last_index(mods, id);
    RefView {
        id,
        name: if at >= 0 {
            Some(mods[at].shown_name())
        } else {
            None
        },
        enabled: at >= 0 && enabled_in(order, id),
    }
}

/// What the mod at `i` needs, as far as anything is said of it.
pub open spec fn deps_at(deps: Seq<Vec<String>>, i: int) -> Seq<Seq<char>> {
    if 0 <= i < deps.len() {
        text::texts(deps[i]@)
    } else {
        Seq::empty()
    }
}

/// The first `n` mods that need something, and what.
pub open spec fn dependency_list(
    mods: Seq<ModEntry>,
    order: Seq<ProfileEntry>,
    deps: Seq<Vec<String>>,
    n: int,
) -> Seq<DependencyView>
    decreases n,
{
    if n <= 0 {
        Seq::empty()
    } else {
        let before = dependency_list(mods, order, deps, n - 1);
        let needs = deps_at(deps, n - 1);
        if needs.len() == 0 {
            before
        } else {
            before.push(
                DependencyView {
                    mod_name: mods[n - 1].shown_name(),
                    mod_id: mods[n - 1].id@,
                    dependencies: Seq::new(
                        needs.len(),
                        |k: int| ref_of(mods, order, needs[k]),
                    ),
                },
            )
        }
    }
}

/// The mods that need something, with what they need; `deps` says it of each mod.
pub fn list_dependencies(library: &Library, profile: &Profile, deps: &Vec<Vec<String>>) -> (out:
    Vec<DependencyListItem>)
    ensures
        dependency_views(out@) == dependency_list(
            library.mods@,
            profile.order@,
            deps@,
            library.mods@.len() as int,
        ),
{
    let index = library.index_by_id();
    let enabled = index_enabled(&profile.order);
    let ghost mods = library.mods@;
    let ghost order = profile.order@;
    let mut out: Vec<DependencyListItem> = Vec::new();
    let mut i: usize = 0;
    assert(dependency_views(out@) =~= dependency_list(mods, order, deps@, 0));
    while i < library.mods.len()
        invariant
            i <= library.mods.len(),
            mods == library.mods@,
            order == profile.order@,
            library::indexes(index@, mods),
            holds_enabled(enabled@, order),
            dependency_views(out@) == dependency_list(mods, order, deps@, i as int),
        decreases library.mods.len() - i,
    {
        if i < deps.len() && deps[i].len() > 0 {
            let needs = &deps[i];
            let ghost all = text::texts(needs@);
            let ghost wanted = Seq::new(all.len(), |k: int| ref_of(mods, order, all[k]));
            let mut refs: Vec<DependencyRef> = Vec::new();
            let mut j: usize = 0;
            assert(ref_views(refs@) =~= wanted.take(0));
            while j < needs.len()
                invariant
                    j <= needs.len(),
                    mods == library.mods@,
                    library::indexes(index@, mods),
                    holds_enabled(enabled@, order),
                    all == text::texts(needs@),
                    wanted == Seq::new(all.len(), |k: int| ref_of(mods, order, all[k])),
                    ref_views(refs@) == wanted.take(j as int),
                decreases needs.len() - j,
            {
                let id = &needs[j];
                proof {
                    assert(all[j as int] == id@);
                    library::lemma_last_index(mods, id@);
                    assert(enabled@.contains_key(id@) <==> enabled_in(order, id@));
                }
                let r = match index.get(id.as_str()) {
                    Some(at) => {
                        assert(library::is_last_with_id(mods, id@, *at as int));
                        DependencyRef {
                            id: id.clone(),
                            name: Some(library.mods[*at].display_name()),
                            enabled: enabled.contains_key(id.as_str()),
                        }
                    },
                    None => DependencyRef { id: id.clone(), name: None, enabled: false },
                };
                let ghost before = ref_views(refs@);
                refs.push(r);
                proof {
                    assert(ref_views(refs@) =~= before.push(r.shown()));
                    assert(r.shown() =~= wanted[j as int]);
                    assert(wanted.take(j + 1) =~= wanted.take(j as int).push(wanted[j as int]));
                }
                j = j + 1;
            }
            assert(wanted.take(j as int) =~= wanted);
            let item = DependencyListItem {
                mod_name: library.mods[i].display_name(),
                mod_id: library.mods[i].id.clone(),
                dependencies: refs,
            };
            let ghost before = dependency_views(out@);
            out.push(item);
            assert(dependency_views(out@) =~= before.push(item.shown()));
        }
        i = i + 1;
    }
    out
}

#[derive(Debug)]
pub struct MissingDependencyItem {
    pub required_by: String,
    pub required_by_id: String,
    pub dependency: String,
    pub dependency_id: String,
    pub reason: String,
}

#[verifier::ext_equal]
pub struct MissingView {
    pub required_by: Seq<char>,
    pub required_by_id: Seq<char>,
    pub dependency: Seq<char>,
    pub dependency_id: Seq<char>,
    pub reason: Seq<char>,
}

impl MissingDependencyItem {
    pub open spec fn shown(self) -> MissingView {
        MissingView {
            required_by: self.required_by@,
            required_by_id: self.required_by_id@,
            dependency: self.dependency@,
            dependency_id: self.dependency_id@,
            reason: self.reason@,
        }
    }
}

pub open spec fn missing_views(list: Seq<MissingDependencyItem>) -> Seq<MissingView> {
    Seq::new(list.len(), |i: int| list[i].shown())
}

/// What the mod lacks among the first `n` that it needs.
pub open spec fn lacks(
    mods: Seq<ModEntry>,
    order: Seq<ProfileEntry>,
    m: ModEntry,
    needs: Seq<Seq<char>>,
    n: int,
) -> Seq<MissingView>
    decreases n,
{
    if n <= 0 {
        Seq::empty()
    } else {
        let before = lacks(mods, order, m, needs, n - 1);
        let id = needs[n - 1];
        let at = library::last_index(mods, id);
        if at >= 0 && enabled_in(order, id) {
            before
        } else {
            before.push(
                MissingView {
                    required_by: m.shown_name(),
                    required_by_id: m.id@,
                    dependency: if at >= 0 {
                        mods[at].shown_name()
                    } else {
                        "Unknown"@
                    },
                    dependency_id: id,
                    reason: if at >= 0 {
                        "disabled"@
                    } else {
                        "not installed"@
                    },
                },
            )
        }
    }
}

/// What the mods that are switched on among the first `n` entries lack; each mod
/// counts once.
pub open spec fn missing_list(
    mods: Seq<ModEntry>,
    order: Seq<ProfileEntry>,
    deps: Seq<Vec<String>>,
    n: int,
) -> Seq<MissingView>
    decreases n,
{
    if n <= 0 {
        Seq::empty()
    } else {
        let before = missing_list(mods, order, deps, n - 1);
        let e = order[n - 1];
        let at = library::last_index(mods, e.id@);
        if e.enabled && !enabled_in(order.take(n - 1), e.id@) && at >= 0 {
            let needs = deps_at(deps, at);
            before + lacks(mods, order, mods[at], needs, needs.len() as int)
        } else {
            before
        }
    }
}

fn find_lacks(
    library: &Library,
    index: &StringHashMap<usize>,
    order: &Vec<ProfileEntry>,
    enabled: &StringHashMap<bool>,
    m: &ModEntry,
    needs: &Vec<String>,
) -> (out: Vec<MissingDependencyItem>)
    requires
        library::indexes(index@, library.mods@),
        holds_enabled(enabled@, order@),
    ensures
        missing_views(out@) == lacks(
            library.mods@,
            order@,
            *m,
            text::texts(needs@),
            needs@.len() as int,
        ),
{
    let ghost mods = library.mods@;
    let ghost all = text::texts(needs@);
    let mut out: Vec<MissingDependencyItem> = Vec::new();
    let mut i: usize = 0;
    assert(missing_views(out@) =~= lacks(mods, order@, *m, all, 0));
    while i < needs.len()
        invariant
            i <= needs.len(),
            mods == library.mods@,
            all == text::texts(needs@),
            library::indexes(index@, mods),
            holds_enabled(enabled@, order@),
            missing_views(out@) == lacks(mods, order@, *m, all, i as int),
        decreases needs.len() - i,
    {
        let id = &needs[i];
        proof {
            assert(all[i as int] == id@);
            library::lemma_last_index(mods, id@);
            assert(enabled@.contains_key(id@) <==> enabled_in(order@, id@));
        }
        let found: Option<(String, &str)> = match index.get(id.as_str()) {
            Some(at) => {
                assert(library::is_last_with_id(mods, id@, *at as int));
                if enabled.contains_key(id.as_str()) {
                    None
                } else {
                    Some((library.mods[*at].display_name(), "disabled"))
                }
            },
            None => Some(("Unknown".to_owned(), "not installed")),
        };
        if let Some((name, reason)) = found {
            let item = MissingDependencyItem {
                required_by: m.display_name(),
                required_by_id: m.id.clone(),
                dependency: name,
                dependency_id: id.clone(),
                reason: reason.to_owned(),
            };
            let ghost before = missing_views(out@);
            out.push(item);
            assert(missing_views(out@) =~= before.push(item.shown()));
        }
        i = i + 1;
    }
    out
}

/// What the mods that are switched on lack: mods that are not there, and mods that
/// are switched off.
pub fn list_missing_dependencies(
    library: &Library,
    profile: &Profile,
    deps: &Vec<Vec<String>>,
) -> (out: Vec<MissingDependencyItem>)
    ensures
        missing_views(out@) == missing_list(
            library.mods@,
            profile.order@,
            deps@,
            profile.order@.len() as int,
        ),
{
    let index = library.index_by_id();
    let order = &profile.order;
    let enabled = index_enabled(order);
    let none: Vec<String> = Vec::new();
    let ghost mods = library.mods@;
    let mut seen: StringHashMap<bool> = StringHashMap::new();
    let mut out: Vec<MissingDependencyItem> = Vec::new();
    let mut i: usize = 0;
    assert(missing_views(out@) =~= missing_list(mods, order@, deps@, 0));
    assert(text::texts(none@) =~= Seq::<Seq<char>>::empty());
    while i < order.len()
        invariant
            i <= order.len(),
            mods == library.mods@,
            none@.len() == 0,
            text::texts(none@) == Seq::<Seq<char>>::empty(),
            library::indexes(index@, mods),
            holds_enabled(enabled@, order@),
            holds_enabled(seen@, order@.take(i as int)),
            missing_views(out@) == missing_list(mods, order@, deps@, i as int),
        decreases order.len() - i,
    {
        let e = &order[i];
        let ghost known = seen@;
        let ghost before = order@.take(i as int);
        let ghost after = order@.take(i + 1);
        proof {
            library::lemma_last_index(mods, e.id@);
            assert(seen@.contains_key(e.id@) <==> enabled_in(before, e.id@));
        }
        if e.enabled && !seen.contains_key(e.id.as_str()) {
            if let Some(at) = index.get(e.id.as_str()) {
                assert(library::is_last_with_id(mods, e.id@, *at as int));
                let needs = if *at < deps.len() {
                    &deps[*at]
                } else {
                    &none
                };
                assert(text::texts(needs@) == deps_at(deps@, *at as int));
                let mut more = find_lacks(
                    library,
                    &index,
                    order,
                    &enabled,
                    &library.mods[*at],
                    needs,
                );
                let ghost had = out@;
                let ghost added = more@;
                out.append(&mut more);
                assert(missing_views(out@) =~= missing_views(had) + missing_views(added));
            }
            seen.insert(e.id.clone(), true);
        }
        proof {
            assert forall|id: Seq<char>| #[trigger] seen@.contains_key(id) <==> enabled_in(
                after,
                id,
            ) by {
                assert(known.contains_key(id) <==> enabled_in(before, id));
                if enabled_in(before, id) {
                    let k = choose|k: int|
                        0 <= k < before.len() && (#[trigger] before[k]).enabled && before[k].id@
                            == id;
                    assert(after[k] == before[k]);
                }
                if enabled_in(after, id) {
                    let k = choose|k: int|
                        0 <= k < after.len() && (#[trigger] after[k]).enabled && after[k].id@
                            == id;
                    if k < i {
                        assert(before[k] == after[k]);
                    }
                }
                assert(after[i as int] == order@[i as int]);
            }
        }
        i = i + 1;
    }
    out
}

/// A mod that needs something, and what it needs, as they are shown.
pub fn dependency_line(item: &DependencyListItem) -> (r: String)
    ensures
        r@ == item.mod_name@ + " ("@ + item.mod_id@ + ")"@,
{
    let mut r = concat2(item.mod_name.as_str(), " (");
    push_text(&mut r, item.mod_id.as_str());
    push_text(&mut r, ")");
    r
}

pub fn dependency_ref_line(dep: &DependencyRef) -> (r: String)
    ensures
        r@ == "  -> "@ + dep.id@ + " ("@ + (match dep.name {
            Some(n) => n@,
            None => "Unknown"@,
        }) + ") "@ + (if dep.enabled {
            "enabled"@
        } else {
            "disabled"@
        }),
{
    let mut r = concat3("  -> ", dep.id.as_str(), " (");
    match &dep.name {
        Some(n) => push_text(&mut r, n.as_str()),
        None => push_text(&mut r, "Unknown"),
    }
    push_text(&mut r, ") ");
    if dep.enabled {
        push_text(&mut r, "enabled");
    } else {
        push_text(&mut r, "disabled");
    }
    r
}

pub fn missing_line(item: &MissingDependencyItem) -> (r: String)
    ensures
        r@ == item.required_by@ + " -> "@ + item.dependency_id@ + " ("@ + item.reason@ + ")"@,
{
    let mut r = concat3(item.required_by.as_str(), " -> ", item.dependency_id.as_str());
    push_text(&mut r, " (");
    push_text(&mut r, item.reason.as_str());
    push_text(&mut r, ")");
    r
}

// ---------------------------------------------------------------------------
// Paths
// ---------------------------------------------------------------------------

/// Where things would be, where they cannot be found.
pub fn expected_paths(config: &GameConfig) -> (r: GamePaths)
    ensures
        r.game_root == config.game_root,
        r.data_dir@ == paths::joined(config.game_root@, "Data"@),
        r.larian_dir == config.larian_dir,
        r.larian_mods_dir@ == paths::joined(config.larian_dir@, "Mods"@),
        r.profiles_dir@ == paths::joined(config.larian_dir@, "PlayerProfiles"@),
        r.modsettings_path@ == paths::joined(
            paths::joined(paths::joined(config.larian_dir@, "PlayerProfiles"@), "Public"@),
            "modsettings.lsx"@,
        ),
{
    let profiles_dir = join_path(config.larian_dir.as_str(), "PlayerProfiles");
    let public = join_path(profiles_dir.as_str(), "Public");
    GamePaths {
        game_root: config.game_root.clone(),
        data_dir: join_path(config.game_root.as_str(), "Data"),
        larian_dir: config.larian_dir.clone(),
        larian_mods_dir: join_path(config.larian_dir.as_str(), "Mods"),
        modsettings_path: join_path(public.as_str(), "modsettings.lsx"),
        profiles_dir,
    }
}

/// The directories as they are shown.
pub fn list_paths(p: &GamePaths, error: &Option<String>) -> (out: Vec<String>)
    ensures
        text::texts(out@) == seq![
            "Game root: "@ + p.game_root@,
            "Data dir: "@ + p.data_dir@,
            "Larian dir: "@ + p.larian_dir@,
            "Larian mods: "@ + p.larian_mods_dir@,
            "Modsettings: "@ + p.modsettings_path@,
        ] + match error {
            Some(e) => seq!["Warning: "@ + e@],
            None => Seq::empty(),
        },
{
    let mut out: Vec<String> = Vec::new();
    out.push(concat2("Game root: ", p.game_root.as_str()));
    out.push(concat2("Data dir: ", p.data_dir.as_str()));
    out.push(concat2("Larian dir: ", p.larian_dir.as_str()));
    out.push(concat2("Larian mods: ", p.larian_mods_dir.as_str()));
    out.push(concat2("Modsettings: ", p.modsettings_path.as_str()));
    if let Some(e) = error {
        out.push(concat2("Warning: ", e.as_str()));
    }
    out
}

} // verus!
