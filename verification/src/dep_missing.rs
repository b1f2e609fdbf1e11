//! What mods need and do not find, and who needs a mod.
use crate::actions;
use crate::actions::DependentMod;
use crate::dep_keys;
use crate::dep_keys::{filter_ignored_dependencies, is_unverified_dependency};
use crate::dep_lookup;
use crate::dep_lookup::{
    dependency_match_keys, mod_dependency_keys, resolved_dependency_ids, DependencyLookup,
};
use crate::fingerprint::METADATA_CACHE_VERSION;
use crate::library;
use crate::library::{normalize_label, Library, ModEntry};
use crate::lists;
use crate::mod_changes::find_mod;
use crate::native_apply;
use crate::sorting;
use crate::sorting::{has_string, sort, Ranked};
use crate::text;
use crate::text::{concat2, join_texts, push_text, same_text, show_usize};
use vstd::hash_map::StringHashMap;
use vstd::prelude::*;

verus! {

// ---------------------------------------------------------------------------
// What a mod needs
// ---------------------------------------------------------------------------

/// What a mod is known to need: what was read last, or what is stored of it where
/// that is of this version, or what its files say.
pub open spec fn known_needs(
    m: ModEntry,
    cache: Map<Seq<char>, Vec<String>>,
    version: u32,
    read: Seq<Seq<char>>,
) -> Seq<Seq<char>> {
    if cache.contains_key(m.id@) {
        dep_keys::foreign(text::texts(cache[m.id@]@))
    } else if version == METADATA_CACHE_VERSION {
        dep_keys::foreign(text::texts(m.dependencies@))
    } else {
        read
    }
}

/// What a mod is known to need. `read` is what its files say.
pub fn cached_mod_dependencies(
    m: &ModEntry,
    cache: &StringHashMap<Vec<String>>,
    version: u32,
    read: &Vec<String>,
) -> (out: Vec<String>)
    ensures
        text::texts(out@) == known_needs(*m, cache@, version, text::texts(read@)),
{
    if let Some(deps) = cache.get(m.id.as_str()) {
        return filter_ignored_dependencies(deps);
    }
    if version == METADATA_CACHE_VERSION {
        return filter_ignored_dependencies(&m.dependencies);
    }
    crate::lists::copy_strings(read)
}

// ---------------------------------------------------------------------------
// What is not found
// ---------------------------------------------------------------------------

/// Whether the mod with an id answers to a dependency.
pub open spec fn answers_to(mods: Seq<ModEntry>, dep: Seq<char>, id: Seq<char>) -> bool {
    exists|key: Seq<char>|
        dep_lookup::match_keys(dep).contains(key) && #[trigger] dep_lookup::answers(mods, id, key)
}

/// Whether a mod meets a dependency of the mod with `id`. That mod itself only does
/// where the dependency names it.
pub open spec fn meets(mods: Seq<ModEntry>, dep: Seq<char>, id: Seq<char>, by: Seq<char>) -> bool {
    answers_to(mods, dep, by) && (by != id || dep_lookup::names_mod(dep, id))
}

/// Whether a dependency of the mod with `id` is not met.
pub open spec fn is_lacking(mods: Seq<ModEntry>, dep: Seq<char>, id: Seq<char>) -> bool {
    !dep_keys::is_unverified(dep) && forall|by: Seq<char>| !#[trigger] meets(mods, dep, id, by)
}

/// Whether a dependency of the mod with `id` is not met.
pub(crate) fn check_lacking(
    lookup: &DependencyLookup,
    dep: &str,
    id: &str,
    Ghost(mods): Ghost<Seq<ModEntry>>,
) -> (r: bool)
    requires
        lookup.is_of(mods),
    ensures
        r == is_lacking(mods, dep@, id@),
{
    if is_unverified_dependency(dep) {
        return false;
    }
    let found = resolved_dependency_ids(lookup, dep, id);
    proof {
        let resolved = choose|resolved: Seq<Seq<char>>|
            #![trigger dep_lookup::resolves(*lookup, dep@, resolved)]
            dep_lookup::resolves(*lookup, dep@, resolved) && text::texts(found@)
                == dep_lookup::meant_ids(resolved, dep@, id@);
        let ids = text::texts(found@);
        assert forall|by: Seq<char>| resolved.contains(by) <==> answers_to(mods, dep@, by) by {
            if resolved.contains(by) {
                let key = choose|key: Seq<char>|
                    dep_lookup::match_keys(dep@).contains(key) && #[trigger] lookup.means(key, by);
                assert(dep_lookup::answers(mods, by, key));
            }
            if answers_to(mods, dep@, by) {
                let key = choose|key: Seq<char>|
                    dep_lookup::match_keys(dep@).contains(key) && #[trigger] dep_lookup::answers(
                        mods,
                        by,
                        key,
                    );
                assert(lookup.means(key, by));
            }
        }
        let keeps = |r: Seq<char>| r != id@;
        assert forall|by: Seq<char>| #[trigger] ids.contains(by) <==> meets(mods, dep@, id@, by) by {
            assert(!text::starts_with(dep@, "_"@));
            if !dep_lookup::names_mod(dep@, id@) {
                assert(ids == resolved.filter(keeps));
                lists::lemma_filter_contains(resolved, keeps, by);
            }
        }
        if ids.len() > 0 {
            assert(ids.contains(ids[0]));
        } else {
            assert forall|by: Seq<char>| !#[trigger] meets(mods, dep@, id@, by) by {
                assert(!ids.contains(by));
            }
        }
        assert(ids.len() == found@.len());
    }
    found.is_empty()
}

/// How many of the first `n` dependencies of the mod with `id` are not met.
pub open spec fn lacking_count(
    mods: Seq<ModEntry>,
    deps: Seq<Seq<char>>,
    id: Seq<char>,
    n: int,
) -> nat
    decreases n,
{
    if n <= 0 {
        0
    } else {
        lacking_count(mods, deps, id, n - 1) + if is_lacking(mods, deps[n - 1], id) {
            1nat
        } else {
            0nat
        }
    }
}

/// How many dependencies of a mod are not met, once that is known.
pub fn missing_dependency_count_for_mod(
    mods: &Vec<ModEntry>,
    lookup: &DependencyLookup,
    m: &ModEntry,
    deps: &Vec<String>,
    ready: bool,
) -> (r: usize)
    requires
        lookup.is_of(mods@),
    ensures
        r == if ready {
            lacking_count(mods@, text::texts(deps@), m.id@, deps@.len() as int)
        } else {
            0
        },
{
    if !ready {
        return 0;
    }
    let mut count: usize = 0;
    let mut i: usize = 0;
    while i < deps.len()
        invariant
            i <= deps.len(),
            lookup.is_of(mods@),
            count <= i,
            count == lacking_count(mods@, text::texts(deps@), m.id@, i as int),
        decreases deps.len() - i,
    {
        if check_lacking(lookup, deps[i].as_str(), m.id.as_str(), Ghost(mods@)) {
            count = count + 1;
        }
        i = i + 1;
    }
    count
}

/// The needs of the mod at `i`.
pub open spec fn needs_at(deps: Seq<Vec<String>>, i: int) -> Seq<Seq<char>> {
    text::texts(deps[i]@)
}

/// Whether the mod at `i` lacks something.
pub open spec fn lacks_some(mods: Seq<ModEntry>, deps: Seq<Vec<String>>, i: int) -> bool {
    lacking_count(mods, needs_at(deps, i), mods[i].id@, needs_at(deps, i).len() as int) > 0
}

/// The ids of those of the first `n` mods that lack something, each once.
pub open spec fn blocked_ids(mods: Seq<ModEntry>, deps: Seq<Vec<String>>, n: int) -> Seq<Seq<char>>
    decreases n,
{
    if n <= 0 {
        Seq::empty()
    } else {
        let before = blocked_ids(mods, deps, n - 1);
        if lacks_some(mods, deps, n - 1) && !before.contains(mods[n - 1].id@) {
            before.push(mods[n - 1].id@)
        } else {
            before
        }
    }
}

/// The ids of the mods that lack something, once that is known. `deps` are the needs
/// of the mods.
pub fn compute_missing_dependency_blocks(
    mods: &Vec<ModEntry>,
    deps: &Vec<Vec<String>>,
    ready: bool,
) -> (out: Vec<String>)
    requires
        deps@.len() == mods@.len(),
    ensures
        text::texts(out@) == if ready {
            blocked_ids(mods@, deps@, mods@.len() as int)
        } else {
            Seq::empty()
        },
{
    let mut out: Vec<String> = Vec::new();
    assert(text::texts(out@) =~= Seq::<Seq<char>>::empty());
    if !ready {
        return out;
    }
    let lookup = DependencyLookup::new(mods);
    let mut i: usize = 0;
    while i < mods.len()
        invariant
            i <= mods.len() == deps.len(),
            lookup.is_of(mods@),
            text::texts(out@) == blocked_ids(mods@, deps@, i as int),
        decreases mods.len() - i,
    {
        if missing_dependency_count_for_mod(mods, &lookup, &mods[i], &deps[i], true) > 0
            && !has_string(&out, mods[i].id.as_str()) {
            let id = mods[i].id.clone();
            proof {
                text::lemma_texts_push(out@, id);
            }
            out.push(id);
        }
        i = i + 1;
    }
    out
}

/// Whether two lists hold the same texts.
pub open spec fn same_members(a: Seq<Seq<char>>, b: Seq<Seq<char>>) -> bool {
    forall|t: Seq<char>| #[trigger] a.contains(t) <==> b.contains(t)
}

fn holds_all(a: &Vec<String>, b: &Vec<String>) -> (r: bool)
    ensures
        r == forall|t: Seq<char>| #[trigger]
            text::texts(b@).contains(t) ==> text::texts(a@).contains(t),
{
    let mut i: usize = 0;
    while i < b.len()
        invariant
            i <= b.len(),
            forall|j: int| 0 <= j < i ==> text::texts(a@).contains(#[trigger] text::texts(b@)[j]),
        decreases b.len() - i,
    {
        assert(text::texts(b@)[i as int] == b@[i as int]@);
        if !has_string(a, b[i].as_str()) {
            assert(text::texts(b@).contains(text::texts(b@)[i as int]));
            return false;
        }
        i = i + 1;
    }
    assert forall|t: Seq<char>| #[trigger] text::texts(b@).contains(t) implies text::texts(
        a@,
    ).contains(t) by {
        let k = choose|k: int| 0 <= k < text::texts(b@).len() && text::texts(b@)[k] == t;
        assert(text::texts(a@).contains(text::texts(b@)[k]));
    }
    true
}

impl Library {
    /// Holds back the mods that lack something, and no others. The result says
    /// whether that changed anything.
    pub fn refresh_dependency_blocks(&mut self, deps: &Vec<Vec<String>>, ready: bool) -> (changed:
        bool)
        requires
            deps@.len() == old(self).mods@.len(),
        ensures
            ({
                let blocked = if ready {
                    blocked_ids(old(self).mods@, deps@, old(self).mods@.len() as int)
                } else {
                    Seq::empty()
                };
                &&& *final(self) == (Library {
                    dependency_blocks: final(self).dependency_blocks,
                    ..*old(self)
                })
                &&& changed == !same_members(text::texts(old(self).dependency_blocks@), blocked)
                &&& if changed {
                    text::texts(final(self).dependency_blocks@) == blocked
                } else {
                    *final(self) == *old(self)
                }
            }),
    {
        let blocked = compute_missing_dependency_blocks(&self.mods, deps, ready);
        let same = holds_all(&blocked, &self.dependency_blocks) && holds_all(
            &self.dependency_blocks,
            &blocked,
        );
        assert(same == same_members(
            text::texts(self.dependency_blocks@),
            text::texts(blocked@),
        ));
        if same {
            return false;
        }
        self.dependency_blocks = blocked;
        true
    }
}

// ---------------------------------------------------------------------------
// Who needs a mod
// ---------------------------------------------------------------------------

/// The keys of the mod with an id.
pub open spec fn target_keys(mods: Seq<ModEntry>, id: Seq<char>) -> Seq<Seq<char>> {
    let k = native_apply::first_mod(mods, id);
    if k >= 0 {
        dep_lookup::mod_keys(mods[k])
    } else {
        seq![library::label_key(id)]
    }
}

/// Whether one of the dependencies has one of the keys.
pub open spec fn needs_one_of(deps: Seq<Seq<char>>, keys: Seq<Seq<char>>) -> bool {
    exists|d: int, key: Seq<char>|
        0 <= d < deps.len() && #[trigger] dep_lookup::match_keys(deps[d]).contains(key)
            && keys.contains(key)
}

/// Those of the first `n` mods that need the mod with an id: their ids and names.
pub open spec fn dependents(
    mods: Seq<ModEntry>,
    deps: Seq<Vec<String>>,
    id: Seq<char>,
    n: int,
) -> Seq<(Seq<char>, Seq<char>)>
    decreases n,
{
    if n <= 0 {
        Seq::empty()
    } else {
        let before = dependents(mods, deps, id, n - 1);
        let m = mods[n - 1];
        if m.id@ != id && needs_one_of(needs_at(deps, n - 1), target_keys(mods, id)) {
            before.push((m.id@, m.shown_name()))
        } else {
            before
        }
    }
}

pub open spec fn name_order() -> spec_fn((Seq<char>, Seq<char>), (Seq<char>, Seq<char>)) -> bool {
    |a: (Seq<char>, Seq<char>), b: (Seq<char>, Seq<char>)| sorting::text_before(a.1, b.1)
}

impl Ranked for DependentMod {
    open spec fn before(self, other: Self) -> bool {
        sorting::text_before(self.name@, other.name@)
    }

    proof fn before_asymmetric(a: Self, b: Self) {
        sorting::lemma_text_before_asymmetric(a.name@, b.name@);
    }

    proof fn before_splits(a: Self, b: Self, c: Self) {
        sorting::lemma_text_before_splits(a.name@, b.name@, c.name@);
    }

    fn is_before(&self, other: &Self) -> (r: bool) {
        sorting::is_text_before(self.name.as_str(), other.name.as_str())
    }
}

fn check_one_of(deps: &Vec<String>, keys: &Vec<String>) -> (r: bool)
    ensures
        r == needs_one_of(text::texts(deps@), text::texts(keys@)),
{
    let mut i: usize = 0;
    while i < deps.len()
        invariant
            i <= deps.len(),
            forall|d: int, key: Seq<char>|
                0 <= d < i && #[trigger] dep_lookup::match_keys(text::texts(deps@)[d]).contains(key)
                    ==> !text::texts(keys@).contains(key),
        decreases deps.len() - i,
    {
        let found = dependency_match_keys(deps[i].as_str());
        let ghost wanted = dep_lookup::match_keys(text::texts(deps@)[i as int]);
        let mut j: usize = 0;
        while j < found.len()
            invariant
                i < deps.len(),
                j <= found.len(),
                wanted == dep_lookup::match_keys(text::texts(deps@)[i as int]),
                sorting::sorted_set_of(text::texts(found@), wanted),
                forall|k: int|
                    0 <= k < j ==> !text::texts(keys@).contains(#[trigger] text::texts(found@)[k]),
            decreases found.len() - j,
        {
            if has_string(keys, found[j].as_str()) {
                proof {
                    let key = text::texts(found@)[j as int];
                    assert(text::texts(found@).contains(key));
                    assert(wanted.contains(key));
                    assert(dep_lookup::match_keys(text::texts(deps@)[i as int]).contains(key));
                }
                return true;
            }
            assert(text::texts(found@)[j as int] == found@[j as int]@);
            j = j + 1;
        }
        proof {
            assert forall|key: Seq<char>| #[trigger] wanted.contains(key) implies !text::texts(
                keys@,
            ).contains(key) by {
                assert(text::texts(found@).contains(key));
                let k = choose|k: int| 0 <= k < text::texts(found@).len() && text::texts(found@)[k] == key;
                assert(!text::texts(keys@).contains(text::texts(found@)[k]));
            }
        }
        i = i + 1;
    }
    false
}

/// The mods that need the mod with an id, by name. `deps` are the needs of the mods.
pub fn find_dependents(mods: &Vec<ModEntry>, deps: &Vec<Vec<String>>, target_id: &str) -> (out: Vec<
    DependentMod,
>)
    requires
        deps@.len() == mods@.len(),
    ensures
        actions::dependent_views(out@) == sorting::ranking_by(
            dependents(mods@, deps@, target_id@, mods@.len() as int),
            name_order(),
        ),
{
    proof {
        native_apply::lemma_first_mod(mods@, target_id@);
    }
    let keys = match find_mod(mods, target_id) {
        Some(k) => mod_dependency_keys(&mods[k]),
        None => {
            let mut one: Vec<String> = Vec::new();
            one.push(normalize_label(target_id));
            one
        },
    };
    let ghost wanted = target_keys(mods@, target_id@);
    assert(same_members(text::texts(keys@), wanted)) by {
        if native_apply::first_mod(mods@, target_id@) < 0 {
            assert(text::texts(keys@) =~= wanted);
        }
    }
    let mut list: Vec<DependentMod> = Vec::new();
    let mut i: usize = 0;
    assert(actions::dependent_views(list@) =~= Seq::<(Seq<char>, Seq<char>)>::empty());
    while i < mods.len()
        invariant
            i <= mods.len() == deps.len(),
            wanted == target_keys(mods@, target_id@),
            same_members(text::texts(keys@), wanted),
            actions::dependent_views(list@) == dependents(mods@, deps@, target_id@, i as int),
        decreases mods.len() - i,
    {
        let ghost before = list@;
        let needs = check_one_of(&deps[i], &keys);
        assert(needs == needs_one_of(needs_at(deps@, i as int), wanted)) by {
            let all = needs_at(deps@, i as int);
            if needs {
                let (d, key) = choose|d: int, key: Seq<char>|
                    0 <= d < all.len() && #[trigger] dep_lookup::match_keys(all[d]).contains(key)
                        && text::texts(keys@).contains(key);
                assert(wanted.contains(key));
            }
            if needs_one_of(all, wanted) {
                let (d, key) = choose|d: int, key: Seq<char>|
                    0 <= d < all.len() && #[trigger] dep_lookup::match_keys(all[d]).contains(key)
                        && wanted.contains(key);
                assert(text::texts(keys@).contains(key));
            }
        }
        if needs && !same_text(mods[i].id.as_str(), target_id) {
            let item = DependentMod { id: mods[i].id.clone(), name: mods[i].display_name() };
            list.push(item);
            assert(actions::dependent_views(list@) =~= actions::dependent_views(before).push(
                (item.id@, item.name@),
            ));
        }
        i = i + 1;
    }
    let ghost rows = list@;
    let out = sort(list);
    proof {
        let f = |d: DependentMod| (d.id@, d.name@);
        sorting::lemma_ranking_map(rows, f, sorting::order_of::<DependentMod>(), name_order());
        assert(actions::dependent_views(rows) =~= rows.map_values(f));
        assert(actions::dependent_views(out@) =~= out@.map_values(f));
    }
    out
}

/// The lines that say who needs a mod: no more than six by name.
pub open spec fn dependent_lines(names: Seq<Seq<char>>, n: int) -> Seq<Seq<char>>
    decreases n,
{
    if n <= 0 {
        seq!["This mod is required by:"@]
    } else {
        dependent_lines(names, n - 1).push("- "@ + names[n - 1])
    }
}

pub open spec fn dependent_names(list: Seq<DependentMod>) -> Seq<Seq<char>> {
    Seq::new(list.len(), |i: int| list[i].name@)
}

/// What is said before a mod that others need is removed.
pub open spec fn dependent_message(names: Seq<Seq<char>>) -> Seq<char> {
    if names.len() == 0 {
        Seq::empty()
    } else {
        let shown = if names.len() > 6 {
            6
        } else {
            names.len() as int
        };
        let more = if names.len() > 6 {
            dependent_lines(names, shown).push(
                "...and "@ + text::decimal((names.len() - 6) as nat) + " more"@,
            )
        } else {
            dependent_lines(names, shown)
        };
        text::join(more.push(Seq::empty()).push("Removing it will disable those mods."@), "\n"@)
    }
}

fn add_text(lines: &mut Vec<String>, line: String)
    ensures
        text::texts(final(lines)@) == text::texts(old(lines)@).push(line@),
{
    proof {
        text::lemma_texts_push(lines@, line);
    }
    lines.push(line);
}

pub fn build_dependent_message(list: &Vec<DependentMod>) -> (r: String)
    ensures
        r@ == dependent_message(dependent_names(list@)),
{
    let ghost names = dependent_names(list@);
    if list.is_empty() {
        let r = String::new();
        assert(r@ =~= Seq::<char>::empty());
        return r;
    }
    let mut lines: Vec<String> = Vec::new();
    assert(text::texts(lines@) =~= Seq::<Seq<char>>::empty());
    add_text(&mut lines, "This mod is required by:".to_owned());
    assert(text::texts(lines@) =~= dependent_lines(names, 0));
    let mut i: usize = 0;
    while i < list.len() && i < 6
        invariant
            i <= list.len(),
            i <= 6,
            names == dependent_names(list@),
            text::texts(lines@) == dependent_lines(names, i as int),
        decreases list.len() - i,
    {
        add_text(&mut lines, concat2("- ", list[i].name.as_str()));
        i = i + 1;
    }
    if list.len() > 6 {
        let mut more = concat2("...and ", show_usize(list.len() - 6).as_str());
        push_text(&mut more, " more");
        add_text(&mut lines, more);
    }
    let empty = String::new();
    assert(empty@ =~= Seq::<char>::empty());
    add_text(&mut lines, empty);
    add_text(&mut lines, "Removing it will disable those mods.".to_owned());
    join_texts(&lines, "\n")
}

} // verus!
