//! Which mods answer to the name of a dependency.
use crate::dep_keys;
use crate::dep_keys::{extract_uuid_candidates, find_runs, RunKind};
use crate::library;
use crate::library::{normalize_label, InstallTarget, ModEntry};
use crate::lists::copy_strings;
use crate::sorting;
use crate::sorting::{insert_sorted, sort_dedup};
use crate::text;
use crate::text::{has_prefix, has_text, same_text, to_ascii_lower, to_chars};
use vstd::hash_map::StringHashMap;
use vstd::prelude::*;

verus! {

// ---------------------------------------------------------------------------
// Keys
// ---------------------------------------------------------------------------

/// The keys of names; those without letters and digits have none.
pub open spec fn keyed(names: Seq<Seq<char>>) -> Seq<Seq<char>>
    decreases names.len(),
{
    if names.len() == 0 {
        Seq::empty()
    } else {
        let key = library::label_key(names.last());
        if key.len() > 0 {
            keyed(names.drop_last()).push(key)
        } else {
            keyed(names.drop_last())
        }
    }
}

fn push_key(out: &mut Vec<String>, name: &str, Ghost(names): Ghost<Seq<Seq<char>>>)
    requires
        text::texts(old(out)@) == keyed(names),
    ensures
        text::texts(final(out)@) == keyed(names.push(name@)),
{
    let key = normalize_label(name);
    proof {
        assert(names.push(name@).drop_last() =~= names);
        text::lemma_texts_push(out@, key);
    }
    if !key.as_str().is_empty() {
        out.push(key);
    }
}

fn push_keys(out: &mut Vec<String>, more: &Vec<String>, Ghost(names): Ghost<Seq<Seq<char>>>)
    requires
        text::texts(old(out)@) == keyed(names),
    ensures
        text::texts(final(out)@) == keyed(names + text::texts(more@)),
{
    let ghost all = text::texts(more@);
    let mut i: usize = 0;
    assert(names + all.take(0) =~= names);
    while i < more.len()
        invariant
            i <= more.len(),
            all == text::texts(more@),
            text::texts(out@) == keyed(names + all.take(i as int)),
        decreases more.len() - i,
    {
        let ghost so_far = names + all.take(i as int);
        push_key(out, more[i].as_str(), Ghost(so_far));
        assert(so_far.push(more@[i as int]@) =~= names + all.take(i + 1));
        i = i + 1;
    }
    assert(all.take(i as int) =~= all);
}

/// The names that a dependency can be meant by: its whole text, the ids in it, and
/// its words.
pub open spec fn dependency_names(value: Seq<char>) -> Seq<Seq<char>> {
    seq![value] + dep_keys::uuids_in(value) + dep_keys::runs(value, RunKind::Word)
}

/// The keys that a dependency is matched by.
pub open spec fn match_keys(value: Seq<char>) -> Seq<Seq<char>> {
    keyed(dependency_names(value))
}

pub fn dependency_match_keys(value: &str) -> (out: Vec<String>)
    ensures
        sorting::sorted_set_of(text::texts(out@), match_keys(value@)),
{
    let ids = extract_uuid_candidates(value);
    let words = find_runs(value, RunKind::Word);
    let mut keys: Vec<String> = Vec::new();
    assert(text::texts(keys@) =~= keyed(Seq::<Seq<char>>::empty()));
    push_key(&mut keys, value, Ghost(Seq::<Seq<char>>::empty()));
    assert(Seq::<Seq<char>>::empty().push(value@) =~= seq![value@]);
    let ghost first = seq![value@];
    push_keys(&mut keys, &ids, Ghost(first));
    push_keys(&mut keys, &words, Ghost(first + dep_keys::uuids_in(value@)));
    sort_dedup(keys.as_slice())
}

/// The words of a name that are long enough to mean something.
pub open spec fn long_words(s: Seq<char>) -> Seq<Seq<char>> {
    dep_keys::runs(s, RunKind::Word).filter(|w: Seq<char>| w.len() >= 4)
}

fn find_long_words(s: &str) -> (out: Vec<String>)
    ensures
        text::texts(out@) == long_words(s@),
{
    let found = find_runs(s, RunKind::Word);
    let ghost all = text::texts(found@);
    let ghost keeps = |w: Seq<char>| w.len() >= 4;
    let mut out: Vec<String> = Vec::new();
    let mut i: usize = 0;
    proof {
        crate::lists::lemma_filter_whole(all, keeps);
        assert(text::texts(out@) =~= all.take(0).filter(keeps));
    }
    while i < found.len()
        invariant
            i <= found.len(),
            all == text::texts(found@),
            keeps == (|w: Seq<char>| w.len() >= 4),
            text::texts(out@) == all.take(i as int).filter(keeps),
        decreases found.len() - i,
    {
        proof {
            crate::lists::lemma_keep_item(all, i as int, keeps);
            assert(all[i as int] == found@[i as int]@);
        }
        if to_chars(found[i].as_str()).len() >= 4 {
            let word = found[i].clone();
            proof {
                text::lemma_texts_push(out@, word);
            }
            out.push(word);
        }
        i = i + 1;
    }
    proof {
        crate::lists::lemma_filter_whole(all, keeps);
    }
    out
}

/// A name and its words.
pub open spec fn with_words(s: Seq<char>) -> Seq<Seq<char>> {
    seq![s] + long_words(s)
}

/// The names of the first `n` packages of a mod.
pub open spec fn pak_names(targets: Seq<InstallTarget>, n: int) -> Seq<Seq<char>>
    decreases n,
{
    if n <= 0 {
        Seq::empty()
    } else {
        let before = pak_names(targets, n - 1);
        match targets[n - 1] {
            InstallTarget::Pak { file, info } => before + with_words(file@) + seq![info.uuid@]
                + with_words(info.folder@) + with_words(info.name@),
            _ => before,
        }
    }
}

/// The names that a mod answers to.
pub open spec fn mod_names(m: ModEntry) -> Seq<Seq<char>> {
    let label = match m.source_label {
        Some(l) => with_words(l@),
        None => Seq::empty(),
    };
    seq![m.id@] + with_words(m.name@) + with_words(m.shown_name()) + label + pak_names(
        m.targets@,
        m.targets@.len() as int,
    )
}

/// The keys that a mod answers to.
pub open spec fn mod_keys(m: ModEntry) -> Seq<Seq<char>> {
    keyed(mod_names(m))
}

fn push_with_words(out: &mut Vec<String>, s: &str, Ghost(names): Ghost<Seq<Seq<char>>>)
    requires
        text::texts(old(out)@) == keyed(names),
    ensures
        text::texts(final(out)@) == keyed(names + with_words(s@)),
{
    push_key(out, s, Ghost(names));
    let words = find_long_words(s);
    push_keys(out, &words, Ghost(names.push(s@)));
    assert(names.push(s@) + long_words(s@) =~= names + with_words(s@));
}

pub fn mod_dependency_keys(m: &ModEntry) -> (out: Vec<String>)
    ensures
        sorting::sorted_set_of(text::texts(out@), mod_keys(*m)),
{
    let mut keys: Vec<String> = Vec::new();
    assert(text::texts(keys@) =~= keyed(Seq::<Seq<char>>::empty()));
    push_key(&mut keys, m.id.as_str(), Ghost(Seq::<Seq<char>>::empty()));
    let ghost mut names = seq![m.id@];
    assert(Seq::<Seq<char>>::empty().push(m.id@) =~= names);
    push_with_words(&mut keys, m.name.as_str(), Ghost(names));
    proof {
        names = names + with_words(m.name@);
    }
    let shown = m.display_name();
    push_with_words(&mut keys, shown.as_str(), Ghost(names));
    proof {
        names = names + with_words(m.shown_name());
    }
    match &m.source_label {
        Some(l) => {
            push_with_words(&mut keys, l.as_str(), Ghost(names));
            proof {
                names = names + with_words(l@);
            }
        },
        None => {
            assert(names + Seq::<Seq<char>>::empty() =~= names);
        },
    }
    let ghost head = names;
    let mut i: usize = 0;
    assert(head + pak_names(m.targets@, 0) =~= head);
    while i < m.targets.len()
        invariant
            i <= m.targets.len(),
            text::texts(keys@) == keyed(head + pak_names(m.targets@, i as int)),
        decreases m.targets.len() - i,
    {
        if let InstallTarget::Pak { file, info } = &m.targets[i] {
            let ghost a = head + pak_names(m.targets@, i as int);
            push_with_words(&mut keys, file.as_str(), Ghost(a));
            let ghost b = a + with_words(file@);
            push_key(&mut keys, info.uuid.as_str(), Ghost(b));
            let ghost c = b.push(info.uuid@);
            push_with_words(&mut keys, info.folder.as_str(), Ghost(c));
            let ghost d = c + with_words(info.folder@);
            push_with_words(&mut keys, info.name.as_str(), Ghost(d));
            assert(d + with_words(info.name@) =~= head + pak_names(m.targets@, i + 1));
        }
        i = i + 1;
    }
    sort_dedup(keys.as_slice())
}

// ---------------------------------------------------------------------------
// The lookup
// ---------------------------------------------------------------------------

/// The mod whose id has each key, and the ids of the mods that answer to each key.
pub struct DependencyLookup {
    pub id_map: StringHashMap<String>,
    pub key_map: StringHashMap<Vec<String>>,
}

impl DependencyLookup {
    /// The ids of the mods that answer to a key.
    pub open spec fn ids(self, key: Seq<char>) -> Seq<Seq<char>> {
        if self.key_map@.contains_key(key) {
            text::texts(self.key_map@[key]@)
        } else {
            Seq::empty()
        }
    }

    /// The id that has a key.
    pub open spec fn id_of(self, key: Seq<char>) -> Option<Seq<char>> {
        if self.id_map@.contains_key(key) {
            Some(self.id_map@[key]@)
        } else {
            None
        }
    }

    /// Whether a key means the mod with the id.
    pub open spec fn means(self, key: Seq<char>, id: Seq<char>) -> bool {
        self.ids(key).contains(id) || self.id_of(key) == Some(id)
    }

    fn note(&mut self, key: &str, id: &str)
        requires
            sorting::ascending(old(self).ids(key@)),
        ensures
            final(self).id_map == old(self).id_map,
            final(self).key_map@.dom() == old(self).key_map@.dom().insert(key@),
            sorting::ascending(final(self).ids(key@)),
            forall|t: Seq<char>| #[trigger]
                final(self).ids(key@).contains(t) <==> old(self).ids(key@).contains(t) || t == id@,
            forall|k: Seq<char>| k != key@ ==> #[trigger] final(self).ids(k) == old(self).ids(k),
    {
        let mut list = match self.key_map.get(key) {
            Some(l) => copy_strings(l.as_slice()),
            None => Vec::new(),
        };
        proof {
            assert(text::texts(list@) =~= self.ids(key@));
        }
        insert_sorted(&mut list, id.to_owned());
        self.key_map.insert(key.to_owned(), list);
        assert(self.ids(key@) == text::texts(list@));
    }
}

/// Whether a mod with the id answers to the key.
pub open spec fn answers(mods: Seq<ModEntry>, id: Seq<char>, key: Seq<char>) -> bool {
    exists|i: int| 0 <= i < mods.len() && #[trigger] mods[i].id@ == id && mod_keys(mods[i]).contains(key)
}

/// Whether some mod answers to the key.
pub open spec fn has_key(mods: Seq<ModEntry>, key: Seq<char>) -> bool {
    exists|i: int| 0 <= i < mods.len() && #[trigger] mod_keys(mods[i]).contains(key)
}

/// The id of the last mod whose id has the key.
pub open spec fn last_id(mods: Seq<ModEntry>, key: Seq<char>) -> Option<Seq<char>>
    decreases mods.len(),
{
    if mods.len() == 0 || key.len() == 0 {
        None
    } else if library::label_key(mods.last().id@) == key {
        Some(mods.last().id@)
    } else {
        last_id(mods.drop_last(), key)
    }
}

pub proof fn lemma_keyed(names: Seq<Seq<char>>, i: int)
    requires
        0 <= i < names.len(),
    ensures
        library::label_key(names[i]).len() > 0 ==> keyed(names).contains(
            library::label_key(names[i]),
        ),
        !keyed(names).contains(Seq::empty()),
    decreases names.len(),
{
    let front = keyed(names.drop_last());
    let key = library::label_key(names.last());
    if names.len() > 1 {
        lemma_keyed(
            names.drop_last(),
            if i < names.len() - 1 {
                i
            } else {
                0
            },
        );
    }
    crate::lists::lemma_push_contains(front, key, library::label_key(names[i]));
    crate::lists::lemma_push_contains(front, key, Seq::empty());
}

/// A mod answers to the key of its id.
proof fn lemma_own_key(m: ModEntry)
    ensures
        library::label_key(m.id@).len() > 0 ==> mod_keys(m).contains(library::label_key(m.id@)),
        !mod_keys(m).contains(Seq::empty()),
{
    assert(mod_names(m)[0] == m.id@);
    lemma_keyed(mod_names(m), 0);
}

proof fn lemma_last_id(mods: Seq<ModEntry>, key: Seq<char>)
    ensures
        last_id(mods, key) matches Some(id) ==> answers(mods, id, key),
    decreases mods.len(),
{
    if mods.len() > 0 && key.len() > 0 {
        let front = mods.drop_last();
        lemma_last_id(front, key);
        if library::label_key(mods.last().id@) == key {
            lemma_own_key(mods.last());
            assert(mods[mods.len() - 1].id@ == mods.last().id@);
        } else if let Some(id) = last_id(front, key) {
            let k = choose|k: int|
                0 <= k < front.len() && #[trigger] front[k].id@ == id && mod_keys(
                    front[k],
                ).contains(key);
            assert(mods[k].id@ == id);
        }
    }
}

impl DependencyLookup {
    /// Whether the lookup holds what the mods answer to, and nothing else: under each key
    /// that some mod has, and no other, the ids of those mods in order, each once.
    pub open spec fn is_of(self, mods: Seq<ModEntry>) -> bool {
        &&& forall|key: Seq<char>, id: Seq<char>| #[trigger]
            self.means(key, id) <==> answers(mods, id, key)
        &&& forall|key: Seq<char>, id: Seq<char>| #[trigger]
            self.ids(key).contains(id) <==> answers(mods, id, key)
        &&& forall|key: Seq<char>| #[trigger]
            self.key_map@.contains_key(key) <==> has_key(mods, key)
        &&& forall|key: Seq<char>| #[trigger] self.key_map@.contains_key(key) ==> key.len() > 0
        &&& forall|key: Seq<char>| sorting::ascending(#[trigger] self.ids(key))
        &&& forall|key: Seq<char>| #[trigger] self.id_of(key) == last_id(mods, key)
    }

    /// Adds what a mod answers to.
    fn add_mod(&mut self, m: &ModEntry, Ghost(before): Ghost<Seq<ModEntry>>)
        requires
            old(self).is_of(before),
        ensures
            final(self).is_of(before.push(*m)),
    {
        let ghost start = *self;
        let ghost after = before.push(*m);
        let id_key = normalize_label(m.id.as_str());
        if !id_key.as_str().is_empty() {
            self.id_map.insert(id_key, m.id.clone());
        }
        assert(after.drop_last() =~= before);
        assert forall|key: Seq<char>| #[trigger] self.id_of(key) == last_id(after, key) by {
            assert(start.id_of(key) == last_id(before, key));
        }
        let ghost mid = *self;
        let keys = mod_dependency_keys(m);
        let ghost all = text::texts(keys@);
        assert(forall|key: Seq<char>| #[trigger] self.ids(key) == start.ids(key));
        let mut j: usize = 0;
        while j < keys.len()
            invariant
                j <= keys.len(),
                all == text::texts(keys@),
                self.id_map == mid.id_map,
                forall|key: Seq<char>| sorting::ascending(#[trigger] self.ids(key)),
                forall|key: Seq<char>| #[trigger]
                    self.key_map@.contains_key(key) <==> start.key_map@.contains_key(key)
                        || all.take(j as int).contains(key),
                forall|key: Seq<char>, id: Seq<char>| #[trigger]
                    self.ids(key).contains(id) <==> start.ids(key).contains(id) || (id == m.id@
                        && all.take(j as int).contains(key)),
            decreases keys.len() - j,
        {
            let ghost was = *self;
            let ghost k = keys@[j as int]@;
            assert(sorting::ascending(self.ids(k)));
            self.note(keys[j].as_str(), m.id.as_str());
            proof {
                assert(all.take(j + 1) =~= all.take(j as int).push(k));
                assert forall|key: Seq<char>, id: Seq<char>| #[trigger]
                    self.ids(key).contains(id) <==> start.ids(key).contains(id) || (id == m.id@
                    && all.take(j + 1).contains(key)) by {
                    crate::lists::lemma_push_contains(all.take(j as int), k, key);
                    assert(was.ids(key).contains(id) <==> start.ids(key).contains(id) || (id
                        == m.id@ && all.take(j as int).contains(key)));
                }
                assert forall|key: Seq<char>| #[trigger]
                    self.key_map@.contains_key(key) <==> start.key_map@.contains_key(key)
                    || all.take(j + 1).contains(key) by {
                    crate::lists::lemma_push_contains(all.take(j as int), k, key);
                    assert(self.key_map@.dom().contains(key) <==> was.key_map@.dom().contains(key)
                        || key == k);
                    assert(was.key_map@.contains_key(key) <==> start.key_map@.contains_key(key)
                        || all.take(j as int).contains(key));
                }
                assert forall|key: Seq<char>| sorting::ascending(#[trigger] self.ids(key)) by {
                    if key != k {
                        assert(sorting::ascending(was.ids(key)));
                    }
                }
            }
            j = j + 1;
        }
        proof {
            assert(all.take(j as int) =~= all);
            lemma_own_key(*m);
            assert forall|key: Seq<char>, id: Seq<char>| #[trigger]
                self.ids(key).contains(id) <==> answers(after, id, key) by {
                assert(start.ids(key).contains(id) <==> answers(before, id, key));
                assert(all.contains(key) <==> mod_keys(*m).contains(key));
                lemma_answers_push(before, *m, id, key);
            }
            assert forall|key: Seq<char>| #[trigger]
                self.key_map@.contains_key(key) <==> has_key(after, key) by {
                assert(start.key_map@.contains_key(key) <==> has_key(before, key));
                assert(all.contains(key) <==> mod_keys(*m).contains(key));
                lemma_has_key_push(before, *m, key);
            }
            assert forall|key: Seq<char>| #[trigger] self.key_map@.contains_key(key) implies key.len()
                > 0 by {
                assert(all.contains(key) <==> mod_keys(*m).contains(key));
                if key.len() == 0 {
                    assert(key =~= Seq::empty());
                }
                assert(start.key_map@.contains_key(key) ==> key.len() > 0);
            }
            assert forall|key: Seq<char>| #[trigger] self.id_of(key) == last_id(after, key) by {
                assert(mid.id_of(key) == last_id(after, key));
            }
            assert forall|key: Seq<char>, id: Seq<char>| #[trigger]
                self.means(key, id) <==> answers(after, id, key) by {
                lemma_last_id(after, key);
                assert(self.ids(key).contains(id) <==> answers(after, id, key));
                assert(self.id_of(key) == last_id(after, key));
            }
        }
    }

    pub fn new(mods: &[ModEntry]) -> (r: Self)
        ensures
            r.is_of(mods@),
    {
        let mut r = DependencyLookup {
            id_map: StringHashMap::new(),
            key_map: StringHashMap::new(),
        };
        let mut i: usize = 0;
        assert(mods@.take(0) =~= Seq::empty());
        while i < mods.len()
            invariant
                i <= mods.len(),
                r.is_of(mods@.take(i as int)),
            decreases mods.len() - i,
        {
            r.add_mod(&mods[i], Ghost(mods@.take(i as int)));
            assert(mods@.take(i + 1) =~= mods@.take(i as int).push(mods@[i as int]));
            i = i + 1;
        }
        assert(mods@.take(i as int) =~= mods@);
        r
    }

    /// The ids for the first `n` keys.
    pub open spec fn ids_for(self, keys: Seq<Seq<char>>, n: int) -> Seq<Seq<char>>
        decreases n,
    {
        if n <= 0 {
            Seq::empty()
        } else {
            self.ids_for(keys, n - 1) + (match self.id_of(keys[n - 1]) {
                Some(id) => seq![id],
                None => Seq::empty(),
            }) + self.ids(keys[n - 1])
        }
    }

    /// The ids of the mods that answer to a dependency, in order.
    pub fn resolve_ids(&self, dependency: &str) -> (out: Vec<String>)
        ensures
            resolves(*self, dependency@, text::texts(out@)),
    {
        let keys = dependency_match_keys(dependency);
        let ghost all = text::texts(keys@);
        let mut found: Vec<String> = Vec::new();
        let mut i: usize = 0;
        assert(text::texts(found@) =~= self.ids_for(all, 0));
        while i < keys.len()
            invariant
                i <= keys.len(),
                all == text::texts(keys@),
                text::texts(found@) == self.ids_for(all, i as int),
            decreases keys.len() - i,
        {
            assert(all[i as int] == keys@[i as int]@);
            let ghost first = text::texts(found@);
            if let Some(id) = self.id_map.get(keys[i].as_str()) {
                text::add_line(&mut found, id.clone());
            }
            assert(text::texts(found@) =~= first + (match self.id_of(all[i as int]) {
                Some(id) => seq![id],
                None => Seq::empty(),
            }));
            match self.key_map.get(keys[i].as_str()) {
                Some(list) => {
                    let mut more = copy_strings(list.as_slice());
                    let ghost had = found@;
                    let ghost added = more@;
                    found.append(&mut more);
                    assert(text::texts(found@) =~= text::texts(had) + text::texts(added));
                },
                None => {
                    assert(text::texts(found@) + Seq::<Seq<char>>::empty() =~= text::texts(
                        found@,
                    ));
                },
            }
            i = i + 1;
        }
        let out = sort_dedup(found.as_slice());
        proof {
            assert forall|id: Seq<char>| text::texts(out@).contains(id) <==> exists|key: Seq<char>|
                match_keys(dependency@).contains(key) && #[trigger] self.means(key, id) by {
                lemma_ids_for(*self, all, all.len() as int, id);
                if text::texts(out@).contains(id) {
                    let k = choose|k: int|
                        0 <= k < all.len() && self.means(#[trigger] all[k], id);
                    assert(all.contains(all[k]));
                    assert(match_keys(dependency@).contains(all[k]));
                }
                if exists|key: Seq<char>|
                    match_keys(dependency@).contains(key) && #[trigger] self.means(key, id) {
                    let key = choose|key: Seq<char>|
                        match_keys(dependency@).contains(key) && #[trigger] self.means(key, id);
                    assert(all.contains(key));
                    let k = choose|k: int| 0 <= k < all.len() && all[k] == key;
                    assert(self.means(all[k], id));
                }
            }
        }
        out
    }
}

proof fn lemma_answers_push(mods: Seq<ModEntry>, m: ModEntry, id: Seq<char>, key: Seq<char>)
    ensures
        answers(mods.push(m), id, key) <==> answers(mods, id, key) || (m.id@ == id && mod_keys(
            m,
        ).contains(key)),
{
    let after = mods.push(m);
    if answers(mods, id, key) {
        let k = choose|k: int|
            0 <= k < mods.len() && #[trigger] mods[k].id@ == id && mod_keys(mods[k]).contains(key);
        assert(after[k].id@ == id);
    }
    if answers(after, id, key) {
        let k = choose|k: int|
            0 <= k < after.len() && #[trigger] after[k].id@ == id && mod_keys(after[k]).contains(
                key,
            );
        if k < mods.len() {
            assert(mods[k].id@ == id);
        }
    }
    assert(after[mods.len() as int].id@ == m.id@);
}

proof fn lemma_has_key_push(mods: Seq<ModEntry>, m: ModEntry, key: Seq<char>)
    ensures
        has_key(mods.push(m), key) <==> has_key(mods, key) || mod_keys(m).contains(key),
{
    let after = mods.push(m);
    if has_key(mods, key) {
        let k = choose|k: int| 0 <= k < mods.len() && #[trigger] mod_keys(mods[k]).contains(key);
        assert(mod_keys(after[k]).contains(key));
    }
    if has_key(after, key) {
        let k = choose|k: int| 0 <= k < after.len() && #[trigger] mod_keys(after[k]).contains(key);
        if k < mods.len() {
            assert(mod_keys(mods[k]).contains(key));
        }
    }
    assert(mod_keys(after[mods.len() as int]) == mod_keys(m));
}

proof fn lemma_joined_contains(a: Seq<Seq<char>>, b: Seq<Seq<char>>, id: Seq<char>)
    ensures
        (a + b).contains(id) <==> a.contains(id) || b.contains(id),
{
    if (a + b).contains(id) {
        let i = choose|i: int| 0 <= i < (a + b).len() && (a + b)[i] == id;
        if i < a.len() {
            assert(a[i] == id);
        } else {
            assert(b[i - a.len()] == id);
        }
    }
    if a.contains(id) {
        let i = choose|i: int| 0 <= i < a.len() && a[i] == id;
        assert((a + b)[i] == id);
    }
    if b.contains(id) {
        let i = choose|i: int| 0 <= i < b.len() && b[i] == id;
        assert((a + b)[a.len() + i] == id);
    }
}

proof fn lemma_ids_for(l: DependencyLookup, keys: Seq<Seq<char>>, n: int, id: Seq<char>)
    requires
        n <= keys.len(),
    ensures
        l.ids_for(keys, n).contains(id) <==> exists|k: int|
            0 <= k < n && l.means(#[trigger] keys[k], id),
    decreases n,
{
    if n > 0 {
        lemma_ids_for(l, keys, n - 1, id);
        let a = l.ids_for(keys, n - 1);
        let own = match l.id_of(keys[n - 1]) {
            Some(id) => seq![id],
            None => Seq::empty(),
        };
        lemma_joined_contains(a, own, id);
        lemma_joined_contains(a + own, l.ids(keys[n - 1]), id);
        assert(own.contains(id) <==> l.id_of(keys[n - 1]) == Some(id)) by {
            if let Some(x) = l.id_of(keys[n - 1]) {
                assert(own[0] == x);
            }
        }
    }
}

/// Whether `out` is the list of the mods that answer to one of the dependency's
/// keys, in order and each once.
pub open spec fn resolves(l: DependencyLookup, dependency: Seq<char>, out: Seq<Seq<char>>) -> bool {
    &&& sorting::ascending(out)
    &&& forall|id: Seq<char>| #[trigger]
        out.contains(id) <==> exists|key: Seq<char>|
            match_keys(dependency).contains(key) && #[trigger] l.means(key, id)
}

/// A lookup of mods names a mod for a dependency just where the two share a key.
pub proof fn law_lookup_shares_key(
    l: DependencyLookup,
    mods: Seq<ModEntry>,
    dependency: Seq<char>,
    out: Seq<Seq<char>>,
    i: int,
)
    requires
        l.is_of(mods),
        resolves(l, dependency, out),
        0 <= i < mods.len(),
    ensures
        (exists|key: Seq<char>|
            match_keys(dependency).contains(key) && #[trigger] mod_keys(mods[i]).contains(key))
            ==> out.contains(mods[i].id@),
        out.contains(mods[i].id@) ==> exists|k: int, key: Seq<char>|
            0 <= k < mods.len() && mods[k].id@ == mods[i].id@ && match_keys(dependency).contains(
                key,
            ) && #[trigger] mod_keys(mods[k]).contains(key),
{
    if exists|key: Seq<char>|
        match_keys(dependency).contains(key) && #[trigger] mod_keys(mods[i]).contains(key) {
        let key = choose|key: Seq<char>|
            match_keys(dependency).contains(key) && #[trigger] mod_keys(mods[i]).contains(key);
        assert(mods[i].id@ == mods[i].id@);
        assert(answers(mods, mods[i].id@, key));
        assert(l.means(key, mods[i].id@));
    }
    if out.contains(mods[i].id@) {
        let key = choose|key: Seq<char>|
            match_keys(dependency).contains(key) && #[trigger] l.means(key, mods[i].id@);
        assert(answers(mods, mods[i].id@, key));
        let k = choose|k: int|
            0 <= k < mods.len() && #[trigger] mods[k].id@ == mods[i].id@ && mod_keys(
                mods[k],
            ).contains(key);
        assert(mod_keys(mods[k]).contains(key));
    }
}

/// Which mods answer to a dependency does not hang on the order of the mods: lookups of
/// the same mods, in whatever order, name the same ids.
pub proof fn law_lookup_in_any_order(
    a: DependencyLookup,
    b: DependencyLookup,
    mods: Seq<ModEntry>,
    others: Seq<ModEntry>,
    dependency: Seq<char>,
    out: Seq<Seq<char>>,
    other_out: Seq<Seq<char>>,
)
    requires
        a.is_of(mods),
        b.is_of(others),
        mods.to_multiset() == others.to_multiset(),
        resolves(a, dependency, out),
        resolves(b, dependency, other_out),
    ensures
        out == other_out,
{
    assert forall|id: Seq<char>, key: Seq<char>| answers(mods, id, key) == answers(
        others,
        id,
        key,
    ) by {
        lemma_answers_among(mods, others, id, key);
        lemma_answers_among(others, mods, id, key);
    }
    assert forall|id: Seq<char>| #[trigger] out.contains(id) <==> other_out.contains(id) by {
        if out.contains(id) {
            let key = choose|key: Seq<char>|
                match_keys(dependency).contains(key) && #[trigger] a.means(key, id);
            assert(answers(mods, id, key));
            assert(b.means(key, id));
        }
        if other_out.contains(id) {
            let key = choose|key: Seq<char>|
                match_keys(dependency).contains(key) && #[trigger] b.means(key, id);
            assert(answers(others, id, key));
            assert(a.means(key, id));
        }
    }
    sorting::lemma_sorted_set_unique(out, other_out);
}

proof fn lemma_answers_among(
    mods: Seq<ModEntry>,
    others: Seq<ModEntry>,
    id: Seq<char>,
    key: Seq<char>,
)
    requires
        mods.to_multiset() == others.to_multiset(),
    ensures
        answers(mods, id, key) ==> answers(others, id, key),
{
    broadcast use vstd::seq_lib::group_to_multiset_ensures;

    if answers(mods, id, key) {
        let k = choose|k: int|
            0 <= k < mods.len() && #[trigger] mods[k].id@ == id && mod_keys(mods[k]).contains(key);
        assert(mods.contains(mods[k]));
        assert(mods.to_multiset().count(mods[k]) > 0);
        assert(others.contains(mods[k]));
        let j = choose|j: int| 0 <= j < others.len() && others[j] == mods[k];
        assert(others[j].id@ == id);
    }
}

/// A mod answers to its own id, unless the id has neither letters nor digits.
pub proof fn law_mod_answers_to_its_id(
    l: DependencyLookup,
    mods: Seq<ModEntry>,
    i: int,
    out: Seq<Seq<char>>,
)
    requires
        l.is_of(mods),
        0 <= i < mods.len(),
        library::label_key(mods[i].id@).len() > 0,
        resolves(l, mods[i].id@, out),
    ensures
        out.contains(mods[i].id@),
{
    let id = mods[i].id@;
    let key = library::label_key(id);
    lemma_own_key(mods[i]);
    assert(dependency_names(id)[0] == id);
    lemma_keyed(dependency_names(id), 0);
    assert(mods[i].id@ == id);
    assert(answers(mods, id, key));
    assert(l.means(key, id));
}

// ---------------------------------------------------------------------------
// Mods that answer to their own dependencies
// ---------------------------------------------------------------------------

/// Whether the mod's id stands in the dependency, whatever the case.
pub open spec fn names_mod(dependency: Seq<char>, id: Seq<char>) -> bool {
    text::contains_text(text::ascii_lower(dependency), text::ascii_lower(id))
}

fn is_naming_mod(dependency: &str, id: &str) -> (r: bool)
    ensures
        r == names_mod(dependency@, id@),
{
    let d = to_ascii_lower(dependency);
    let i = to_ascii_lower(id);
    has_text(d.as_str(), i.as_str())
}

/// Whether a dependency means the mod that states it.
pub open spec fn is_self_alias(
    dependency: Seq<char>,
    id: Seq<char>,
    resolved: Seq<Seq<char>>,
) -> bool {
    resolved.len() == 1 && resolved[0] == id && (text::starts_with(dependency, "_"@) || names_mod(
        dependency,
        id,
    ))
}

pub fn dependency_is_self_alias(dependency: &str, id: &str, resolved: &Vec<String>) -> (r: bool)
    ensures
        r == is_self_alias(dependency@, id@, text::texts(resolved@)),
{
    if resolved.len() != 1 {
        return false;
    }
    assert(text::texts(resolved@)[0] == resolved@[0]@);
    if !same_text(resolved[0].as_str(), id) {
        return false;
    }
    has_prefix(dependency, "_") || is_naming_mod(dependency, id)
}

/// The mods that are meant by a dependency of the mod: not the mod itself, unless
/// the dependency says so.
pub open spec fn meant_ids(
    resolved: Seq<Seq<char>>,
    dependency: Seq<char>,
    id: Seq<char>,
) -> Seq<Seq<char>> {
    if is_self_alias(dependency, id, resolved) || names_mod(dependency, id) {
        resolved
    } else {
        resolved.filter(|r: Seq<char>| r != id)
    }
}

pub fn resolved_dependency_ids(lookup: &DependencyLookup, dependency: &str, id: &str) -> (out: Vec<
    String,
>)
    ensures
        exists|resolved: Seq<Seq<char>>|
            #![trigger resolves(*lookup, dependency@, resolved)]
            resolves(*lookup, dependency@, resolved) && text::texts(out@) == meant_ids(
                resolved,
                dependency@,
                id@,
            ),
{
    let found = lookup.resolve_ids(dependency);
    let ghost all = text::texts(found@);
    assert(resolves(*lookup, dependency@, all));
    if dependency_is_self_alias(dependency, id, &found) || is_naming_mod(dependency, id) {
        return found;
    }
    let ghost keeps = |r: Seq<char>| r != id@;
    let mut out: Vec<String> = Vec::new();
    let mut i: usize = 0;
    proof {
        crate::lists::lemma_filter_whole(all, keeps);
        assert(text::texts(out@) =~= all.take(0).filter(keeps));
    }
    while i < found.len()
        invariant
            i <= found.len(),
            all == text::texts(found@),
            keeps == (|r: Seq<char>| r != id@),
            text::texts(out@) == all.take(i as int).filter(keeps),
        decreases found.len() - i,
    {
        proof {
            crate::lists::lemma_keep_item(all, i as int, keeps);
            assert(all[i as int] == found@[i as int]@);
        }
        if !same_text(found[i].as_str(), id) {
            let one = found[i].clone();
            proof {
                text::lemma_texts_push(out@, one);
            }
            out.push(one);
        }
        i = i + 1;
    }
    proof {
        crate::lists::lemma_filter_whole(all, keeps);
    }
    out
}

} // verus!
