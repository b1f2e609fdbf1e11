//! What is known of the mods from their files, and how it is brought up to date.
use crate::actions;
use crate::actions::{also, log, no_actions, Action, ActionView, LogLevel};
use crate::dep_missing;
use crate::dep_missing::cached_mod_dependencies;
use crate::fingerprint;
use crate::fingerprint::{metadata_cache_key, METADATA_CACHE_VERSION};
use crate::library;
use crate::library::{Library, ModEntry};
use crate::lists::copy_strings;
use crate::mod_changes::find_mod;
use crate::mod_readings;
use crate::mod_readings::{apply_metadata_update, MetadataUpdate};
use crate::native_apply;
use crate::native_apply::same_lists;
use crate::sorting::has_string;
use crate::text;
use crate::text::{concat2, same_text};
use vstd::hash_map::StringHashMap;
use vstd::prelude::*;

verus! {

/// What is known of the mods from their files.
pub struct MetadataDesk {
    /// Whether the files are being read, and how far that has come.
    pub active: bool,
    pub processed: usize,
    pub total: usize,
    pub processed_ids: Vec<String>,
    /// Whether anything new was found.
    pub dirty: bool,
    /// What the mods need, by id, and whether that is complete.
    pub cache: StringHashMap<Vec<String>>,
    pub ready: bool,
}

/// Whether what is stored of the mods still holds.
pub open spec fn is_valid(library: Library) -> bool {
    library.metadata_cache_version == METADATA_CACHE_VERSION && text::text_opt(
        library.metadata_cache_key,
    ) == Some(fingerprint::mods_key(library.mods@))
}

pub fn metadata_cache_valid(library: &Library) -> (r: bool)
    ensures
        r == is_valid(*library),
{
    if library.metadata_cache_version != METADATA_CACHE_VERSION {
        return false;
    }
    match &library.metadata_cache_key {
        Some(expected) => same_text(
            expected.as_str(),
            metadata_cache_key(&library.mods).as_str(),
        ),
        None => false,
    }
}

/// What the mods are known to need. `reads` is what their files say.
pub open spec fn all_known_needs(
    mods: Seq<ModEntry>,
    cache: Map<Seq<char>, Vec<String>>,
    version: u32,
    reads: Seq<Vec<String>>,
    i: int,
) -> Seq<Seq<char>> {
    dep_missing::known_needs(mods[i], cache, version, text::texts(reads[i]@))
}

/// Whether a cache holds, for each id of a mod and nothing else, what is stored of the
/// last mod with it.
pub open spec fn is_primed(cache: Map<Seq<char>, Vec<String>>, mods: Seq<ModEntry>) -> bool {
    &&& forall|id: Seq<char>| #[trigger]
        cache.contains_key(id) <==> library::last_index(mods, id) >= 0
    &&& forall|id: Seq<char>| #[trigger]
        cache.contains_key(id) ==> cache[id]@ == mods[library::last_index(mods, id)].dependencies@
}

pub open spec fn applied_says(changed: bool, dirty: bool) -> Seq<ActionView> {
    (if changed {
        seq![ActionView::SaveLibrary]
    } else {
        Seq::empty()
    }) + if dirty {
        seq![
            ActionView::SaveLibrary,
            ActionView::Log(LogLevel::Info, "Metadata refresh applied"@),
        ]
    } else {
        Seq::empty()
    }
}

impl MetadataDesk {
    pub fn new() -> (r: Self)
        ensures
            !r.active,
            r.processed == 0,
            r.total == 0,
            r.processed_ids@.len() == 0,
            !r.dirty,
            r.cache@ == Map::<Seq<char>, Vec<String>>::empty(),
            !r.ready,
    {
        MetadataDesk {
            active: false,
            processed: 0,
            total: 0,
            processed_ids: Vec::new(),
            dirty: false,
            cache: StringHashMap::new(),
            ready: false,
        }
    }

    /// What the mods are known to need. `reads` is what their files say.
    pub fn known_needs(&self, library: &Library, reads: &Vec<Vec<String>>) -> (out: Vec<Vec<String>>)
        requires
            reads@.len() == library.mods@.len(),
        ensures
            out@.len() == library.mods@.len(),
            forall|i: int|
                0 <= i < out@.len() ==> #[trigger] dep_missing::needs_at(out@, i)
                    == all_known_needs(
                    library.mods@,
                    self.cache@,
                    library.metadata_cache_version,
                    reads@,
                    i,
                ),
    {
        let mut out: Vec<Vec<String>> = Vec::new();
        let mut i: usize = 0;
        while i < library.mods.len()
            invariant
                i <= library.mods.len() == reads.len(),
                out.len() == i,
                forall|k: int|
                    0 <= k < i ==> #[trigger] dep_missing::needs_at(out@, k) == all_known_needs(
                        library.mods@,
                        self.cache@,
                        library.metadata_cache_version,
                        reads@,
                        k,
                    ),
            decreases library.mods.len() - i,
        {
            let needs = cached_mod_dependencies(
                &library.mods[i],
                &self.cache,
                library.metadata_cache_version,
                &reads[i],
            );
            let ghost before = out@;
            out.push(needs);
            proof {
                assert forall|k: int| 0 <= k < i + 1 implies #[trigger] dep_missing::needs_at(
                    out@,
                    k,
                ) == all_known_needs(
                    library.mods@,
                    self.cache@,
                    library.metadata_cache_version,
                    reads@,
                    k,
                ) by {
                    if k < i {
                        assert(out@[k] == before[k]);
                        assert(dep_missing::needs_at(before, k) == dep_missing::needs_at(out@, k));
                    }
                }
            }
            i = i + 1;
        }
        out
    }

    /// Begins to read the files of the mods, unless that is going on.
    pub fn start_metadata_refresh(&mut self, mods: usize) -> (starts: bool)
        ensures
            starts == !old(self).active,
            !starts ==> *final(self) == *old(self),
            starts ==> *final(self) == (MetadataDesk {
                active: true,
                processed: 0,
                total: mods,
                processed_ids: final(self).processed_ids,
                dirty: false,
                ready: false,
                ..*old(self)
            }) && final(self).processed_ids@.len() == 0,
    {
        if self.active {
            return false;
        }
        self.active = true;
        self.processed = 0;
        self.total = mods;
        self.processed_ids = Vec::new();
        self.dirty = false;
        self.ready = false;
        true
    }

    /// Takes what is stored of the mods for what they need.
    pub fn prime_dependency_cache_from_library(&mut self, library: &Library)
        ensures
            *final(self) == (MetadataDesk { cache: final(self).cache, ready: true, ..*old(self) }),
            is_primed(final(self).cache@, library.mods@),
    {
        let mods = &library.mods;
        let mut cache: StringHashMap<Vec<String>> = StringHashMap::new();
        let mut i: usize = 0;
        while i < mods.len()
            invariant
                i <= mods.len(),
                is_primed(cache@, mods@.take(i as int)),
            decreases mods.len() - i,
        {
            let ghost before = mods@.take(i as int);
            let ghost after = mods@.take(i + 1);
            let ghost known = cache@;
            cache.insert(mods[i].id.clone(), copy_strings(mods[i].dependencies.as_slice()));
            proof {
                assert(after.drop_last() =~= before);
                assert(after.last() == mods@[i as int]);
                assert forall|id: Seq<char>| #[trigger]
                    cache@.contains_key(id) <==> library::last_index(after, id) >= 0 by {
                    library::lemma_last_index(after, id);
                    library::lemma_last_index(before, id);
                    assert(known.contains_key(id) <==> library::last_index(before, id) >= 0);
                }
                assert forall|id: Seq<char>| #[trigger] cache@.contains_key(id) implies cache@[id]@
                    == after[library::last_index(after, id)].dependencies@ by {
                    if id != mods@[i as int].id@ {
                        library::lemma_last_index(before, id);
                        assert(known.contains_key(id));
                    }
                }
            }
            i = i + 1;
        }
        assert(mods@.take(i as int) =~= mods@);
        self.cache = cache;
        self.ready = true;
    }

    /// Takes in what was read of a mod.
    pub fn take_progress(
        &mut self,
        library: &mut Library,
        update: MetadataUpdate,
        current: usize,
        total: usize,
    )
        ensures
            ({
                let at = native_apply::first_mod(old(library).mods@, update.id@);
                let m = old(library).mods@[at];
                &&& *final(self) == (MetadataDesk {
                    processed: current,
                    total,
                    processed_ids: final(self).processed_ids,
                    dirty: final(self).dirty,
                    cache: final(self).cache,
                    ..*old(self)
                })
                &&& text::texts(final(self).processed_ids@) == if text::texts(
                    old(self).processed_ids@,
                ).contains(update.id@) {
                    text::texts(old(self).processed_ids@)
                } else {
                    text::texts(old(self).processed_ids@).push(update.id@)
                }
                &&& final(self).cache@.dom() == old(self).cache@.dom().insert(update.id@)
                &&& final(self).cache@[update.id@]@ == update.dependencies@
                &&& forall|id: Seq<char>|
                    id != update.id@ && #[trigger] old(self).cache@.contains_key(id)
                        ==> final(self).cache@[id] == old(self).cache@[id]
                &&& *final(library) == (Library { mods: final(library).mods, ..*old(library) })
                &&& if at >= 0 {
                    &&& final(library).mods@ == old(library).mods@.update(
                        at,
                        mod_readings::with_update(m, update),
                    )
                    &&& final(self).dirty == (old(self).dirty || m.created_at != update.created_at
                        || m.modified_at != update.modified_at || text::texts(m.dependencies@)
                        != text::texts(update.dependencies@))
                } else {
                    final(library).mods@ == old(library).mods@ && final(self).dirty
                        == old(self).dirty
                }
            }),
    {
        self.processed = current;
        self.total = total;
        if !has_string(&self.processed_ids, update.id.as_str()) {
            let id = update.id.clone();
            proof {
                text::lemma_texts_push(self.processed_ids@, id);
            }
            self.processed_ids.push(id);
        }
        let ghost had = self.cache@;
        self.cache.insert(update.id.clone(), copy_strings(update.dependencies.as_slice()));
        assert(self.cache@.dom() =~= had.dom().insert(update.id@));
        if apply_metadata_update(&mut library.mods, update) {
            self.dirty = true;
        }
    }

    /// Takes in that all files were read: mods that lack something are held back, and
    /// what is known is stored. `reads` is what the files of the mods say.
    pub fn take_completed(&mut self, library: &mut Library, reads: &Vec<Vec<String>>) -> (out: Vec<
        Action,
    >)
        requires
            reads@.len() == old(library).mods@.len(),
        ensures
            *final(self) == (MetadataDesk {
                active: false,
                ready: old(self).total == 0 || old(self).cache@.dom().len() > 0,
                dirty: false,
                ..*old(self)
            }),
            completed(
                *final(library),
                *old(library),
                old(self).cache@,
                final(self).ready,
                old(self).dirty,
                reads@,
                actions::action_views(out@),
            ),
    {
        let ghost start = *library;
        self.active = false;
        self.ready = self.total == 0 || self.cache.len() > 0;
        let deps = self.known_needs(library, reads);
        let mut out = no_actions();
        let mut changed = false;
        if self.ready {
            changed = library.refresh_dependency_blocks(&deps, true);
            if changed {
                also(&mut out, Action::SaveLibrary);
            }
        }
        let ghost mid = *library;
        if !metadata_cache_valid(library) {
            library.metadata_cache_key = Some(metadata_cache_key(&library.mods));
            library.metadata_cache_version = METADATA_CACHE_VERSION;
            self.dirty = true;
        }
        let dirty = self.dirty;
        if dirty {
            also(&mut out, Action::SaveLibrary);
            log(&mut out, LogLevel::Info, "Metadata refresh applied");
            self.dirty = false;
        }
        proof {
            assert(actions::action_views(out@) =~= applied_says(changed, dirty));
            assert(completed_over(
                *library,
                start,
                old(self).cache@,
                self.ready,
                old(self).dirty,
                reads@,
                deps@,
                actions::action_views(out@),
            ));
        }
        out
    }

    /// Takes in that the files could not be read.
    pub fn take_failed(&mut self, error: &str) -> (out: Vec<Action>)
        ensures
            *final(self) == (MetadataDesk { active: false, ..*old(self) }),
            actions::action_views(out@) == seq![
                ActionView::Log(LogLevel::Warn, "Metadata refresh failed: "@ + error@),
            ],
    {
        self.active = false;
        let mut out = no_actions();
        log(&mut out, LogLevel::Warn, concat2("Metadata refresh failed: ", error).as_str());
        assert(actions::action_views(out@) =~= seq![
            ActionView::Log(LogLevel::Warn, "Metadata refresh failed: "@ + error@),
        ]);
        out
    }

    /// Forgets what is known of the mods.
    pub fn clear(&mut self, library: &mut Library)
        ensures
            *final(self) == (MetadataDesk { cache: final(self).cache, ready: false, ..*old(self) }),
            final(self).cache@ == Map::<Seq<char>, Vec<String>>::empty(),
            *final(library) == (Library {
                metadata_cache_version: 0,
                metadata_cache_key: None,
                ..*old(library)
            }),
    {
        self.cache = StringHashMap::new();
        self.ready = false;
        library.metadata_cache_version = 0;
        library.metadata_cache_key = None;
    }

    /// Takes in what a mod that was just imported needs. The result says whether that
    /// changed anything.
    fn take_needs(&mut self, mods: &mut Vec<ModEntry>, id: &str, needs: &Vec<String>) -> (changed:
        bool)
        ensures
            ({
                let at = native_apply::first_mod(old(mods)@, id@);
                &&& *final(self) == (MetadataDesk { cache: final(self).cache, ..*old(self) })
                &&& final(self).cache@ == old(self).cache@.insert(id@, final(self).cache@[id@])
                &&& final(self).cache@[id@]@ == needs@
                &&& needs_taken(final(mods)@, old(mods)@, at, needs@)
                &&& changed == (at >= 0 && text::texts(old(mods)@[at].dependencies@)
                    != text::texts(needs@))
            }),
    {
        let ghost had = self.cache@;
        self.cache.insert(id.to_owned(), copy_strings(needs.as_slice()));
        assert(self.cache@ =~= had.insert(id@, self.cache@[id@]));
        proof {
            native_apply::lemma_first_mod(mods@, id@);
        }
        match find_mod(mods, id) {
            Some(at) => {
                if same_lists(&mods[at].dependencies, needs) {
                    return false;
                }
                mods[at].dependencies = copy_strings(needs.as_slice());
                true
            },
            None => false,
        }
    }

    /// Takes in what mods that were just imported need. The result says whether there is
    /// anything to store.
    pub fn update_dependency_cache_for_entries(
        &mut self,
        library: &mut Library,
        entries: &Vec<ModEntry>,
        needs: &Vec<Vec<String>>,
    ) -> (changed: bool)
        requires
            needs@.len() == entries@.len(),
        ensures
            *final(self) == (MetadataDesk { cache: final(self).cache, ..*old(self) }),
            cache_updated(
                final(self).cache@,
                old(self).cache@,
                entries@,
                needs@,
                entries@.len() as int,
            ),
            final(library).mods@.len() == old(library).mods@.len(),
            forall|i: int|
                0 <= i < old(library).mods@.len() ==> {
                    let m = old(library).mods@[i];
                    let e = last_entry(entries@, m.id@, entries@.len() as int);
                    let own = #[trigger] final(library).mods@[i];
                    &&& own == (ModEntry { dependencies: own.dependencies, ..m })
                    &&& text::texts(own.dependencies@) == if e >= 0 && native_apply::first_mod(
                        old(library).mods@,
                        m.id@,
                    ) == i {
                        text::texts(needs@[e]@)
                    } else {
                        text::texts(m.dependencies@)
                    }
                },
            changed == some_news(old(library).mods@, entries@, needs@, entries@.len() as int),
            if changed {
                &&& *final(library) == (Library {
                    mods: final(library).mods,
                    metadata_cache_key: final(library).metadata_cache_key,
                    metadata_cache_version: METADATA_CACHE_VERSION,
                    ..*old(library)
                })
                &&& is_valid(*final(library))
            } else {
                *final(library) == (Library { mods: final(library).mods, ..*old(library) })
            },
    {
        let ghost start = *library;
        let mut changed = false;
        let mut i: usize = 0;
        while i < entries.len()
            invariant
                i <= entries.len() == needs.len(),
                start == *old(library),
                *self == (MetadataDesk { cache: self.cache, ..*old(self) }),
                cache_updated(self.cache@, old(self).cache@, entries@, needs@, i as int),
                *library == (Library { mods: library.mods, ..start }),
                library.mods@.len() == start.mods@.len(),
                changed == some_news(start.mods@, entries@, needs@, i as int),
                forall|k: int|
                    0 <= k < start.mods@.len() ==> needs_so_far(
                        #[trigger] library.mods@[k],
                        start.mods@,
                        k,
                        entries@,
                        needs@,
                        i as int,
                    ),
            decreases entries.len() - i,
        {
            let ghost before = library.mods@;
            let ghost known = self.cache@;
            let ghost id = entries@[i as int].id@;
            let more = self.take_needs(&mut library.mods, entries[i].id.as_str(), &needs[i]);
            if more {
                changed = true;
            }
            proof {
                assert(cache_updated(self.cache@, old(self).cache@, entries@, needs@, i + 1)) by {
                    assert forall|t: Seq<char>| #[trigger]
                        self.cache@.contains_key(t) <==> old(self).cache@.contains_key(t)
                            || last_entry(entries@, t, i + 1) >= 0 by {
                        assert(known.contains_key(t) <==> old(self).cache@.contains_key(t)
                            || last_entry(entries@, t, i as int) >= 0);
                    }
                    assert forall|t: Seq<char>| #[trigger] self.cache@.contains_key(t) implies (
                    if last_entry(entries@, t, i + 1) >= 0 {
                        self.cache@[t]@ == needs@[last_entry(entries@, t, i + 1)]@
                    } else {
                        self.cache@[t] == old(self).cache@[t]
                    }) by {
                        if t != id {
                            assert(known.contains_key(t));
                        }
                    }
                }
                assert forall|k: int| 0 <= k < start.mods@.len() implies (#[trigger] before[k]).id@
                    == start.mods@[k].id@ by {
                    assert(needs_so_far(before[k], start.mods@, k, entries@, needs@, i as int));
                }
                lemma_same_ids(before, start.mods@, id);
                native_apply::lemma_first_mod(start.mods@, id);
                let at = native_apply::first_mod(start.mods@, id);
                if at >= 0 {
                    assert(needs_so_far(before[at], start.mods@, at, entries@, needs@, i as int));
                }
                assert(more == is_news(start.mods@, entries@, needs@, i as int));
                assert forall|k: int| 0 <= k < start.mods@.len() implies needs_so_far(
                    #[trigger] library.mods@[k],
                    start.mods@,
                    k,
                    entries@,
                    needs@,
                    i + 1,
                ) by {
                    assert(needs_so_far(before[k], start.mods@, k, entries@, needs@, i as int));
                    native_apply::lemma_first_mod(start.mods@, start.mods@[k].id@);
                }
            }
            i = i + 1;
        }
        proof {
            assert forall|k: int| 0 <= k < start.mods@.len() implies needs_so_far(
                #[trigger] library.mods@[k],
                start.mods@,
                k,
                entries@,
                needs@,
                entries@.len() as int,
            ) by {}
        }
        if changed {
            library.metadata_cache_key = Some(metadata_cache_key(&library.mods));
            library.metadata_cache_version = METADATA_CACHE_VERSION;
        }
        changed
    }
}

/// The last of the first `n` entries with an id, or -1.
pub open spec fn last_entry(entries: Seq<ModEntry>, id: Seq<char>, n: int) -> int
    decreases n,
{
    if n <= 0 {
        -1
    } else if entries[n - 1].id@ == id {
        n - 1
    } else {
        last_entry(entries, id, n - 1)
    }
}

/// Whether a cache is another with what the first `n` entries need put in.
pub open spec fn cache_updated(
    after: Map<Seq<char>, Vec<String>>,
    before: Map<Seq<char>, Vec<String>>,
    entries: Seq<ModEntry>,
    needs: Seq<Vec<String>>,
    n: int,
) -> bool {
    &&& forall|id: Seq<char>| #[trigger]
        after.contains_key(id) <==> before.contains_key(id) || last_entry(entries, id, n) >= 0
    &&& forall|id: Seq<char>| #[trigger]
        after.contains_key(id) ==> if last_entry(entries, id, n) >= 0 {
            after[id]@ == needs[last_entry(entries, id, n)]@
        } else {
            after[id] == before[id]
        }
}

/// Whether what the entry at `n` needs is not what its mod was known to need by then.
pub open spec fn is_news(
    mods: Seq<ModEntry>,
    entries: Seq<ModEntry>,
    needs: Seq<Vec<String>>,
    n: int,
) -> bool {
    let id = entries[n].id@;
    let at = native_apply::first_mod(mods, id);
    let e = last_entry(entries, id, n);
    at >= 0 && text::texts(needs[n]@) != if e >= 0 {
        text::texts(needs[e]@)
    } else {
        text::texts(mods[at].dependencies@)
    }
}

/// Whether one of the first `n` entries needs something new.
pub open spec fn some_news(
    mods: Seq<ModEntry>,
    entries: Seq<ModEntry>,
    needs: Seq<Vec<String>>,
    n: int,
) -> bool
    decreases n,
{
    n > 0 && (some_news(mods, entries, needs, n - 1) || is_news(mods, entries, needs, n - 1))
}

spec fn needs_so_far(
    own: ModEntry,
    mods: Seq<ModEntry>,
    k: int,
    entries: Seq<ModEntry>,
    needs: Seq<Vec<String>>,
    n: int,
) -> bool {
    let m = mods[k];
    let e = last_entry(entries, m.id@, n);
    &&& own == (ModEntry { dependencies: own.dependencies, ..m })
    &&& text::texts(own.dependencies@) == if e >= 0 && native_apply::first_mod(mods, m.id@) == k {
        text::texts(needs[e]@)
    } else {
        text::texts(m.dependencies@)
    }
}

spec fn needs_taken(
    after: Seq<ModEntry>,
    before: Seq<ModEntry>,
    at: int,
    needs: Seq<String>,
) -> bool {
    if at >= 0 {
        &&& after.len() == before.len()
        &&& after[at] == (ModEntry { dependencies: after[at].dependencies, ..before[at] })
        &&& text::texts(after[at].dependencies@) == text::texts(needs)
        &&& forall|i: int| 0 <= i < before.len() && i != at ==> #[trigger] after[i] == before[i]
    } else {
        after == before
    }
}

proof fn lemma_same_ids(a: Seq<ModEntry>, b: Seq<ModEntry>, id: Seq<char>)
    requires
        a.len() == b.len(),
        forall|k: int| 0 <= k < b.len() ==> (#[trigger] a[k]).id@ == b[k].id@,
    ensures
        native_apply::first_mod(a, id) == native_apply::first_mod(b, id),
    decreases a.len(),
{
    if a.len() > 0 {
        assert forall|k: int| 0 <= k < b.len() - 1 implies (#[trigger] a.drop_last()[k]).id@
            == b.drop_last()[k].id@ by {
            assert(a[k].id@ == b[k].id@);
        }
        lemma_same_ids(a.drop_last(), b.drop_last(), id);
        assert(a[a.len() - 1].id@ == b[b.len() - 1].id@);
    }
}

/// Whether what was read has been taken over into the library, with `deps` for what the
/// mods need.
pub open spec fn completed_over(
    after: Library,
    before: Library,
    cache: Map<Seq<char>, Vec<String>>,
    ready: bool,
    dirty: bool,
    reads: Seq<Vec<String>>,
    deps: Seq<Vec<String>>,
    says: Seq<ActionView>,
) -> bool {
    let blocked = dep_missing::blocked_ids(before.mods@, deps, before.mods@.len() as int);
    let held = ready && !dep_missing::same_members(text::texts(before.dependency_blocks@), blocked);
    &&& deps.len() == before.mods@.len()
    &&& forall|i: int|
        0 <= i < deps.len() ==> #[trigger] dep_missing::needs_at(deps, i) == all_known_needs(
            before.mods@,
            cache,
            before.metadata_cache_version,
            reads,
            i,
        )
    &&& after == (Library {
        dependency_blocks: after.dependency_blocks,
        metadata_cache_key: after.metadata_cache_key,
        metadata_cache_version: METADATA_CACHE_VERSION,
        ..before
    })
    &&& is_valid(after)
    &&& held ==> text::texts(after.dependency_blocks@) == blocked
    &&& !held ==> after.dependency_blocks == before.dependency_blocks
    &&& says == applied_says(held, dirty || !is_valid(before))
}

pub open spec fn completed(
    after: Library,
    before: Library,
    cache: Map<Seq<char>, Vec<String>>,
    ready: bool,
    dirty: bool,
    reads: Seq<Vec<String>>,
    says: Seq<ActionView>,
) -> bool {
    exists|deps: Seq<Vec<String>>| #[trigger]
        completed_over(after, before, cache, ready, dirty, reads, deps, says)
}

/// Once all files were read, what is stored of the mods holds.
pub proof fn law_completed_is_valid(
    after: Library,
    before: Library,
    cache: Map<Seq<char>, Vec<String>>,
    ready: bool,
    dirty: bool,
    reads: Seq<Vec<String>>,
    says: Seq<ActionView>,
)
    requires
        completed(after, before, cache, ready, dirty, reads, says),
    ensures
        is_valid(after),
{
}

} // verus!
