//! When mods are ranked again, and how thoroughly.
use crate::fingerprint;
use crate::fingerprint::smart_rank_profile_key_for;
use crate::library;
use crate::library::{find_profile, Library, ModEntry, ProfileEntry};
use crate::mod_changes;
use crate::mod_changes::find_mod;
use crate::native_apply;
use crate::smart_rank::SmartRankResult;
use crate::text;
use crate::text::same_text;
use vstd::hash_map::StringHashMap;
use vstd::prelude::*;

verus! {

/// The version of what is stored of a ranking.
pub const SMART_RANK_CACHE_VERSION: u32 = 2;

/// How long a ranking waits for further changes, in milliseconds.
pub const SMART_RANK_DEBOUNCE_MS: u64 = 600;

/// How often the store of a ranking that is under way is written, in milliseconds.
pub const SMART_RANK_CACHE_SAVE_DEBOUNCE_MS: u64 = 400;

/// How thoroughly mods are read again.
#[derive(Debug, Clone, Copy, PartialEq, Eq, Structural)]
pub enum SmartRankRefreshMode {
    Full,
    Incremental,
    ReorderOnly,
}

/// What a ranking is for: to be shown, or to be at hand.
#[derive(Debug, Clone, Copy, PartialEq, Eq, Structural)]
pub enum SmartRankMode {
    Preview,
    Warmup,
}

/// What is known of a mod from the last time that its files were read.
#[derive(Debug)]
pub struct CachedMod {
    /// The key of the mod as it was then.
    pub key: String,
    pub has_data: bool,
}

/// What is known from the last ranking.
pub struct SmartRankCache {
    pub version: u32,
    pub profile_key: String,
    pub mods: StringHashMap<CachedMod>,
    pub result: Option<SmartRankResult>,
}

// ---------------------------------------------------------------------------
// Merging
// ---------------------------------------------------------------------------

/// How thorough a mode is.
pub open spec fn thoroughness(mode: SmartRankRefreshMode) -> int {
    match mode {
        SmartRankRefreshMode::Full => 2,
        SmartRankRefreshMode::Incremental => 1,
        SmartRankRefreshMode::ReorderOnly => 0,
    }
}

/// The more thorough of two.
pub open spec fn merged(a: SmartRankRefreshMode, b: SmartRankRefreshMode) -> SmartRankRefreshMode {
    if thoroughness(a) >= thoroughness(b) {
        a
    } else {
        b
    }
}

pub fn merge_smart_rank_refresh_kind(
    current: SmartRankRefreshMode,
    next: SmartRankRefreshMode,
) -> (r: SmartRankRefreshMode)
    ensures
        r == merged(current, next),
{
    match (current, next) {
        (SmartRankRefreshMode::Full, _) | (_, SmartRankRefreshMode::Full) => {
            SmartRankRefreshMode::Full
        },
        (SmartRankRefreshMode::Incremental, _) | (_, SmartRankRefreshMode::Incremental) => {
            SmartRankRefreshMode::Incremental
        },
        _ => SmartRankRefreshMode::ReorderOnly,
    }
}

/// It does not matter in what order changes come in.
pub proof fn law_merge_any_order(
    a: SmartRankRefreshMode,
    b: SmartRankRefreshMode,
    c: SmartRankRefreshMode,
)
    ensures
        merged(a, b) == merged(b, a),
        merged(merged(a, b), c) == merged(a, merged(b, c)),
        merged(a, a) == a,
{
}

// ---------------------------------------------------------------------------
// Whether what is known will do
// ---------------------------------------------------------------------------

/// Whether the mod of an entry is known as it is now. The keys are those of the mods.
/// An entry without a mod asks for nothing.
pub open spec fn is_known(
    id: Seq<char>,
    mods: Seq<ModEntry>,
    keys: Seq<String>,
    known: Map<Seq<char>, CachedMod>,
) -> bool {
    let k = native_apply::first_mod(mods, id);
    k >= 0 ==> known.contains_key(id) && known[id].key@ == keys[k]@ && known[id].has_data
}

/// Whether all that is switched on is known.
pub open spec fn all_known(
    order: Seq<ProfileEntry>,
    mods: Seq<ModEntry>,
    keys: Seq<String>,
    known: Map<Seq<char>, CachedMod>,
) -> bool {
    forall|i: int|
        0 <= i < order.len() && (#[trigger] order[i]).enabled ==> is_known(
            order[i].id@,
            mods,
            keys,
            known,
        )
}

/// Whether the last ranking can be used as it is.
pub open spec fn cache_ready(library: Library, cache: SmartRankCache, keys: Seq<String>) -> bool {
    let at = library::profile_index(library.profiles@, library.active_profile@);
    &&& cache.version == SMART_RANK_CACHE_VERSION
    &&& cache.result is Some
    &&& at >= 0
    &&& all_known(library.profiles@[at].order@, library.mods@, keys, cache.mods@)
}

fn check_known(
    id: &str,
    mods: &Vec<ModEntry>,
    keys: &Vec<String>,
    known: &StringHashMap<CachedMod>,
) -> (r: bool)
    requires
        keys@.len() == mods@.len(),
    ensures
        r == is_known(id@, mods@, keys@, known@),
{
    proof {
        native_apply::lemma_first_mod(mods@, id@);
    }
    match find_mod(mods, id) {
        Some(k) => match known.get(id) {
            Some(c) => c.has_data && same_text(c.key.as_str(), keys[k].as_str()),
            None => false,
        },
        None => true,
    }
}

pub fn smart_rank_cache_ready_for(
    library: &Library,
    cache: &SmartRankCache,
    keys: &Vec<String>,
) -> (r: bool)
    requires
        keys@.len() == library.mods@.len(),
    ensures
        r == cache_ready(*library, *cache, keys@),
{
    proof {
        library::lemma_profile_index(library.profiles@, library.active_profile@);
    }
    if cache.version != SMART_RANK_CACHE_VERSION || cache.result.is_none() {
        return false;
    }
    match find_profile(&library.profiles, library.active_profile.as_str()) {
        Some(at) => {
            let order = &library.profiles[at].order;
            let mut i: usize = 0;
            while i < order.len()
                invariant
                    i <= order.len(),
                    keys@.len() == library.mods@.len(),
                    at == library::profile_index(library.profiles@, library.active_profile@),
                    *order == library.profiles@[at as int].order,
                    forall|j: int|
                        0 <= j < i && (#[trigger] order@[j]).enabled ==> is_known(
                            order@[j].id@,
                            library.mods@,
                            keys@,
                            cache.mods@,
                        ),
                decreases order.len() - i,
            {
                if order[i].enabled && !check_known(
                    order[i].id.as_str(),
                    &library.mods,
                    keys,
                    &cache.mods,
                ) {
                    assert(order@[i as int].enabled);
                    assert(!all_known(order@, library.mods@, keys@, cache.mods@));
                    return false;
                }
                i = i + 1;
            }
            true
        },
        None => false,
    }
}

/// The ids of those of the first `n` entries whose mods are not known.
pub open spec fn unknown_ids(
    order: Seq<ProfileEntry>,
    mods: Seq<ModEntry>,
    keys: Seq<String>,
    known: Map<Seq<char>, CachedMod>,
    n: int,
) -> Seq<Seq<char>>
    decreases n,
{
    if n <= 0 {
        Seq::empty()
    } else if is_known(order[n - 1].id@, mods, keys, known) {
        unknown_ids(order, mods, keys, known, n - 1)
    } else {
        unknown_ids(order, mods, keys, known, n - 1).push(order[n - 1].id@)
    }
}

pub fn smart_rank_cache_missing_ids_for(
    library: &Library,
    cache: &SmartRankCache,
    keys: &Vec<String>,
) -> (out: Vec<String>)
    requires
        keys@.len() == library.mods@.len(),
    ensures
        ({
            let at = library::profile_index(library.profiles@, library.active_profile@);
            let order = library.profiles@[at].order@;
            text::texts(out@) == if at >= 0 {
                unknown_ids(order, library.mods@, keys@, cache.mods@, order.len() as int)
            } else {
                Seq::empty()
            }
        }),
{
    proof {
        library::lemma_profile_index(library.profiles@, library.active_profile@);
    }
    let mut out: Vec<String> = Vec::new();
    assert(text::texts(out@) =~= Seq::<Seq<char>>::empty());
    if let Some(at) = find_profile(&library.profiles, library.active_profile.as_str()) {
        let order = &library.profiles[at].order;
        let mut i: usize = 0;
        while i < order.len()
            invariant
                i <= order.len(),
                keys@.len() == library.mods@.len(),
                text::texts(out@) == unknown_ids(
                    order@,
                    library.mods@,
                    keys@,
                    cache.mods@,
                    i as int,
                ),
            decreases order.len() - i,
        {
            if !check_known(order[i].id.as_str(), &library.mods, keys, &cache.mods) {
                let id = order[i].id.clone();
                proof {
                    text::lemma_texts_push(out@, id);
                }
                out.push(id);
            }
            i = i + 1;
        }
    }
    out
}

/// Where nothing is unknown, the last ranking can be used.
pub proof fn law_nothing_unknown_is_ready(
    order: Seq<ProfileEntry>,
    mods: Seq<ModEntry>,
    keys: Seq<String>,
    known: Map<Seq<char>, CachedMod>,
    n: int,
)
    requires
        0 <= n <= order.len(),
        unknown_ids(order, mods, keys, known, n).len() == 0,
    ensures
        all_known(order.take(n), mods, keys, known),
    decreases n,
{
    if n > 0 {
        law_nothing_unknown_is_ready(order, mods, keys, known, n - 1);
        assert forall|i: int| 0 <= i < n && (#[trigger] order.take(n)[i]).enabled implies is_known(
            order.take(n)[i].id@,
            mods,
            keys,
            known,
        ) by {
            if i < n - 1 {
                assert(order.take(n - 1)[i] == order[i]);
            }
        }
    }
}

// ---------------------------------------------------------------------------
// How thoroughly to rank
// ---------------------------------------------------------------------------

/// How thoroughly mods must be read: all of them where nothing is known, and those
/// that are not known where a mere reordering was asked for.
pub open spec fn resolved_mode(
    requested: SmartRankRefreshMode,
    library: Library,
    cache: Option<SmartRankCache>,
    keys: Seq<String>,
) -> SmartRankRefreshMode {
    match cache {
        Some(c) => if requested is Full || c.version != SMART_RANK_CACHE_VERSION {
            SmartRankRefreshMode::Full
        } else if requested is ReorderOnly && !cache_ready(library, c, keys) {
            SmartRankRefreshMode::Incremental
        } else {
            requested
        },
        None => SmartRankRefreshMode::Full,
    }
}

pub fn resolve_smart_rank_refresh_kind(
    requested: SmartRankRefreshMode,
    library: &Library,
    cache: &Option<SmartRankCache>,
    keys: &Vec<String>,
) -> (r: SmartRankRefreshMode)
    requires
        keys@.len() == library.mods@.len(),
    ensures
        r == resolved_mode(requested, *library, *cache, keys@),
{
    match cache {
        Some(c) => {
            if matches!(requested, SmartRankRefreshMode::Full) || c.version
                != SMART_RANK_CACHE_VERSION {
                SmartRankRefreshMode::Full
            } else if matches!(requested, SmartRankRefreshMode::ReorderOnly)
                && !smart_rank_cache_ready_for(library, c, keys) {
                SmartRankRefreshMode::Incremental
            } else {
                requested
            }
        },
        None => SmartRankRefreshMode::Full,
    }
}

/// What is asked for is never done less thoroughly.
pub proof fn law_resolved_is_enough(
    requested: SmartRankRefreshMode,
    library: Library,
    cache: Option<SmartRankCache>,
    keys: Seq<String>,
)
    ensures
        thoroughness(resolved_mode(requested, library, cache, keys)) >= thoroughness(requested),
        resolved_mode(requested, library, cache, keys) is ReorderOnly ==> cache_ready(
            library,
            cache->Some_0,
            keys,
        ),
{
}

/// What a start asks for: nothing where the last ranking is of the load order as it
/// is.
pub open spec fn warmup_mode(
    library: Library,
    cache: Option<SmartRankCache>,
    keys: Seq<String>,
) -> Option<SmartRankRefreshMode> {
    match cache {
        Some(c) => {
            let same = c.profile_key@ == fingerprint::profile_key(library);
            let ready = cache_ready(library, c, keys);
            if c.version != SMART_RANK_CACHE_VERSION {
                Some(SmartRankRefreshMode::Full)
            } else if ready && same {
                None
            } else if ready {
                Some(SmartRankRefreshMode::ReorderOnly)
            } else {
                Some(SmartRankRefreshMode::Incremental)
            }
        },
        None => Some(SmartRankRefreshMode::Full),
    }
}

pub fn plan_warmup(library: &Library, cache: &Option<SmartRankCache>, keys: &Vec<String>) -> (r:
    Option<SmartRankRefreshMode>)
    requires
        keys@.len() == library.mods@.len(),
    ensures
        r == warmup_mode(*library, *cache, keys@),
{
    match cache {
        Some(c) => {
            if c.version != SMART_RANK_CACHE_VERSION {
                return Some(SmartRankRefreshMode::Full);
            }
            let key = smart_rank_profile_key_for(library);
            let same = same_text(c.profile_key.as_str(), key.as_str());
            let ready = smart_rank_cache_ready_for(library, c, keys);
            if ready && same {
                None
            } else if ready {
                Some(SmartRankRefreshMode::ReorderOnly)
            } else {
                Some(SmartRankRefreshMode::Incremental)
            }
        },
        None => Some(SmartRankRefreshMode::Full),
    }
}

/// Whether a mod is stored as it is now: under its id, with the key that it has now, and
/// with what was read of it.
pub open spec fn is_stored(
    cache: SmartRankCache,
    library: Library,
    keys: Seq<String>,
    k: int,
) -> bool {
    let id = library.mods@[k].id@;
    cache.mods@.contains_key(id) && cache.mods@[id].key@ == keys[k]@ && cache.mods@[id].has_data
}

/// A start asks for no ranking just where there is one, of this version and of the load
/// order as it is, and every mod that is on is stored as it is now.
pub proof fn law_no_warmup_where_current(
    library: Library,
    cache: Option<SmartRankCache>,
    keys: Seq<String>,
)
    ensures
        ({
            let at = library::profile_index(library.profiles@, library.active_profile@);
            let order = library.profiles@[at].order@;
            warmup_mode(library, cache, keys) is None <==> {
                &&& cache matches Some(c)
                &&& c.version == SMART_RANK_CACHE_VERSION
                &&& c.result is Some
                &&& c.profile_key@ == fingerprint::profile_key(library)
                &&& at >= 0
                &&& forall|i: int, k: int|
                    0 <= i < order.len() && (#[trigger] order[i]).enabled
                        && #[trigger] mod_changes::is_first_mod(library.mods@, order[i].id@, k)
                        ==> is_stored(c, library, keys, k)
            }
        }),
        cache is None ==> warmup_mode(library, cache, keys) == Some(SmartRankRefreshMode::Full),
        (cache matches Some(c) && c.version != SMART_RANK_CACHE_VERSION) ==> warmup_mode(
            library,
            cache,
            keys,
        ) == Some(SmartRankRefreshMode::Full),
{
    let at = library::profile_index(library.profiles@, library.active_profile@);
    let order = library.profiles@[at].order@;
    if let Some(c) = cache {
        if at >= 0 {
            if all_known(order, library.mods@, keys, c.mods@) {
                assert forall|i: int, k: int|
                    0 <= i < order.len() && (#[trigger] order[i]).enabled
                        && #[trigger] mod_changes::is_first_mod(
                        library.mods@,
                        order[i].id@,
                        k,
                    ) implies is_stored(c, library, keys, k) by {
                    native_apply::lemma_first_mod(library.mods@, order[i].id@);
                    assert(is_known(order[i].id@, library.mods@, keys, c.mods@));
                }
            }
            if forall|i: int, k: int|
                0 <= i < order.len() && (#[trigger] order[i]).enabled
                    && #[trigger] mod_changes::is_first_mod(library.mods@, order[i].id@, k)
                    ==> is_stored(c, library, keys, k) {
                assert forall|i: int| 0 <= i < order.len() && (#[trigger] order[i]).enabled implies
                    is_known(order[i].id@, library.mods@, keys, c.mods@) by {
                    native_apply::lemma_first_mod(library.mods@, order[i].id@);
                    let k = native_apply::first_mod(library.mods@, order[i].id@);
                    if k >= 0 {
                        assert(mod_changes::is_first_mod(library.mods@, order[i].id@, k));
                        assert(is_stored(c, library, keys, k));
                    }
                }
            }
        }
    }
}

/// Of two requests the more thorough is done: all over again before what is new, and that
/// before a mere reordering.
pub proof fn law_more_thorough_wins(a: SmartRankRefreshMode)
    ensures
        merged(SmartRankRefreshMode::Full, a) == SmartRankRefreshMode::Full,
        merged(a, SmartRankRefreshMode::ReorderOnly) == a,
        merged(SmartRankRefreshMode::Incremental, SmartRankRefreshMode::ReorderOnly)
            == SmartRankRefreshMode::Incremental,
{
}

} // verus!
