//! Taking over what the game says of its mods.
use crate::fingerprint;
use crate::fingerprint::{metadata_cache_key, METADATA_CACHE_VERSION};
use crate::library;
use crate::library::{
    find_profile, InstallTarget, Library, ModEntry, ModSource, PakInfo, Profile, ProfileEntry,
};
use crate::mod_changes;
use crate::mod_changes::find_mod;
use crate::native_order;
use crate::native_order::{follow_order, follow_switches};
use crate::native_sync::{NativeModUpdate, NativeSyncDelta};
use crate::sorting::has_string;
use crate::text;
use crate::text::{same_text, same_text_opt};
use vstd::prelude::*;

verus! {

// ---------------------------------------------------------------------------
// Whether things are the same
// ---------------------------------------------------------------------------

pub struct InfoView {
    pub uuid: Seq<char>,
    pub name: Seq<char>,
    pub folder: Seq<char>,
    pub version: u64,
    pub md5: Option<Seq<char>>,
    pub publish_handle: Option<u64>,
    pub author: Option<Seq<char>>,
    pub description: Option<Seq<char>>,
    pub module_type: Option<Seq<char>>,
}

pub open spec fn info_view(i: PakInfo) -> InfoView {
    InfoView {
        uuid: i.uuid@,
        name: i.name@,
        folder: i.folder@,
        version: i.version,
        md5: text::text_opt(i.md5),
        publish_handle: i.publish_handle,
        author: text::text_opt(i.author),
        description: text::text_opt(i.description),
        module_type: text::text_opt(i.module_type),
    }
}

pub enum TargetView {
    Pak { file: Seq<char>, info: InfoView },
    Generated { dir: Seq<char> },
    Data { dir: Seq<char> },
    Bin { dir: Seq<char> },
}

pub open spec fn target_view(t: InstallTarget) -> TargetView {
    match t {
        InstallTarget::Pak { file, info } => TargetView::Pak {
            file: file@,
            info: info_view(info),
        },
        InstallTarget::Generated { dir } => TargetView::Generated { dir: dir@ },
        InstallTarget::Data { dir } => TargetView::Data { dir: dir@ },
        InstallTarget::Bin { dir } => TargetView::Bin { dir: dir@ },
    }
}

pub open spec fn target_views(list: Seq<InstallTarget>) -> Seq<TargetView> {
    Seq::new(list.len(), |i: int| target_view(list[i]))
}

fn same_number(a: Option<u64>, b: Option<u64>) -> (r: bool)
    ensures
        r == (a == b),
{
    match (a, b) {
        (Some(x), Some(y)) => x == y,
        (None, None) => true,
        _ => false,
    }
}

pub(crate) fn same_time(a: Option<i64>, b: Option<i64>) -> (r: bool)
    ensures
        r == (a == b),
{
    match (a, b) {
        (Some(x), Some(y)) => x == y,
        (None, None) => true,
        _ => false,
    }
}

fn same_info(a: &PakInfo, b: &PakInfo) -> (r: bool)
    ensures
        r == (info_view(*a) == info_view(*b)),
{
    same_text(a.uuid.as_str(), b.uuid.as_str()) && same_text(a.name.as_str(), b.name.as_str())
        && same_text(a.folder.as_str(), b.folder.as_str()) && a.version == b.version
        && same_text_opt(&a.md5, &b.md5) && same_number(a.publish_handle, b.publish_handle)
        && same_text_opt(&a.author, &b.author) && same_text_opt(&a.description, &b.description)
        && same_text_opt(&a.module_type, &b.module_type)
}

fn same_target(a: &InstallTarget, b: &InstallTarget) -> (r: bool)
    ensures
        r == (target_view(*a) == target_view(*b)),
{
    match (a, b) {
        (
            InstallTarget::Pak { file: f, info: i },
            InstallTarget::Pak { file: g, info: j },
        ) => same_text(f.as_str(), g.as_str()) && same_info(i, j),
        (
            InstallTarget::Generated { dir: d },
            InstallTarget::Generated { dir: e },
        ) => same_text(d.as_str(), e.as_str()),
        (InstallTarget::Data { dir: d }, InstallTarget::Data { dir: e }) => same_text(
            d.as_str(),
            e.as_str(),
        ),
        (InstallTarget::Bin { dir: d }, InstallTarget::Bin { dir: e }) => same_text(
            d.as_str(),
            e.as_str(),
        ),
        _ => false,
    }
}

fn same_targets(a: &Vec<InstallTarget>, b: &Vec<InstallTarget>) -> (r: bool)
    ensures
        r == (target_views(a@) == target_views(b@)),
{
    let ghost x = target_views(a@);
    let ghost y = target_views(b@);
    if a.len() != b.len() {
        assert(x.len() != y.len());
        return false;
    }
    let mut i: usize = 0;
    while i < a.len()
        invariant
            i <= a.len() == b.len(),
            x == target_views(a@),
            y == target_views(b@),
            forall|k: int| 0 <= k < i ==> x[k] == y[k],
        decreases a.len() - i,
    {
        if !same_target(&a[i], &b[i]) {
            assert(x[i as int] != y[i as int]);
            return false;
        }
        i = i + 1;
    }
    assert(x =~= y);
    true
}

pub(crate) fn same_lists(a: &Vec<String>, b: &Vec<String>) -> (r: bool)
    ensures
        r == (text::texts(a@) == text::texts(b@)),
{
    let ghost x = text::texts(a@);
    let ghost y = text::texts(b@);
    if a.len() != b.len() {
        assert(x.len() != y.len());
        return false;
    }
    let mut i: usize = 0;
    while i < a.len()
        invariant
            i <= a.len() == b.len(),
            x == text::texts(a@),
            y == text::texts(b@),
            forall|k: int| 0 <= k < i ==> x[k] == y[k],
        decreases a.len() - i,
    {
        if !same_text(a[i].as_str(), b[i].as_str()) {
            assert(x[i as int] != y[i as int]);
            return false;
        }
        i = i + 1;
    }
    assert(x =~= y);
    true
}

// ---------------------------------------------------------------------------
// Updates
// ---------------------------------------------------------------------------

/// A mod after an update. Where the manager keeps files of the mod itself, it stays
/// a mod of the manager.
pub open spec fn updated(m: ModEntry, u: NativeModUpdate, managed: bool) -> ModEntry {
    if u.source == ModSource::Native && managed {
        ModEntry { source: ModSource::Managed, ..m }
    } else {
        ModEntry {
            source: u.source,
            name: u.name,
            source_label: u.source_label,
            targets: u.targets,
            created_at: u.created_at,
            modified_at: u.modified_at,
            dependencies: u.dependencies,
            ..m
        }
    }
}

pub open spec fn other_needs(m: ModEntry, u: NativeModUpdate, managed: bool) -> bool {
    !(u.source == ModSource::Native && managed) && text::texts(m.dependencies@) != text::texts(
        u.dependencies@,
    )
}

/// Whether an update changes anything.
pub open spec fn differs(m: ModEntry, u: NativeModUpdate, managed: bool) -> bool {
    if u.source == ModSource::Native && managed {
        m.source != ModSource::Managed
    } else {
        ||| m.source != u.source
        ||| m.name@ != u.name@
        ||| text::text_opt(m.source_label) != text::text_opt(u.source_label)
        ||| target_views(m.targets@) != target_views(u.targets@)
        ||| m.created_at != u.created_at
        ||| m.modified_at != u.modified_at
        ||| text::texts(m.dependencies@) != text::texts(u.dependencies@)
    }
}

/// Where the first mod with an id stands, or -1.
pub open spec fn first_mod(mods: Seq<ModEntry>, id: Seq<char>) -> int
    decreases mods.len(),
{
    if mods.len() == 0 {
        -1
    } else {
        let before = first_mod(mods.drop_last(), id);
        if before < 0 && mods.last().id@ == id {
            mods.len() - 1
        } else {
            before
        }
    }
}

pub proof fn lemma_first_mod(mods: Seq<ModEntry>, id: Seq<char>)
    ensures
        -1 <= first_mod(mods, id) < mods.len(),
        mod_changes::has_mod(mods, id) <==> first_mod(mods, id) >= 0,
        forall|i: int| #[trigger]
            mod_changes::is_first_mod(mods, id, i) ==> i == first_mod(mods, id),
        first_mod(mods, id) >= 0 ==> mod_changes::is_first_mod(mods, id, first_mod(mods, id)),
    decreases mods.len(),
{
    if mods.len() > 0 {
        let front = mods.drop_last();
        lemma_first_mod(front, id);
        let k = first_mod(mods, id);
        if k >= 0 {
            assert(mods[k].id@ == id);
            assert forall|j: int| 0 <= j < k implies (#[trigger] mods[j]).id@ != id by {
                assert(front[j].id@ != id);
            }
        } else {
            assert forall|j: int| 0 <= j < mods.len() implies (#[trigger] mods[j]).id@ != id by {
                if j < front.len() {
                    assert(front[j].id@ != id);
                }
            }
        }
    }
}

/// The mods after the first `n` updates. The manager keeps files of the mods whose
/// ids are in `rooted`.
pub open spec fn after_updates(
    mods: Seq<ModEntry>,
    updates: Seq<NativeModUpdate>,
    rooted: Seq<Seq<char>>,
    n: int,
) -> Seq<ModEntry>
    decreases n,
{
    if n <= 0 {
        mods
    } else {
        let before = after_updates(mods, updates, rooted, n - 1);
        let u = updates[n - 1];
        let at = first_mod(before, u.id@);
        if at >= 0 {
            before.update(at, updated(before[at], u, rooted.contains(u.id@)))
        } else {
            before
        }
    }
}

/// Whether one of the first `n` updates changes anything.
pub open spec fn updates_change(
    mods: Seq<ModEntry>,
    updates: Seq<NativeModUpdate>,
    rooted: Seq<Seq<char>>,
    n: int,
) -> bool
    decreases n,
{
    if n <= 0 {
        false
    } else {
        let before = after_updates(mods, updates, rooted, n - 1);
        let u = updates[n - 1];
        let at = first_mod(before, u.id@);
        updates_change(mods, updates, rooted, n - 1) || (at >= 0 && differs(
            before[at],
            u,
            rooted.contains(u.id@),
        ))
    }
}

/// Whether one of the first `n` updates changes what a mod needs.
pub open spec fn updates_needs(
    mods: Seq<ModEntry>,
    updates: Seq<NativeModUpdate>,
    rooted: Seq<Seq<char>>,
    n: int,
) -> bool
    decreases n,
{
    if n <= 0 {
        false
    } else {
        let before = after_updates(mods, updates, rooted, n - 1);
        let u = updates[n - 1];
        let at = first_mod(before, u.id@);
        updates_needs(mods, updates, rooted, n - 1) || (at >= 0 && other_needs(
            before[at],
            u,
            rooted.contains(u.id@),
        ))
    }
}

fn update_mod(m: &mut ModEntry, u: NativeModUpdate, managed: bool) -> (r: (bool, bool))
    ensures
        *final(m) == updated(*old(m), u, managed),
        r.0 == differs(*old(m), u, managed),
        r.1 == other_needs(*old(m), u, managed),
{
    let kept = managed && matches!(u.source, ModSource::Native);
    if kept {
        let changed = !matches!(m.source, ModSource::Managed);
        m.source = ModSource::Managed;
        return (changed, false);
    }
    let needs = !same_lists(&m.dependencies, &u.dependencies);
    let changed = needs || m.source != u.source || !same_text(m.name.as_str(), u.name.as_str())
        || !same_text_opt(&m.source_label, &u.source_label) || !same_targets(
        &m.targets,
        &u.targets,
    ) || !same_time(m.created_at, u.created_at) || !same_time(m.modified_at, u.modified_at);
    m.source = u.source;
    m.name = u.name;
    m.source_label = u.source_label;
    m.targets = u.targets;
    m.created_at = u.created_at;
    m.modified_at = u.modified_at;
    m.dependencies = u.dependencies;
    (changed, needs)
}

fn apply_updates(
    mods: &mut Vec<ModEntry>,
    updates: Vec<NativeModUpdate>,
    rooted: &Vec<String>,
) -> (r: (bool, bool))
    ensures
        final(mods)@ == after_updates(old(mods)@, updates@, text::texts(rooted@), updates@.len() as int),
        r.0 == updates_change(old(mods)@, updates@, text::texts(rooted@), updates@.len() as int),
        r.1 == updates_needs(old(mods)@, updates@, text::texts(rooted@), updates@.len() as int),
{
    let ghost start = mods@;
    let ghost all = updates@;
    let mut changed = false;
    let mut needs = false;
    let mut left = updates;
    assert(left@ =~= all.skip(0));
    while left.len() > 0
        invariant
            left.len() <= all.len(),
            start == old(mods)@,
            left@ == all.skip(all.len() - left.len()),
            mods@ == after_updates(start, all, text::texts(rooted@), all.len() - left.len()),
            changed == updates_change(start, all, text::texts(rooted@), all.len() - left.len()),
            needs == updates_needs(start, all, text::texts(rooted@), all.len() - left.len()),
        decreases left.len(),
    {
        let ghost at = all.len() - left.len();
        assert(left@[0] == all[at]);
        let u = left.remove(0);
        assert(left@ =~= all.skip(at + 1));
        let here = has_string(rooted, u.id.as_str());
        proof {
            lemma_first_mod(mods@, u.id@);
        }
        if let Some(i) = find_mod(mods, u.id.as_str()) {
            let (c, n) = update_mod(&mut mods[i], u, here);
            changed = changed || c;
            needs = needs || n;
        }
    }
    (changed, needs)
}

// ---------------------------------------------------------------------------
// New mods
// ---------------------------------------------------------------------------

/// The mods with those of the first `n` that are not there yet.
pub open spec fn with_new(mods: Seq<ModEntry>, more: Seq<ModEntry>, n: int) -> Seq<ModEntry>
    decreases n,
{
    if n <= 0 {
        mods
    } else {
        let before = with_new(mods, more, n - 1);
        if mod_changes::has_mod(before, more[n - 1].id@) {
            before
        } else {
            before.push(more[n - 1])
        }
    }
}

/// Whether one of the new mods needs anything.
pub open spec fn new_needs(mods: Seq<ModEntry>, more: Seq<ModEntry>, n: int) -> bool
    decreases n,
{
    if n <= 0 {
        false
    } else {
        new_needs(mods, more, n - 1) || (!mod_changes::has_mod(
            with_new(mods, more, n - 1),
            more[n - 1].id@,
        ) && more[n - 1].dependencies@.len() > 0)
    }
}

fn add_new(mods: &mut Vec<ModEntry>, more: Vec<ModEntry>) -> (needs: bool)
    ensures
        final(mods)@ == with_new(old(mods)@, more@, more@.len() as int),
        needs == new_needs(old(mods)@, more@, more@.len() as int),
        final(mods).len() >= old(mods).len(),
{
    let ghost start = mods@;
    let ghost all = more@;
    let mut needs = false;
    let mut left = more;
    assert(left@ =~= all.skip(0));
    while left.len() > 0
        invariant
            left.len() <= all.len(),
            start == old(mods)@,
            left@ == all.skip(all.len() - left.len()),
            mods@ == with_new(start, all, all.len() - left.len()),
            needs == new_needs(start, all, all.len() - left.len()),
            mods.len() >= start.len(),
        decreases left.len(),
    {
        let ghost at = all.len() - left.len();
        assert(left@[0] == all[at]);
        let m = left.remove(0);
        assert(left@ =~= all.skip(at + 1));
        if find_mod(mods, m.id.as_str()).is_none() {
            if !m.dependencies.is_empty() {
                needs = true;
            }
            mods.push(m);
        }
    }
    needs
}

// ---------------------------------------------------------------------------
// Where mods come from
// ---------------------------------------------------------------------------

/// The mods, with those that the manager keeps files of as its own.
pub open spec fn sources_kept(mods: Seq<ModEntry>, rooted: Seq<Seq<char>>) -> Seq<ModEntry> {
    Seq::new(
        mods.len(),
        |i: int|
            if rooted.contains(mods[i].id@) {
                ModEntry { source: ModSource::Managed, ..mods[i] }
            } else {
                mods[i]
            },
    )
}

/// Makes the mods that the manager keeps files of its own. The result says whether
/// that changed anything.
pub fn normalize_mod_sources(mods: &mut Vec<ModEntry>, rooted: &Vec<String>) -> (changed: bool)
    ensures
        final(mods)@ == sources_kept(old(mods)@, text::texts(rooted@)),
        changed == (final(mods)@ != old(mods)@),
{
    let ghost start = mods@;
    let ghost goal = sources_kept(start, text::texts(rooted@));
    let mut changed = false;
    let mut i: usize = 0;
    while i < mods.len()
        invariant
            i <= mods.len() == start.len(),
            start == old(mods)@,
            goal == sources_kept(start, text::texts(rooted@)),
            forall|j: int| 0 <= j < i ==> mods@[j] == goal[j],
            forall|j: int| i <= j < start.len() ==> mods@[j] == start[j],
            changed <==> exists|j: int| 0 <= j < i && #[trigger] goal[j] != start[j],
        decreases mods.len() - i,
    {
        if has_string(rooted, mods[i].id.as_str()) && !matches!(mods[i].source, ModSource::Managed) {
            mods[i].source = ModSource::Managed;
            changed = true;
            assert(goal[i as int] != start[i as int]);
        }
        assert(mods@[i as int] == goal[i as int]);
        i = i + 1;
    }
    assert(mods@ =~= goal);
    proof {
        if !changed {
            assert(goal =~= start);
        }
    }
    changed
}

// ---------------------------------------------------------------------------
// The whole
// ---------------------------------------------------------------------------

/// What taking over the game's mods came to.
pub struct NativeSyncOutcome {
    /// How many mods are new.
    pub added: usize,
    /// Whether what is switched on has changed.
    pub updated_enabled: bool,
    pub reordered: bool,
    /// Whether a mod needs something else than before.
    pub dependencies_changed: bool,
    /// Whether there is anything to store.
    pub changed: bool,
}

/// Whether the game's settings are others than those last seen.
pub open spec fn hash_differs(library: Library, delta: NativeSyncDelta) -> bool {
    text::text_opt(delta.modsettings_hash) != text::text_opt(library.modsettings_hash)
}

/// The mods of the library before it is settled where they come from. What the
/// library lacks is only taken in where the game's settings changed, so that what was
/// removed stays removed.
pub open spec fn synced_mods(
    library: Library,
    delta: NativeSyncDelta,
    rooted: Seq<Seq<char>>,
) -> Seq<ModEntry> {
    let known = after_updates(library.mods@, delta.updates@, rooted, delta.updates@.len() as int);
    if hash_differs(library, delta) {
        with_new(known, delta.added@, delta.added@.len() as int)
    } else {
        known
    }
}

/// Whether the load order follows the game.
pub open spec fn follows_game(library: Library, delta: NativeSyncDelta) -> bool {
    delta.modsettings_exists && hash_differs(library, delta) && library.modsettings_sync_enabled
}

/// The active load order after the game's, seen as ids and switches.
pub open spec fn game_order(
    order: Seq<ProfileEntry>,
    mods: Seq<ModEntry>,
    delta: NativeSyncDelta,
    blocks: Seq<Seq<char>>,
) -> Seq<(Seq<char>, bool)> {
    library::entries(
        native_order::rearranged(
            native_order::followed(order, mods, text::texts(delta.enabled_set@), blocks),
            mods,
            text::texts(delta.order@),
        ),
    )
}

/// Whether the profiles `new` are the profiles `old` with entries for new mods.
pub open spec fn profiles_grown(
    old: Seq<Profile>,
    new: Seq<Profile>,
    mods: Seq<ModEntry>,
    grown: bool,
) -> bool {
    &&& new.len() == old.len()
    &&& forall|i: int|
        0 <= i < old.len() ==> if grown {
            library::ensured(old[i], #[trigger] new[i], library::mod_ids(mods))
        } else {
            new[i] == old[i]
        }
}

/// Whether the profiles `new` are the profiles `old` with the one at `at` following
/// the game.
pub open spec fn profile_follows(
    old: Seq<Profile>,
    new: Seq<Profile>,
    at: int,
    order: Seq<(Seq<char>, bool)>,
) -> bool {
    &&& new.len() == old.len()
    &&& new[at].name == old[at].name
    &&& new[at].file_overrides == old[at].file_overrides
    &&& library::entries(new[at].order@) == order
    &&& forall|i: int| 0 <= i < old.len() && i != at ==> #[trigger] new[i] == old[i]
}

/// Whether the profiles went from `old` over `mid` to `new`.
pub open spec fn profiles_synced(
    old: Library,
    mid: Seq<Profile>,
    new: Seq<Profile>,
    delta: NativeSyncDelta,
    mods: Seq<ModEntry>,
    r: NativeSyncOutcome,
) -> bool {
    let at = library::profile_index(mid, old.active_profile@);
    let blocks = text::texts(old.dependency_blocks@);
    let on = text::texts(delta.enabled_set@);
    &&& profiles_grown(old.profiles@, mid, mods, r.added > 0)
    &&& if follows_game(old, delta) && at >= 0 {
        let followed = native_order::followed(mid[at].order@, mods, on, blocks);
        &&& profile_follows(mid, new, at, game_order(mid[at].order@, mods, delta, blocks))
        &&& r.updated_enabled == (followed != mid[at].order@)
        &&& r.reordered == (library::entries(new[at].order@) != library::entries(followed))
    } else {
        new == mid && !r.updated_enabled && !r.reordered
    }
}

proof fn lemma_updates_len(
    mods: Seq<ModEntry>,
    updates: Seq<NativeModUpdate>,
    rooted: Seq<Seq<char>>,
    n: int,
)
    ensures
        after_updates(mods, updates, rooted, n).len() == mods.len(),
    decreases n,
{
    if n > 0 {
        lemma_updates_len(mods, updates, rooted, n - 1);
        lemma_first_mod(after_updates(mods, updates, rooted, n - 1), updates[n - 1].id@);
    }
}

pub proof fn lemma_updates_ids(
    mods: Seq<ModEntry>,
    updates: Seq<NativeModUpdate>,
    rooted: Seq<Seq<char>>,
    n: int,
)
    ensures
        library::mod_ids(after_updates(mods, updates, rooted, n)) == library::mod_ids(mods),
    decreases n,
{
    let all = after_updates(mods, updates, rooted, n);
    lemma_updates_len(mods, updates, rooted, n);
    if n > 0 {
        lemma_updates_ids(mods, updates, rooted, n - 1);
        let before = after_updates(mods, updates, rooted, n - 1);
        lemma_updates_len(mods, updates, rooted, n - 1);
        lemma_first_mod(before, updates[n - 1].id@);
        assert(library::mod_ids(all) =~= library::mod_ids(before));
    }
}

/// While the game's settings stay as they were, no mod comes in: what was removed
/// stays removed.
pub proof fn law_same_settings_add_nothing(
    library: Library,
    delta: NativeSyncDelta,
    rooted: Seq<Seq<char>>,
)
    requires
        !hash_differs(library, delta),
    ensures
        library::mod_ids(sources_kept(synced_mods(library, delta, rooted), rooted))
            == library::mod_ids(library.mods@),
{
    let synced = synced_mods(library, delta, rooted);
    lemma_updates_ids(library.mods@, delta.updates@, rooted, delta.updates@.len() as int);
    assert(library::mod_ids(sources_kept(synced, rooted)) =~= library::mod_ids(synced));
}

/// Whether what was found of the game's mods has been taken over into a library. The
/// manager keeps files of the mods whose ids are in `kept`.
pub open spec fn delta_applied(
    after: Library,
    before: Library,
    delta: NativeSyncDelta,
    kept: Seq<Seq<char>>,
    r: NativeSyncOutcome,
) -> bool {
    let n = delta.updates@.len() as int;
    let m = delta.added@.len() as int;
    let mods = before.mods@;
    let known = after_updates(mods, delta.updates@, kept, n);
    let synced = synced_mods(before, delta, kept);
    let differs = hash_differs(before, delta);
    &&& after.mods@ == sources_kept(synced, kept)
    &&& r.added == synced.len() - mods.len()
    &&& exists|mid: Seq<Profile>| #[trigger]
        profiles_synced(before, mid, after.profiles@, delta, synced, r)
    &&& r.dependencies_changed == (updates_needs(mods, delta.updates@, kept, n) || (differs
        && new_needs(known, delta.added@, m)))
    &&& r.changed == (r.added > 0 || r.updated_enabled || r.reordered || delta.updated_native_files
        > 0 || delta.adopted_native > 0 || updates_change(mods, delta.updates@, kept, n) || differs
        || sources_kept(synced, kept) != synced)
    &&& text::text_opt(after.modsettings_hash) == text::text_opt(delta.modsettings_hash)
    &&& after == (Library {
        mods: after.mods,
        profiles: after.profiles,
        modsettings_hash: after.modsettings_hash,
        metadata_cache_key: after.metadata_cache_key,
        metadata_cache_version: after.metadata_cache_version,
        ..before
    })
    &&& if r.changed {
        &&& after.metadata_cache_version == METADATA_CACHE_VERSION
        &&& text::text_opt(after.metadata_cache_key) == Some(fingerprint::mods_key(after.mods@))
    } else {
        &&& after.metadata_cache_version == before.metadata_cache_version
        &&& after.metadata_cache_key == before.metadata_cache_key
    }
}

impl Library {
    /// Takes over what the game says of its mods. The manager keeps files of the mods
    /// whose ids are in `rooted`.
    pub fn apply_native_sync_delta(&mut self, delta: NativeSyncDelta, rooted: &Vec<String>) -> (r:
        NativeSyncOutcome)
        ensures
            delta_applied(*final(self), *old(self), delta, text::texts(rooted@), r),
    {
        let ghost start = *self;
        let ghost kept = text::texts(rooted@);
        let differs = !same_text_opt(&delta.modsettings_hash, &self.modsettings_hash);
        let NativeSyncDelta {
            updates,
            added,
            updated_native_files,
            adopted_native,
            modsettings_exists,
            modsettings_hash,
            enabled_set,
            order,
        } = delta;
        let before = self.mods.len();
        proof {
            lemma_updates_len(start.mods@, updates@, kept, updates@.len() as int);
        }
        let (updates_changed, updates_needs) = apply_updates(&mut self.mods, updates, rooted);
        let mut needs = updates_needs;
        if differs {
            if add_new(&mut self.mods, added) {
                needs = true;
            }
            self.modsettings_hash = modsettings_hash;
        }
        let count: usize = self.mods.len() - before;
        if count > 0 {
            self.ensure_mods_in_profiles();
        }
        let ghost mid = self.profiles@;
        let mut switched = false;
        let mut reordered = false;
        proof {
            library::lemma_profile_index(self.profiles@, self.active_profile@);
        }
        if modsettings_exists && differs && self.modsettings_sync_enabled {
            let index = self.index_by_id();
            if let Some(at) = find_profile(&self.profiles, self.active_profile.as_str()) {
                switched = follow_switches(
                    &mut self.profiles[at].order,
                    &self.mods,
                    &index,
                    &enabled_set,
                    &self.dependency_blocks,
                );
                reordered = follow_order(
                    &mut self.profiles[at].order,
                    &self.mods,
                    &index,
                    &order,
                );
            }
        }
        let moved = normalize_mod_sources(&mut self.mods, rooted);
        let changed = count > 0 || switched || reordered || updated_native_files > 0
            || adopted_native > 0 || updates_changed || differs || moved;
        if changed {
            self.metadata_cache_key = Some(metadata_cache_key(&self.mods));
            self.metadata_cache_version = METADATA_CACHE_VERSION;
        }
        let r = NativeSyncOutcome {
            added: count,
            updated_enabled: switched,
            reordered,
            dependencies_changed: needs,
            changed,
        };
        proof {
            let synced = synced_mods(start, delta, kept);
            assert(profiles_synced(start, mid, self.profiles@, delta, synced, r));
        }
        r
    }
}

} // verus!
