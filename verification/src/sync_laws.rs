//! What following the game promises: who is on afterwards, who comes in, and what is left
//! alone.
use crate::cli_lists;
use crate::library;
use crate::library::{InstallTarget, Library, ModEntry, ModSource, ProfileEntry, TargetKind};
use crate::lists;
use crate::mod_changes;
use crate::modsettings::{ModSettingsModule, ModSettingsSnapshot};
use crate::native_apply;
use crate::native_apply::NativeSyncOutcome;
use crate::native_order;
use crate::native_sync;
use crate::native_sync::NativeSyncDelta;
use crate::text;
use vstd::prelude::*;

verus! {

/// Whether the mod with an id, the last of several, brings a package.
pub open spec fn has_package(mods: Seq<ModEntry>, id: Seq<char>) -> bool {
    let at = library::last_index(mods, id);
    at >= 0 && exists|t: int|
        0 <= t < mods[at].targets@.len() && (#[trigger] mods[at].targets@[t]) is Pak
}

proof fn lemma_has_package(mods: Seq<ModEntry>, id: Seq<char>)
    ensures
        has_package(mods, id) == native_order::mod_has_pak(mods, id),
{
    let at = library::last_index(mods, id);
    if at >= 0 {
        let targets = mods[at].targets@;
        if has_package(mods, id) {
            let t = choose|t: int| 0 <= t < targets.len() && (#[trigger] targets[t]) is Pak;
            assert(targets[t].kind_of() == TargetKind::Pak);
        }
        if native_order::mod_has_pak(mods, id) {
            let t = choose|t: int|
                0 <= t < targets.len() && (#[trigger] targets[t]).kind_of() == TargetKind::Pak;
            assert(targets[t] is Pak);
        }
    }
}

proof fn lemma_same_last(a: Seq<ModEntry>, b: Seq<ModEntry>, id: Seq<char>)
    requires
        a.len() == b.len(),
        forall|i: int|
            0 <= i < a.len() ==> (#[trigger] a[i]).id == b[i].id && a[i].targets == b[i].targets,
    ensures
        library::last_index(a, id) == library::last_index(b, id),
    decreases a.len(),
{
    if a.len() > 0 {
        assert(a.last() == a[a.len() - 1]);
        assert(a.last().id == b.last().id);
        let x = a.drop_last();
        let y = b.drop_last();
        assert forall|i: int| 0 <= i < x.len() implies (#[trigger] x[i]).id == y[i].id
            && x[i].targets == y[i].targets by {
            assert(a[i].id == b[i].id);
        }
        lemma_same_last(x, y, id);
    }
}

/// Where an entry of a rearranged load order came from.
proof fn lemma_came_from(
    order: Seq<ProfileEntry>,
    mods: Seq<ModEntry>,
    wish: Seq<Seq<char>>,
    x: int,
) -> (i: int)
    requires
        0 <= x < native_order::rearranged(order, mods, wish).len(),
    ensures
        0 <= i < order.len(),
        native_order::rearranged(order, mods, wish)[x] == order[i],
{
    let ids = native_order::game_ids(order, mods, wish);
    if wish.len() > 0 && ids.len() == order.len() {
        native_order::lemma_known_ids(order, mods, wish);
        let own = library::order_ids(order);
        assert(own.contains(ids[x]));
        let k = choose|k: int| 0 <= k < own.len() && own[k] == ids[x];
        native_order::lemma_last_entry(order, ids[x], k);
        cli_lists::last_entry(order, ids[x])
    } else {
        x
    }
}

/// Once a library follows changed settings of the game, each mod with a package in the
/// active profile is on exactly where the game has it on and nothing holds it back.
pub proof fn law_active_profile_follows(
    after: Library,
    before: Library,
    delta: NativeSyncDelta,
    kept: Seq<Seq<char>>,
    r: NativeSyncOutcome,
    at: int,
    x: int,
)
    requires
        native_apply::delta_applied(after, before, delta, kept, r),
        delta.modsettings_exists,
        text::text_opt(delta.modsettings_hash) != text::text_opt(before.modsettings_hash),
        before.modsettings_sync_enabled,
        at == library::profile_index(after.profiles@, before.active_profile@),
        at >= 0,
        0 <= x < after.profiles@[at].order@.len(),
        has_package(after.mods@, after.profiles@[at].order@[x].id@),
    ensures
        ({
            let e = after.profiles@[at].order@[x];
            e.enabled <==> text::texts(delta.enabled_set@).contains(e.id@) && !text::texts(
                before.dependency_blocks@,
            ).contains(e.id@)
        }),
{
    let synced = native_apply::synced_mods(before, delta, kept);
    let mid = choose|mid: Seq<library::Profile>| #[trigger]
        native_apply::profiles_synced(before, mid, after.profiles@, delta, synced, r);
    let on = text::texts(delta.enabled_set@);
    let blocks = text::texts(before.dependency_blocks@);
    let wish = text::texts(delta.order@);
    let k = library::profile_index(mid, before.active_profile@);
    library::lemma_profile_index(mid, before.active_profile@);
    library::lemma_profile_index(after.profiles@, before.active_profile@);
    assert(after.profiles@.len() == mid.len());
    assert forall|i: int| 0 <= i < mid.len() implies (#[trigger] after.profiles@[i]).name
        == mid[i].name by {
        if k >= 0 && i == k {
        } else {
            assert(after.profiles@[i] == mid[i]);
        }
    }
    lemma_same_profile(mid, after.profiles@, before.active_profile@);
    assert(k == at);
    let order = mid[at].order@;
    let followed = native_order::followed(order, synced, on, blocks);
    let new = native_order::rearranged(followed, synced, wish);
    let list = after.profiles@[at].order@;
    assert(library::entries(list) == library::entries(new));
    assert(library::entries(list).len() == list.len());
    assert(library::entries(list)[x] == library::entries(new)[x]);
    let i = lemma_came_from(followed, synced, wish, x);
    assert(new[x] == followed[i]);
    let id = list[x].id@;
    assert(id == order[i].id@);
    lemma_same_last(after.mods@, synced, id);
    lemma_has_package(synced, id);
    library::lemma_last_index(synced, id);
    assert(has_package(synced, id)) by {
        let p = library::last_index(synced, id);
        let t = choose|t: int|
            0 <= t < after.mods@[p].targets@.len() && (#[trigger] after.mods@[p].targets@[t]) is Pak;
        assert(synced[p].targets@[t] is Pak);
    }
}

proof fn lemma_same_profile(
    a: Seq<library::Profile>,
    b: Seq<library::Profile>,
    name: Seq<char>,
)
    requires
        a.len() == b.len(),
        forall|i: int| 0 <= i < a.len() ==> (#[trigger] b[i]).name == a[i].name,
    ensures
        library::profile_index(a, name) == library::profile_index(b, name),
{
    library::lemma_profile_index(a, name);
    library::lemma_profile_index(b, name);
    let x = library::profile_index(a, name);
    let y = library::profile_index(b, name);
    if x >= 0 {
        assert(b[x].name == a[x].name);
    }
    if y >= 0 {
        assert(b[y].name == a[y].name);
    }
}

/// What the game has on are the modules in its order; where it has no order, all modules
/// that it lists.
pub proof fn law_game_has_on(
    delta: NativeSyncDelta,
    snapshot: ModSettingsSnapshot,
    id: Seq<char>,
)
    requires
        text::texts(delta.enabled_set@) == if snapshot.order@.len() == 0 {
            crate::fingerprint::module_ids(snapshot.modules@)
        } else {
            text::texts(snapshot.order@)
        },
    ensures
        snapshot.order@.len() > 0 ==> (text::texts(delta.enabled_set@).contains(id)
            <==> text::texts(snapshot.order@).contains(id)),
        snapshot.order@.len() == 0 ==> (text::texts(delta.enabled_set@).contains(id) <==> exists|
            i: int,
        |
            0 <= i < snapshot.modules@.len() && (#[trigger] snapshot.modules@[i]).info.uuid@ == id),
{
    if snapshot.order@.len() == 0 {
        let ids = crate::fingerprint::module_ids(snapshot.modules@);
        if ids.contains(id) {
            let i = choose|i: int| 0 <= i < ids.len() && ids[i] == id;
            assert(snapshot.modules@[i].info.uuid@ == id);
        }
        if exists|i: int|
            0 <= i < snapshot.modules@.len() && (#[trigger] snapshot.modules@[i]).info.uuid@ == id {
            let i = choose|i: int|
                0 <= i < snapshot.modules@.len() && (#[trigger] snapshot.modules@[i]).info.uuid@
                    == id;
            assert(ids[i] == id);
        }
    }
}

/// Where the game's settings are gone, stay as they were, or are not to be followed, no
/// switch changes and nothing moves; without new mods every profile stays as it is.
pub proof fn law_unfollowed_stays(
    after: Library,
    before: Library,
    delta: NativeSyncDelta,
    kept: Seq<Seq<char>>,
    r: NativeSyncOutcome,
)
    requires
        native_apply::delta_applied(after, before, delta, kept, r),
        !delta.modsettings_exists || text::text_opt(delta.modsettings_hash) == text::text_opt(
            before.modsettings_hash,
        ) || !before.modsettings_sync_enabled,
    ensures
        !r.updated_enabled,
        !r.reordered,
        r.added == 0 ==> after.profiles@ == before.profiles@,
{
    let synced = native_apply::synced_mods(before, delta, kept);
    let mid = choose|mid: Seq<library::Profile>| #[trigger]
        native_apply::profiles_synced(before, mid, after.profiles@, delta, synced, r);
    if r.added == 0 {
        assert(mid =~= before.profiles@);
    }
}

/// Profiles other than the active one never follow the game.
pub proof fn law_other_profiles_stay(
    after: Library,
    before: Library,
    delta: NativeSyncDelta,
    kept: Seq<Seq<char>>,
    r: NativeSyncOutcome,
    i: int,
)
    requires
        native_apply::delta_applied(after, before, delta, kept, r),
        r.added == 0,
        0 <= i < before.profiles@.len(),
        before.profiles@[i].name@ != before.active_profile@,
    ensures
        after.profiles@.len() == before.profiles@.len(),
        after.profiles@[i] == before.profiles@[i],
{
    let synced = native_apply::synced_mods(before, delta, kept);
    let mid = choose|mid: Seq<library::Profile>| #[trigger]
        native_apply::profiles_synced(before, mid, after.profiles@, delta, synced, r);
    assert(mid =~= before.profiles@);
    library::lemma_profile_index(mid, before.active_profile@);
}

proof fn lemma_with_new(mods: Seq<ModEntry>, more: Seq<ModEntry>, n: int, id: Seq<char>)
    requires
        0 <= n <= more.len(),
    ensures
        ({
            let all = native_apply::with_new(mods, more, n);
            &&& all.len() >= mods.len()
            &&& all.take(mods.len() as int) == mods
            &&& library::mod_ids(all).contains(id) <==> library::mod_ids(mods).contains(id)
                || exists|k: int| 0 <= k < n && (#[trigger] more[k]).id@ == id
        }),
    decreases n,
{
    let all = native_apply::with_new(mods, more, n);
    if n <= 0 {
        assert(all.take(mods.len() as int) =~= mods);
    } else {
        let before = native_apply::with_new(mods, more, n - 1);
        let m = more[n - 1];
        lemma_with_new(mods, more, n - 1, id);
        lemma_with_new(mods, more, n - 1, m.id@);
        assert(mod_changes::has_mod(before, m.id@) <==> library::mod_ids(before).contains(m.id@))
            by {
            let ids = library::mod_ids(before);
            if ids.contains(m.id@) {
                let k = choose|k: int| 0 <= k < ids.len() && ids[k] == m.id@;
                assert(before[k].id@ == m.id@);
            }
            if mod_changes::has_mod(before, m.id@) {
                let k = choose|k: int|
                    0 <= k < before.len() && (#[trigger] before[k]).id@ == m.id@;
                assert(ids[k] == m.id@);
            }
        }
        if !mod_changes::has_mod(before, m.id@) {
            assert(all.take(mods.len() as int) =~= before.take(mods.len() as int));
            assert(library::mod_ids(all) =~= library::mod_ids(before).push(m.id@));
            lists::lemma_push_contains(library::mod_ids(before), m.id@, id);
        }
    }
}

/// Where the game's settings have changed, each mod that was found new is in the library
/// afterwards, and none that was there is lost.
pub proof fn law_new_mods_come_in(
    after: Library,
    before: Library,
    delta: NativeSyncDelta,
    kept: Seq<Seq<char>>,
    r: NativeSyncOutcome,
    id: Seq<char>,
)
    requires
        native_apply::delta_applied(after, before, delta, kept, r),
        text::text_opt(delta.modsettings_hash) != text::text_opt(before.modsettings_hash),
    ensures
        library::mod_ids(after.mods@).contains(id) <==> library::mod_ids(before.mods@).contains(id)
            || exists|k: int| 0 <= k < delta.added@.len() && (#[trigger] delta.added@[k]).id@ == id,
{
    let n = delta.updates@.len() as int;
    let known = native_apply::after_updates(before.mods@, delta.updates@, kept, n);
    let synced = native_apply::synced_mods(before, delta, kept);
    native_apply::lemma_updates_ids(before.mods@, delta.updates@, kept, n);
    lemma_with_new(known, delta.added@, delta.added@.len() as int, id);
    assert(library::mod_ids(after.mods@) =~= library::mod_ids(synced));
}

// ---------------------------------------------------------------------------
// What the library lacks
// ---------------------------------------------------------------------------

proof fn lemma_last_module(modules: Seq<ModSettingsModule>, id: Seq<char>)
    ensures
        -1 <= native_sync::last_module(modules, id) < modules.len(),
        native_sync::last_module(modules, id) >= 0 <==> exists|i: int|
            0 <= i < modules.len() && (#[trigger] modules[i]).info.uuid@ == id,
        native_sync::last_module(modules, id) >= 0 ==> modules[native_sync::last_module(
            modules,
            id,
        )].info.uuid@ == id,
    decreases modules.len(),
{
    if modules.len() > 0 {
        let front = modules.drop_last();
        lemma_last_module(front, id);
        assert(modules.last() == modules[modules.len() - 1]);
        if exists|i: int| 0 <= i < modules.len() && (#[trigger] modules[i]).info.uuid@ == id {
            let i = choose|i: int|
                0 <= i < modules.len() && (#[trigger] modules[i]).info.uuid@ == id;
            if i < front.len() {
                assert(front[i].info.uuid@ == id);
            }
        }
        if exists|i: int| 0 <= i < front.len() && (#[trigger] front[i]).info.uuid@ == id {
            let i = choose|i: int| 0 <= i < front.len() && (#[trigger] front[i]).info.uuid@ == id;
            assert(modules[i].info.uuid@ == id);
        }
    }
}

proof fn lemma_lacking_in_order(
    modules: Seq<ModSettingsModule>,
    order: Seq<Seq<char>>,
    known: Seq<Seq<char>>,
    n: int,
    at: int,
)
    requires
        0 <= n <= order.len(),
    ensures
        native_sync::lacking_in_order(modules, order, known, n).contains(at) <==> (0 <= at
            < modules.len() && native_sync::last_module(modules, modules[at].info.uuid@) == at
            && !known.contains(modules[at].info.uuid@) && order.take(n).contains(
            modules[at].info.uuid@,
        )),
    decreases n,
{
    if n > 0 {
        lemma_lacking_in_order(modules, order, known, n - 1, at);
        let before = native_sync::lacking_in_order(modules, order, known, n - 1);
        let id = order[n - 1];
        lemma_last_module(modules, id);
        lists::lemma_push_contains(before, native_sync::last_module(modules, id), at);
        assert(order.take(n) =~= order.take(n - 1).push(id));
        assert(before.contains(at) || !before.contains(at));
        if 0 <= at < modules.len() {
            lists::lemma_push_contains(order.take(n - 1), id, modules[at].info.uuid@);
        }
    }
}

proof fn lemma_lacking_besides(
    modules: Seq<ModSettingsModule>,
    order: Seq<Seq<char>>,
    known: Seq<Seq<char>>,
    n: int,
    at: int,
)
    requires
        0 <= n <= modules.len(),
    ensures
        native_sync::lacking_besides(modules, order, known, n).contains(at) <==> (0 <= at < n
            && native_sync::last_module(modules, modules[at].info.uuid@) == at && !known.contains(
            modules[at].info.uuid@,
        ) && !order.contains(modules[at].info.uuid@)),
    decreases n,
{
    if n > 0 {
        lemma_lacking_besides(modules, order, known, n - 1, at);
        let before = native_sync::lacking_besides(modules, order, known, n - 1);
        lists::lemma_push_contains(before, n - 1, at);
        assert(before.contains(at) || !before.contains(at));
    }
}

/// A module of the game's settings is taken for new exactly where the library has no mod
/// with its id; of several modules with one id it is one of them.
pub proof fn law_unknown_modules_are_new(
    s: ModSettingsSnapshot,
    known: Seq<Seq<char>>,
    id: Seq<char>,
)
    ensures
        (exists|k: int|
            0 <= k < native_sync::lacking(s, known).len() && 0 <= #[trigger] native_sync::lacking(
                s,
                known,
            )[k] < s.modules@.len() && s.modules@[native_sync::lacking(s, known)[k]].info.uuid@
                == id) <==> (!known.contains(id) && exists|i: int|
            0 <= i < s.modules@.len() && (#[trigger] s.modules@[i]).info.uuid@ == id),
{
    let order = text::texts(s.order@);
    let modules = s.modules@;
    let all = native_sync::lacking(s, known);
    let first = native_sync::lacking_in_order(modules, order, known, order.len() as int);
    let second = native_sync::lacking_besides(modules, order, known, modules.len() as int);
    let at = native_sync::last_module(modules, id);
    lemma_last_module(modules, id);
    lemma_lacking_in_order(modules, order, known, order.len() as int, at);
    lemma_lacking_besides(modules, order, known, modules.len() as int, at);
    assert(order.take(order.len() as int) =~= order);
    if !known.contains(id) && at >= 0 {
        if order.contains(id) {
            let k = choose|k: int| 0 <= k < first.len() && first[k] == at;
            assert(all[k] == at);
        } else {
            let k = choose|k: int| 0 <= k < second.len() && second[k] == at;
            assert(all[first.len() + k] == at);
        }
    }
    if exists|k: int|
        0 <= k < all.len() && 0 <= #[trigger] all[k] < modules.len() && modules[all[k]].info.uuid@
            == id {
        let k = choose|k: int|
            0 <= k < all.len() && 0 <= #[trigger] all[k] < modules.len()
                && modules[all[k]].info.uuid@ == id;
        lemma_lacking_in_order(modules, order, known, order.len() as int, all[k]);
        lemma_lacking_besides(modules, order, known, modules.len() as int, all[k]);
        if k < first.len() {
            assert(first.contains(all[k]));
        } else {
            assert(second[k - first.len()] == all[k]);
            assert(second.contains(all[k]));
        }
        assert(modules[all[k]].info.uuid@ == id);
    }
}

/// A module that is taken in becomes a mod of the game with one package: by the module's
/// id and name, with all that the module states, and with the file that was found for it,
/// or else the one called by its folder.
pub proof fn law_module_becomes_mod(
    m: ModEntry,
    module: ModSettingsModule,
    f: native_sync::PakFacts,
    now: i64,
)
    requires
        native_sync::is_native_mod(m, module, Some(f), now),
    ensures
        m.id@ == module.info.uuid@,
        m.name@ == module.info.name@,
        m.source == ModSource::Native,
        m.added_at == now,
        m.targets@.len() == 1,
        m.targets@[0] matches InstallTarget::Pak { file, info } && info == module.info
            && file@ == match f.filename {
            Some(n) => n@,
            None => module.info.folder@ + ".pak"@,
        },
        !text::texts(m.dependencies@).contains(m.id@),
        forall|d: Seq<char>| #[trigger]
            text::texts(m.dependencies@).contains(d) ==> text::texts(f.dependencies@).contains(d),
        forall|d: Seq<char>|
            text::texts(f.dependencies@).contains(d) && !text::same_ignoring_case(d, m.id@)
                ==> #[trigger] text::texts(m.dependencies@).contains(d),
{
    let found = text::texts(f.dependencies@);
    let keep = |d: Seq<char>| !text::same_ignoring_case(d, module.info.uuid@);
    assert forall|d: Seq<char>| #[trigger]
        text::texts(m.dependencies@).contains(d) <==> found.contains(d) && !text::same_ignoring_case(
            d,
            m.id@,
        ) by {
        lists::lemma_filter_contains(found, keep, d);
        assert(text::texts(m.dependencies@).contains(d) <==> found.filter(keep).contains(d));
    }
}

/// A mod that the manager keeps files of stays as it is when the game's packages are looked
/// at: it only becomes, or stays, the manager's own.
pub proof fn law_kept_mods_stay(
    mods: Seq<ModEntry>,
    updates: Seq<native_sync::NativeModUpdate>,
    kept: Seq<Seq<char>>,
    n: int,
    i: int,
)
    requires
        0 <= n <= updates.len(),
        0 <= i < mods.len(),
        kept.contains(mods[i].id@),
        forall|k: int| 0 <= k < updates.len() ==> (#[trigger] updates[k]).source
            == ModSource::Native,
    ensures
        ({
            let all = native_apply::sources_kept(
                native_apply::after_updates(mods, updates, kept, n),
                kept,
            );
            &&& all.len() == mods.len()
            &&& all[i] == (ModEntry { source: ModSource::Managed, ..mods[i] })
        }),
{
    lemma_kept(mods, updates, kept, n, i);
}

proof fn lemma_kept(
    mods: Seq<ModEntry>,
    updates: Seq<native_sync::NativeModUpdate>,
    kept: Seq<Seq<char>>,
    n: int,
    i: int,
)
    requires
        0 <= n <= updates.len(),
        0 <= i < mods.len(),
        kept.contains(mods[i].id@),
        forall|k: int| 0 <= k < updates.len() ==> (#[trigger] updates[k]).source
            == ModSource::Native,
    ensures
        ({
            let all = native_apply::after_updates(mods, updates, kept, n);
            &&& all.len() == mods.len()
            &&& all[i] == (ModEntry { source: all[i].source, ..mods[i] })
        }),
    decreases n,
{
    if n > 0 {
        lemma_kept(mods, updates, kept, n - 1, i);
        let before = native_apply::after_updates(mods, updates, kept, n - 1);
        native_apply::lemma_first_mod(before, updates[n - 1].id@);
        assert(updates[n - 1].source == ModSource::Native);
    }
}

/// What is learnt of a mod of the game by looking at its package: its packages go by the
/// file that was found, its last change is never put earlier, a stated time of its making
/// counts and the earlier of two, and a time that was only guessed from files is given up.
/// It needs what its package states, but for itself. All else stays.
pub proof fn law_package_updates_mod(
    u: native_sync::NativeModUpdate,
    m: ModEntry,
    f: native_sync::PakFacts,
    stated: Option<i64>,
    d: Seq<char>,
)
    requires
        native_sync::updates_native(u, m, f, stated),
    ensures
        u.id@ == m.id@,
        u.name@ == m.name@,
        u.source == m.source,
        u.source_label == m.source_label,
        u.targets@.len() == m.targets@.len(),
        forall|i: int|
            0 <= i < m.targets@.len() ==> match #[trigger] m.targets@[i] {
                InstallTarget::Pak { file: _, info } => u.targets@[i] matches InstallTarget::Pak {
                    file,
                    info: about,
                } && Some(file) == f.filename && about == info,
                other => u.targets@[i] == other,
            },
        m.modified_at matches Some(x) ==> (u.modified_at matches Some(y) && y >= x),
        f.modified matches Some(x) ==> (u.modified_at matches Some(y) && y >= x),
        stated is Some || f.meta_created is Some ==> {
            &&& u.created_at matches Some(c) && (stated == Some(c) || f.meta_created == Some(c))
            &&& stated matches Some(x) ==> u.created_at->0 <= x
            &&& f.meta_created matches Some(x) ==> u.created_at->0 <= x
        },
        stated is None && f.meta_created is None ==> u.created_at == match m.created_at {
            Some(c) => if c == m.added_at || f.created == Some(c) || f.modified == Some(c) {
                None
            } else {
                Some(c)
            },
            None => None,
        },
        text::texts(u.dependencies@).contains(d) <==> text::texts(f.dependencies@).contains(d)
            && !text::same_ignoring_case(d, m.id@),
{
    let keeps = |x: Seq<char>| !text::same_ignoring_case(x, m.id@);
    lists::lemma_filter_contains(text::texts(f.dependencies@), keeps, d);
}

} // verus!
