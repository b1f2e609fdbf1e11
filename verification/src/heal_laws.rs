//! What holds of mods whose packages went missing or came back.
use crate::library;
use crate::library::{InstallTarget, ModEntry, ModSource, ProfileEntry, TargetKind, TargetOverride};
use crate::mod_changes;
use crate::mod_readings::PakPlaces;
use crate::native_apply;
use crate::native_apply::TargetView;
use crate::paths;
use crate::self_heal;
use vstd::prelude::*;

verus! {

/// Switching one kind of targets leaves every other kind as it was.
pub proof fn law_switch_leaves_others(
    switches: Seq<TargetOverride>,
    kind: TargetKind,
    enabled: bool,
    other: TargetKind,
)
    requires
        other != kind,
    ensures
        library::switched_on(mod_changes::with_switch(switches, kind, enabled, 0), other)
            == library::switched_on(switches, other),
{
    let after = mod_changes::with_switch(switches, kind, enabled, 0);
    lemma_others_stay(switches, kind, enabled, 0);
    assert forall|i: int| #[trigger] library::is_first_switch(after, other, i) implies
        library::is_first_switch(switches, other, i) by {
        assert forall|j: int| 0 <= j < i implies (#[trigger] switches[j]).kind != other by {
            assert(after[j].kind != other);
        }
    }
    assert forall|i: int| #[trigger] library::is_first_switch(switches, other, i) implies
        library::is_first_switch(after, other, i) by {
        assert(after[i] == switches[i]);
        assert forall|j: int| 0 <= j < i implies (#[trigger] after[j]).kind != other by {
            assert(switches[j].kind != other);
        }
    }
    if library::switched_on(switches, other) {
        assert forall|i: int| #[trigger]
            library::is_first_switch(after, other, i) implies after[i].enabled by {
            assert(library::is_first_switch(switches, other, i));
        }
    }
    if library::switched_on(after, other) {
        assert forall|i: int| #[trigger]
            library::is_first_switch(switches, other, i) implies switches[i].enabled by {
            assert(library::is_first_switch(after, other, i));
        }
    }
}

proof fn lemma_others_stay(
    switches: Seq<TargetOverride>,
    kind: TargetKind,
    enabled: bool,
    from: int,
)
    requires
        0 <= from <= switches.len(),
    ensures
        ({
            let after = mod_changes::with_switch(switches, kind, enabled, from);
            &&& after.len() >= switches.len()
            &&& after.len() <= switches.len() + 1
            &&& forall|i: int|
                0 <= i < switches.len() && switches[i].kind != kind ==> #[trigger] after[i]
                    == switches[i]
            &&& forall|i: int|
                0 <= i < switches.len() && (#[trigger] after[i]).kind != kind ==> after[i]
                    == switches[i]
            &&& forall|i: int|
                0 <= i < switches.len() && (#[trigger] switches[i]).kind == kind ==> after[i].kind
                    == kind
            &&& after.len() > switches.len() ==> after[switches.len() as int].kind == kind
        }),
    decreases switches.len() - from,
{
    if from < switches.len() && switches[from].kind != kind {
        lemma_others_stay(switches, kind, enabled, from + 1);
    }
}

/// Whether a mod of the manager has packages that are switched on.
pub open spec fn wants_packages(m: ModEntry) -> bool {
    &&& m.source != ModSource::Native
    &&& exists|i: int| 0 <= i < m.targets@.len() && #[trigger] m.targets@[i] is Pak
    &&& library::switched_on(m.target_overrides@, TargetKind::Pak)
}

/// Whether a package of a mod is where it should be, or was found elsewhere.
pub open spec fn some_package_there(m: ModEntry, places: Seq<PakPlaces>) -> bool {
    exists|i: int|
        0 <= i < m.targets@.len() && #[trigger] m.targets@[i] is Pak && (places[i].by_file is Some
            || places[i].resolved is Some)
}

/// Whether a mod has loose files that are switched on.
pub open spec fn brings_files(m: ModEntry) -> bool {
    exists|i: int|
        0 <= i < m.targets@.len() && #[trigger] m.targets@[i] !is Pak && library::switched_on(
            m.target_overrides@,
            m.targets@[i].kind_of(),
        )
}

proof fn lemma_there(m: ModEntry, places: Seq<PakPlaces>)
    ensures
        crate::mod_readings::pak_paths(
            m.targets@,
            false,
            places,
            m.targets@.len() as int,
        ).len() > 0 <==> some_package_there(m, places),
        library::targets_have(m.targets@, TargetKind::Pak) <==> exists|i: int|
            0 <= i < m.targets@.len() && #[trigger] m.targets@[i] is Pak,
        self_heal::other_on(m) <==> brings_files(m),
{
    let n = m.targets@.len() as int;
    self_heal::lemma_found(m.targets@, places, n);
    if exists|i: int| 0 <= i < n && #[trigger] self_heal::brings(m.targets@[i], places[i]) {
        let i = choose|i: int| 0 <= i < n && #[trigger] self_heal::brings(m.targets@[i], places[i]);
        assert(m.targets@[i] is Pak);
    }
    if some_package_there(m, places) {
        let i = choose|i: int|
            0 <= i < m.targets@.len() && #[trigger] m.targets@[i] is Pak && (
            places[i].by_file is Some || places[i].resolved is Some);
        assert(self_heal::brings(m.targets@[i], places[i]));
    }
    if exists|i: int| 0 <= i < m.targets@.len() && #[trigger] m.targets@[i] is Pak {
        let i = choose|i: int| 0 <= i < m.targets@.len() && #[trigger] m.targets@[i] is Pak;
        assert(m.targets@[i].kind_of() == TargetKind::Pak);
    }
    if library::targets_have(m.targets@, TargetKind::Pak) {
        let i = choose|i: int|
            0 <= i < m.targets@.len() && (#[trigger] m.targets@[i]).kind_of() == TargetKind::Pak;
        assert(m.targets@[i] is Pak);
    }
}

/// A mod whose packages are switched on and all gone has its packages switched off, and
/// nothing else of it.
pub proof fn law_missing_packages_go_off(
    new: ModEntry,
    mods: Seq<ModEntry>,
    places: Seq<Vec<PakPlaces>>,
    k: int,
    other: TargetKind,
)
    requires
        self_heal::distinct_mods(mods),
        0 <= k < mods.len(),
        self_heal::is_healed(new, mods, places, k),
        wants_packages(mods[k]),
        !some_package_there(mods[k], places[k]@),
    ensures
        !library::switched_on(new.target_overrides@, TargetKind::Pak),
        other != TargetKind::Pak ==> library::switched_on(new.target_overrides@, other)
            == library::switched_on(mods[k].target_overrides@, other),
{
    self_heal::lemma_only_mod(mods, k);
    lemma_there(mods[k], places[k]@);
    mod_changes::law_switch_holds(mods[k].target_overrides@, TargetKind::Pak, false);
    if other != TargetKind::Pak {
        law_switch_leaves_others(mods[k].target_overrides@, TargetKind::Pak, false, other);
    }
}

/// A mod whose packages were switched off, and nothing else decided of it, has them on
/// again once one of them is there, unless it brings loose files.
pub proof fn law_packages_come_back(
    new: ModEntry,
    mods: Seq<ModEntry>,
    places: Seq<Vec<PakPlaces>>,
    k: int,
)
    requires
        self_heal::distinct_mods(mods),
        0 <= k < mods.len(),
        self_heal::is_healed(new, mods, places, k),
        mods[k].source != ModSource::Native,
        some_package_there(mods[k], places[k]@),
        !brings_files(mods[k]),
        mods[k].target_overrides@.len() == 1,
        mods[k].target_overrides@[0].kind == TargetKind::Pak,
        !mods[k].target_overrides@[0].enabled,
    ensures
        library::switched_on(new.target_overrides@, TargetKind::Pak),
{
    self_heal::lemma_only_mod(mods, k);
    lemma_there(mods[k], places[k]@);
    assert(library::is_first_switch(mods[k].target_overrides@, TargetKind::Pak, 0));
}

/// Where a package is there and packages are on, or where packages are off and more was
/// decided than that, healing switches nothing.
pub proof fn law_decided_switches_stay(
    new: ModEntry,
    mods: Seq<ModEntry>,
    places: Seq<Vec<PakPlaces>>,
    k: int,
)
    requires
        self_heal::distinct_mods(mods),
        0 <= k < mods.len(),
        self_heal::is_healed(new, mods, places, k),
        some_package_there(mods[k], places[k]@) || !wants_packages(mods[k]),
        library::switched_on(mods[k].target_overrides@, TargetKind::Pak) || brings_files(mods[k])
            || mods[k].target_overrides@.len() != 1 || !some_package_there(mods[k], places[k]@),
    ensures
        new.target_overrides@ == mods[k].target_overrides@,
{
    self_heal::lemma_only_mod(mods, k);
    lemma_there(mods[k], places[k]@);
    if some_package_there(mods[k], places[k]@) {
        let i = choose|i: int|
            0 <= i < mods[k].targets@.len() && #[trigger] mods[k].targets@[i] is Pak && (
            places[k]@[i].by_file is Some || places[k]@[i].resolved is Some);
        assert(mods[k].targets@[i] is Pak);
    }
}

/// Healing switches a mod off in a load order just where its packages are switched on and
/// gone and it brings no loose files; every other entry, and every place, stays.
pub proof fn law_stopped_mods_go_off(
    mods: Seq<ModEntry>,
    places: Seq<Vec<PakPlaces>>,
    k: int,
    order: Seq<ProfileEntry>,
    i: int,
)
    requires
        self_heal::distinct_mods(mods),
        0 <= k < mods.len(),
        0 <= i < order.len(),
        order[i].id@ == mods[k].id@,
        forall|j: int| 0 <= j < i ==> (#[trigger] order[j]).id@ != order[i].id@,
    ensures
        ({
            let after = self_heal::healed_order(order, mods, places);
            let stopped = wants_packages(mods[k]) && !some_package_there(mods[k], places[k]@)
                && !brings_files(mods[k]);
            &&& after.len() == order.len()
            &&& after[i].id == order[i].id
            &&& stopped ==> !after[i].enabled
            &&& !stopped ==> after[i].enabled == order[i].enabled
        }),
{
    self_heal::lemma_only_mod(mods, k);
    lemma_there(mods[k], places[k]@);
    assert(self_heal::is_first_entry(order, i));
}

/// A package that is not there under its own name and was found under another is called by
/// that from then on. Nothing else of the mod's targets changes.
pub proof fn law_found_package_is_renamed(
    new: ModEntry,
    mods: Seq<ModEntry>,
    places: Seq<Vec<PakPlaces>>,
    k: int,
    t: int,
)
    requires
        self_heal::distinct_mods(mods),
        0 <= k < mods.len(),
        self_heal::is_healed(new, mods, places, k),
        0 <= t < mods[k].targets@.len(),
        forall|s: int|
            0 <= s < mods[k].targets@.len() && s != t ==> !(#[trigger] mods[k].targets@[s] matches InstallTarget::Pak {
                file,
                ..
            } && (mods[k].targets@[t] matches InstallTarget::Pak { file: mine, .. } && file@
                == mine@)),
    ensures
        new.targets@.len() == mods[k].targets@.len(),
        mods[k].targets@[t] matches InstallTarget::Pak { file, info } ==> {
            let p = places[k]@[t];
            &&& native_apply::target_view(new.targets@[t]) matches TargetView::Pak {
                file: called,
                info: about,
            }
            &&& about == native_apply::info_view(info)
            &&& called == if mods[k].source != ModSource::Native && p.by_file is None
                && p.resolved is Some && paths::base_name(p.resolved->0@) is Some {
                paths::base_name(p.resolved->0@)->0
            } else {
                file@
            }
        },
        mods[k].targets@[t] !is Pak ==> native_apply::target_view(new.targets@[t])
            == native_apply::target_view(mods[k].targets@[t]),
{
    self_heal::lemma_only_mod(mods, k);
    let m = mods[k];
    let names = self_heal::names_of(mods, places, m.id@);
    let n = m.targets@.len() as int;
    assert(native_apply::target_view(new.targets@[t]) == self_heal::renamed_target(
        native_apply::target_view(m.targets@[t]),
        names,
    ));
    if let InstallTarget::Pak { file, info } = m.targets@[t] {
        self_heal::lemma_renamed_file(file@, names, 0);
        self_heal::lemma_new_names(m.targets@, places[k]@, n);
        if m.source != ModSource::Native {
            assert forall|j: int| 0 <= j < names.len() && (#[trigger] names[j]).0 == file@ implies
                self_heal::new_name(m.targets@[t], places[k]@[t]) == Some(names[j]) by {
                let s = choose|s: int|
                    0 <= s < n && self_heal::new_name(#[trigger] m.targets@[s], places[k]@[s])
                        == Some(names[j]);
                if s != t {
                    assert(m.targets@[s] is Pak);
                }
            }
            if let Some(pair) = self_heal::new_name(m.targets@[t], places[k]@[t]) {
                assert(names.contains(pair));
                let j = choose|j: int| 0 <= j < names.len() && names[j] == pair;
                assert(names[j].0 == file@);
            }
        }
    }
}

} // verus!
