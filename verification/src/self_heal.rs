//! Mods whose packages are gone, have come back, or have another name.
use crate::library;
use crate::library::{
    find_profile, InstallTarget, Library, ModEntry, ModSource, ProfileEntry, TargetKind,
    TargetOverride,
};
use crate::lists;
use crate::mod_changes;
use crate::mod_changes::{find_mod, set_target_override};
use crate::mod_readings;
use crate::mod_readings::{resolve_pak_paths, PakPlaces};
use crate::native_apply;
use crate::native_apply::TargetView;
use crate::paths;
use crate::paths::file_name;
use crate::sorting::has_string;
use crate::text;
use crate::text::same_text;
use vstd::prelude::*;

verus! {

// ---------------------------------------------------------------------------
// What state the packages are in
// ---------------------------------------------------------------------------

/// How the packages of a mod stand.
pub enum PakState {
    Fine,
    /// They are switched on, but there are none. `other` says whether something else
    /// of the mod is switched on.
    Missing { other: bool },
    /// They are there, but were switched off when they were not.
    Restorable,
}

/// Whether a target other than a package is switched on.
pub open spec fn other_on(m: ModEntry) -> bool {
    exists|i: int|
        0 <= i < m.targets@.len() && (#[trigger] m.targets@[i]) !is Pak && library::switched_on(
            m.target_overrides@,
            m.targets@[i].kind_of(),
        )
}

/// Whether nothing is decided but that packages are off.
pub open spec fn only_pak_off(switches: Seq<TargetOverride>) -> bool {
    switches.len() == 1 && switches[0].kind == TargetKind::Pak && !switches[0].enabled
}

pub open spec fn pak_state(m: ModEntry, places: Seq<PakPlaces>) -> PakState {
    let found = mod_readings::pak_paths(m.targets@, false, places, m.targets@.len() as int);
    let on = library::targets_have(m.targets@, TargetKind::Pak) && library::switched_on(
        m.target_overrides@,
        TargetKind::Pak,
    );
    if m.source == ModSource::Native {
        PakState::Fine
    } else if on && found.len() == 0 {
        PakState::Missing { other: other_on(m) }
    } else if !on && found.len() > 0 && !other_on(m) && only_pak_off(m.target_overrides@) {
        PakState::Restorable
    } else {
        PakState::Fine
    }
}

fn has_other_on(m: &ModEntry) -> (r: bool)
    ensures
        r == other_on(*m),
{
    let mut i: usize = 0;
    while i < m.targets.len()
        invariant
            i <= m.targets.len(),
            forall|j: int|
                0 <= j < i ==> (#[trigger] m.targets@[j]) is Pak || !library::switched_on(
                    m.target_overrides@,
                    m.targets@[j].kind_of(),
                ),
        decreases m.targets.len() - i,
    {
        if !matches!(m.targets[i], InstallTarget::Pak { .. }) && m.is_target_enabled(
            m.targets[i].kind(),
        ) {
            return true;
        }
        assert(m.targets@[i as int] is Pak || !library::switched_on(
            m.target_overrides@,
            m.targets@[i as int].kind_of(),
        )) by {
            if m.targets@[i as int] !is Pak {
                assert(library::targets_have(m.targets@, m.targets@[i as int].kind_of()));
            }
        }
        i = i + 1;
    }
    false
}

fn is_only_pak_off(switches: &Vec<TargetOverride>) -> (r: bool)
    ensures
        r == only_pak_off(switches@),
{
    switches.len() == 1 && matches!(switches[0].kind, TargetKind::Pak) && !switches[0].enabled
}

/// How the packages of a mod stand. The places are those of its targets.
pub fn find_pak_state(m: &ModEntry, places: &Vec<PakPlaces>) -> (r: PakState)
    requires
        places@.len() == m.targets@.len(),
    ensures
        r == pak_state(*m, places@),
{
    if m.is_native() {
        return PakState::Fine;
    }
    let on = m.is_target_enabled(TargetKind::Pak);
    let found = resolve_pak_paths(m, places);
    assert(text::texts(found@).len() == found@.len());
    if on && found.is_empty() {
        return PakState::Missing { other: has_other_on(m) };
    }
    if !on && !found.is_empty() && !has_other_on(m) && is_only_pak_off(&m.target_overrides) {
        return PakState::Restorable;
    }
    PakState::Fine
}

// ---------------------------------------------------------------------------
// New names
// ---------------------------------------------------------------------------

/// The new name of the package of a target: that of the file it was found in, where
/// there is none under its own name.
pub open spec fn new_name(t: InstallTarget, p: PakPlaces) -> Option<(Seq<char>, Seq<char>)> {
    match (t, p.by_file, p.resolved) {
        (InstallTarget::Pak { file, .. }, None, Some(path)) => match paths::base_name(path@) {
            Some(name) => if name != file@ {
                Some((file@, name))
            } else {
                None
            },
            None => None,
        },
        _ => None,
    }
}

/// The old and new names of the packages of the first `n` targets.
pub open spec fn new_names(
    targets: Seq<InstallTarget>,
    places: Seq<PakPlaces>,
    n: int,
) -> Seq<(Seq<char>, Seq<char>)>
    decreases n,
{
    if n <= 0 {
        Seq::empty()
    } else {
        match new_name(targets[n - 1], places[n - 1]) {
            Some(pair) => new_names(targets, places, n - 1).push(pair),
            None => new_names(targets, places, n - 1),
        }
    }
}

/// The new names of the packages of a mod of the manager.
pub open spec fn mod_new_names(m: ModEntry, places: Seq<PakPlaces>) -> Seq<(Seq<char>, Seq<char>)> {
    if m.source == ModSource::Native {
        Seq::empty()
    } else {
        new_names(m.targets@, places, m.targets@.len() as int)
    }
}

/// The new name for a file, or the old one: the first that is given counts.
pub open spec fn renamed_file(
    file: Seq<char>,
    names: Seq<(Seq<char>, Seq<char>)>,
    from: int,
) -> Seq<char>
    decreases names.len() - from,
{
    if from < 0 || from >= names.len() {
        file
    } else if names[from].0 == file {
        names[from].1
    } else {
        renamed_file(file, names, from + 1)
    }
}

pub open spec fn renamed_target(t: TargetView, names: Seq<(Seq<char>, Seq<char>)>) -> TargetView {
    match t {
        TargetView::Pak { file, info } => TargetView::Pak {
            file: renamed_file(file, names, 0),
            info,
        },
        other => other,
    }
}

pub open spec fn name_views(list: Seq<(String, String)>) -> Seq<(Seq<char>, Seq<char>)> {
    Seq::new(list.len(), |i: int| (list[i].0@, list[i].1@))
}

fn find_new_names(m: &ModEntry, places: &Vec<PakPlaces>) -> (out: Vec<(String, String)>)
    requires
        places@.len() == m.targets@.len(),
    ensures
        name_views(out@) == mod_new_names(*m, places@),
{
    let mut out: Vec<(String, String)> = Vec::new();
    if m.is_native() {
        assert(name_views(out@) =~= Seq::<(Seq<char>, Seq<char>)>::empty());
        return out;
    }
    let mut i: usize = 0;
    assert(name_views(out@) =~= Seq::<(Seq<char>, Seq<char>)>::empty());
    while i < m.targets.len()
        invariant
            i <= m.targets.len() == places.len(),
            name_views(out@) == new_names(m.targets@, places@, i as int),
        decreases m.targets.len() - i,
    {
        let ghost before = out@;
        if let InstallTarget::Pak { file, .. } = &m.targets[i] {
            if let (None, Some(path)) = (&places[i].by_file, &places[i].resolved) {
                if let Some(name) = file_name(path.as_str()) {
                    if !same_text(name.as_str(), file.as_str()) {
                        out.push((file.clone(), name));
                        assert(name_views(out@) =~= name_views(before).push((file@, name@)));
                    }
                }
            }
        }
        i = i + 1;
    }
    out
}

fn find_renamed(file: &String, names: &Vec<(String, String)>) -> (r: Option<String>)
    ensures
        match r {
            Some(name) => renamed_file(file@, name_views(names@), 0) == name@,
            None => renamed_file(file@, name_views(names@), 0) == file@ && forall|i: int|
                0 <= i < names@.len() ==> (#[trigger] name_views(names@)[i]).0 != file@,
        },
        r is Some ==> exists|i: int|
            0 <= i < names@.len() && (#[trigger] name_views(names@)[i]).0 == file@,
{
    let mut i: usize = 0;
    while i < names.len()
        invariant
            i <= names.len(),
            renamed_file(file@, name_views(names@), 0) == renamed_file(
                file@,
                name_views(names@),
                i as int,
            ),
            forall|j: int| 0 <= j < i ==> (#[trigger] name_views(names@)[j]).0 != file@,
        decreases names.len() - i,
    {
        assert(name_views(names@)[i as int].0 == names@[i as int].0@);
        if same_text(names[i].0.as_str(), file.as_str()) {
            return Some(names[i].1.clone());
        }
        i = i + 1;
    }
    None
}

/// Whether a target's file is given a new name.
pub open spec fn is_renamed(t: TargetView, names: Seq<(Seq<char>, Seq<char>)>) -> bool {
    t matches TargetView::Pak { file, .. } && exists|i: int|
        0 <= i < names.len() && (#[trigger] names[i]).0 == file
}

fn rename_target(t: &mut InstallTarget, names: &Vec<(String, String)>) -> (changed: bool)
    ensures
        native_apply::target_view(*final(t)) == renamed_target(
            native_apply::target_view(*old(t)),
            name_views(names@),
        ),
        changed == is_renamed(native_apply::target_view(*old(t)), name_views(names@)),
        !changed ==> *final(t) == *old(t),
{
    match t {
        InstallTarget::Pak { file, .. } => match find_renamed(file, names) {
            Some(name) => {
                *file = name;
                true
            },
            None => false,
        },
        _ => false,
    }
}

/// Whether the targets of a mod are those of another with new names.
pub open spec fn targets_renamed(
    new: Seq<InstallTarget>,
    old: Seq<InstallTarget>,
    names: Seq<(Seq<char>, Seq<char>)>,
) -> bool {
    &&& new.len() == old.len()
    &&& forall|i: int|
        0 <= i < old.len() ==> native_apply::target_view(#[trigger] new[i]) == renamed_target(
            native_apply::target_view(old[i]),
            names,
        )
}

pub open spec fn any_renamed(
    targets: Seq<InstallTarget>,
    names: Seq<(Seq<char>, Seq<char>)>,
) -> bool {
    exists|i: int|
        0 <= i < targets.len() && is_renamed(native_apply::target_view(#[trigger] targets[i]), names)
}

fn rename_targets(targets: &mut Vec<InstallTarget>, names: &Vec<(String, String)>) -> (changed: bool)
    ensures
        targets_renamed(final(targets)@, old(targets)@, name_views(names@)),
        changed == any_renamed(old(targets)@, name_views(names@)),
{
    let ghost start = targets@;
    let ghost pairs = name_views(names@);
    let mut changed = false;
    let mut i: usize = 0;
    while i < targets.len()
        invariant
            i <= targets.len() == start.len(),
            start == old(targets)@,
            pairs == name_views(names@),
            forall|j: int|
                0 <= j < i ==> native_apply::target_view(#[trigger] targets@[j]) == renamed_target(
                    native_apply::target_view(start[j]),
                    pairs,
                ),
            forall|j: int| i <= j < start.len() ==> targets@[j] == start[j],
            changed <==> exists|j: int|
                0 <= j < i && is_renamed(native_apply::target_view(#[trigger] start[j]), pairs),
        decreases targets.len() - i,
    {
        if rename_target(&mut targets[i], names) {
            changed = true;
            assert(is_renamed(native_apply::target_view(start[i as int]), pairs));
        }
        i = i + 1;
    }
    changed
}

// ---------------------------------------------------------------------------
// The whole
// ---------------------------------------------------------------------------

/// How the packages of the mod with an id stand; where several mods have it, the
/// last counts.
pub open spec fn state_of(mods: Seq<ModEntry>, places: Seq<Vec<PakPlaces>>, id: Seq<char>) -> PakState {
    let j = library::last_index(mods, id);
    if j >= 0 {
        pak_state(mods[j], places[j]@)
    } else {
        PakState::Fine
    }
}

pub open spec fn names_of(mods: Seq<ModEntry>, places: Seq<Vec<PakPlaces>>, id: Seq<char>) -> Seq<
    (Seq<char>, Seq<char>),
> {
    let j = library::last_index(mods, id);
    mod_new_names(mods[j], places[j]@)
}

/// The switches of the mod at `k`. Only the first mod with an id is switched.
pub open spec fn healed_switches(
    mods: Seq<ModEntry>,
    places: Seq<Vec<PakPlaces>>,
    k: int,
) -> Seq<TargetOverride> {
    let m = mods[k];
    if native_apply::first_mod(mods, m.id@) != k {
        m.target_overrides@
    } else {
        match state_of(mods, places, m.id@) {
            PakState::Missing { .. } => mod_changes::with_switch(
                m.target_overrides@,
                TargetKind::Pak,
                false,
                0,
            ),
            PakState::Restorable => if only_pak_off(m.target_overrides@) {
                Seq::empty()
            } else {
                m.target_overrides@
            },
            PakState::Fine => m.target_overrides@,
        }
    }
}

/// Whether `new` is the mod at `k`, healed.
pub open spec fn is_healed(
    new: ModEntry,
    mods: Seq<ModEntry>,
    places: Seq<Vec<PakPlaces>>,
    k: int,
) -> bool {
    &&& new == (ModEntry {
        targets: new.targets,
        target_overrides: new.target_overrides,
        ..mods[k]
    })
    &&& targets_renamed(new.targets@, mods[k].targets@, names_of(mods, places, mods[k].id@))
    &&& new.target_overrides@ == healed_switches(mods, places, k)
}

pub open spec fn is_touched(mods: Seq<ModEntry>, places: Seq<Vec<PakPlaces>>, k: int) -> bool {
    ||| any_renamed(mods[k].targets@, names_of(mods, places, mods[k].id@))
    ||| healed_switches(mods, places, k) != mods[k].target_overrides@
}

/// How many of the first `n` mods lack their packages, or have them back.
pub open spec fn heal_count(mods: Seq<ModEntry>, places: Seq<Vec<PakPlaces>>, n: int) -> nat
    decreases n,
{
    if n <= 0 {
        0
    } else {
        heal_count(mods, places, n - 1) + if library::last_index(mods, mods[n - 1].id@) == n - 1
            && pak_state(mods[n - 1], places[n - 1]@) !is Fine {
            1nat
        } else {
            0nat
        }
    }
}

/// Whether the mod with an id has nothing left to bring.
pub open spec fn is_stopped(mods: Seq<ModEntry>, places: Seq<Vec<PakPlaces>>, id: Seq<char>) -> bool {
    state_of(mods, places, id) == (PakState::Missing { other: false })
}

pub open spec fn is_first_entry(order: Seq<ProfileEntry>, i: int) -> bool {
    forall|j: int| 0 <= j < i ==> (#[trigger] order[j]).id@ != order[i].id@
}

/// The load order with the mods that have nothing left to bring switched off.
pub open spec fn healed_order(
    order: Seq<ProfileEntry>,
    mods: Seq<ModEntry>,
    places: Seq<Vec<PakPlaces>>,
) -> Seq<ProfileEntry> {
    Seq::new(
        order.len(),
        |i: int|
            if is_first_entry(order, i) && is_stopped(mods, places, order[i].id@) {
                ProfileEntry { enabled: false, ..order[i] }
            } else {
                order[i]
            },
    )
}

fn check_first_entry(order: &Vec<ProfileEntry>, i: usize) -> (r: bool)
    requires
        i < order@.len(),
    ensures
        r == is_first_entry(order@, i as int),
{
    let mut j: usize = 0;
    while j < i
        invariant
            j <= i < order@.len(),
            forall|k: int| 0 <= k < j ==> (#[trigger] order@[k]).id@ != order@[i as int].id@,
        decreases i - j,
    {
        if same_text(order[j].id.as_str(), order[i].id.as_str()) {
            return false;
        }
        j = j + 1;
    }
    true
}

fn stop_mods(
    order: &mut Vec<ProfileEntry>,
    off: &Vec<String>,
    Ghost(mods): Ghost<Seq<ModEntry>>,
    Ghost(places): Ghost<Seq<Vec<PakPlaces>>>,
) -> (changed: bool)
    requires
        forall|id: Seq<char>| #[trigger]
            text::texts(off@).contains(id) <==> is_stopped(mods, places, id),
    ensures
        final(order)@ == healed_order(old(order)@, mods, places),
        changed == (final(order)@ != old(order)@),
{
    let ghost start = order@;
    let ghost goal = healed_order(start, mods, places);
    let mut changed = false;
    let mut i: usize = 0;
    while i < order.len()
        invariant
            i <= order.len() == start.len(),
            start == old(order)@,
            goal == healed_order(start, mods, places),
            forall|id: Seq<char>| #[trigger]
                text::texts(off@).contains(id) <==> is_stopped(mods, places, id),
            forall|j: int| 0 <= j < i ==> order@[j] == goal[j],
            forall|j: int| i <= j < start.len() ==> order@[j] == start[j],
            changed <==> exists|j: int| 0 <= j < i && #[trigger] goal[j] != start[j],
        decreases order.len() - i,
    {
        assert(forall|j: int| 0 <= j <= i ==> (#[trigger] order@[j]).id == start[j].id) by {
            assert forall|j: int| 0 <= j <= i implies (#[trigger] order@[j]).id == start[j].id by {
                if j < i {
                    assert(order@[j] == goal[j]);
                }
            }
        }
        let first = check_first_entry(order, i);
        assert(first == is_first_entry(start, i as int)) by {
            if !first {
                let j = choose|j: int|
                    0 <= j < i && !((#[trigger] order@[j]).id@ != order@[i as int].id@);
                assert(start[j].id@ == start[i as int].id@);
            } else {
                assert forall|j: int| 0 <= j < i implies (#[trigger] start[j]).id@
                    != start[i as int].id@ by {
                    assert(order@[j].id == start[j].id);
                }
            }
        }
        if first && has_string(off, order[i].id.as_str()) && order[i].enabled {
            order[i].enabled = false;
            changed = true;
            assert(goal[i as int] != start[i as int]);
        }
        assert(order@[i as int] == goal[i as int]);
        i = i + 1;
    }
    assert(order@ =~= goal);
    proof {
        if !changed {
            assert(goal =~= start);
        }
    }
    changed
}

fn heal_mod(
    m: &mut ModEntry,
    state: PakState,
    names: &Vec<(String, String)>,
    first: bool,
) -> (changed: bool)
    ensures
        *final(m) == (ModEntry {
            targets: final(m).targets,
            target_overrides: final(m).target_overrides,
            ..*old(m)
        }),
        targets_renamed(final(m).targets@, old(m).targets@, name_views(names@)),
        final(m).target_overrides@ == if !first {
            old(m).target_overrides@
        } else {
            match state {
                PakState::Missing { .. } => mod_changes::with_switch(
                    old(m).target_overrides@,
                    TargetKind::Pak,
                    false,
                    0,
                ),
                PakState::Restorable => if only_pak_off(old(m).target_overrides@) {
                    Seq::empty()
                } else {
                    old(m).target_overrides@
                },
                PakState::Fine => old(m).target_overrides@,
            }
        },
        changed == (any_renamed(old(m).targets@, name_views(names@))
            || final(m).target_overrides@ != old(m).target_overrides@),
{
    let renamed = rename_targets(&mut m.targets, names);
    if !first {
        return renamed;
    }
    let switched = match state {
        PakState::Missing { .. } => set_target_override(m, TargetKind::Pak, false),
        PakState::Restorable => if is_only_pak_off(&m.target_overrides) {
            m.target_overrides = Vec::new();
            true
        } else {
            false
        },
        PakState::Fine => false,
    };
    renamed || switched
}

impl Library {
    /// Switches packages that are gone off, and those that have come back on, and
    /// takes over the new names of packages. The places are those of the targets of
    /// the mods. The result is how many mods were concerned, and whether anything
    /// changed.
    pub fn self_heal_missing_paks(&mut self, places: &Vec<Vec<PakPlaces>>) -> (r: (usize, bool))
        requires
            places@.len() == old(self).mods@.len(),
            forall|i: int|
                0 <= i < places@.len() ==> (#[trigger] places@[i])@.len()
                    == old(self).mods@[i].targets@.len(),
        ensures
            ({
                let mods = old(self).mods@;
                let at = mod_changes::active_place(*old(self));
                let order = old(self).profiles@[at].order@;
                &&& r.0 == heal_count(mods, places@, mods.len() as int)
                &&& final(self).mods@.len() == mods.len()
                &&& forall|k: int|
                    0 <= k < mods.len() ==> is_healed(
                        #[trigger] final(self).mods@[k],
                        mods,
                        places@,
                        k,
                    )
                &&& *final(self) == (Library {
                    mods: final(self).mods,
                    profiles: final(self).profiles,
                    ..*old(self)
                })
                &&& if at >= 0 {
                    mod_changes::with_active_order(
                        (Library { mods: old(self).mods, ..*final(self) }),
                        *old(self),
                        healed_order(order, mods, places@),
                        old(self).modsettings_sync_enabled,
                    )
                } else {
                    final(self).profiles == old(self).profiles
                }
                &&& r.1 == ((exists|k: int| 0 <= k < mods.len() && #[trigger] is_touched(mods, places@, k))
                    || (at >= 0 && healed_order(order, mods, places@) != order))
            }),
    {
        let ghost before = *self;
        let ghost mods = self.mods@;
        let index = self.index_by_id();
        let mut off: Vec<String> = Vec::new();
        let mut count: usize = 0;
        let mut changed = false;
        let mut k: usize = 0;
        while k < self.mods.len()
            invariant
                k <= self.mods@.len() == mods.len() == places@.len(),
                mods == before.mods@,
                *self == (Library { mods: self.mods, ..before }),
                library::indexes(index@, mods),
                forall|i: int|
                    0 <= i < places@.len() ==> (#[trigger] places@[i])@.len()
                        == mods[i].targets@.len(),
                forall|j: int| k <= j < mods.len() ==> self.mods@[j] == mods[j],
                forall|j: int| 0 <= j < k ==> is_healed(#[trigger] self.mods@[j], mods, places@, j),
                count == heal_count(mods, places@, k as int),
                count <= k,
                forall|id: Seq<char>| #[trigger]
                    text::texts(off@).contains(id) <==> (library::last_index(mods, id) < k
                        && is_stopped(mods, places@, id)),
                changed <==> exists|j: int| 0 <= j < k && #[trigger] is_touched(mods, places@, j),
            decreases self.mods.len() - k,
        {
            let ghost id = mods[k as int].id@;
            let ghost off_before = text::texts(off@);
            proof {
                library::lemma_last_index(mods, id);
                native_apply::lemma_first_mod(mods, id);
                native_apply::lemma_first_mod(self.mods@, id);
                assert(library::mod_ids(mods)[k as int] == id);
                assert(index@.contains_key(id));
                lemma_same_first(self.mods@, mods, id);
            }
            if let Some(last) = index.get(self.mods[k].id.as_str()) {
                let j: usize = *last;
                proof {
                    assert(j == library::last_index(mods, id));
                    assert(k <= j);
                }
                let state = find_pak_state(&self.mods[j], &places[j]);
                let names = find_new_names(&self.mods[j], &places[j]);
                if j == k {
                    match state {
                        PakState::Fine => {},
                        PakState::Missing { other } => {
                            count = count + 1;
                            if !other {
                                let owned = self.mods[k].id.clone();
                                proof {
                                    text::lemma_texts_push(off@, owned);
                                }
                                off.push(owned);
                            }
                        },
                        PakState::Restorable => {
                            count = count + 1;
                        },
                    }
                }
                proof {
                    assert forall|x: Seq<char>| #[trigger]
                        text::texts(off@).contains(x) <==> (library::last_index(mods, x) < k + 1
                            && is_stopped(mods, places@, x)) by {
                        lists::lemma_push_contains(off_before, id, x);
                        library::lemma_last_index(mods, x);
                        assert(off_before.contains(x) || !off_before.contains(x));
                        if library::last_index(mods, x) == k {
                            assert(mods[k as int].id@ == x);
                        }
                    }
                }
                let first = match find_mod(&self.mods, self.mods[k].id.as_str()) {
                    Some(i) => i == k,
                    None => false,
                };
                let touched = heal_mod(&mut self.mods[k], state, &names, first);
                proof {
                    assert(touched == is_touched(mods, places@, k as int));
                    assert(is_healed(self.mods@[k as int], mods, places@, k as int));
                }
                if touched {
                    changed = true;
                }
            }
            k = k + 1;
        }
        proof {
            library::lemma_profile_index(self.profiles@, self.active_profile@);
            assert forall|id: Seq<char>| #[trigger]
                text::texts(off@).contains(id) <==> is_stopped(mods, places@, id) by {
                library::lemma_last_index(mods, id);
            }
        }
        if let Some(at) = find_profile(&self.profiles, self.active_profile.as_str()) {
            if stop_mods(&mut self.profiles[at].order, &off, Ghost(mods), Ghost(places@)) {
                changed = true;
            }
        }
        (count, changed)
    }
}

proof fn lemma_same_first(a: Seq<ModEntry>, b: Seq<ModEntry>, id: Seq<char>)
    requires
        a.len() == b.len(),
        forall|i: int| 0 <= i < a.len() ==> (#[trigger] a[i]).id == b[i].id,
    ensures
        native_apply::first_mod(a, id) == native_apply::first_mod(b, id),
    decreases a.len(),
{
    if a.len() > 0 {
        lemma_same_first(a.drop_last(), b.drop_last(), id);
        assert(a.last() == a[a.len() - 1]);
    }
}

// ---------------------------------------------------------------------------
// Healing twice
// ---------------------------------------------------------------------------

/// Whether the places of a mod's packages were read from a directory, of which `there`
/// tells the files: a package is found by its name where there is a file of that name,
/// and what it is found in otherwise is one of the files.
pub open spec fn read_from(
    m: ModEntry,
    places: Seq<PakPlaces>,
    there: spec_fn(Seq<char>) -> bool,
) -> bool {
    &&& places.len() == m.targets@.len()
    &&& forall|i: int|
        0 <= i < places.len() ==> ((#[trigger] m.targets@[i]) matches InstallTarget::Pak {
            file,
            ..
        } ==> {
            &&& (places[i].by_file is Some <==> there(file@))
            &&& (places[i].resolved matches Some(path) ==> paths::base_name(path@) matches Some(
                name,
            ) && there(name))
        })
}

/// Whether packages are found in the same files otherwise.
pub open spec fn same_resolved(a: Seq<PakPlaces>, b: Seq<PakPlaces>) -> bool {
    &&& a.len() == b.len()
    &&& forall|i: int|
        0 <= i < a.len() ==> text::text_opt((#[trigger] a[i]).resolved) == text::text_opt(
            b[i].resolved,
        )
}

/// Whether a target brings a package.
pub open spec fn brings(t: InstallTarget, p: PakPlaces) -> bool {
    t is Pak && (p.by_file is Some || p.resolved is Some)
}

pub proof fn lemma_found(targets: Seq<InstallTarget>, places: Seq<PakPlaces>, n: int)
    ensures
        mod_readings::pak_paths(targets, false, places, n).len() > 0 <==> exists|i: int|
            0 <= i < n && #[trigger] brings(targets[i], places[i]),
    decreases n,
{
    if n > 0 {
        lemma_found(targets, places, n - 1);
        let before = mod_readings::pak_paths(targets, false, places, n - 1);
        if brings(targets[n - 1], places[n - 1]) {
            let path = if places[n - 1].by_file is Some {
                places[n - 1].by_file->0@
            } else {
                places[n - 1].resolved->0@
            };
            if before.contains(path) {
                assert(before.len() > 0);
            }
        }
    }
}

pub proof fn lemma_new_names(targets: Seq<InstallTarget>, places: Seq<PakPlaces>, n: int)
    requires
        n <= targets.len(),
    ensures
        forall|i: int|
            0 <= i < n ==> (new_name(#[trigger] targets[i], places[i]) matches Some(pair)
                ==> new_names(targets, places, n).contains(pair)),
        forall|k: int|
            0 <= k < new_names(targets, places, n).len() ==> exists|i: int|
                0 <= i < n && new_name(#[trigger] targets[i], places[i]) == Some(
                    #[trigger] new_names(targets, places, n)[k],
                ),
        (forall|i: int| 0 <= i < n ==> new_name(#[trigger] targets[i], places[i]) is None)
            ==> new_names(targets, places, n).len() == 0,
    decreases n,
{
    if n > 0 {
        lemma_new_names(targets, places, n - 1);
        let before = new_names(targets, places, n - 1);
        let now = new_names(targets, places, n);
        assert forall|i: int| 0 <= i < n implies (new_name(#[trigger] targets[i], places[i]) matches Some(
            pair,
        ) ==> now.contains(pair)) by {
            if let Some(pair) = new_name(targets[i], places[i]) {
                if i < n - 1 {
                    let k = choose|k: int| 0 <= k < before.len() && before[k] == pair;
                    assert(now[k] == pair);
                } else {
                    assert(now[before.len() as int] == pair);
                }
            }
        }
        assert forall|k: int| 0 <= k < now.len() implies exists|i: int|
            0 <= i < n && new_name(#[trigger] targets[i], places[i]) == Some(#[trigger] now[k]) by {
            if k < before.len() {
                assert(now[k] == before[k]);
                let i = choose|i: int|
                    0 <= i < n - 1 && new_name(#[trigger] targets[i], places[i]) == Some(before[k]);
                assert(new_name(targets[i], places[i]) == Some(now[k]));
            } else {
                assert(new_name(targets[n - 1], places[n - 1]) == Some(now[k]));
            }
        }
    }
}

pub proof fn lemma_renamed_file(file: Seq<char>, names: Seq<(Seq<char>, Seq<char>)>, from: int)
    requires
        0 <= from,
    ensures
        renamed_file(file, names, from) == file || exists|k: int|
            from <= k < names.len() && (#[trigger] names[k]).0 == file && names[k].1
                == renamed_file(file, names, from),
        (exists|k: int| from <= k < names.len() && (#[trigger] names[k]).0 == file) ==> exists|k: int|
            from <= k < names.len() && (#[trigger] names[k]).0 == file && names[k].1
                == renamed_file(file, names, from),
    decreases names.len() - from,
{
    if from < names.len() && names[from].0 != file {
        lemma_renamed_file(file, names, from + 1);
    }
}

/// A mod that was healed needs no more healing.
#[verifier::rlimit(40)]
proof fn lemma_healed_once(
    m: ModEntry,
    p: Seq<PakPlaces>,
    n: ModEntry,
    q: Seq<PakPlaces>,
    there: spec_fn(Seq<char>) -> bool,
)
    requires
        read_from(m, p, there),
        read_from(n, q, there),
        same_resolved(p, q),
        n.source == m.source,
        targets_renamed(n.targets@, m.targets@, mod_new_names(m, p)),
        n.target_overrides@ == match pak_state(m, p) {
            PakState::Missing { .. } => mod_changes::with_switch(
                m.target_overrides@,
                TargetKind::Pak,
                false,
                0,
            ),
            PakState::Restorable => Seq::empty(),
            PakState::Fine => m.target_overrides@,
        },
    ensures
        pak_state(n, q) is Fine,
        mod_new_names(n, q).len() == 0,
{
    if m.source != ModSource::Native {
        let len = m.targets@.len() as int;
        let names = mod_new_names(m, p);
        lemma_new_names(m.targets@, p, len);
        lemma_new_names(n.targets@, q, len);
        lemma_found(m.targets@, p, len);
        lemma_found(n.targets@, q, len);
        assert forall|i: int| 0 <= i < len implies new_name(#[trigger] n.targets@[i], q[i]) is None
            && (n.targets@[i] is Pak <==> m.targets@[i] is Pak) && n.targets@[i].kind_of()
            == m.targets@[i].kind_of() && (brings(m.targets@[i], p[i]) ==> brings(
            n.targets@[i],
            q[i],
        )) && (brings(n.targets@[i], q[i]) ==> exists|j: int|
            0 <= j < len && #[trigger] brings(m.targets@[j], p[j])) by {
            assert(native_apply::target_view(n.targets@[i]) == renamed_target(
                native_apply::target_view(m.targets@[i]),
                names,
            ));
            assert(text::text_opt(p[i].resolved) == text::text_opt(q[i].resolved));
            if let InstallTarget::Pak { file, .. } = m.targets@[i] {
                lemma_renamed_file(file@, names, 0);
                let new = n.targets@[i]->Pak_file@;
                assert(new == renamed_file(file@, names, 0));
                if exists|k: int| 0 <= k < names.len() && (#[trigger] names[k]).0 == file@ {
                    let k = choose|k: int|
                        0 <= k < names.len() && (#[trigger] names[k]).0 == file@ && names[k].1
                            == new;
                    let j = choose|j: int|
                        0 <= j < len && new_name(#[trigger] m.targets@[j], p[j]) == Some(names[k]);
                    assert(new_name(m.targets@[j], p[j]) == Some((file@, new)));
                    assert(there(new));
                    assert(brings(m.targets@[j], p[j]));
                } else {
                    assert(new == file@);
                    if let Some(pair) = new_name(m.targets@[i], p[i]) {
                        assert(names.contains(pair));
                        let k = choose|k: int| 0 <= k < names.len() && names[k] == pair;
                        assert(names[k].0 == file@);
                    }
                    if brings(n.targets@[i], q[i]) {
                        assert(brings(m.targets@[i], p[i]));
                    }
                }
            }
        }
        let found = mod_readings::pak_paths(m.targets@, false, p, len).len() > 0;
        assert(found == (mod_readings::pak_paths(n.targets@, false, q, len).len() > 0)) by {
            if found {
                let i = choose|i: int| 0 <= i < len && #[trigger] brings(m.targets@[i], p[i]);
                assert(n.targets@[i].kind_of() == m.targets@[i].kind_of());
                assert(brings(n.targets@[i], q[i]));
            }
            if exists|i: int| 0 <= i < len && #[trigger] brings(n.targets@[i], q[i]) {
                let i = choose|i: int| 0 <= i < len && #[trigger] brings(n.targets@[i], q[i]);
                assert(n.targets@[i].kind_of() == m.targets@[i].kind_of());
            }
        }
        assert(library::targets_have(n.targets@, TargetKind::Pak) == library::targets_have(
            m.targets@,
            TargetKind::Pak,
        )) by {
            if library::targets_have(m.targets@, TargetKind::Pak) {
                let i = choose|i: int|
                    0 <= i < len && (#[trigger] m.targets@[i]).kind_of() == TargetKind::Pak;
                assert(n.targets@[i].kind_of() == TargetKind::Pak);
            }
            if library::targets_have(n.targets@, TargetKind::Pak) {
                let i = choose|i: int|
                    0 <= i < len && (#[trigger] n.targets@[i]).kind_of() == TargetKind::Pak;
                assert(m.targets@[i].kind_of() == TargetKind::Pak);
            }
        }
        match pak_state(m, p) {
            PakState::Missing { .. } => {
                mod_changes::law_switch_holds(m.target_overrides@, TargetKind::Pak, false);
            },
            PakState::Restorable => {
                assert(library::switched_on(n.target_overrides@, TargetKind::Pak));
                if !library::targets_have(m.targets@, TargetKind::Pak) {
                    let i = choose|i: int| 0 <= i < len && #[trigger] brings(m.targets@[i], p[i]);
                    assert(m.targets@[i].kind_of() == TargetKind::Pak);
                }
            },
            PakState::Fine => {
                assert(other_on(n) == other_on(m)) by {
                    if other_on(m) {
                        let i = choose|i: int|
                            0 <= i < len && (#[trigger] m.targets@[i]) !is Pak
                                && library::switched_on(
                                m.target_overrides@,
                                m.targets@[i].kind_of(),
                            );
                        assert(n.targets@[i] !is Pak && n.targets@[i].kind_of()
                            == m.targets@[i].kind_of());
                    }
                    if other_on(n) {
                        let i = choose|i: int|
                            0 <= i < len && (#[trigger] n.targets@[i]) !is Pak
                                && library::switched_on(
                                n.target_overrides@,
                                n.targets@[i].kind_of(),
                            );
                        assert(m.targets@[i] !is Pak && n.targets@[i].kind_of()
                            == m.targets@[i].kind_of());
                    }
                }
            },
        }
    }
}

/// No two mods have the same id.
pub open spec fn distinct_mods(mods: Seq<ModEntry>) -> bool {
    forall|i: int, j: int|
        0 <= i < j < mods.len() ==> (#[trigger] mods[i]).id@ != (#[trigger] mods[j]).id@
}

pub proof fn lemma_only_mod(mods: Seq<ModEntry>, k: int)
    requires
        distinct_mods(mods),
        0 <= k < mods.len(),
    ensures
        library::last_index(mods, mods[k].id@) == k,
        native_apply::first_mod(mods, mods[k].id@) == k,
{
    let id = mods[k].id@;
    library::lemma_last_index(mods, id);
    native_apply::lemma_first_mod(mods, id);
    assert(library::is_last_with_id(mods, id, k));
    assert(mod_changes::is_first_mod(mods, id, k)) by {
        assert forall|j: int| 0 <= j < k implies (#[trigger] mods[j]).id@ != id by {}
    }
}

proof fn lemma_nothing_to_heal(mods: Seq<ModEntry>, places: Seq<Vec<PakPlaces>>, n: int)
    requires
        n <= mods.len(),
        forall|k: int| 0 <= k < mods.len() ==> pak_state(#[trigger] mods[k], places[k]@) is Fine,
    ensures
        heal_count(mods, places, n) == 0,
    decreases n,
{
    if n > 0 {
        lemma_nothing_to_heal(mods, places, n - 1);
        assert(pak_state(mods[n - 1], places[n - 1]@) is Fine);
    }
}

/// Where mods were healed and no file changed since, healing them again changes nothing:
/// no mod is concerned, and no load order changes.
pub proof fn law_heal_twice(
    before: Seq<ModEntry>,
    places: Seq<Vec<PakPlaces>>,
    after: Seq<ModEntry>,
    later: Seq<Vec<PakPlaces>>,
    there: spec_fn(int, Seq<char>) -> bool,
    order: Seq<ProfileEntry>,
)
    requires
        distinct_mods(before),
        places.len() == before.len(),
        later.len() == before.len(),
        after.len() == before.len(),
        forall|k: int| 0 <= k < before.len() ==> is_healed(#[trigger] after[k], before, places, k),
        forall|k: int|
            0 <= k < before.len() ==> read_from(
                #[trigger] before[k],
                places[k]@,
                |f: Seq<char>| there(k, f),
            ),
        forall|k: int|
            0 <= k < before.len() ==> read_from(
                #[trigger] after[k],
                later[k]@,
                |f: Seq<char>| there(k, f),
            ),
        forall|k: int| 0 <= k < before.len() ==> same_resolved((#[trigger] places[k])@, later[k]@),
    ensures
        heal_count(after, later, after.len() as int) == 0,
        forall|k: int| 0 <= k < after.len() ==> !#[trigger] is_touched(after, later, k),
        healed_order(order, after, later) == order,
{
    assert(distinct_mods(after)) by {
        assert forall|i: int, j: int| 0 <= i < j < after.len() implies (#[trigger] after[i]).id@ != (
        #[trigger] after[j]).id@ by {
            assert(is_healed(after[i], before, places, i));
            assert(is_healed(after[j], before, places, j));
            assert(before[i].id@ != before[j].id@);
        }
    }
    assert forall|k: int| 0 <= k < after.len() implies pak_state(#[trigger] after[k], later[k]@) is Fine
        && mod_new_names(after[k], later[k]@).len() == 0 by {
        lemma_only_mod(before, k);
        assert(is_healed(after[k], before, places, k));
        assert(read_from(before[k], places[k]@, |f: Seq<char>| there(k, f)));
        assert(read_from(after[k], later[k]@, |f: Seq<char>| there(k, f)));
        assert(same_resolved(places[k]@, later[k]@));
        lemma_healed_once(
            before[k],
            places[k]@,
            after[k],
            later[k]@,
            |f: Seq<char>| there(k, f),
        );
    }
    lemma_nothing_to_heal(after, later, after.len() as int);
    assert forall|k: int| 0 <= k < after.len() implies !#[trigger] is_touched(after, later, k) by {
        lemma_only_mod(after, k);
        assert(pak_state(after[k], later[k]@) is Fine);
    }
    assert forall|i: int| 0 <= i < order.len() implies healed_order(order, after, later)[i]
        == order[i] by {
        library::lemma_last_index(after, order[i].id@);
        let j = library::last_index(after, order[i].id@);
        if j >= 0 {
            assert(pak_state(after[j], later[j]@) is Fine);
        }
    }
    assert(healed_order(order, after, later) =~= order);
}

/// A mod that healing does not touch is what it was.
pub proof fn law_untouched_mod_stays(
    new: ModEntry,
    mods: Seq<ModEntry>,
    places: Seq<Vec<PakPlaces>>,
    k: int,
)
    requires
        is_healed(new, mods, places, k),
        !is_touched(mods, places, k),
    ensures
        new == (ModEntry {
            targets: new.targets,
            target_overrides: new.target_overrides,
            ..mods[k]
        }),
        new.target_overrides@ == mods[k].target_overrides@,
        new.targets@.len() == mods[k].targets@.len(),
        forall|i: int|
            0 <= i < new.targets@.len() ==> native_apply::target_view(#[trigger] new.targets@[i])
                == native_apply::target_view(mods[k].targets@[i]),
{
    let names = names_of(mods, places, mods[k].id@);
    assert forall|i: int| 0 <= i < new.targets@.len() implies native_apply::target_view(
        #[trigger] new.targets@[i],
    ) == native_apply::target_view(mods[k].targets@[i]) by {
        let t = native_apply::target_view(mods[k].targets@[i]);
        assert(!is_renamed(t, names));
        if let TargetView::Pak { file, .. } = t {
            lemma_renamed_file(file, names, 0);
        }
    }
}

/// Healing leaves the game's own mods and their places in a load order alone.
pub proof fn law_native_mods_are_left_alone(
    mods: Seq<ModEntry>,
    places: Seq<Vec<PakPlaces>>,
    k: int,
    order: Seq<ProfileEntry>,
    i: int,
)
    requires
        distinct_mods(mods),
        0 <= k < mods.len(),
        mods[k].source == ModSource::Native,
        0 <= i < order.len(),
        order[i].id@ == mods[k].id@,
    ensures
        !is_touched(mods, places, k),
        healed_order(order, mods, places)[i] == order[i],
{
    lemma_only_mod(mods, k);
}

} // verus!
