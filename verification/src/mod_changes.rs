//! Changes to the mods of a library.
use crate::library;
use crate::library::{
    find_profile, FileOverride, Library, ModEntry, Profile, ProfileEntry, TargetKind,
    TargetOverride,
};
use crate::lists;
use crate::mod_table;
use crate::mod_table::collect_kinds;
use crate::sorting::has_string;
use crate::text;
use crate::text::same_text;
use vstd::prelude::*;

verus! {

// ---------------------------------------------------------------------------
// Switching mods on and off
// ---------------------------------------------------------------------------

/// The order with the mods of the ids switched.
pub open spec fn switched(
    order: Seq<ProfileEntry>,
    ids: Seq<Seq<char>>,
    enabled: bool,
) -> Seq<ProfileEntry> {
    Seq::new(
        order.len(),
        |i: int|
            if ids.contains(order[i].id@) {
                ProfileEntry { id: order[i].id, enabled }
            } else {
                order[i]
            },
    )
}

/// How many of the first `n` entries that changes.
pub open spec fn switch_count(
    order: Seq<ProfileEntry>,
    ids: Seq<Seq<char>>,
    enabled: bool,
    n: int,
) -> nat
    decreases n,
{
    if n <= 0 {
        0
    } else {
        switch_count(order, ids, enabled, n - 1) + if ids.contains(order[n - 1].id@)
            && order[n - 1].enabled != enabled {
            1nat
        } else {
            0nat
        }
    }
}

pub fn switch_mods(order: &mut Vec<ProfileEntry>, ids: &[String], enabled: bool) -> (changed: usize)
    ensures
        final(order)@ == switched(old(order)@, text::texts(ids@), enabled),
        changed == switch_count(
            old(order)@,
            text::texts(ids@),
            enabled,
            old(order)@.len() as int,
        ),
{
    let ghost start = order@;
    let ghost all = text::texts(ids@);
    let mut changed: usize = 0;
    let mut i: usize = 0;
    while i < order.len()
        invariant
            i <= order.len(),
            order@.len() == start.len(),
            start == old(order)@,
            all == text::texts(ids@),
            changed <= i,
            changed == switch_count(start, all, enabled, i as int),
            forall|k: int| 0 <= k < i ==> #[trigger] order@[k] == switched(start, all, enabled)[k],
            forall|k: int| i <= k < start.len() ==> #[trigger] order@[k] == start[k],
        decreases order.len() - i,
    {
        if has_string(ids, order[i].id.as_str()) {
            if order[i].enabled != enabled {
                order[i].enabled = enabled;
                changed = changed + 1;
            }
            assert(order@[i as int] == switched(start, all, enabled)[i as int]);
        }
        i = i + 1;
    }
    assert(order@ =~= switched(start, all, enabled));
    changed
}

/// Switching the same mods twice the same way changes nothing the second time.
pub proof fn law_switch_twice(order: Seq<ProfileEntry>, ids: Seq<Seq<char>>, enabled: bool, n: int)
    requires
        n <= order.len(),
    ensures
        switched(switched(order, ids, enabled), ids, enabled) == switched(order, ids, enabled),
        switch_count(switched(order, ids, enabled), ids, enabled, n) == 0,
    decreases n,
{
    assert(switched(switched(order, ids, enabled), ids, enabled) =~= switched(
        order,
        ids,
        enabled,
    ));
    if n > 0 {
        law_switch_twice(order, ids, enabled, n - 1);
    }
}

/// Switching mods leaves the order as it is.
pub proof fn law_switch_keeps_order(order: Seq<ProfileEntry>, ids: Seq<Seq<char>>, enabled: bool)
    ensures
        library::order_ids(switched(order, ids, enabled)) == library::order_ids(order),
{
    assert(library::order_ids(switched(order, ids, enabled)) =~= library::order_ids(order));
}

/// Where the active profile stands, or -1.
pub open spec fn active_place(library: Library) -> int {
    library::profile_index(library.profiles@, library.active_profile@)
}

/// Whether a library is another with the order of its active profile replaced, and
/// nothing else but, maybe, whether the game's settings are followed.
pub open spec fn with_active_order(
    after: Library,
    before: Library,
    order: Seq<ProfileEntry>,
    follows: bool,
) -> bool {
    let at = active_place(before);
    &&& after == (Library {
        profiles: after.profiles,
        modsettings_sync_enabled: follows,
        ..before
    })
    &&& after.profiles@.len() == before.profiles@.len()
    &&& after.profiles@[at].name == before.profiles@[at].name
    &&& after.profiles@[at].file_overrides == before.profiles@[at].file_overrides
    &&& after.profiles@[at].order@ == order
    &&& forall|i: int|
        0 <= i < before.profiles@.len() && i != at ==> #[trigger] after.profiles@[i]
            == before.profiles@[i]
}

impl Library {
    /// Switches mods of the active profile. Where that changes anything, the game's
    /// own settings no longer decide what is switched on.
    pub fn set_mods_enabled_in_active(&mut self, ids: &[String], enabled: bool) -> (changed: usize)
        ensures
            ({
                let at = active_place(*old(self));
                let order = old(self).profiles@[at].order@;
                let all = text::texts(ids@);
                if at < 0 {
                    changed == 0 && *final(self) == *old(self)
                } else {
                    &&& changed == switch_count(order, all, enabled, order.len() as int)
                    &&& with_active_order(
                        *final(self),
                        *old(self),
                        switched(order, all, enabled),
                        old(self).modsettings_sync_enabled && changed == 0,
                    )
                }
            }),
    {
        proof {
            library::lemma_profile_index(self.profiles@, self.active_profile@);
        }
        match find_profile(&self.profiles, self.active_profile.as_str()) {
            Some(at) => {
                let changed = switch_mods(&mut self.profiles[at].order, ids, enabled);
                if changed > 0 {
                    self.modsettings_sync_enabled = false;
                }
                changed
            },
            None => 0,
        }
    }
}

pub open spec fn capped(n: int) -> int {
    if n <= usize::MAX {
        n
    } else {
        usize::MAX as int
    }
}

/// How many entries of the first `n` profiles are switched off, as far as they can
/// be counted.
pub open spec fn off_count(profiles: Seq<Profile>, ids: Seq<Seq<char>>, n: int) -> int
    decreases n,
{
    if n <= 0 {
        0
    } else {
        capped(
            off_count(profiles, ids, n - 1) + switch_count(
                profiles[n - 1].order@,
                ids,
                false,
                profiles[n - 1].order@.len() as int,
            ),
        )
    }
}

impl Library {
    /// Switches mods off in all profiles.
    pub fn disable_mods_by_id(&mut self, ids: &[String]) -> (changed: usize)
        ensures
            changed == off_count(
                old(self).profiles@,
                text::texts(ids@),
                old(self).profiles@.len() as int,
            ),
            *final(self) == (Library { profiles: final(self).profiles, ..*old(self) }),
            final(self).profiles@.len() == old(self).profiles@.len(),
            forall|i: int|
                0 <= i < old(self).profiles@.len() ==> {
                    &&& (#[trigger] final(self).profiles@[i]).name == old(self).profiles@[i].name
                    &&& final(self).profiles@[i].file_overrides == old(self).profiles@[i].file_overrides
                    &&& final(self).profiles@[i].order@ == switched(
                        old(self).profiles@[i].order@,
                        text::texts(ids@),
                        false,
                    )
                },
    {
        let ghost start = *self;
        let ghost all = text::texts(ids@);
        let mut changed: usize = 0;
        let mut i: usize = 0;
        while i < self.profiles.len()
            invariant
                i <= self.profiles.len(),
                start == *old(self),
                all == text::texts(ids@),
                *self == (Library { profiles: self.profiles, ..start }),
                self.profiles@.len() == start.profiles@.len(),
                changed == off_count(start.profiles@, all, i as int),
                forall|k: int|
                    0 <= k < i ==> {
                        &&& (#[trigger] self.profiles@[k]).name == start.profiles@[k].name
                        &&& self.profiles@[k].file_overrides == start.profiles@[k].file_overrides
                        &&& self.profiles@[k].order@ == switched(
                            start.profiles@[k].order@,
                            all,
                            false,
                        )
                    },
                forall|k: int|
                    i <= k < start.profiles@.len() ==> #[trigger] self.profiles@[k]
                        == start.profiles@[k],
            decreases self.profiles.len() - i,
        {
            let here = switch_mods(&mut self.profiles[i].order, ids, false);
            changed = changed.saturating_add(here);
            i = i + 1;
        }
        changed
    }
}

// ---------------------------------------------------------------------------
// Taking mods away and putting them in
// ---------------------------------------------------------------------------

pub open spec fn other_mods(id: Seq<char>) -> spec_fn(ModEntry) -> bool {
    |m: ModEntry| m.id@ != id
}

pub open spec fn other_entries(id: Seq<char>) -> spec_fn(ProfileEntry) -> bool {
    |e: ProfileEntry| e.id@ != id
}

pub open spec fn other_choices(id: Seq<char>) -> spec_fn(FileOverride) -> bool {
    |o: FileOverride| o.mod_id@ != id
}

pub open spec fn other_ids(id: Seq<char>) -> spec_fn(String) -> bool {
    |s: String| s@ != id
}

pub(crate) fn drop_mods(list: &mut Vec<ModEntry>, id: &str)
    ensures
        final(list)@ == old(list)@.filter(other_mods(id@)),
{
    let ghost all = list@;
    let ghost keeps = other_mods(id@);
    let mut left: Vec<ModEntry> = Vec::new();
    std::mem::swap(&mut left, list);
    let mut kept: Vec<ModEntry> = Vec::new();
    proof {
        lists::lemma_filter_whole(all, keeps);
        assert(left@ =~= all.skip(0));
    }
    while left.len() > 0
        invariant
            left.len() <= all.len(),
            keeps == other_mods(id@),
            left@ == all.skip(all.len() - left.len()),
            kept@ == all.take(all.len() - left.len()).filter(keeps),
        decreases left.len(),
    {
        let ghost at = all.len() - left.len();
        assert(left@[0] == all[at]);
        proof {
            lists::lemma_keep_item(all, at, keeps);
        }
        let m = left.remove(0);
        if !same_text(m.id.as_str(), id) {
            kept.push(m);
        }
        assert(left@ =~= all.skip(at + 1));
    }
    proof {
        lists::lemma_filter_whole(all, keeps);
    }
    *list = kept;
}

pub(crate) fn drop_entries(list: &mut Vec<ProfileEntry>, id: &str)
    ensures
        final(list)@ == old(list)@.filter(other_entries(id@)),
{
    let ghost all = list@;
    let ghost keeps = other_entries(id@);
    let mut kept: Vec<ProfileEntry> = Vec::new();
    let mut i: usize = 0;
    proof {
        lists::lemma_filter_whole(all, keeps);
    }
    while i < list.len()
        invariant
            i <= list.len(),
            list@ == all,
            keeps == other_entries(id@),
            kept@ == all.take(i as int).filter(keeps),
        decreases list.len() - i,
    {
        proof {
            lists::lemma_keep_item(all, i as int, keeps);
        }
        if !same_text(list[i].id.as_str(), id) {
            kept.push(list[i].clone());
        }
        i = i + 1;
    }
    proof {
        lists::lemma_filter_whole(all, keeps);
    }
    *list = kept;
}

fn drop_choices(list: &mut Vec<FileOverride>, id: &str)
    ensures
        final(list)@ == old(list)@.filter(other_choices(id@)),
{
    let ghost all = list@;
    let ghost keeps = other_choices(id@);
    let mut kept: Vec<FileOverride> = Vec::new();
    let mut i: usize = 0;
    proof {
        lists::lemma_filter_whole(all, keeps);
    }
    while i < list.len()
        invariant
            i <= list.len(),
            list@ == all,
            keeps == other_choices(id@),
            kept@ == all.take(i as int).filter(keeps),
        decreases list.len() - i,
    {
        proof {
            lists::lemma_keep_item(all, i as int, keeps);
        }
        if !same_text(list[i].mod_id.as_str(), id) {
            kept.push(list[i].clone());
        }
        i = i + 1;
    }
    proof {
        lists::lemma_filter_whole(all, keeps);
    }
    *list = kept;
}

fn drop_ids(list: &mut Vec<String>, id: &str)
    ensures
        final(list)@ == old(list)@.filter(other_ids(id@)),
{
    let ghost all = list@;
    let ghost keeps = other_ids(id@);
    let mut kept: Vec<String> = Vec::new();
    let mut i: usize = 0;
    proof {
        lists::lemma_filter_whole(all, keeps);
    }
    while i < list.len()
        invariant
            i <= list.len(),
            list@ == all,
            keeps == other_ids(id@),
            kept@ == all.take(i as int).filter(keeps),
        decreases list.len() - i,
    {
        proof {
            lists::lemma_keep_item(all, i as int, keeps);
        }
        if !same_text(list[i].as_str(), id) {
            kept.push(list[i].clone());
        }
        i = i + 1;
    }
    proof {
        lists::lemma_filter_whole(all, keeps);
    }
    *list = kept;
}

/// Whether a profile is another without anything that speaks of the mod.
pub open spec fn without_mod(after: Profile, before: Profile, id: Seq<char>) -> bool {
    &&& after.name == before.name
    &&& after.order@ == before.order@.filter(other_entries(id))
    &&& after.file_overrides@ == before.file_overrides@.filter(other_choices(id))
}

/// Whether a library is another without a mod.
pub open spec fn mod_removed(after: Library, before: Library, id: Seq<char>) -> bool {
    &&& after == (Library {
        mods: after.mods,
        profiles: after.profiles,
        dependency_blocks: after.dependency_blocks,
        ..before
    })
    &&& after.mods@ == before.mods@.filter(other_mods(id))
    &&& after.dependency_blocks@ == before.dependency_blocks@.filter(other_ids(id))
    &&& after.profiles@.len() == before.profiles@.len()
    &&& forall|i: int|
        0 <= i < before.profiles@.len() ==> without_mod(
            #[trigger] after.profiles@[i],
            before.profiles@[i],
            id,
        )
}

pub open spec fn has_mod(mods: Seq<ModEntry>, id: Seq<char>) -> bool {
    exists|i: int| 0 <= i < mods.len() && (#[trigger] mods[i]).id@ == id
}

/// Whether `i` is the first mod with the id.
pub open spec fn is_first_mod(mods: Seq<ModEntry>, id: Seq<char>, i: int) -> bool {
    &&& 0 <= i < mods.len()
    &&& mods[i].id@ == id
    &&& forall|j: int| 0 <= j < i ==> (#[trigger] mods[j]).id@ != id
}

pub fn find_mod(mods: &Vec<ModEntry>, id: &str) -> (r: Option<usize>)
    ensures
        match r {
            Some(i) => is_first_mod(mods@, id@, i as int) && has_mod(mods@, id@),
            None => !has_mod(mods@, id@),
        },
{
    let mut i: usize = 0;
    while i < mods.len()
        invariant
            i <= mods.len(),
            forall|j: int| 0 <= j < i ==> (#[trigger] mods@[j]).id@ != id@,
        decreases mods.len() - i,
    {
        if same_text(mods[i].id.as_str(), id) {
            return Some(i);
        }
        i = i + 1;
    }
    None
}

impl Library {
    /// Takes a mod out of the library and of all profiles.
    pub fn remove_mod_by_id(&mut self, id: &str) -> (r: bool)
        ensures
            r == has_mod(old(self).mods@, id@),
            r ==> mod_removed(*final(self), *old(self), id@),
            !r ==> *final(self) == *old(self),
    {
        if find_mod(&self.mods, id).is_none() {
            return false;
        }
        let ghost start = *self;
        drop_mods(&mut self.mods, id);
        drop_ids(&mut self.dependency_blocks, id);
        let mut i: usize = 0;
        while i < self.profiles.len()
            invariant
                i <= self.profiles.len(),
                *self == (Library {
                    mods: self.mods,
                    profiles: self.profiles,
                    dependency_blocks: self.dependency_blocks,
                    ..start
                }),
                self.mods@ == start.mods@.filter(other_mods(id@)),
                self.dependency_blocks@ == start.dependency_blocks@.filter(other_ids(id@)),
                self.profiles@.len() == start.profiles@.len(),
                forall|k: int|
                    0 <= k < i ==> without_mod(
                        #[trigger] self.profiles@[k],
                        start.profiles@[k],
                        id@,
                    ),
                forall|k: int|
                    i <= k < start.profiles@.len() ==> #[trigger] self.profiles@[k]
                        == start.profiles@[k],
            decreases self.profiles.len() - i,
        {
            drop_entries(&mut self.profiles[i].order, id);
            drop_choices(&mut self.profiles[i].file_overrides, id);
            i = i + 1;
        }
        true
    }
}

proof fn lemma_filter_distinct(order: Seq<ProfileEntry>, keeps: spec_fn(ProfileEntry) -> bool)
    requires
        library::distinct_entries(order),
    ensures
        library::distinct_entries(order.filter(keeps)),
    decreases order.len(),
{
    reveal(Seq::filter);
    if order.len() > 0 {
        let front = order.drop_last();
        lemma_filter_distinct(front, keeps);
        let kept = front.filter(keeps);
        assert forall|k: int| 0 <= k < kept.len() implies (#[trigger] kept[k]).id@
            != order.last().id@ by {
            lists::lemma_filter_contains(front, keeps, kept[k]);
            assert(kept.contains(kept[k]));
            let i = choose|i: int| 0 <= i < front.len() && front[i] == kept[k];
            assert(order[i].id@ != order[order.len() - 1].id@);
        }
    }
}

/// Switching mods lists none twice.
pub proof fn law_switch_lists_mods_once(
    order: Seq<ProfileEntry>,
    ids: Seq<Seq<char>>,
    enabled: bool,
)
    requires
        library::distinct_entries(order),
    ensures
        library::distinct_entries(switched(order, ids, enabled)),
{
}

/// Taking a mod out lists none twice.
pub proof fn law_removal_lists_mods_once(after: Library, before: Library, id: Seq<char>, p: int)
    requires
        mod_removed(after, before, id),
        0 <= p < after.profiles@.len(),
        library::distinct_entries(before.profiles@[p].order@),
    ensures
        library::distinct_entries(after.profiles@[p].order@),
{
    assert(without_mod(after.profiles@[p], before.profiles@[p], id));
    lemma_filter_distinct(before.profiles@[p].order@, other_entries(id));
}

/// A mod that was taken out is nowhere spoken of any more.
pub proof fn law_removed_is_gone(after: Library, before: Library, id: Seq<char>, p: int, i: int)
    requires
        mod_removed(after, before, id),
        0 <= p < after.profiles@.len(),
    ensures
        !has_mod(after.mods@, id),
        0 <= i < after.profiles@[p].order@.len() ==> after.profiles@[p].order@[i].id@ != id,
        0 <= i < after.profiles@[p].file_overrides@.len() ==> after.profiles@[p].file_overrides@[i].mod_id@
            != id,
        0 <= i < after.dependency_blocks@.len() ==> after.dependency_blocks@[i]@ != id,
{
    assert(without_mod(after.profiles@[p], before.profiles@[p], id));
    assert forall|k: int| 0 <= k < after.mods@.len() implies (#[trigger] after.mods@[k]).id@
        != id by {
        before.mods@.lemma_filter_pred(other_mods(id), k);
    }
    if 0 <= i < after.profiles@[p].order@.len() {
        before.profiles@[p].order@.lemma_filter_pred(other_entries(id), i);
    }
    if 0 <= i < after.profiles@[p].file_overrides@.len() {
        before.profiles@[p].file_overrides@.lemma_filter_pred(other_choices(id), i);
    }
    if 0 <= i < after.dependency_blocks@.len() {
        before.dependency_blocks@.lemma_filter_pred(other_ids(id), i);
    }
}

/// The mods with others put in: each takes the place of those with its id, at the
/// end.
pub open spec fn with_mods(mods: Seq<ModEntry>, more: Seq<ModEntry>) -> Seq<ModEntry>
    decreases more.len(),
{
    if more.len() == 0 {
        mods
    } else {
        with_mods(mods, more.drop_last()).filter(other_mods(more.last().id@)).push(more.last())
    }
}

impl Library {
    /// Puts mods into the library, and into all profiles.
    pub fn apply_mod_entries(&mut self, more: Vec<ModEntry>)
        ensures
            final(self).mods@ == with_mods(old(self).mods@, more@),
            *final(self) == (Library {
                mods: final(self).mods,
                profiles: final(self).profiles,
                ..*old(self)
            }),
            final(self).profiles@.len() == old(self).profiles@.len(),
            forall|i: int|
                0 <= i < old(self).profiles@.len() ==> library::ensured(
                    old(self).profiles@[i],
                    #[trigger] final(self).profiles@[i],
                    library::mod_ids(final(self).mods@),
                ),
    {
        let ghost start = *self;
        let ghost all = more@;
        let mut left = more;
        assert(left@ =~= all.skip(0));
        assert(all.take(0) =~= Seq::<ModEntry>::empty());
        while left.len() > 0
            invariant
                left.len() <= all.len(),
                left@ == all.skip(all.len() - left.len()),
                *self == (Library { mods: self.mods, ..start }),
                self.mods@ == with_mods(start.mods@, all.take(all.len() - left.len())),
            decreases left.len(),
        {
            let ghost at = all.len() - left.len();
            assert(left@[0] == all[at]);
            let m = left.remove(0);
            drop_mods(&mut self.mods, m.id.as_str());
            self.mods.push(m);
            proof {
                assert(left@ =~= all.skip(at + 1));
                assert(all.take(at + 1).drop_last() =~= all.take(at));
                assert(all.take(at + 1).last() == m);
            }
        }
        assert(all.take(all.len() as int) =~= all);
        self.ensure_mods_in_profiles();
    }
}

/// A mod that was put in last is there.
pub proof fn law_put_in_is_there(mods: Seq<ModEntry>, more: Seq<ModEntry>, i: int)
    requires
        0 <= i < more.len(),
    ensures
        has_mod(with_mods(mods, more), more[i].id@),
    decreases more.len(),
{
    let front = with_mods(mods, more.drop_last());
    let id = more[i].id@;
    let out = with_mods(mods, more);
    if more.last().id@ == id {
        assert(out[out.len() - 1].id@ == id);
    } else {
        law_put_in_is_there(mods, more.drop_last(), i);
        let k = choose|k: int| 0 <= k < front.len() && (#[trigger] front[k]).id@ == id;
        front.lemma_filter_contains(other_mods(more.last().id@), k);
        let rest = front.filter(other_mods(more.last().id@));
        let j = choose|j: int| 0 <= j < rest.len() && rest[j] == front[k];
        assert(out[j].id@ == id);
    }
}

// ---------------------------------------------------------------------------
// Targets
// ---------------------------------------------------------------------------

/// The switches with one kind switched.
pub open spec fn with_switch(
    switches: Seq<TargetOverride>,
    kind: TargetKind,
    enabled: bool,
    from: int,
) -> Seq<TargetOverride>
    decreases switches.len() - from,
{
    if from < 0 || from >= switches.len() {
        switches.push(TargetOverride { kind, enabled })
    } else if switches[from].kind == kind {
        switches.update(from, TargetOverride { kind, enabled })
    } else {
        with_switch(switches, kind, enabled, from + 1)
    }
}

/// Switches a kind of targets of a mod; tells whether that changes anything.
pub fn set_target_override(m: &mut ModEntry, kind: TargetKind, enabled: bool) -> (changed: bool)
    ensures
        *final(m) == (ModEntry { target_overrides: final(m).target_overrides, ..*old(m) }),
        final(m).target_overrides@ == with_switch(old(m).target_overrides@, kind, enabled, 0),
        changed == (final(m).target_overrides@ != old(m).target_overrides@),
{
    let ghost start = m.target_overrides@;
    let mut i: usize = 0;
    while i < m.target_overrides.len()
        invariant
            i <= m.target_overrides.len(),
            m.target_overrides@ == start,
            *m == *old(m),
            start == old(m).target_overrides@,
            with_switch(start, kind, enabled, 0) == with_switch(start, kind, enabled, i as int),
        decreases m.target_overrides.len() - i,
    {
        if m.target_overrides[i].kind == kind {
            let ghost wanted = TargetOverride { kind, enabled };
            if m.target_overrides[i].enabled != enabled {
                m.target_overrides[i].enabled = enabled;
                assert(m.target_overrides@[i as int] == wanted);
                assert(start[i as int] != wanted);
                assert(m.target_overrides@ =~= start.update(i as int, wanted));
                return true;
            }
            assert(start[i as int] == wanted);
            assert(start.update(i as int, wanted) =~= start);
            return false;
        }
        i = i + 1;
    }
    m.target_overrides.push(TargetOverride { kind, enabled });
    assert(m.target_overrides@.len() != start.len());
    true
}

/// A kind that was switched is as it was switched.
pub proof fn law_switch_holds(switches: Seq<TargetOverride>, kind: TargetKind, enabled: bool)
    ensures
        library::switched_on(with_switch(switches, kind, enabled, 0), kind) == enabled,
{
    lemma_with_switch(switches, kind, enabled, 0);
}

proof fn lemma_with_switch(switches: Seq<TargetOverride>, kind: TargetKind, enabled: bool, from: int)
    requires
        0 <= from <= switches.len(),
        forall|i: int| 0 <= i < from ==> (#[trigger] switches[i]).kind != kind,
    ensures
        library::switched_on(with_switch(switches, kind, enabled, from), kind) == enabled,
    decreases switches.len() - from,
{
    let out = with_switch(switches, kind, enabled, from);
    if from < switches.len() && switches[from].kind != kind {
        lemma_with_switch(switches, kind, enabled, from + 1);
    } else {
        assert(out[from] == (TargetOverride { kind, enabled }));
        assert(library::is_first_switch(out, kind, from));
        assert forall|i: int| #[trigger] library::is_first_switch(out, kind, i) implies out[i].enabled
            == enabled by {
            if i < from {
                assert(out[i].kind == switches[i].kind);
            }
        }
    }
}

/// The switches that leave one kind on.
pub open spec fn only_kind(kinds: Seq<TargetKind>, kind: TargetKind) -> Seq<TargetOverride> {
    Seq::new(kinds.len(), |i: int| TargetOverride { kind: kinds[i], enabled: kinds[i] == kind })
}

/// Leaves one kind of a mod's targets on, or all of them as they are by themselves;
/// tells whether the mod has targets of the kind.
pub fn select_target(m: &mut ModEntry, selection: Option<TargetKind>) -> (r: bool)
    ensures
        r == match selection {
            Some(kind) => library::targets_have(old(m).targets@, kind),
            None => true,
        },
        *final(m) == (ModEntry { target_overrides: final(m).target_overrides, ..*old(m) }),
        final(m).target_overrides@ == match selection {
            Some(kind) => if r {
                only_kind(
                    mod_table::kinds(old(m).targets@, old(m).targets@.len() as int),
                    kind,
                )
            } else {
                old(m).target_overrides@
            },
            None => Seq::empty(),
        },
{
    match selection {
        Some(kind) => {
            if !m.has_target_kind(kind) {
                return false;
            }
            let kinds = collect_kinds(m);
            let mut out: Vec<TargetOverride> = Vec::new();
            let mut i: usize = 0;
            while i < kinds.len()
                invariant
                    i <= kinds.len(),
                    out@ == only_kind(kinds@, kind).take(i as int),
                decreases kinds.len() - i,
            {
                out.push(TargetOverride { kind: kinds[i], enabled: kinds[i] == kind });
                i = i + 1;
                assert(only_kind(kinds@, kind).take(i as int).drop_last() =~= only_kind(
                    kinds@,
                    kind,
                ).take(i - 1));
            }
            assert(only_kind(kinds@, kind).take(i as int) =~= only_kind(kinds@, kind));
            m.target_overrides = out;
        },
        None => {
            m.target_overrides = Vec::new();
        },
    }
    true
}

} // verus!
