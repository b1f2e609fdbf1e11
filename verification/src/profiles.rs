//! Changes to the profiles of a library.
use crate::library;
use crate::library::{collect_ids, find_profile, FileOverride, Library, Profile, ProfileEntry};
use crate::lists;
use crate::text;
use crate::text::{concat2, concat3, eq_ignore_case, push_text, same_text, show_usize, trim};
use vstd::prelude::*;

verus! {

// ---------------------------------------------------------------------------
// Names
// ---------------------------------------------------------------------------

/// Whether a profile has the name, whatever the case.
pub open spec fn name_taken(profiles: Seq<Profile>, name: Seq<char>) -> bool {
    exists|i: int|
        0 <= i < profiles.len() && text::same_ignoring_case((#[trigger] profiles[i]).name@, name)
}

pub fn profile_exists(profiles: &Vec<Profile>, name: &str) -> (r: bool)
    ensures
        r == name_taken(profiles@, name@),
{
    let mut i: usize = 0;
    while i < profiles.len()
        invariant
            i <= profiles.len(),
            forall|k: int|
                0 <= k < i ==> !text::same_ignoring_case((#[trigger] profiles@[k]).name@, name@),
        decreases profiles.len() - i,
    {
        if eq_ignore_case(profiles[i].name.as_str(), name) {
            return true;
        }
        i = i + 1;
    }
    false
}

/// A name with a number behind it.
pub open spec fn numbered(base: Seq<char>, n: nat) -> Seq<char> {
    base + " ("@ + text::decimal(n) + ")"@
}

/// The first of the numbered names, from `n` on, that is free.
pub open spec fn free_name(profiles: Seq<Profile>, base: Seq<char>, n: nat) -> Seq<char>
    decreases 1000 - n,
{
    if n >= 1000 {
        base + " (copy)"@
    } else if !name_taken(profiles, numbered(base, n)) {
        numbered(base, n)
    } else {
        free_name(profiles, base, n + 1)
    }
}

/// The name for a profile that is wished to have a name.
pub open spec fn unique_name(profiles: Seq<Profile>, wish: Seq<char>) -> Seq<char> {
    let base = text::trimmed(wish);
    if base.len() == 0 {
        "Profile"@
    } else if !name_taken(profiles, base) {
        base
    } else {
        free_name(profiles, base, 2)
    }
}

pub fn unique_profile_name(profiles: &Vec<Profile>, wish: &str) -> (r: String)
    ensures
        r@ == unique_name(profiles@, wish@),
{
    let base = trim(wish);
    if base.as_str().is_empty() {
        return "Profile".to_owned();
    }
    if !profile_exists(profiles, base.as_str()) {
        return base;
    }
    let mut n: usize = 2;
    while n < 1000
        invariant
            2 <= n <= 1000,
            base@ == text::trimmed(wish@),
            base@.len() > 0,
            name_taken(profiles@, base@),
            free_name(profiles@, base@, n as nat) == free_name(profiles@, base@, 2),
        decreases 1000 - n,
    {
        let shown = show_usize(n);
        let mut name = concat3(base.as_str(), " (", shown.as_str());
        push_text(&mut name, ")");
        if !profile_exists(profiles, name.as_str()) {
            return name;
        }
        n = n + 1;
    }
    concat2(base.as_str(), " (copy)")
}

/// The name that is found is free, as long as one of the numbered names is.
pub proof fn law_unique_name_is_free(profiles: Seq<Profile>, wish: Seq<char>, n: nat)
    requires
        text::trimmed(wish).len() > 0,
        2 <= n < 1000,
        !name_taken(profiles, numbered(text::trimmed(wish), n)),
    ensures
        !name_taken(profiles, unique_name(profiles, wish)),
{
    if name_taken(profiles, text::trimmed(wish)) {
        lemma_free_name(profiles, text::trimmed(wish), 2, n);
    }
}

proof fn lemma_free_name(profiles: Seq<Profile>, base: Seq<char>, from: nat, n: nat)
    requires
        from <= n < 1000,
        !name_taken(profiles, numbered(base, n)),
    ensures
        !name_taken(profiles, free_name(profiles, base, from)),
    decreases n - from,
{
    if name_taken(profiles, numbered(base, from)) {
        lemma_free_name(profiles, base, from + 1, n);
    }
}

/// Whether `n` is the least number from two on that makes a name free.
pub open spec fn is_least_number(profiles: Seq<Profile>, base: Seq<char>, n: nat) -> bool {
    &&& 2 <= n < 1000
    &&& !name_taken(profiles, numbered(base, n))
    &&& forall|j: nat| 2 <= j < n ==> name_taken(profiles, #[trigger] numbered(base, j))
}

pub proof fn lemma_least_number(profiles: Seq<Profile>, base: Seq<char>, from: nat, n: nat)
    requires
        2 <= from <= n,
        is_least_number(profiles, base, n),
    ensures
        free_name(profiles, base, from) == numbered(base, n),
    decreases n - from,
{
    if from < n {
        assert(name_taken(profiles, numbered(base, from)));
        lemma_least_number(profiles, base, from + 1, n);
    }
}

proof fn lemma_numbers_differ(base: Seq<char>, a: nat, b: nat)
    requires
        text::same_ignoring_case(numbered(base, a), numbered(base, b)),
    ensures
        a == b,
{
    let x = numbered(base, a);
    let y = numbered(base, b);
    let (p, q) = (text::decimal(a), text::decimal(b));
    text::lemma_decimal(a);
    text::lemma_decimal(b);
    assert(text::ascii_lower(x).len() == x.len());
    assert(text::ascii_lower(y).len() == y.len());
    let at = (base + " ("@).len() as int;
    assert forall|i: int| 0 <= i < p.len() implies p[i] == q[i] by {
        assert(text::ascii_lower(x)[at + i] == text::lower(x[at + i]));
        assert(text::ascii_lower(y)[at + i] == text::lower(y[at + i]));
        assert(x[at + i] == p[i] && y[at + i] == q[i]);
        assert(text::is_digit(p[i]) && text::is_digit(q[i]));
    }
    assert(p =~= q);
}

pub open spec fn takes_name(profiles: Seq<Profile>, name: Seq<char>, i: int) -> bool {
    0 <= i < profiles.len() && text::same_ignoring_case(profiles[i].name@, name)
}

/// A profile that takes a name.
pub open spec fn taker(profiles: Seq<Profile>, name: Seq<char>) -> int {
    choose|i: int| takes_name(profiles, name, i)
}

/// With fewer profiles than there are numbers to try, one of the numbers makes a name free.
pub proof fn law_some_number_is_free(profiles: Seq<Profile>, base: Seq<char>)
    requires
        profiles.len() < 998,
    ensures
        exists|n: nat| is_least_number(profiles, base, n),
{
    if forall|j: nat| 2 <= j < 1000 ==> name_taken(profiles, #[trigger] numbered(base, j)) {
        let who = Seq::new(
            998,
            |k: int| taker(profiles, numbered(base, (k + 2) as nat)),
        );
        assert forall|k: int| 0 <= k < 998 implies takes_name(
            profiles,
            numbered(base, (k + 2) as nat),
            #[trigger] who[k],
        ) by {
            let name = numbered(base, (k + 2) as nat);
            assert(name_taken(profiles, name));
            let i = choose|i: int|
                0 <= i < profiles.len() && text::same_ignoring_case(
                    (#[trigger] profiles[i]).name@,
                    name,
                );
            assert(takes_name(profiles, name, i));
        }
        assert forall|a: int, b: int| 0 <= a < b < who.len() implies who[a] != who[b] by {
            if who[a] == who[b] {
                assert(takes_name(profiles, numbered(base, (a + 2) as nat), who[a]));
                assert(takes_name(profiles, numbered(base, (b + 2) as nat), who[b]));
                lemma_numbers_differ(base, (a + 2) as nat, (b + 2) as nat);
            }
        }
        assert(who.no_duplicates());
        who.unique_seq_to_set();
        let n = profiles.len() as int;
        let all = vstd::set_lib::set_int_range(0, n);
        vstd::set_lib::lemma_int_range(0, n);
        assert(who.to_set().subset_of(all)) by {
            assert forall|v: int| who.to_set().contains(v) implies all.contains(v) by {
                let k = choose|k: int| 0 <= k < who.len() && who[k] == v;
                assert(takes_name(profiles, numbered(base, (k + 2) as nat), who[k]));
            }
        }
        vstd::set_lib::lemma_len_subset(who.to_set(), all);
        assert(false);
    } else {
        let j = choose|j: nat|
            2 <= j < 1000 && !name_taken(profiles, #[trigger] numbered(base, j));
        lemma_first_free(profiles, base, 2, j);
    }
}

proof fn lemma_first_free(profiles: Seq<Profile>, base: Seq<char>, from: nat, n: nat)
    requires
        2 <= from <= n < 1000,
        !name_taken(profiles, numbered(base, n)),
        forall|j: nat| 2 <= j < from ==> name_taken(profiles, #[trigger] numbered(base, j)),
    ensures
        exists|k: nat| is_least_number(profiles, base, k),
    decreases n - from,
{
    if name_taken(profiles, numbered(base, from)) {
        lemma_first_free(profiles, base, from + 1, n);
    } else {
        assert(is_least_number(profiles, base, from));
    }
}

// ---------------------------------------------------------------------------
// Profiles
// ---------------------------------------------------------------------------

/// What became of a change to the profiles.
#[derive(Debug, Clone, Copy, PartialEq, Eq, Structural)]
pub enum ProfileChange {
    NameRequired,
    NameTaken,
    Unchanged,
    NotFound,
    LastProfile,
    Done,
}

/// Whether two profiles agree in everything but the name.
pub open spec fn same_contents(a: Profile, b: Profile) -> bool {
    a.order@ == b.order@ && a.file_overrides@ == b.file_overrides@
}

pub fn copy_order(list: &Vec<ProfileEntry>) -> (out: Vec<ProfileEntry>)
    ensures
        out@ == list@,
{
    let mut out: Vec<ProfileEntry> = Vec::new();
    let mut i: usize = 0;
    while i < list.len()
        invariant
            i <= list.len(),
            out@ == list@.take(i as int),
        decreases list.len() - i,
    {
        out.push(list[i].clone());
        i = i + 1;
        assert(list@.take(i as int).drop_last() =~= list@.take(i - 1));
    }
    assert(list@.take(i as int) =~= list@);
    out
}

pub fn copy_choices(list: &Vec<FileOverride>) -> (out: Vec<FileOverride>)
    ensures
        out@ == list@,
{
    let mut out: Vec<FileOverride> = Vec::new();
    let mut i: usize = 0;
    while i < list.len()
        invariant
            i <= list.len(),
            out@ == list@.take(i as int),
        decreases list.len() - i,
    {
        out.push(list[i].clone());
        i = i + 1;
        assert(list@.take(i as int).drop_last() =~= list@.take(i - 1));
    }
    assert(list@.take(i as int) =~= list@);
    out
}

/// Whether the libraries agree in all but the profiles and which of them is active.
pub open spec fn same_but_profiles(a: Library, b: Library) -> bool {
    a == (Library { profiles: a.profiles, active_profile: a.active_profile, ..b })
}

/// Profiles with another name.
pub open spec fn named_otherwise(name: Seq<char>) -> spec_fn(Profile) -> bool {
    |p: Profile| p.name@ != name
}

/// Whether a library is another without the profiles of a name.
pub open spec fn profile_deleted(before: Library, after: Library, name: Seq<char>) -> bool {
    let others = before.profiles@.filter(named_otherwise(name));
    &&& same_but_profiles(after, before)
    &&& if others.len() > 0 {
        after.profiles@ == others
    } else {
        &&& after.profiles@.len() == 1
        &&& after.profiles@[0].name@ == "Default"@
        &&& after.profiles@[0].order@.len() == 0
        &&& after.profiles@[0].file_overrides@.len() == 0
    }
    &&& after.active_profile@ == if before.active_profile@ == name {
        after.profiles@[0].name@
    } else {
        before.active_profile@
    }
}

impl Library {
    /// Makes a profile with all mods, switched off.
    pub fn create_profile(&mut self, name: &str) -> (r: ProfileChange)
        ensures
            ({
                let new_name = text::trimmed(name@);
                r == if new_name.len() == 0 {
                    ProfileChange::NameRequired
                } else if name_taken(old(self).profiles@, new_name) {
                    ProfileChange::NameTaken
                } else {
                    ProfileChange::Done
                }
            }),
            r != ProfileChange::Done ==> *final(self) == *old(self),
            r == ProfileChange::Done ==> {
                &&& same_but_profiles(*final(self), *old(self))
                &&& final(self).active_profile == old(self).active_profile
                &&& final(self).profiles@.len() == old(self).profiles@.len() + 1
                &&& final(self).profiles@.drop_last() == old(self).profiles@
                &&& final(self).profiles@.last().name@ == text::trimmed(name@)
                &&& library::entries(final(self).profiles@.last().order@) == library::with_missing(
                    Seq::empty(),
                    library::mod_ids(old(self).mods@),
                )
                &&& final(self).profiles@.last().file_overrides@.len() == 0
            },
    {
        let new_name = trim(name);
        if new_name.as_str().is_empty() {
            return ProfileChange::NameRequired;
        }
        if profile_exists(&self.profiles, new_name.as_str()) {
            return ProfileChange::NameTaken;
        }
        let mut profile = Profile::new(new_name.as_str());
        let ids = collect_ids(&self.mods);
        let ghost empty = profile;
        profile.ensure_mods(ids.as_slice());
        proof {
            assert(library::entries(empty.order@) =~= Seq::<(Seq<char>, bool)>::empty());
            let keeps = |o: FileOverride| library::mod_ids(self.mods@).contains(o.mod_id@);
            empty.file_overrides@.lemma_filter_len(keeps);
        }
        self.profiles.push(profile);
        assert(self.profiles@.drop_last() =~= old(self).profiles@);
        ProfileChange::Done
    }

    /// Gives a profile another name.
    pub fn rename_profile(&mut self, original: &str, name: &str) -> (r: ProfileChange)
        ensures
            ({
                let new_name = text::trimmed(name@);
                let at = library::profile_index(old(self).profiles@, original@);
                &&& r == if new_name.len() == 0 {
                    ProfileChange::NameRequired
                } else if text::same_ignoring_case(original@, new_name) {
                    ProfileChange::Unchanged
                } else if name_taken(old(self).profiles@, new_name) {
                    ProfileChange::NameTaken
                } else if at < 0 {
                    ProfileChange::NotFound
                } else {
                    ProfileChange::Done
                }
                &&& r != ProfileChange::Done ==> *final(self) == *old(self)
                &&& r == ProfileChange::Done ==> {
                    &&& same_but_profiles(*final(self), *old(self))
                    &&& final(self).profiles@.len() == old(self).profiles@.len()
                    &&& final(self).profiles@[at].name@ == new_name
                    &&& same_contents(final(self).profiles@[at], old(self).profiles@[at])
                    &&& forall|i: int|
                        0 <= i < old(self).profiles@.len() && i != at ==> #[trigger] final(self).profiles@[i] == old(self).profiles@[i]
                    &&& final(self).active_profile@ == if old(self).active_profile@ == original@ {
                        new_name
                    } else {
                        old(self).active_profile@
                    }
                }
            }),
    {
        let new_name = trim(name);
        if new_name.as_str().is_empty() {
            return ProfileChange::NameRequired;
        }
        if eq_ignore_case(original, new_name.as_str()) {
            return ProfileChange::Unchanged;
        }
        if profile_exists(&self.profiles, new_name.as_str()) {
            return ProfileChange::NameTaken;
        }
        proof {
            library::lemma_profile_index(self.profiles@, original@);
        }
        match find_profile(&self.profiles, original) {
            Some(at) => {
                self.profiles[at].name = new_name.clone();
                if same_text(self.active_profile.as_str(), original) {
                    self.active_profile = new_name;
                }
                ProfileChange::Done
            },
            None => ProfileChange::NotFound,
        }
    }

    /// Copies a profile.
    pub fn duplicate_profile(&mut self, source: &str, name: &str) -> (r: ProfileChange)
        ensures
            ({
                let new_name = text::trimmed(name@);
                let at = library::profile_index(old(self).profiles@, source@);
                &&& r == if new_name.len() == 0 {
                    ProfileChange::NameRequired
                } else if name_taken(old(self).profiles@, new_name) {
                    ProfileChange::NameTaken
                } else if at < 0 {
                    ProfileChange::NotFound
                } else {
                    ProfileChange::Done
                }
                &&& r != ProfileChange::Done ==> *final(self) == *old(self)
                &&& r == ProfileChange::Done ==> {
                    &&& same_but_profiles(*final(self), *old(self))
                    &&& final(self).active_profile == old(self).active_profile
                    &&& final(self).profiles@.len() == old(self).profiles@.len() + 1
                    &&& final(self).profiles@.drop_last() == old(self).profiles@
                    &&& final(self).profiles@.last().name@ == new_name
                    &&& same_contents(final(self).profiles@.last(), old(self).profiles@[at])
                }
            }),
    {
        let new_name = trim(name);
        if new_name.as_str().is_empty() {
            return ProfileChange::NameRequired;
        }
        if profile_exists(&self.profiles, new_name.as_str()) {
            return ProfileChange::NameTaken;
        }
        proof {
            library::lemma_profile_index(self.profiles@, source@);
        }
        match find_profile(&self.profiles, source) {
            Some(at) => {
                let copy = Profile {
                    name: new_name,
                    order: copy_order(&self.profiles[at].order),
                    file_overrides: copy_choices(&self.profiles[at].file_overrides),
                };
                self.profiles.push(copy);
                assert(self.profiles@.drop_last() =~= old(self).profiles@);
                ProfileChange::Done
            },
            None => ProfileChange::NotFound,
        }
    }

    /// Deletes the profiles with a name. One profile always stays; where the active
    /// one goes, the first becomes active.
    pub fn delete_profile(&mut self, name: &str) -> (r: ProfileChange)
        ensures
            r == if old(self).profiles@.len() <= 1 {
                ProfileChange::LastProfile
            } else if !library::has_profile(old(self).profiles@, name@) {
                ProfileChange::NotFound
            } else {
                ProfileChange::Done
            },
            r != ProfileChange::Done ==> *final(self) == *old(self),
            r == ProfileChange::Done ==> profile_deleted(*old(self), *final(self), name@),
    {
        if self.profiles.len() <= 1 {
            return ProfileChange::LastProfile;
        }
        if find_profile(&self.profiles, name).is_none() {
            return ProfileChange::NotFound;
        }
        let ghost all = self.profiles@;
        let ghost keeps = named_otherwise(name@);
        let mut left: Vec<Profile> = Vec::new();
        std::mem::swap(&mut left, &mut self.profiles);
        let mut kept: Vec<Profile> = Vec::new();
        proof {
            lists::lemma_filter_whole(all, keeps);
            assert(left@ =~= all.skip(0));
        }
        while left.len() > 0
            invariant
                left.len() <= all.len(),
                keeps == named_otherwise(name@),
                left@ == all.skip(all.len() - left.len()),
                kept@ == all.take(all.len() - left.len()).filter(keeps),
            decreases left.len(),
        {
            let ghost at = all.len() - left.len();
            assert(left@[0] == all[at]);
            proof {
                lists::lemma_keep_item(all, at, keeps);
            }
            let p = left.remove(0);
            if !same_text(p.name.as_str(), name) {
                kept.push(p);
            }
            assert(left@ =~= all.skip(at + 1));
        }
        proof {
            lists::lemma_filter_whole(all, keeps);
        }
        if kept.is_empty() {
            kept.push(Profile::new("Default"));
        }
        self.profiles = kept;
        if same_text(self.active_profile.as_str(), name) {
            self.active_profile = self.profiles[0].name.clone();
        }
        ProfileChange::Done
    }

    /// Makes a profile active, if there is one of the name.
    pub fn set_active_profile(&mut self, name: &str) -> (r: ProfileChange)
        ensures
            r == if library::has_profile(old(self).profiles@, name@) {
                ProfileChange::Done
            } else {
                ProfileChange::NotFound
            },
            *final(self) == (Library { active_profile: final(self).active_profile, ..*old(self) }),
            final(self).active_profile@ == if r == ProfileChange::Done {
                name@
            } else {
                old(self).active_profile@
            },
    {
        if find_profile(&self.profiles, name).is_none() {
            return ProfileChange::NotFound;
        }
        self.active_profile = name.to_owned();
        ProfileChange::Done
    }
}

/// After a profile is deleted the active profile is one of the profiles.
pub proof fn law_delete_keeps_active(before: Library, after: Library, name: Seq<char>)
    requires
        before.well_formed(),
        profile_deleted(before, after, name),
    ensures
        after.well_formed(),
{
    let keeps = named_otherwise(name);
    let others = before.profiles@.filter(keeps);
    if before.active_profile@ == name {
        assert(after.profiles@[0].name@ == after.active_profile@);
    } else {
        let i = choose|i: int|
            0 <= i < before.profiles@.len() && (#[trigger] before.profiles@[i]).name@
                == before.active_profile@;
        before.profiles@.lemma_filter_contains(keeps, i);
        assert(others.contains(before.profiles@[i]));
        let k = choose|k: int| 0 <= k < others.len() && others[k] == before.profiles@[i];
        assert(after.profiles@[k].name@ == after.active_profile@);
    }
}

} // verus!
