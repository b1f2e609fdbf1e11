//! The library of mods, its profiles and their load order.
use crate::lists;
use crate::lists::{copy_opt, copy_strings, swap_with_next};
use crate::sorting::has_string;
use crate::text;
use crate::text::{
    join_texts, same_text, split, split_words, to_alnum_key, to_chars, trim, trim_non_empty,
};
use vstd::hash_map::StringHashMap;
use vstd::prelude::*;

verus! {

// ---------------------------------------------------------------------------
// Types
// ---------------------------------------------------------------------------

/// All mods that the manager knows, and the profiles that order them.
#[derive(Debug)]
pub struct Library {
    pub mods: Vec<ModEntry>,
    pub profiles: Vec<Profile>,
    pub active_profile: String,
    /// Ids of the mods that are held back for want of a dependency.
    pub dependency_blocks: Vec<String>,
    pub metadata_cache_version: u32,
    pub metadata_cache_key: Option<String>,
    pub modsettings_hash: Option<String>,
    pub modsettings_sync_enabled: bool,
}

/// A named load order.
#[derive(Debug)]
pub struct Profile {
    pub name: String,
    pub order: Vec<ProfileEntry>,
    pub file_overrides: Vec<FileOverride>,
}

#[derive(Debug, PartialEq, Eq)]
pub struct ProfileEntry {
    pub id: String,
    pub enabled: bool,
}

/// The mod that wins a file that several mods bring.
#[derive(Debug)]
pub struct FileOverride {
    pub kind: TargetKind,
    pub relative_path: String,
    pub mod_id: String,
}

#[derive(Debug)]
pub struct ModEntry {
    pub id: String,
    pub name: String,
    pub created_at: Option<i64>,
    pub modified_at: Option<i64>,
    pub added_at: i64,
    pub targets: Vec<InstallTarget>,
    pub target_overrides: Vec<TargetOverride>,
    pub source_label: Option<String>,
    pub source: ModSource,
    pub dependencies: Vec<String>,
}

#[derive(Debug, Clone, Copy, PartialEq, Eq, Structural)]
pub enum ModSource {
    Managed,
    Native,
}

#[derive(Debug)]
pub enum InstallTarget {
    Pak { file: String, info: PakInfo },
    Generated { dir: String },
    Data { dir: String },
    Bin { dir: String },
}

#[derive(Debug, Clone, Copy, PartialEq, Eq, Structural, Hash)]
pub enum TargetKind {
    Pak,
    Generated,
    Data,
    Bin,
}

#[derive(Debug, Clone, Copy)]
pub struct TargetOverride {
    pub kind: TargetKind,
    pub enabled: bool,
}

/// What a package file says of the module in it.
#[derive(Debug)]
pub struct PakInfo {
    pub uuid: String,
    pub name: String,
    pub folder: String,
    pub version: u64,
    pub md5: Option<String>,
    pub publish_handle: Option<u64>,
    pub author: Option<String>,
    pub description: Option<String>,
    pub module_type: Option<String>,
}

/// The module description that a package's metadata file yields.
#[derive(Debug)]
pub struct ModuleInfo {
    pub uuid: String,
    pub name: String,
    pub folder: String,
    pub version: u64,
    pub md5: Option<String>,
    pub author: Option<String>,
    pub description: Option<String>,
    pub module_type: Option<String>,
}

impl Default for ModSource {
    fn default() -> (r: Self)
        ensures
            r == ModSource::Managed,
    {
        ModSource::Managed
    }
}

// ---------------------------------------------------------------------------
// Copies
// ---------------------------------------------------------------------------

impl Clone for ProfileEntry {
    fn clone(&self) -> (r: Self)
        ensures
            r == *self,
    {
        ProfileEntry { id: self.id.clone(), enabled: self.enabled }
    }
}

impl Clone for FileOverride {
    fn clone(&self) -> (r: Self)
        ensures
            r == *self,
    {
        FileOverride {
            kind: self.kind,
            relative_path: self.relative_path.clone(),
            mod_id: self.mod_id.clone(),
        }
    }
}

impl Clone for PakInfo {
    fn clone(&self) -> (r: Self)
        ensures
            r == *self,
    {
        PakInfo {
            uuid: self.uuid.clone(),
            name: self.name.clone(),
            folder: self.folder.clone(),
            version: self.version,
            md5: copy_opt(&self.md5),
            publish_handle: self.publish_handle,
            author: copy_opt(&self.author),
            description: copy_opt(&self.description),
            module_type: copy_opt(&self.module_type),
        }
    }
}

impl Clone for InstallTarget {
    fn clone(&self) -> (r: Self)
        ensures
            r == *self,
    {
        match self {
            InstallTarget::Pak { file, info } => InstallTarget::Pak {
                file: file.clone(),
                info: info.clone(),
            },
            InstallTarget::Generated { dir } => InstallTarget::Generated { dir: dir.clone() },
            InstallTarget::Data { dir } => InstallTarget::Data { dir: dir.clone() },
            InstallTarget::Bin { dir } => InstallTarget::Bin { dir: dir.clone() },
        }
    }
}

pub fn copy_targets(v: &[InstallTarget]) -> (out: Vec<InstallTarget>)
    ensures
        out@ == v@,
{
    let mut out: Vec<InstallTarget> = Vec::new();
    let mut i: usize = 0;
    while i < v.len()
        invariant
            i <= v.len(),
            out@ == v@.take(i as int),
        decreases v.len() - i,
    {
        out.push(v[i].clone());
        i = i + 1;
        assert(v@.take(i as int).drop_last() =~= v@.take(i - 1));
    }
    assert(v@.take(i as int) =~= v@);
    out
}

fn copy_overrides(v: &[TargetOverride]) -> (out: Vec<TargetOverride>)
    ensures
        out@ == v@,
{
    let mut out: Vec<TargetOverride> = Vec::new();
    let mut i: usize = 0;
    while i < v.len()
        invariant
            i <= v.len(),
            out@ == v@.take(i as int),
        decreases v.len() - i,
    {
        out.push(v[i]);
        i = i + 1;
        assert(v@.take(i as int).drop_last() =~= v@.take(i - 1));
    }
    assert(v@.take(i as int) =~= v@);
    out
}

impl Clone for ModEntry {
    fn clone(&self) -> (r: Self)
        ensures
            r.same_as(*self),
    {
        ModEntry {
            id: self.id.clone(),
            name: self.name.clone(),
            created_at: self.created_at,
            modified_at: self.modified_at,
            added_at: self.added_at,
            targets: copy_targets(self.targets.as_slice()),
            target_overrides: copy_overrides(self.target_overrides.as_slice()),
            source_label: copy_opt(&self.source_label),
            source: self.source,
            dependencies: copy_strings(self.dependencies.as_slice()),
        }
    }
}

impl ModEntry {
    /// Whether two entries agree in everything.
    pub open spec fn same_as(self, other: Self) -> bool {
        &&& self.id == other.id
        &&& self.name == other.name
        &&& self.created_at == other.created_at
        &&& self.modified_at == other.modified_at
        &&& self.added_at == other.added_at
        &&& self.targets@ == other.targets@
        &&& self.target_overrides@ == other.target_overrides@
        &&& self.source_label == other.source_label
        &&& self.source == other.source
        &&& self.dependencies@ == other.dependencies@
    }
}

// ---------------------------------------------------------------------------
// Library
// ---------------------------------------------------------------------------

/// Whether `i` is the first profile called `name`.
pub open spec fn is_first_named(profiles: Seq<Profile>, name: Seq<char>, i: int) -> bool {
    &&& 0 <= i < profiles.len()
    &&& profiles[i].name@ == name
    &&& forall|j: int| 0 <= j < i ==> (#[trigger] profiles[j]).name@ != name
}

pub open spec fn has_profile(profiles: Seq<Profile>, name: Seq<char>) -> bool {
    exists|i: int| 0 <= i < profiles.len() && (#[trigger] profiles[i]).name@ == name
}

/// Where the first profile called `name` stands, or -1.
pub open spec fn profile_index(profiles: Seq<Profile>, name: Seq<char>) -> int
    decreases profiles.len(),
{
    if profiles.len() == 0 {
        -1
    } else {
        let before = profile_index(profiles.drop_last(), name);
        if before < 0 && profiles.last().name@ == name {
            profiles.len() - 1
        } else {
            before
        }
    }
}

pub proof fn lemma_profile_index(profiles: Seq<Profile>, name: Seq<char>)
    ensures
        -1 <= profile_index(profiles, name) < profiles.len(),
        has_profile(profiles, name) <==> profile_index(profiles, name) >= 0,
        profile_index(profiles, name) >= 0 ==> is_first_named(
            profiles,
            name,
            profile_index(profiles, name),
        ),
        forall|i: int| #[trigger]
            is_first_named(profiles, name, i) ==> i == profile_index(profiles, name),
    decreases profiles.len(),
{
    if profiles.len() > 0 {
        let front = profiles.drop_last();
        lemma_profile_index(front, name);
        let k = profile_index(profiles, name);
        assert forall|j: int| 0 <= j < front.len() implies profiles[j] == #[trigger] front[j] by {}
        if k >= 0 {
            assert(profiles[k].name@ == name);
            assert forall|j: int| 0 <= j < k implies (#[trigger] profiles[j]).name@ != name by {
                assert(front[j].name@ != name);
            }
        } else {
            assert forall|j: int| 0 <= j < profiles.len() implies (#[trigger] profiles[j]).name@
                != name by {
                if j < front.len() {
                    assert(front[j].name@ != name);
                }
            }
        }
    }
}

/// The ids of mods, in order.
pub open spec fn mod_ids(mods: Seq<ModEntry>) -> Seq<Seq<char>> {
    Seq::new(mods.len(), |i: int| mods[i].id@)
}

/// The last index at which a mod has the id.
pub open spec fn is_last_with_id(mods: Seq<ModEntry>, id: Seq<char>, i: int) -> bool {
    &&& 0 <= i < mods.len()
    &&& mods[i].id@ == id
    &&& forall|j: int| i < j < mods.len() ==> (#[trigger] mods[j]).id@ != id
}

impl Library {
    /// A library without mods, with one empty profile.
    pub open spec fn is_fresh(self) -> bool {
        &&& self.mods@.len() == 0
        &&& self.profiles@.len() == 1
        &&& self.profiles@[0].name@ == "Default"@
        &&& self.profiles@[0].order@.len() == 0
        &&& self.profiles@[0].file_overrides@.len() == 0
        &&& self.active_profile@ == "Default"@
        &&& self.dependency_blocks@.len() == 0
        &&& self.metadata_cache_version == 0
        &&& self.metadata_cache_key is None
        &&& self.modsettings_hash is None
        &&& self.modsettings_sync_enabled
    }

    /// The active profile is one of the profiles.
    pub open spec fn well_formed(self) -> bool {
        has_profile(self.profiles@, self.active_profile@)
    }

    /// Makes a stored library fit for use, or a fresh one where none is stored: a
    /// library has a profile, and its active profile is one of them.
    pub fn load_or_create(stored: Option<Library>) -> (r: Library)
        ensures
            r.well_formed(),
            stored is None ==> r.is_fresh(),
            stored matches Some(s) ==> {
                &&& r.mods == s.mods
                &&& r.dependency_blocks == s.dependency_blocks
                &&& r.metadata_cache_version == s.metadata_cache_version
                &&& r.metadata_cache_key == s.metadata_cache_key
                &&& r.modsettings_hash == s.modsettings_hash
                &&& r.modsettings_sync_enabled == s.modsettings_sync_enabled
                &&& s.profiles@.len() > 0 ==> r.profiles == s.profiles
                &&& s.profiles@.len() == 0 ==> r.profiles@.len() == 1 && r.profiles@[0].name@
                    == "Default"@ && r.profiles@[0].order@.len() == 0
                    && r.profiles@[0].file_overrides@.len() == 0
                &&& r.active_profile@ == if s.active_profile@.len() > 0 && has_profile(
                    r.profiles@,
                    s.active_profile@,
                ) {
                    s.active_profile@
                } else {
                    r.profiles@[0].name@
                }
            },
    {
        match stored {
            None => {
                let mut profiles: Vec<Profile> = Vec::new();
                profiles.push(Profile::new("Default"));
                assert(profiles@[0].name@ == "Default"@);
                Library {
                    mods: Vec::new(),
                    profiles,
                    active_profile: "Default".to_owned(),
                    dependency_blocks: Vec::new(),
                    metadata_cache_version: 0,
                    metadata_cache_key: None,
                    modsettings_hash: None,
                    modsettings_sync_enabled: true,
                }
            },
            Some(found) => {
                let mut library = found;
                if library.profiles.is_empty() {
                    library.profiles.push(Profile::new("Default"));
                }
                let known = match find_profile(&library.profiles, library.active_profile.as_str()) {
                    Some(_) => true,
                    None => false,
                };
                if library.active_profile.as_str().is_empty() || !known {
                    library.active_profile = library.profiles[0].name.clone();
                    assert(library.profiles@[0].name@ == library.active_profile@);
                }
                library
            },
        }
    }

    pub fn active_profile_mut(&mut self) -> (r: Option<&mut Profile>)
        ensures
            match r {
                Some(p) => exists|i: int|
                    {
                        &&& #[trigger] is_first_named(
                            old(self).profiles@,
                            old(self).active_profile@,
                            i,
                        )
                        &&& *p == old(self).profiles@[i]
                        &&& final(self).profiles@ == old(self).profiles@.update(i, *final(p))
                    },
                None => !has_profile(old(self).profiles@, old(self).active_profile@)
                    && final(self).profiles == old(self).profiles,
            },
            final(self).mods == old(self).mods,
            final(self).active_profile == old(self).active_profile,
            final(self).dependency_blocks == old(self).dependency_blocks,
            final(self).metadata_cache_version == old(self).metadata_cache_version,
            final(self).metadata_cache_key == old(self).metadata_cache_key,
            final(self).modsettings_hash == old(self).modsettings_hash,
            final(self).modsettings_sync_enabled == old(self).modsettings_sync_enabled,
    {
        match find_profile(&self.profiles, self.active_profile.as_str()) {
            Some(i) => {
                assert(is_first_named(self.profiles@, self.active_profile@, i as int));
                Some(&mut self.profiles[i])
            },
            None => None,
        }
    }

    pub fn active_profile(&self) -> (r: Option<&Profile>)
        ensures
            match r {
                Some(p) => exists|i: int| #[trigger]
                    is_first_named(self.profiles@, self.active_profile@, i) && *p
                        == self.profiles@[i],
                None => !has_profile(self.profiles@, self.active_profile@),
            },
    {
        match find_profile(&self.profiles, self.active_profile.as_str()) {
            Some(i) => {
                assert(is_first_named(self.profiles@, self.active_profile@, i as int));
                Some(&self.profiles[i])
            },
            None => None,
        }
    }

    /// Gives each profile an entry for each mod.
    pub fn ensure_mods_in_profiles(&mut self)
        ensures
            final(self).profiles@.len() == old(self).profiles@.len(),
            forall|i: int|
                0 <= i < old(self).profiles@.len() ==> ensured(
                    old(self).profiles@[i],
                    #[trigger] final(self).profiles@[i],
                    mod_ids(old(self).mods@),
                ),
            final(self).mods == old(self).mods,
            final(self).active_profile == old(self).active_profile,
            final(self).dependency_blocks == old(self).dependency_blocks,
            final(self).metadata_cache_version == old(self).metadata_cache_version,
            final(self).metadata_cache_key == old(self).metadata_cache_key,
            final(self).modsettings_hash == old(self).modsettings_hash,
            final(self).modsettings_sync_enabled == old(self).modsettings_sync_enabled,
    {
        let ids = collect_ids(&self.mods);
        let ghost start = *self;
        let mut i: usize = 0;
        while i < self.profiles.len()
            invariant
                i <= self.profiles.len(),
                start == *old(self),
                text::texts(ids@) == mod_ids(start.mods@),
                self.profiles@.len() == start.profiles@.len(),
                forall|j: int|
                    0 <= j < i ==> ensured(
                        start.profiles@[j],
                        #[trigger] self.profiles@[j],
                        mod_ids(start.mods@),
                    ),
                forall|j: int|
                    i <= j < start.profiles@.len() ==> #[trigger] self.profiles@[j]
                        == start.profiles@[j],
                self.mods == start.mods,
                self.active_profile == start.active_profile,
                self.dependency_blocks == start.dependency_blocks,
                self.metadata_cache_version == start.metadata_cache_version,
                self.metadata_cache_key == start.metadata_cache_key,
                self.modsettings_hash == start.modsettings_hash,
                self.modsettings_sync_enabled == start.modsettings_sync_enabled,
            decreases self.profiles.len() - i,
        {
            self.profiles[i].ensure_mods(ids.as_slice());
            i = i + 1;
        }
    }

    /// Where the last mod with each id stands.
    pub fn index_by_id(&self) -> (r: StringHashMap<usize>)
        ensures
            indexes(r@, self.mods@),
    {
        let mut r: StringHashMap<usize> = StringHashMap::new();
        let mut i: usize = 0;
        while i < self.mods.len()
            invariant
                i <= self.mods.len(),
                indexes(r@, self.mods@.take(i as int)),
            decreases self.mods.len() - i,
        {
            let ghost before = self.mods@.take(i as int);
            let ghost after = self.mods@.take(i + 1);
            let ghost known = r@;
            r.insert(self.mods[i].id.clone(), i);
            proof {
                assert(after =~= before.push(self.mods@[i as int]));
                assert(mod_ids(after) =~= mod_ids(before).push(self.mods@[i as int].id@));
                assert forall|id: Seq<char>| #[trigger] r@.contains_key(id) <==> mod_ids(
                    after,
                ).contains(id) by {
                    crate::lists::lemma_push_contains(
                        mod_ids(before),
                        self.mods@[i as int].id@,
                        id,
                    );
                    assert(known.contains_key(id) <==> mod_ids(before).contains(id));
                }
                assert forall|id: Seq<char>| #[trigger]
                    r@.contains_key(id) implies is_last_with_id(after, id, r@[id] as int) by {
                    if id != self.mods@[i as int].id@ {
                        assert(known.contains_key(id));
                        assert(is_last_with_id(before, id, known[id] as int));
                    }
                }
            }
            i = i + 1;
        }
        assert(self.mods@.take(i as int) =~= self.mods@);
        r
    }
}

/// Whether the map holds, for each id of a mod and nothing else, where the last
/// mod with it stands.
pub open spec fn indexes(map: Map<Seq<char>, usize>, mods: Seq<ModEntry>) -> bool {
    &&& forall|id: Seq<char>| #[trigger] map.contains_key(id) <==> mod_ids(mods).contains(id)
    &&& forall|id: Seq<char>| #[trigger]
        map.contains_key(id) ==> is_last_with_id(mods, id, map[id] as int)
}

/// Where the last mod with the id stands, or -1.
pub open spec fn last_index(mods: Seq<ModEntry>, id: Seq<char>) -> int
    decreases mods.len(),
{
    if mods.len() == 0 {
        -1
    } else if mods.last().id@ == id {
        mods.len() - 1
    } else {
        last_index(mods.drop_last(), id)
    }
}

pub proof fn lemma_last_index(mods: Seq<ModEntry>, id: Seq<char>)
    ensures
        last_index(mods, id) >= 0 ==> is_last_with_id(mods, id, last_index(mods, id))
            && mod_ids(mods).contains(id),
        last_index(mods, id) < 0 ==> last_index(mods, id) == -1 && !mod_ids(mods).contains(id),
        forall|i: int| is_last_with_id(mods, id, i) ==> i == last_index(mods, id),
    decreases mods.len(),
{
    if mods.len() > 0 {
        lemma_last_index(mods.drop_last(), id);
        let k = last_index(mods, id);
        assert(mods.last() == mods[mods.len() - 1]);
        if k >= 0 {
            if k < mods.len() - 1 {
                assert(is_last_with_id(mods.drop_last(), id, k));
                assert forall|j: int| k < j < mods.len() implies (#[trigger] mods[j]).id@ != id by {
                    if j < mods.len() - 1 {
                        assert(mods.drop_last()[j].id@ != id);
                    }
                }
            }
            assert(mod_ids(mods)[k] == id);
        } else {
            assert forall|i: int| 0 <= i < mods.len() implies mod_ids(mods)[i] != id by {
                if i < mods.len() - 1 {
                    assert(mod_ids(mods.drop_last())[i] == mod_ids(mods)[i]);
                }
            }
        }
        assert forall|i: int| is_last_with_id(mods, id, i) implies i == k by {
            if i < mods.len() - 1 {
                assert(is_last_with_id(mods.drop_last(), id, i)) by {
                    assert forall|j: int| i < j < mods.len() - 1 implies (
                    #[trigger] mods.drop_last()[j]).id@ != id by {
                        assert(mods[j].id@ != id);
                    }
                }
                assert(mods[mods.len() - 1].id@ != id);
            }
        }
    }
}

/// The name under which the mod with an id is shown; the id itself where there is
/// no such mod.
pub open spec fn mod_name(mods: Seq<ModEntry>, id: Seq<char>) -> Seq<char> {
    if last_index(mods, id) >= 0 {
        mods[last_index(mods, id)].shown_name()
    } else {
        id
    }
}

/// The name under which the mod with an id is shown.
pub fn display_mod_name(id: &str, mods: &[ModEntry], index: &StringHashMap<usize>) -> (r: String)
    requires
        indexes(index@, mods@),
    ensures
        r@ == mod_name(mods@, id@),
{
    proof {
        lemma_last_index(mods@, id@);
    }
    match index.get(id) {
        Some(i) => {
            assert(is_last_with_id(mods@, id@, *i as int));
            mods[*i].display_name()
        },
        None => id.to_owned(),
    }
}

/// The first profile called `name`.
pub fn find_profile(profiles: &Vec<Profile>, name: &str) -> (r: Option<usize>)
    ensures
        match r {
            Some(i) => is_first_named(profiles@, name@, i as int) && has_profile(
                profiles@,
                name@,
            ),
            None => !has_profile(profiles@, name@),
        },
{
    let mut i: usize = 0;
    while i < profiles.len()
        invariant
            i <= profiles.len(),
            forall|j: int| 0 <= j < i ==> (#[trigger] profiles@[j]).name@ != name@,
        decreases profiles.len() - i,
    {
        if same_text(profiles[i].name.as_str(), name) {
            return Some(i);
        }
        i = i + 1;
    }
    None
}

/// The ids of mods, in order.
pub fn collect_ids(mods: &[ModEntry]) -> (out: Vec<String>)
    ensures
        text::texts(out@) == mod_ids(mods@),
{
    let mut out: Vec<String> = Vec::new();
    let mut i: usize = 0;
    while i < mods.len()
        invariant
            i <= mods.len(),
            text::texts(out@) == mod_ids(mods@).take(i as int),
        decreases mods.len() - i,
    {
        let id = mods[i].id.clone();
        proof {
            text::lemma_texts_push(out@, id);
        }
        out.push(id);
        i = i + 1;
        assert(mod_ids(mods@).take(i as int).drop_last() =~= mod_ids(mods@).take(i - 1));
    }
    assert(mod_ids(mods@).take(i as int) =~= mod_ids(mods@));
    out
}

// ---------------------------------------------------------------------------
// Profiles
// ---------------------------------------------------------------------------

/// The ids of a load order, in order.
pub open spec fn order_ids(order: Seq<ProfileEntry>) -> Seq<Seq<char>> {
    Seq::new(order.len(), |i: int| order[i].id@)
}

/// No mod has two entries in the load order.
pub open spec fn distinct_entries(order: Seq<ProfileEntry>) -> bool {
    forall|i: int, j: int|
        0 <= i < j < order.len() ==> (#[trigger] order[i]).id@ != (#[trigger] order[j]).id@
}

/// A load order as ids and switches.
pub open spec fn entries(order: Seq<ProfileEntry>) -> Seq<(Seq<char>, bool)> {
    Seq::new(order.len(), |i: int| (order[i].id@, order[i].enabled))
}

/// Whether some entry is for the id.
pub open spec fn lists_id(list: Seq<(Seq<char>, bool)>, id: Seq<char>) -> bool {
    exists|i: int| 0 <= i < list.len() && (#[trigger] list[i]).0 == id
}

/// The entries with one, switched off, for each id that has none.
pub open spec fn with_missing(
    list: Seq<(Seq<char>, bool)>,
    ids: Seq<Seq<char>>,
) -> Seq<(Seq<char>, bool)>
    decreases ids.len(),
{
    if ids.len() == 0 {
        list
    } else {
        let before = with_missing(list, ids.drop_last());
        if lists_id(before, ids.last()) {
            before
        } else {
            before.push((ids.last(), false))
        }
    }
}

/// Whether `new` is the profile `old` with an entry for each id and without the
/// file choices in favour of other mods.
pub open spec fn ensured(old: Profile, new: Profile, ids: Seq<Seq<char>>) -> bool {
    &&& new.name == old.name
    &&& entries(new.order@) == with_missing(entries(old.order@), ids)
    &&& new.file_overrides@ == old.file_overrides@.filter(
        |o: FileOverride| ids.contains(o.mod_id@),
    )
}

/// The items with those at `i` and `i + 1` exchanged.
pub open spec fn exchanged<T>(s: Seq<T>, i: int) -> Seq<T> {
    s.update(i, s[i + 1]).update(i + 1, s[i])
}

/// The load order with the entry at `i` one place up, if there is such a place.
pub open spec fn moved_up(order: Seq<ProfileEntry>, i: int) -> Seq<ProfileEntry> {
    if 0 < i < order.len() {
        exchanged(order, i - 1)
    } else {
        order
    }
}

/// The load order with the entry at `i` one place down, if there is such a place.
pub open spec fn moved_down(order: Seq<ProfileEntry>, i: int) -> Seq<ProfileEntry> {
    if 0 <= i && i + 1 < order.len() {
        exchanged(order, i)
    } else {
        order
    }
}

/// Whether an id has an entry in a load order.
pub fn has_entry(order: &Vec<ProfileEntry>, id: &str) -> (r: bool)
    ensures
        r == order_ids(order@).contains(id@),
        r == lists_id(entries(order@), id@),
{
    let mut i: usize = 0;
    while i < order.len()
        invariant
            i <= order.len(),
            forall|j: int| 0 <= j < i ==> (#[trigger] order@[j]).id@ != id@,
        decreases order.len() - i,
    {
        if same_text(order[i].id.as_str(), id) {
            assert(entries(order@)[i as int].0 == id@);
            assert(order_ids(order@)[i as int] == id@);
            return true;
        }
        i = i + 1;
    }
    false
}

impl Profile {
    pub fn new(name: &str) -> (r: Self)
        ensures
            r.name@ == name@,
            r.order@.len() == 0,
            r.file_overrides@.len() == 0,
    {
        Profile { name: name.to_owned(), order: Vec::new(), file_overrides: Vec::new() }
    }

    /// Gives each mod id an entry, switched off, and drops the file choices in
    /// favour of mods that are not among `mod_ids`.
    pub fn ensure_mods(&mut self, mod_ids: &[String])
        ensures
            ensured(*old(self), *final(self), text::texts(mod_ids@)),
            final(self).order@.take(old(self).order@.len() as int) == old(self).order@,
    {
        let ghost start = *self;
        let ghost ids = text::texts(mod_ids@);
        let ghost first = entries(self.order@);
        let mut i: usize = 0;
        assert(ids.take(0) =~= Seq::empty());
        assert(self.order@.take(self.order@.len() as int) =~= self.order@);
        while i < mod_ids.len()
            invariant
                i <= mod_ids.len(),
                ids == text::texts(mod_ids@),
                first == entries(start.order@),
                entries(self.order@) == with_missing(first, ids.take(i as int)),
                self.name == start.name,
                self.file_overrides == start.file_overrides,
                start.order@.len() <= self.order@.len(),
                self.order@.take(start.order@.len() as int) == start.order@,
            decreases mod_ids.len() - i,
        {
            assert(ids.take(i + 1).drop_last() =~= ids.take(i as int));
            assert(ids.take(i + 1).last() == mod_ids@[i as int]@);
            if !has_entry(&self.order, mod_ids[i].as_str()) {
                let entry = ProfileEntry { id: mod_ids[i].clone(), enabled: false };
                let ghost before = self.order@;
                self.order.push(entry);
                assert(entries(self.order@) =~= entries(before).push((entry.id@, false)));
                assert(self.order@.take(start.order@.len() as int) =~= before.take(
                    start.order@.len() as int,
                ));
            }
            i = i + 1;
        }
        assert(ids.take(i as int) =~= ids);
        let ghost keep = |o: FileOverride| ids.contains(o.mod_id@);
        let ghost all = self.file_overrides@;
        let ghost mut seen: int = 0;
        let mut k: usize = 0;
        proof {
            lists::lemma_filter_whole(all, keep);
        }
        assert(self.file_overrides@ =~= all.take(0).filter(keep) + all.skip(0));
        while k < self.file_overrides.len()
            invariant
                0 <= seen <= all.len(),
                k <= self.file_overrides.len(),
                k == all.take(seen).filter(keep).len(),
                self.file_overrides@ == all.take(seen).filter(keep) + all.skip(seen),
                keep == (|o: FileOverride| ids.contains(o.mod_id@)),
                ids == text::texts(mod_ids@),
                self.name == start.name,
                entries(self.order@) == with_missing(first, ids),
                self.order@.take(start.order@.len() as int) == start.order@,
            decreases self.file_overrides.len() - k,
        {
            let ghost now = self.file_overrides@;
            assert(now[k as int] == all[seen]);
            proof {
                lists::lemma_keep_item(all, seen, keep);
            }
            if has_string(mod_ids, self.file_overrides[k].mod_id.as_str()) {
                assert(all.take(seen).filter(keep).push(all[seen]) + all.skip(seen + 1) =~= now);
                k = k + 1;
            } else {
                let _dropped = self.file_overrides.remove(k);
                assert(self.file_overrides@ =~= all.take(seen).filter(keep) + all.skip(seen + 1));
            }
            proof {
                seen = seen + 1;
            }
        }
        assert(all.skip(seen).len() == 0);
        proof {
            lists::lemma_filter_whole(all, keep);
            assert(seen == all.len());
            assert(self.file_overrides@ =~= all.filter(keep));
        }
    }

    pub fn move_up(&mut self, index: usize)
        ensures
            final(self).order@ == moved_up(old(self).order@, index as int),
            final(self).name == old(self).name,
            final(self).file_overrides == old(self).file_overrides,
    {
        if index == 0 || index >= self.order.len() {
            return;
        }
        swap_with_next(&mut self.order, index - 1);
    }

    pub fn move_down(&mut self, index: usize)
        requires
            index < usize::MAX,
        ensures
            final(self).order@ == moved_down(old(self).order@, index as int),
            final(self).name == old(self).name,
            final(self).file_overrides == old(self).file_overrides,
    {
        if index + 1 >= self.order.len() {
            return;
        }
        swap_with_next(&mut self.order, index);
    }
}

/// A mod moved up and then down again from where it came to stand is back where
/// it was, and so is every other mod.
pub proof fn law_up_then_down(order: Seq<ProfileEntry>, i: int)
    requires
        0 < i < order.len(),
    ensures
        moved_down(moved_up(order, i), i - 1) == order,
        moved_up(moved_down(order, i - 1), i) == order,
{
    assert(moved_down(moved_up(order, i), i - 1) =~= order);
    assert(moved_up(moved_down(order, i - 1), i) =~= order);
}

/// Moving a mod neither adds nor loses one, nor changes whether one is enabled.
pub proof fn law_moves_permute(order: Seq<ProfileEntry>, i: int)
    ensures
        moved_up(order, i).to_multiset() == order.to_multiset(),
        moved_down(order, i).to_multiset() == order.to_multiset(),
{
    if 0 < i < order.len() {
        lemma_exchanged_multiset(order, i - 1);
    }
    if 0 <= i && i + 1 < order.len() {
        lemma_exchanged_multiset(order, i);
    }
}

proof fn lemma_exchanged_multiset<T>(s: Seq<T>, i: int)
    requires
        0 <= i,
        i + 1 < s.len(),
    ensures
        exchanged(s, i).to_multiset() == s.to_multiset(),
{
    broadcast use vstd::seq_lib::group_to_multiset_ensures;

    let t = exchanged(s, i);
    assert(s.remove(i).remove(i) =~= t.remove(i).remove(i));
    let rest = s.remove(i).remove(i);
    assert(s.remove(i)[i] == s[i + 1]);
    assert(t.remove(i)[i] == s[i]);
    assert(s.contains(s[i]));
    assert(s.remove(i).contains(s.remove(i)[i]));
    assert(t.contains(t[i]));
    assert(t.remove(i).contains(t.remove(i)[i]));
    assert(s.to_multiset() =~= rest.to_multiset().insert(s[i + 1]).insert(s[i]));
    assert(t.to_multiset() =~= rest.to_multiset().insert(s[i]).insert(s[i + 1]));
    assert(s.to_multiset() =~= t.to_multiset());
}

proof fn lemma_with_missing(list: Seq<(Seq<char>, bool)>, ids: Seq<Seq<char>>)
    ensures
        list.len() <= with_missing(list, ids).len(),
        with_missing(list, ids).take(list.len() as int) == list,
        forall|k: int|
            0 <= k < ids.len() ==> lists_id(with_missing(list, ids), #[trigger] ids[k]),
        forall|i: int|
            list.len() <= i < with_missing(list, ids).len() ==> ids.contains(
                (#[trigger] with_missing(list, ids)[i]).0,
            ) && !with_missing(list, ids)[i].1,
    decreases ids.len(),
{
    let whole = with_missing(list, ids);
    if ids.len() == 0 {
        assert(list.take(list.len() as int) =~= list);
    } else {
        let head = ids.drop_last();
        let before = with_missing(list, head);
        lemma_with_missing(list, head);
        assert(whole.take(list.len() as int) =~= before.take(list.len() as int));
        assert forall|k: int| 0 <= k < ids.len() implies lists_id(whole, #[trigger] ids[k]) by {
            if k < head.len() {
                assert(head[k] == ids[k]);
                let i = choose|i: int| 0 <= i < before.len() && (#[trigger] before[i]).0 == head[k];
                assert(whole[i] == before[i]);
            } else if whole.len() > before.len() {
                assert(whole[before.len() as int].0 == ids[k]);
            }
        }
        assert forall|i: int| list.len() <= i < whole.len() implies ids.contains(
            (#[trigger] whole[i]).0,
        ) && !whole[i].1 by {
            if i < before.len() {
                assert(whole[i] == before[i]);
                let k = choose|k: int| 0 <= k < head.len() && head[k] == before[i].0;
                assert(ids[k] == whole[i].0);
            } else {
                assert(ids[ids.len() - 1] == whole[i].0);
            }
        }
    }
}

/// No id has two entries.
pub open spec fn distinct_list(list: Seq<(Seq<char>, bool)>) -> bool {
    forall|i: int, j: int|
        0 <= i < j < list.len() ==> (#[trigger] list[i]).0 != (#[trigger] list[j]).0
}

pub proof fn lemma_distinct_list(order: Seq<ProfileEntry>)
    ensures
        distinct_entries(order) == distinct_list(entries(order)),
{
    let list = entries(order);
    if distinct_entries(order) {
        assert forall|i: int, j: int| 0 <= i < j < list.len() implies (#[trigger] list[i]).0 != (
        #[trigger] list[j]).0 by {
            assert(order[i].id@ != order[j].id@);
        }
    }
    if distinct_list(list) {
        assert forall|i: int, j: int| 0 <= i < j < order.len() implies (#[trigger] order[i]).id@
            != (#[trigger] order[j]).id@ by {
            assert(list[i].0 != list[j].0);
        }
    }
}

proof fn lemma_missing_distinct(list: Seq<(Seq<char>, bool)>, ids: Seq<Seq<char>>)
    requires
        distinct_list(list),
    ensures
        distinct_list(with_missing(list, ids)),
    decreases ids.len(),
{
    if ids.len() > 0 {
        lemma_missing_distinct(list, ids.drop_last());
    }
}

/// Neither giving each mod an entry nor moving one lists a mod twice.
pub proof fn law_profile_lists_mods_once(
    old: Profile,
    new: Profile,
    ids: Seq<Seq<char>>,
    i: int,
)
    requires
        distinct_entries(old.order@),
    ensures
        ensured(old, new, ids) ==> distinct_entries(new.order@),
        distinct_entries(moved_up(old.order@, i)),
        distinct_entries(moved_down(old.order@, i)),
{
    lemma_distinct_list(old.order@);
    lemma_distinct_list(new.order@);
    lemma_missing_distinct(entries(old.order@), ids);
}

/// A profile that got an entry for each mod keeps the entries it had, in their
/// order, holds every mod, and has the new ones switched off.
pub proof fn law_ensured_covers(old: Profile, new: Profile, ids: Seq<Seq<char>>)
    requires
        ensured(old, new, ids),
    ensures
        entries(new.order@).take(old.order@.len() as int) == entries(old.order@),
        forall|k: int| 0 <= k < ids.len() ==> order_ids(new.order@).contains(#[trigger] ids[k]),
        forall|i: int|
            old.order@.len() <= i < new.order@.len() ==> !(#[trigger] new.order@[i]).enabled,
        forall|i: int|
            0 <= i < new.file_overrides@.len() ==> ids.contains(
                (#[trigger] new.file_overrides@[i]).mod_id@,
            ),
{
    let list = entries(old.order@);
    lemma_with_missing(list, ids);
    let whole = with_missing(list, ids);
    assert(whole.len() == new.order@.len());
    assert forall|k: int| 0 <= k < ids.len() implies order_ids(new.order@).contains(
        #[trigger] ids[k],
    ) by {
        let i = choose|i: int| 0 <= i < whole.len() && (#[trigger] whole[i]).0 == ids[k];
        assert(order_ids(new.order@)[i] == whole[i].0);
    }
    assert forall|i: int| old.order@.len() <= i < new.order@.len() implies !(
    #[trigger] new.order@[i]).enabled by {
        assert(whole[i].1 == new.order@[i].enabled);
    }
    let keep = |o: FileOverride| ids.contains(o.mod_id@);
    assert forall|i: int| 0 <= i < new.file_overrides@.len() implies ids.contains(
        (#[trigger] new.file_overrides@[i]).mod_id@,
    ) by {
        old.file_overrides@.lemma_filter_pred(keep, i);
    }
}

/// Giving a profile an entry for each mod once more changes nothing.
pub proof fn law_ensure_idempotent(list: Seq<(Seq<char>, bool)>, ids: Seq<Seq<char>>)
    ensures
        with_missing(with_missing(list, ids), ids) == with_missing(list, ids),
{
    lemma_with_missing(list, ids);
    lemma_nothing_missing(with_missing(list, ids), ids);
}

proof fn lemma_nothing_missing(list: Seq<(Seq<char>, bool)>, ids: Seq<Seq<char>>)
    requires
        forall|k: int| 0 <= k < ids.len() ==> lists_id(list, #[trigger] ids[k]),
    ensures
        with_missing(list, ids) == list,
    decreases ids.len(),
{
    if ids.len() > 0 {
        let head = ids.drop_last();
        assert forall|k: int| 0 <= k < head.len() implies lists_id(list, #[trigger] head[k]) by {
            assert(head[k] == ids[k]);
        }
        lemma_nothing_missing(list, head);
        assert(ids[ids.len() - 1] == ids.last());
    }
}

// ---------------------------------------------------------------------------
// Mods
// ---------------------------------------------------------------------------

/// Whether some target is of the kind.
pub open spec fn targets_have(targets: Seq<InstallTarget>, kind: TargetKind) -> bool {
    exists|i: int| 0 <= i < targets.len() && (#[trigger] targets[i]).kind_of() == kind
}

/// Whether `i` is the first switch for the kind.
pub open spec fn is_first_switch(
    switches: Seq<TargetOverride>,
    kind: TargetKind,
    i: int,
) -> bool {
    &&& 0 <= i < switches.len()
    &&& switches[i].kind == kind
    &&& forall|j: int| 0 <= j < i ==> (#[trigger] switches[j]).kind != kind
}

/// Whether targets of the kind are switched on: the first switch for the kind
/// decides, and without one they are.
pub open spec fn switched_on(switches: Seq<TargetOverride>, kind: TargetKind) -> bool {
    forall|i: int| #[trigger] is_first_switch(switches, kind, i) ==> switches[i].enabled
}

impl InstallTarget {
    pub open spec fn kind_of(self) -> TargetKind {
        match self {
            InstallTarget::Pak { .. } => TargetKind::Pak,
            InstallTarget::Generated { .. } => TargetKind::Generated,
            InstallTarget::Data { .. } => TargetKind::Data,
            InstallTarget::Bin { .. } => TargetKind::Bin,
        }
    }

    pub fn kind(&self) -> (r: TargetKind)
        ensures
            r == self.kind_of(),
    {
        match self {
            InstallTarget::Pak { .. } => TargetKind::Pak,
            InstallTarget::Generated { .. } => TargetKind::Generated,
            InstallTarget::Data { .. } => TargetKind::Data,
            InstallTarget::Bin { .. } => TargetKind::Bin,
        }
    }
}

impl PakInfo {
    pub fn from_module_info(info: ModuleInfo) -> (r: Self)
        ensures
            r == (PakInfo {
                uuid: info.uuid,
                name: info.name,
                folder: info.folder,
                version: info.version,
                md5: info.md5,
                publish_handle: None,
                author: info.author,
                description: info.description,
                module_type: info.module_type,
            }),
    {
        PakInfo {
            uuid: info.uuid,
            name: info.name,
            folder: info.folder,
            version: info.version,
            md5: info.md5,
            publish_handle: None,
            author: info.author,
            description: info.description,
            module_type: info.module_type,
        }
    }
}

/// The names of the kinds of a mod's targets.
pub open spec fn kind_names(targets: Seq<InstallTarget>) -> Seq<Seq<char>> {
    let pak = if targets_have(targets, TargetKind::Pak) {
        seq!["Pak"@]
    } else {
        Seq::empty()
    };
    let generated = if targets_have(targets, TargetKind::Generated) {
        seq!["Generated"@]
    } else {
        Seq::empty()
    };
    let data = if targets_have(targets, TargetKind::Data) {
        seq!["Data"@]
    } else {
        Seq::empty()
    };
    let bin = if targets_have(targets, TargetKind::Bin) {
        seq!["Bin"@]
    } else {
        Seq::empty()
    };
    pak + generated + data + bin
}

impl ModEntry {
    /// The cleaned source label, or the name where that leaves nothing.
    pub open spec fn shown_name(self) -> Seq<char> {
        match self.source_label {
            Some(label) => if cleaned_label(label@).len() > 0 {
                cleaned_label(label@)
            } else {
                self.name@
            },
            None => self.name@,
        }
    }

    pub fn display_name(&self) -> (r: String)
        ensures
            r@ == self.shown_name(),
    {
        if let Some(label) = &self.source_label {
            let cleaned = clean_source_label(label.as_str());
            if !cleaned.as_str().is_empty() {
                return cleaned;
            }
        }
        self.name.clone()
    }

    pub fn source_label(&self) -> (r: Option<&str>)
        ensures
            match (r, self.source_label) {
                (Some(a), Some(b)) => a@ == b@,
                (None, None) => true,
                _ => false,
            },
    {
        match &self.source_label {
            Some(label) => Some(label.as_str()),
            None => None,
        }
    }

    pub fn is_native(&self) -> (r: bool)
        ensures
            r == (self.source == ModSource::Native),
    {
        matches!(self.source, ModSource::Native)
    }

    pub fn display_type(&self) -> (r: String)
        ensures
            r@ == if kind_names(self.targets@).len() == 0 {
                "Unknown"@
            } else {
                text::join(kind_names(self.targets@), "+"@)
            },
    {
        let mut kinds: Vec<String> = Vec::new();
        if self.has_target_kind(TargetKind::Pak) {
            kinds.push("Pak".to_owned());
        }
        if self.has_target_kind(TargetKind::Generated) {
            kinds.push("Generated".to_owned());
        }
        if self.has_target_kind(TargetKind::Data) {
            kinds.push("Data".to_owned());
        }
        if self.has_target_kind(TargetKind::Bin) {
            kinds.push("Bin".to_owned());
        }
        assert(text::texts(kinds@) =~= kind_names(self.targets@));
        if kinds.is_empty() {
            "Unknown".to_owned()
        } else {
            join_texts(&kinds, "+")
        }
    }

    pub fn has_target_kind(&self, kind: TargetKind) -> (r: bool)
        ensures
            r == targets_have(self.targets@, kind),
    {
        let mut i: usize = 0;
        while i < self.targets.len()
            invariant
                i <= self.targets.len(),
                forall|j: int| 0 <= j < i ==> (#[trigger] self.targets@[j]).kind_of() != kind,
            decreases self.targets.len() - i,
        {
            if self.targets[i].kind() == kind {
                return true;
            }
            i = i + 1;
        }
        false
    }

    pub fn is_target_enabled(&self, kind: TargetKind) -> (r: bool)
        ensures
            r == (targets_have(self.targets@, kind) && switched_on(self.target_overrides@, kind)),
    {
        if !self.has_target_kind(kind) {
            return false;
        }
        let mut i: usize = 0;
        while i < self.target_overrides.len()
            invariant
                i <= self.target_overrides.len(),
                targets_have(self.targets@, kind),
                forall|j: int|
                    0 <= j < i ==> (#[trigger] self.target_overrides@[j]).kind != kind,
            decreases self.target_overrides.len() - i,
        {
            if self.target_overrides[i].kind == kind {
                assert(is_first_switch(self.target_overrides@, kind, i as int));
                assert forall|k: int| #[trigger]
                    is_first_switch(self.target_overrides@, kind, k) implies k == i by {
                    assert(self.target_overrides@[i as int].kind == kind);
                    assert(self.target_overrides@[k].kind == kind);
                }
                return self.target_overrides[i].enabled;
            }
            i = i + 1;
        }
        true
    }
}

// ---------------------------------------------------------------------------
// Times
// ---------------------------------------------------------------------------

pub open spec fn earlier(a: i64, b: i64) -> i64 {
    if a <= b {
        a
    } else {
        b
    }
}

pub open spec fn later(a: i64, b: i64) -> i64 {
    if a <= b {
        b
    } else {
        a
    }
}

/// The two times in order; where one is unknown, the other stands for it.
pub open spec fn normalized_times(
    created: Option<i64>,
    modified: Option<i64>,
) -> (Option<i64>, Option<i64>) {
    match (created, modified) {
        (Some(c), Some(m)) => (Some(earlier(c, m)), Some(later(c, m))),
        (Some(c), None) => (Some(c), Some(c)),
        (None, Some(m)) => (Some(m), Some(m)),
        (None, None) => (None, None),
    }
}

/// The times of a mod: a stated creation time wins over those of the file.
pub open spec fn resolved_times(
    primary: Option<i64>,
    created: Option<i64>,
    modified: Option<i64>,
) -> (Option<i64>, Option<i64>) {
    match primary {
        Some(p) => (
            Some(p),
            match (modified, created) {
                (Some(m), _) => Some(later(m, p)),
                (None, Some(c)) => Some(later(c, p)),
                (None, None) => Some(p),
            },
        ),
        None => normalized_times(created, modified),
    }
}

pub fn min_i64(a: i64, b: i64) -> (r: i64)
    ensures
        r == earlier(a, b),
{
    if a <= b {
        a
    } else {
        b
    }
}

pub fn max_i64(a: i64, b: i64) -> (r: i64)
    ensures
        r == later(a, b),
{
    if a <= b {
        b
    } else {
        a
    }
}

pub fn normalize_times(
    created: Option<i64>,
    modified: Option<i64>,
) -> (r: (Option<i64>, Option<i64>))
    ensures
        r == normalized_times(created, modified),
{
    match (created, modified) {
        (Some(c), Some(m)) => (Some(min_i64(c, m)), Some(max_i64(c, m))),
        (Some(c), None) => (Some(c), Some(c)),
        (None, Some(m)) => (Some(m), Some(m)),
        (None, None) => (None, None),
    }
}

pub fn resolve_times(
    primary_created: Option<i64>,
    file_created: Option<i64>,
    file_modified: Option<i64>,
) -> (r: (Option<i64>, Option<i64>))
    ensures
        r == resolved_times(primary_created, file_created, file_modified),
{
    if let Some(primary) = primary_created {
        let modified = match (file_modified, file_created) {
            (Some(m), _) => max_i64(m, primary),
            (None, Some(c)) => max_i64(c, primary),
            (None, None) => primary,
        };
        return (Some(primary), Some(modified));
    }
    normalize_times(file_created, file_modified)
}

/// A mod is never changed before it was made, and either both times are known or
/// neither is.
pub proof fn law_times_in_order(
    primary: Option<i64>,
    created: Option<i64>,
    modified: Option<i64>,
)
    ensures
        ({
            let t = resolved_times(primary, created, modified);
            match (t.0, t.1) {
                (Some(c), Some(m)) => c <= m,
                (None, None) => primary is None && created is None && modified is None,
                _ => false,
            }
        }),
{
}

// ---------------------------------------------------------------------------
// Labels
// ---------------------------------------------------------------------------

/// How many of the pieces are left when those at the end that are blank or hold
/// digits alone are taken off.
pub open spec fn name_pieces(parts: Seq<Seq<char>>) -> nat
    decreases parts.len(),
{
    if parts.len() > 0 && text::all_digits(text::trimmed(parts.last())) {
        name_pieces(parts.drop_last())
    } else {
        parts.len()
    }
}

/// The numbers at the end, the last one first; blank pieces are passed over.
pub open spec fn number_tail(parts: Seq<Seq<char>>) -> Seq<Seq<char>>
    decreases parts.len(),
{
    if parts.len() == 0 {
        Seq::empty()
    } else {
        let piece = text::trimmed(parts.last());
        if piece.len() == 0 {
            number_tail(parts.drop_last())
        } else if text::all_digits(piece) {
            seq![piece] + number_tail(parts.drop_last())
        } else {
            Seq::empty()
        }
    }
}

/// How many pieces of a label belong to its name: the numbers at the end are a
/// download's version and id where there are at least two of them, or where the
/// last has at least six digits.
pub open spec fn kept_pieces(parts: Seq<Seq<char>>) -> nat {
    let numbers = number_tail(parts);
    if numbers.len() == 0 || numbers.len() >= 2 || numbers[0].len() >= 6 {
        name_pieces(parts)
    } else {
        parts.len()
    }
}

/// A source label in the form in which it is shown.
pub open spec fn cleaned_label(label: Seq<char>) -> Seq<char> {
    let raw = text::swap_char(text::trimmed(label), '_', ' ');
    let joiner = if text::contains_text(raw, " - "@) {
        " - "@
    } else {
        "-"@
    };
    let parts = text::split_any(raw, "-"@);
    let kept = text::non_empty(text::trimmed_each(parts.take(kept_pieces(parts) as int)));
    if raw.len() == 0 {
        Seq::empty()
    } else {
        text::trimmed(text::join(text::words(text::join(kept, joiner)), " "@))
    }
}

/// The letters and digits of a cleaned label, in lower case.
pub open spec fn label_key(label: Seq<char>) -> Seq<char> {
    text::alnum_key(cleaned_label(label))
}

fn is_all_digits(s: &str) -> (r: bool)
    ensures
        r == text::all_digits(s@),
{
    let v = to_chars(s);
    let mut i: usize = 0;
    while i < v.len()
        invariant
            i <= v.len(),
            v@ == s@,
            forall|j: int| 0 <= j < i ==> text::is_digit(v@[j]),
        decreases v.len() - i,
    {
        if !text::digit_char(v[i]) {
            return false;
        }
        i = i + 1;
    }
    true
}

fn count_kept_pieces(parts: &Vec<String>) -> (r: usize)
    ensures
        r == kept_pieces(text::texts(parts@)),
        r <= parts.len(),
{
    let ghost all = text::texts(parts@);
    let mut idx: usize = parts.len();
    let mut count: usize = 0;
    let mut last_len: usize = 0;
    let ghost mut numbers = Seq::<Seq<char>>::empty();
    assert(all.take(idx as int) =~= all);
    assert(numbers + number_tail(all.take(idx as int)) =~= number_tail(all));
    while idx > 0
        invariant_except_break
            idx <= parts.len(),
            all == text::texts(parts@),
            count == numbers.len(),
            count <= parts.len() - idx,
            count > 0 ==> last_len == numbers[0].len(),
            name_pieces(all.take(idx as int)) == name_pieces(all),
            numbers + number_tail(all.take(idx as int)) == number_tail(all),
        ensures
            idx <= parts.len(),
            count == numbers.len(),
            count > 0 ==> last_len == numbers[0].len(),
            idx == name_pieces(all),
            numbers == number_tail(all),
        decreases idx,
    {
        let piece = trim(parts[idx - 1].as_str());
        let ghost now = all.take(idx as int);
        assert(now.last() == parts@[idx - 1]@);
        assert(now.drop_last() =~= all.take(idx - 1));
        if piece.as_str().is_empty() {
            idx = idx - 1;
        } else if is_all_digits(piece.as_str()) {
            let chars = to_chars(piece.as_str());
            if count == 0 {
                last_len = chars.len();
            }
            proof {
                assert(numbers + (seq![piece@] + number_tail(all.take(idx - 1))) =~= numbers.push(
                    piece@,
                ) + number_tail(all.take(idx - 1)));
                numbers = numbers.push(piece@);
            }
            count = count + 1;
            idx = idx - 1;
        } else {
            assert(numbers + Seq::<Seq<char>>::empty() =~= numbers);
            break;
        }
        if idx == 0 {
            assert(all.take(0) =~= Seq::empty());
            assert(numbers + Seq::<Seq<char>>::empty() =~= numbers);
        }
    }
    proof {
        if parts@.len() == 0 {
            assert(all =~= Seq::empty());
            assert(numbers =~= number_tail(all));
        }
    }
    if count > 0 && !(last_len >= 6 || count >= 2) {
        parts.len()
    } else {
        idx
    }
}

pub fn clean_source_label(label: &str) -> (r: String)
    ensures
        r@ == cleaned_label(label@),
{
    let trimmed_label = trim(label);
    let raw = text::replace_char(trimmed_label.as_str(), '_', ' ');
    if raw.as_str().is_empty() {
        return String::new();
    }
    let spaced = text::has_text(raw.as_str(), " - ");
    let parts = split(raw.as_str(), "-");
    let kept = count_kept_pieces(&parts);
    let mut head: Vec<String> = Vec::new();
    let mut i: usize = 0;
    while i < kept
        invariant
            i <= kept <= parts.len(),
            text::texts(head@) == text::texts(parts@).take(i as int),
        decreases kept - i,
    {
        let piece = parts[i].clone();
        proof {
            text::lemma_texts_push(head@, piece);
        }
        head.push(piece);
        i = i + 1;
        assert(text::texts(parts@).take(i as int).drop_last() =~= text::texts(parts@).take(i - 1));
    }
    let cleaned = trim_non_empty(&head);
    let joined = if spaced {
        join_texts(&cleaned, " - ")
    } else {
        join_texts(&cleaned, "-")
    };
    let spread = split_words(joined.as_str());
    let base = join_texts(&spread, " ");
    trim(base.as_str())
}

pub fn normalize_label(label: &str) -> (r: String)
    ensures
        r@ == label_key(label@),
{
    let cleaned = clean_source_label(label);
    to_alnum_key(cleaned.as_str())
}

// ---------------------------------------------------------------------------
// Places
// ---------------------------------------------------------------------------

/// Where the files of the mods are kept.
pub fn library_mod_root(data_dir: &str) -> (r: String)
    ensures
        r@ == crate::paths::joined(data_dir@, "mods"@),
{
    crate::paths::join_path(data_dir, "mods")
}

} // verus!
