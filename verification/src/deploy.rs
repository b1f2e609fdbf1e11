//! What a deployment puts where, and which mod wins a file that several bring.
use crate::bg3::GamePaths;
use crate::library;
use crate::library::{
    find_profile, FileOverride, InstallTarget, Library, ModEntry, ModSource, PakInfo,
    ProfileEntry, TargetKind,
};
use crate::lists;
use crate::loose;
use crate::loose::{build_loose_plan, collect_candidates, LooseFilePlan};
use crate::paths;
use crate::paths::{join_path, key_of, lies_within, split_components};
use crate::rank_order;
use crate::sigillink::SigilLinkIndex;
use crate::text;
use crate::text::{concat2, eq_ignore_case, same_text};
use vstd::hash_map::StringHashMap;
use vstd::prelude::*;

verus! {

// ---------------------------------------------------------------------------
// Types
// ---------------------------------------------------------------------------

/// What a deployment did.
#[derive(Debug)]
pub struct DeployReport {
    pub pak_count: usize,
    pub loose_count: usize,
    pub file_count: usize,
    pub removed_count: usize,
    pub overridden_files: usize,
    pub link_mode_summary: String,
    pub warnings: Vec<String>,
}

/// A mod that brings a file which others bring too.
#[derive(Debug)]
pub struct ConflictCandidate {
    pub mod_id: String,
    pub mod_name: String,
}

/// A file that several mods bring, and the mod that wins it.
#[derive(Debug)]
pub struct ConflictEntry {
    pub target: TargetKind,
    pub relative_path: String,
    pub candidates: Vec<ConflictCandidate>,
    pub winner_id: String,
    pub winner_name: String,
    pub default_winner_id: String,
    pub overridden: bool,
}

#[derive(Debug)]
pub struct DeployOptions {
    pub backup: bool,
    pub reason: Option<String>,
}

impl Default for DeployOptions {
    fn default() -> (r: Self)
        ensures
            r.backup,
            r.reason is None,
    {
        DeployOptions { backup: true, reason: None }
    }
}

#[derive(Debug, Clone, Copy, PartialEq, Eq, Structural, Hash)]
pub enum SigilLinkMode {
    Hardlink,
    Symlink,
}

/// A link that could not be made.
#[derive(Debug)]
pub struct SigilLinkRelocationError {
    pub target_root: String,
    pub source: String,
    pub dest: String,
    pub err: String,
}

/// The files of the last deployment.
#[derive(Debug)]
pub struct DeployManifest {
    pub files: Vec<DeployedFile>,
    pub pak_files: Vec<String>,
}

#[derive(Debug)]
pub struct DeployedFile {
    pub target: String,
    pub path: String,
    pub source_mod: Option<String>,
    pub source_id: Option<String>,
    pub source_kind: Option<String>,
}

impl SigilLinkMode {
    pub open spec fn name(self) -> Seq<char> {
        match self {
            SigilLinkMode::Hardlink => "hardlink"@,
            SigilLinkMode::Symlink => "symlink"@,
        }
    }

    pub fn label(self) -> (r: &'static str)
        ensures
            r@ == self.name(),
    {
        match self {
            SigilLinkMode::Hardlink => "hardlink",
            SigilLinkMode::Symlink => "symlink",
        }
    }
}

// ---------------------------------------------------------------------------
// How files are linked
// ---------------------------------------------------------------------------

/// A file is hard-linked within a file system, and linked by name across.
pub open spec fn mode_between(cache_dev: u64, target_dev: u64) -> SigilLinkMode {
    if target_dev == cache_dev {
        SigilLinkMode::Hardlink
    } else {
        SigilLinkMode::Symlink
    }
}

/// How files are linked between two file systems.
pub fn resolve_sigillink_mode(cache_dev: u64, target_dev: u64) -> (r: SigilLinkMode)
    ensures
        r == mode_between(cache_dev, target_dev),
{
    if target_dev == cache_dev {
        SigilLinkMode::Hardlink
    } else {
        SigilLinkMode::Symlink
    }
}

/// The kinds of links in use, in a word.
pub open spec fn modes_name(hard: bool, soft: bool) -> Seq<char> {
    if hard && soft {
        "mixed"@
    } else if hard {
        SigilLinkMode::Hardlink.name()
    } else if soft {
        SigilLinkMode::Symlink.name()
    } else {
        "none"@
    }
}

fn name_modes(hard: bool, soft: bool) -> (r: String)
    ensures
        r@ == modes_name(hard, soft),
{
    if hard && soft {
        "mixed".to_owned()
    } else if hard {
        SigilLinkMode::Hardlink.label().to_owned()
    } else if soft {
        SigilLinkMode::Symlink.label().to_owned()
    } else {
        "none".to_owned()
    }
}

/// Whether one of the directories that are set is linked to in the given way.
pub open spec fn links_by(
    cache_dev: u64,
    targets: Seq<(String, u64)>,
    mode: SigilLinkMode,
) -> bool {
    exists|i: int|
        0 <= i < targets.len() && (#[trigger] targets[i]).0@.len() > 0 && mode_between(
            cache_dev,
            targets[i].1,
        ) == mode
}

/// How the directories, each with its file system, are linked to, in a word.
pub fn summarize_sigillink_modes(cache_dev: u64, targets: &[(String, u64)]) -> (r: String)
    ensures
        r@ == modes_name(
            links_by(cache_dev, targets@, SigilLinkMode::Hardlink),
            links_by(cache_dev, targets@, SigilLinkMode::Symlink),
        ),
{
    let mut hard = false;
    let mut soft = false;
    let mut i: usize = 0;
    while i < targets.len()
        invariant
            i <= targets.len(),
            hard == links_by(cache_dev, targets@.take(i as int), SigilLinkMode::Hardlink),
            soft == links_by(cache_dev, targets@.take(i as int), SigilLinkMode::Symlink),
        decreases targets.len() - i,
    {
        let ghost before = targets@.take(i as int);
        let ghost after = targets@.take(i + 1);
        let mut hard_here = false;
        let mut soft_here = false;
        if !targets[i].0.as_str().is_empty() {
            match resolve_sigillink_mode(cache_dev, targets[i].1) {
                SigilLinkMode::Hardlink => hard_here = true,
                SigilLinkMode::Symlink => soft_here = true,
            }
        }
        proof {
            lemma_links_by(cache_dev, targets@, i as int, SigilLinkMode::Hardlink);
            lemma_links_by(cache_dev, targets@, i as int, SigilLinkMode::Symlink);
        }
        hard = hard || hard_here;
        soft = soft || soft_here;
        i = i + 1;
    }
    assert(targets@.take(i as int) =~= targets@);
    name_modes(hard, soft)
}

proof fn lemma_links_by(cache_dev: u64, targets: Seq<(String, u64)>, i: int, mode: SigilLinkMode)
    requires
        0 <= i < targets.len(),
    ensures
        links_by(cache_dev, targets.take(i + 1), mode) <==> links_by(
            cache_dev,
            targets.take(i),
            mode,
        ) || (targets[i].0@.len() > 0 && mode_between(cache_dev, targets[i].1) == mode),
{
    let before = targets.take(i);
    let after = targets.take(i + 1);
    if links_by(cache_dev, before, mode) {
        let k = choose|k: int|
            0 <= k < before.len() && (#[trigger] before[k]).0@.len() > 0 && mode_between(
                cache_dev,
                before[k].1,
            ) == mode;
        assert(after[k] == before[k]);
    }
    if links_by(cache_dev, after, mode) {
        let k = choose|k: int|
            0 <= k < after.len() && (#[trigger] after[k]).0@.len() > 0 && mode_between(
                cache_dev,
                after[k].1,
            ) == mode;
        if k < i {
            assert(before[k] == after[k]);
        }
    }
    assert(after[i] == targets[i]);
}

/// How the directories of a deployment are linked to, as far as it is known.
pub struct LinkModeCache {
    pub cache_dev: u64,
    pub modes: StringHashMap<SigilLinkMode>,
    pub hard_used: bool,
    pub soft_used: bool,
}

impl LinkModeCache {
    pub fn new(cache_dev: u64) -> (r: Self)
        ensures
            r.cache_dev == cache_dev,
            r.modes@ == Map::<Seq<char>, SigilLinkMode>::empty(),
            !r.hard_used && !r.soft_used,
    {
        LinkModeCache { cache_dev, modes: StringHashMap::new(), hard_used: false, soft_used: false }
    }

    fn mark(&mut self, mode: SigilLinkMode)
        ensures
            final(self).cache_dev == old(self).cache_dev,
            final(self).modes == old(self).modes,
            final(self).hard_used == (old(self).hard_used || mode == SigilLinkMode::Hardlink),
            final(self).soft_used == (old(self).soft_used || mode == SigilLinkMode::Symlink),
    {
        match mode {
            SigilLinkMode::Hardlink => self.hard_used = true,
            SigilLinkMode::Symlink => self.soft_used = true,
        }
    }

    /// Whether a directory's way is known.
    pub fn knows(&self, target_root: &str) -> (r: bool)
        ensures
            r == self.modes@.contains_key(paths::path_key(target_root@)),
    {
        self.modes.contains_key(key_of(target_root).as_str())
    }

    /// The way to link to a directory on a file system; once found it stays.
    pub fn mode_for(&mut self, target_root: &str, target_dev: u64) -> (r: SigilLinkMode)
        ensures
            final(self).cache_dev == old(self).cache_dev,
            r == if old(self).modes@.contains_key(paths::path_key(target_root@)) {
                old(self).modes@[paths::path_key(target_root@)]
            } else {
                mode_between(old(self).cache_dev, target_dev)
            },
            final(self).modes@ == old(self).modes@.insert(paths::path_key(target_root@), r),
            final(self).hard_used == (old(self).hard_used || r == SigilLinkMode::Hardlink),
            final(self).soft_used == (old(self).soft_used || r == SigilLinkMode::Symlink),
    {
        let key = key_of(target_root);
        let known = match self.modes.get(key.as_str()) {
            Some(mode) => Some(*mode),
            None => None,
        };
        match known {
            Some(mode) => {
                assert(self.modes@.insert(key@, mode) =~= self.modes@);
                self.mark(mode);
                mode
            },
            None => {
                let mode = resolve_sigillink_mode(self.cache_dev, target_dev);
                self.modes.insert(key, mode);
                self.mark(mode);
                mode
            },
        }
    }

    pub fn summary(&self) -> (r: String)
        ensures
            r@ == modes_name(self.hard_used, self.soft_used),
    {
        name_modes(self.hard_used, self.soft_used)
    }
}

/// What stands where a link is to be made.
#[derive(Debug, Clone, Copy, PartialEq, Eq, Structural)]
pub enum Occupant {
    Nothing,
    File,
    Directory,
}

/// How a link is made.
#[derive(Debug, Clone, Copy, PartialEq, Eq, Structural)]
pub enum LinkPlan {
    /// A directory stands in the way.
    Refuse,
    Link { remove_first: bool, mode: SigilLinkMode },
}

/// A link takes the place of a file, never of a directory.
pub fn link_with_mode(occupant: Occupant, mode: SigilLinkMode) -> (r: LinkPlan)
    ensures
        r == match occupant {
            Occupant::Directory => LinkPlan::Refuse,
            Occupant::File => LinkPlan::Link { remove_first: true, mode },
            Occupant::Nothing => LinkPlan::Link { remove_first: false, mode },
        },
{
    match occupant {
        Occupant::Directory => LinkPlan::Refuse,
        Occupant::File => LinkPlan::Link { remove_first: true, mode },
        Occupant::Nothing => LinkPlan::Link { remove_first: false, mode },
    }
}

// ---------------------------------------------------------------------------
// Which mods are deployed
// ---------------------------------------------------------------------------

/// Where the mods of a load order stand, those that are not there left out, and
/// those that are switched off unless `all` are asked for.
pub open spec fn picks(order: Seq<ProfileEntry>, mods: Seq<ModEntry>, all: bool) -> Seq<int>
    decreases order.len(),
{
    if order.len() == 0 {
        Seq::empty()
    } else {
        let before = picks(order.drop_last(), mods, all);
        let place = library::last_index(mods, order.last().id@);
        if place >= 0 && (all || order.last().enabled) {
            before.push(place)
        } else {
            before
        }
    }
}

/// Whether all places are places of mods.
pub open spec fn are_places(places: Seq<int>, mods: Seq<ModEntry>) -> bool {
    forall|i: int| 0 <= i < places.len() ==> 0 <= #[trigger] places[i] < mods.len()
}

fn pick_mods(
    order: &Vec<ProfileEntry>,
    mods: &Vec<ModEntry>,
    index: &StringHashMap<usize>,
    all: bool,
) -> (out: Vec<usize>)
    requires
        library::indexes(index@, mods@),
    ensures
        rank_order::as_ints(out@) == picks(order@, mods@, all),
        are_places(rank_order::as_ints(out@), mods@),
{
    let mut out: Vec<usize> = Vec::new();
    let mut i: usize = 0;
    assert(rank_order::as_ints(out@) =~= picks(order@.take(0), mods@, all));
    while i < order.len()
        invariant
            i <= order.len(),
            library::indexes(index@, mods@),
            rank_order::as_ints(out@) == picks(order@.take(i as int), mods@, all),
            are_places(rank_order::as_ints(out@), mods@),
        decreases order.len() - i,
    {
        let entry = &order[i];
        proof {
            assert(order@.take(i + 1).drop_last() =~= order@.take(i as int));
            library::lemma_last_index(mods@, entry.id@);
        }
        if let Some(place) = index.get(entry.id.as_str()) {
            assert(library::is_last_with_id(mods@, entry.id@, *place as int));
            if all || entry.enabled {
                proof {
                    rank_order::lemma_as_ints_push(out@, *place);
                }
                out.push(*place);
            }
        }
        i = i + 1;
    }
    assert(order@.take(i as int) =~= order@);
    out
}

/// Whether a target of the mod is switched on.
pub open spec fn is_on(m: ModEntry, t: InstallTarget) -> bool {
    library::switched_on(m.target_overrides@, t.kind_of())
}

fn target_is_on(m: &ModEntry, j: usize) -> (r: bool)
    requires
        j < m.targets.len(),
    ensures
        r == is_on(*m, m.targets@[j as int]),
{
    let kind = m.targets[j].kind();
    assert(m.targets@[j as int].kind_of() == kind);
    m.is_target_enabled(kind)
}

/// The packages among the first `n` targets of a mod that are switched on.
pub open spec fn paks_of(m: ModEntry, n: int) -> Seq<PakInfo>
    decreases n,
{
    if n <= 0 {
        Seq::empty()
    } else {
        match m.targets@[n - 1] {
            InstallTarget::Pak { file, info } => if is_on(m, m.targets@[n - 1]) {
                paks_of(m, n - 1).push(info)
            } else {
                paks_of(m, n - 1)
            },
            _ => paks_of(m, n - 1),
        }
    }
}

/// The packages of the mods at the places.
pub open spec fn paks(mods: Seq<ModEntry>, places: Seq<int>) -> Seq<PakInfo>
    decreases places.len(),
{
    if places.len() == 0 {
        Seq::empty()
    } else {
        let m = mods[places.last()];
        paks(mods, places.drop_last()) + paks_of(m, m.targets@.len() as int)
    }
}

fn collect_paks(mods: &Vec<ModEntry>, places: &Vec<usize>) -> (out: Vec<PakInfo>)
    requires
        are_places(rank_order::as_ints(places@), mods@),
    ensures
        out@ == paks(mods@, rank_order::as_ints(places@)),
{
    let ghost all = rank_order::as_ints(places@);
    let mut out: Vec<PakInfo> = Vec::new();
    let mut i: usize = 0;
    while i < places.len()
        invariant
            i <= places.len(),
            all == rank_order::as_ints(places@),
            are_places(all, mods@),
            out@ == paks(mods@, all.take(i as int)),
        decreases places.len() - i,
    {
        assert(all[i as int] == places@[i as int]);
        let m = &mods[places[i]];
        let ghost head = out@;
        let mut j: usize = 0;
        assert(head + paks_of(*m, 0) =~= head);
        while j < m.targets.len()
            invariant
                j <= m.targets.len(),
                out@ == head + paks_of(*m, j as int),
            decreases m.targets.len() - j,
        {
            if let InstallTarget::Pak { file: _, info } = &m.targets[j] {
                if target_is_on(m, j) {
                    out.push(info.clone());
                    assert(out@ =~= head + paks_of(*m, j + 1));
                }
            }
            j = j + 1;
        }
        i = i + 1;
        assert(all.take(i as int).drop_last() =~= all.take(i - 1));
    }
    assert(all.take(i as int) =~= all);
    out
}

/// Whether a mod brings loose files that are switched on.
pub open spec fn has_loose(m: ModEntry) -> bool {
    exists|j: int|
        0 <= j < m.targets@.len() && !(#[trigger] m.targets@[j] is Pak) && is_on(m, m.targets@[j])
}

fn brings_loose(m: &ModEntry) -> (r: bool)
    ensures
        r == has_loose(*m),
{
    let mut j: usize = 0;
    while j < m.targets.len()
        invariant
            j <= m.targets.len(),
            forall|k: int|
                0 <= k < j ==> !(!(#[trigger] m.targets@[k] is Pak) && is_on(*m, m.targets@[k])),
        decreases m.targets.len() - j,
    {
        let is_pak = matches!(m.targets[j], InstallTarget::Pak { .. });
        if !is_pak && target_is_on(m, j) {
            return true;
        }
        j = j + 1;
    }
    false
}

/// The places of the mods with loose files that the manager keeps itself.
pub open spec fn loose_places(mods: Seq<ModEntry>, places: Seq<int>) -> Seq<int> {
    places.filter(|p: int| has_loose(mods[p]) && mods[p].source != ModSource::Native)
}

fn pick_loose(mods: &Vec<ModEntry>, places: &Vec<usize>) -> (out: Vec<usize>)
    requires
        are_places(rank_order::as_ints(places@), mods@),
    ensures
        rank_order::as_ints(out@) == loose_places(mods@, rank_order::as_ints(places@)),
        are_places(rank_order::as_ints(out@), mods@),
{
    let ghost all = rank_order::as_ints(places@);
    let ghost keeps = |p: int| has_loose(mods@[p]) && mods@[p].source != ModSource::Native;
    let mut out: Vec<usize> = Vec::new();
    let mut i: usize = 0;
    proof {
        lists::lemma_filter_whole(all, keeps);
        assert(rank_order::as_ints(out@) =~= all.take(0).filter(keeps));
    }
    while i < places.len()
        invariant
            i <= places.len(),
            all == rank_order::as_ints(places@),
            are_places(all, mods@),
            keeps == (|p: int| has_loose(mods@[p]) && mods@[p].source != ModSource::Native),
            rank_order::as_ints(out@) == all.take(i as int).filter(keeps),
            are_places(rank_order::as_ints(out@), mods@),
        decreases places.len() - i,
    {
        assert(all[i as int] == places@[i as int]);
        let place = places[i];
        proof {
            lists::lemma_keep_item(all, i as int, keeps);
        }
        if brings_loose(&mods[place]) && !mods[place].is_native() {
            proof {
                rank_order::lemma_as_ints_push(out@, place);
            }
            out.push(place);
        }
        i = i + 1;
    }
    proof {
        lists::lemma_filter_whole(all, keeps);
    }
    out
}

/// A package that is linked into the game.
#[derive(Debug)]
pub struct PakLink {
    pub source: String,
    pub dest: String,
}

pub open spec fn links(list: Seq<PakLink>) -> Seq<(Seq<char>, Seq<char>)> {
    Seq::new(list.len(), |i: int| (list[i].source@, list[i].dest@))
}

/// The directory of a mod's files.
pub open spec fn mod_dir(cache_root: Seq<char>, id: Seq<char>) -> Seq<char> {
    paths::joined(paths::joined(cache_root, "mods"@), id)
}

pub fn library_mod_path(cache_root: &str, id: &str) -> (r: String)
    ensures
        r@ == mod_dir(cache_root@, id@),
{
    let root = join_path(cache_root, "mods");
    join_path(root.as_str(), id)
}

/// The links for the packages among the first `n` targets of a mod.
pub open spec fn links_of(
    m: ModEntry,
    cache_root: Seq<char>,
    mods_dir: Seq<char>,
    n: int,
) -> Seq<(Seq<char>, Seq<char>)>
    decreases n,
{
    if n <= 0 {
        Seq::empty()
    } else {
        let before = links_of(m, cache_root, mods_dir, n - 1);
        match m.targets@[n - 1] {
            InstallTarget::Pak { file, info } => if is_on(m, m.targets@[n - 1]) {
                before.push(
                    (
                        paths::joined(mod_dir(cache_root, m.id@), file@),
                        paths::joined(mods_dir, info.folder@ + ".pak"@),
                    ),
                )
            } else {
                before
            },
            _ => before,
        }
    }
}

/// The links for the packages of the mods at the places; those of the game's own
/// manager stay where they are.
pub open spec fn pak_links(
    mods: Seq<ModEntry>,
    places: Seq<int>,
    cache_root: Seq<char>,
    mods_dir: Seq<char>,
) -> Seq<(Seq<char>, Seq<char>)>
    decreases places.len(),
{
    if places.len() == 0 {
        Seq::empty()
    } else {
        let m = mods[places.last()];
        let before = pak_links(mods, places.drop_last(), cache_root, mods_dir);
        if m.source == ModSource::Native {
            before
        } else {
            before + links_of(m, cache_root, mods_dir, m.targets@.len() as int)
        }
    }
}

fn collect_links(
    mods: &Vec<ModEntry>,
    places: &Vec<usize>,
    cache_root: &str,
    mods_dir: &str,
) -> (out: Vec<PakLink>)
    requires
        are_places(rank_order::as_ints(places@), mods@),
    ensures
        links(out@) == pak_links(mods@, rank_order::as_ints(places@), cache_root@, mods_dir@),
{
    let ghost all = rank_order::as_ints(places@);
    let mut out: Vec<PakLink> = Vec::new();
    let mut i: usize = 0;
    assert(links(out@) =~= pak_links(mods@, all.take(0), cache_root@, mods_dir@));
    while i < places.len()
        invariant
            i <= places.len(),
            all == rank_order::as_ints(places@),
            are_places(all, mods@),
            links(out@) == pak_links(mods@, all.take(i as int), cache_root@, mods_dir@),
        decreases places.len() - i,
    {
        assert(all[i as int] == places@[i as int]);
        assert(all.take(i + 1).drop_last() =~= all.take(i as int));
        let m = &mods[places[i]];
        if !m.is_native() {
            let dir = library_mod_path(cache_root, m.id.as_str());
            let ghost head = links(out@);
            let mut j: usize = 0;
            assert(head + links_of(*m, cache_root@, mods_dir@, 0) =~= head);
            while j < m.targets.len()
                invariant
                    j <= m.targets.len(),
                    dir@ == mod_dir(cache_root@, m.id@),
                    links(out@) == head + links_of(*m, cache_root@, mods_dir@, j as int),
                decreases m.targets.len() - j,
            {
                if let InstallTarget::Pak { file, info } = &m.targets[j] {
                    if target_is_on(m, j) {
                        let source = join_path(dir.as_str(), file.as_str());
                        let name = concat2(info.folder.as_str(), ".pak");
                        let dest = join_path(mods_dir, name.as_str());
                        let ghost before = links(out@);
                        let link = PakLink { source, dest };
                        out.push(link);
                        assert(links(out@) =~= before.push((link.source@, link.dest@)));
                        assert(links(out@) =~= head + links_of(
                            *m,
                            cache_root@,
                            mods_dir@,
                            j + 1,
                        ));
                    }
                }
                j = j + 1;
            }
        }
        i = i + 1;
    }
    assert(all.take(i as int) =~= all);
    out
}

// ---------------------------------------------------------------------------
// Loose files
// ---------------------------------------------------------------------------

/// A directory of loose files, and where they go.
#[derive(Debug)]
pub struct LooseSource {
    /// Where the mod stands in the library.
    pub place: usize,
    /// Where it stands in the load order.
    pub order: usize,
    pub kind: TargetKind,
    pub source_root: String,
    pub dest_root: String,
}

pub struct SourceView {
    pub place: int,
    pub order: int,
    pub kind: TargetKind,
    pub source_root: Seq<char>,
    pub dest_root: Seq<char>,
}

impl LooseSource {
    pub open spec fn shown(self) -> SourceView {
        SourceView {
            place: self.place as int,
            order: self.order as int,
            kind: self.kind,
            source_root: self.source_root@,
            dest_root: self.dest_root@,
        }
    }
}

pub open spec fn source_views(list: Seq<LooseSource>) -> Seq<SourceView> {
    Seq::new(list.len(), |i: int| list[i].shown())
}

/// Where loose files of a kind go.
pub open spec fn dest_root_of(p: GamePaths, kind: TargetKind) -> Seq<char> {
    match kind {
        TargetKind::Generated => paths::joined(p.data_dir@, "Generated"@),
        TargetKind::Bin => paths::joined(p.game_root@, "bin"@),
        _ => p.data_dir@,
    }
}

fn find_dest_root(p: &GamePaths, kind: TargetKind) -> (r: String)
    ensures
        r@ == dest_root_of(*p, kind),
{
    match kind {
        TargetKind::Generated => join_path(p.data_dir.as_str(), "Generated"),
        TargetKind::Bin => join_path(p.game_root.as_str(), "bin"),
        _ => p.data_dir.clone(),
    }
}

/// What a kind of target is called.
pub open spec fn kind_name(kind: TargetKind) -> Seq<char> {
    match kind {
        TargetKind::Pak => "Pak"@,
        TargetKind::Generated => "Generated"@,
        TargetKind::Data => "Data"@,
        TargetKind::Bin => "Bin"@,
    }
}

pub fn kind_label(kind: TargetKind) -> (r: &'static str)
    ensures
        r@ == kind_name(kind),
{
    match kind {
        TargetKind::Pak => "Pak",
        TargetKind::Generated => "Generated",
        TargetKind::Data => "Data",
        TargetKind::Bin => "Bin",
    }
}

/// The directory of loose files that a target names.
pub open spec fn loose_dir(t: InstallTarget) -> Option<Seq<char>> {
    match t {
        InstallTarget::Pak { .. } => None,
        InstallTarget::Generated { dir } => Some(dir@),
        InstallTarget::Data { dir } => Some(dir@),
        InstallTarget::Bin { dir } => Some(dir@),
    }
}

fn find_loose_dir(t: &InstallTarget) -> (r: Option<&String>)
    ensures
        match r {
            Some(d) => loose_dir(*t) == Some(d@),
            None => loose_dir(*t) is None,
        },
{
    match t {
        InstallTarget::Pak { .. } => None,
        InstallTarget::Generated { dir } => Some(dir),
        InstallTarget::Data { dir } => Some(dir),
        InstallTarget::Bin { dir } => Some(dir),
    }
}

/// The directories among the first `n` targets of a mod.
pub open spec fn sources_of(
    p: GamePaths,
    m: ModEntry,
    cache_root: Seq<char>,
    place: int,
    order: int,
    n: int,
) -> Seq<SourceView>
    decreases n,
{
    if n <= 0 {
        Seq::empty()
    } else {
        let before = sources_of(p, m, cache_root, place, order, n - 1);
        let t = m.targets@[n - 1];
        match loose_dir(t) {
            Some(dir) => if is_on(m, t) {
                before.push(
                    SourceView {
                        place,
                        order,
                        kind: t.kind_of(),
                        source_root: paths::joined(mod_dir(cache_root, m.id@), dir),
                        dest_root: dest_root_of(p, t.kind_of()),
                    },
                )
            } else {
                before
            },
            None => before,
        }
    }
}

/// The directories of the mods at the places, in load order.
pub open spec fn sources(
    p: GamePaths,
    mods: Seq<ModEntry>,
    places: Seq<int>,
    cache_root: Seq<char>,
) -> Seq<SourceView>
    decreases places.len(),
{
    if places.len() == 0 {
        Seq::empty()
    } else {
        let m = mods[places.last()];
        sources(p, mods, places.drop_last(), cache_root) + sources_of(
            p,
            m,
            cache_root,
            places.last(),
            places.len() - 1,
            m.targets@.len() as int,
        )
    }
}

fn collect_sources(
    p: &GamePaths,
    mods: &Vec<ModEntry>,
    places: &Vec<usize>,
    cache_root: &str,
) -> (out: Vec<LooseSource>)
    requires
        are_places(rank_order::as_ints(places@), mods@),
    ensures
        source_views(out@) == sources(*p, mods@, rank_order::as_ints(places@), cache_root@),
        forall|i: int| 0 <= i < out.len() ==> (#[trigger] out@[i]).place < mods.len(),
{
    let ghost all = rank_order::as_ints(places@);
    let mut out: Vec<LooseSource> = Vec::new();
    let mut i: usize = 0;
    assert(source_views(out@) =~= sources(*p, mods@, all.take(0), cache_root@));
    while i < places.len()
        invariant
            i <= places.len(),
            all == rank_order::as_ints(places@),
            are_places(all, mods@),
            source_views(out@) == sources(*p, mods@, all.take(i as int), cache_root@),
            forall|k: int| 0 <= k < out.len() ==> (#[trigger] out@[k]).place < mods.len(),
        decreases places.len() - i,
    {
        assert(all[i as int] == places@[i as int]);
        assert(all.take(i + 1).drop_last() =~= all.take(i as int));
        let place = places[i];
        let m = &mods[place];
        let root = library_mod_path(cache_root, m.id.as_str());
        let ghost head = source_views(out@);
        let mut j: usize = 0;
        assert(head + sources_of(*p, *m, cache_root@, place as int, i as int, 0) =~= head);
        while j < m.targets.len()
            invariant
                j <= m.targets.len(),
                place < mods.len(),
                forall|k: int| 0 <= k < out.len() ==> (#[trigger] out@[k]).place < mods.len(),
                root@ == mod_dir(cache_root@, m.id@),
                source_views(out@) == head + sources_of(
                    *p,
                    *m,
                    cache_root@,
                    place as int,
                    i as int,
                    j as int,
                ),
            decreases m.targets.len() - j,
        {
            if let Some(dir) = find_loose_dir(&m.targets[j]) {
                if target_is_on(m, j) {
                    let kind = m.targets[j].kind();
                    let item = LooseSource {
                        place,
                        order: i,
                        kind,
                        source_root: join_path(root.as_str(), dir.as_str()),
                        dest_root: find_dest_root(p, kind),
                    };
                    let ghost before = source_views(out@);
                    out.push(item);
                    assert(source_views(out@) =~= before.push(item.shown()));
                    assert(source_views(out@) =~= head + sources_of(
                        *p,
                        *m,
                        cache_root@,
                        place as int,
                        i as int,
                        j + 1,
                    ));
                }
            }
            j = j + 1;
        }
        i = i + 1;
    }
    assert(all.take(i as int) =~= all);
    out
}

/// Whether a part of a path belongs to an operating system or a tool, not to a mod.
pub open spec fn is_ignored_part(part: Seq<char>) -> bool {
    ||| text::same_ignoring_case(part, "__MACOSX"@)
    ||| text::same_ignoring_case(part, ".ds_store"@)
    ||| text::same_ignoring_case(part, "thumbs.db"@)
    ||| part == ".git"@
    ||| part == ".svn"@
    ||| part == ".vscode"@
}

pub open spec fn is_ignored(path: Seq<char>) -> bool {
    exists|i: int|
        0 <= i < paths::components(path).len() && is_ignored_part(
            #[trigger] paths::components(path)[i],
        )
}

/// Whether a path is left out of a deployment.
pub fn is_ignored_deploy_path(path: &str) -> (r: bool)
    ensures
        r == is_ignored(path@),
{
    let found = split_components(path);
    let ghost all = paths::components(path@);
    let mut i: usize = 0;
    while i < found.len()
        invariant
            i <= found.len(),
            text::texts(found@) == all,
            all == paths::components(path@),
            forall|k: int| 0 <= k < i ==> !is_ignored_part(#[trigger] all[k]),
        decreases found.len() - i,
    {
        let part = found[i].as_str();
        assert(all[i as int] == part@);
        if eq_ignore_case(part, "__MACOSX") || eq_ignore_case(part, ".ds_store") || eq_ignore_case(
            part,
            "thumbs.db",
        ) || same_text(part, ".git") || same_text(part, ".svn") || same_text(part, ".vscode") {
            return true;
        }
        i = i + 1;
    }
    false
}

/// What is found of a directory of loose files.
#[derive(Debug)]
pub enum Listing {
    /// The directory is not there.
    Missing,
    /// The files in it, by their paths below it.
    Walked { files: Vec<String> },
    /// The stored list of the mod's files, and for each whether it is there.
    Indexed { index: SigilLinkIndex, present: Vec<bool> },
}

/// The walked files that are deployed.
pub open spec fn walked_files(
    source_root: Seq<char>,
    files: Seq<Seq<char>>,
) -> Seq<Seq<char>> {
    files.filter(|f: Seq<char>| !is_ignored(paths::joined(source_root, f)))
}

/// The listed files of a kind, among the first `n`, that are deployed.
pub open spec fn indexed_files(
    index: SigilLinkIndex,
    present: Seq<bool>,
    kind: TargetKind,
    n: int,
) -> Seq<Seq<char>>
    decreases n,
{
    if n <= 0 {
        Seq::empty()
    } else {
        let before = indexed_files(index, present, kind, n - 1);
        let e = index.entries@[n - 1];
        if e.kind == kind && !is_ignored(e.relative_path@) && n - 1 < present.len()
            && present[n - 1] {
            before.push(e.relative_path@)
        } else {
            before
        }
    }
}

pub fn collect_target_files(source_root: &str, files: &Vec<String>) -> (out: Vec<String>)
    ensures
        text::texts(out@) == walked_files(source_root@, text::texts(files@)),
{
    let ghost all = text::texts(files@);
    let ghost keeps = |f: Seq<char>| !is_ignored(paths::joined(source_root@, f));
    let mut out: Vec<String> = Vec::new();
    let mut i: usize = 0;
    proof {
        lists::lemma_filter_whole(all, keeps);
        assert(text::texts(out@) =~= all.take(0).filter(keeps));
    }
    while i < files.len()
        invariant
            i <= files.len(),
            all == text::texts(files@),
            keeps == (|f: Seq<char>| !is_ignored(paths::joined(source_root@, f))),
            text::texts(out@) == all.take(i as int).filter(keeps),
        decreases files.len() - i,
    {
        let whole = join_path(source_root, files[i].as_str());
        proof {
            lists::lemma_keep_item(all, i as int, keeps);
            assert(all[i as int] == files@[i as int]@);
        }
        if !is_ignored_deploy_path(whole.as_str()) {
            let file = files[i].clone();
            proof {
                text::lemma_texts_push(out@, file);
            }
            out.push(file);
        }
        i = i + 1;
    }
    proof {
        lists::lemma_filter_whole(all, keeps);
    }
    out
}

pub fn collect_target_files_from_index(
    index: &SigilLinkIndex,
    present: &Vec<bool>,
    kind: TargetKind,
) -> (out: Vec<String>)
    ensures
        text::texts(out@) == indexed_files(*index, present@, kind, index.entries@.len() as int),
{
    let mut out: Vec<String> = Vec::new();
    let mut i: usize = 0;
    assert(text::texts(out@) =~= indexed_files(*index, present@, kind, 0));
    while i < index.entries.len()
        invariant
            i <= index.entries.len(),
            text::texts(out@) == indexed_files(*index, present@, kind, i as int),
        decreases index.entries.len() - i,
    {
        let entry = &index.entries[i];
        if entry.kind == kind && !is_ignored_deploy_path(entry.relative_path.as_str()) && i
            < present.len() && present[i] {
            let file = entry.relative_path.clone();
            proof {
                text::lemma_texts_push(out@, file);
            }
            out.push(file);
        }
        i = i + 1;
    }
    out
}

/// The files that a directory brings.
pub open spec fn files_in(source: SourceView, listing: Listing) -> Seq<Seq<char>> {
    match listing {
        Listing::Missing => Seq::empty(),
        Listing::Walked { files } => walked_files(source.source_root, text::texts(files@)),
        Listing::Indexed { index, present } => indexed_files(
            index,
            present@,
            source.kind,
            index.entries@.len() as int,
        ),
    }
}

pub fn find_files(source: &LooseSource, listing: &Listing) -> (out: Vec<String>)
    ensures
        text::texts(out@) == files_in(source.shown(), *listing),
{
    match listing {
        Listing::Missing => {
            let out: Vec<String> = Vec::new();
            assert(text::texts(out@) =~= Seq::<Seq<char>>::empty());
            out
        },
        Listing::Walked { files } => collect_target_files(source.source_root.as_str(), files),
        Listing::Indexed { index, present } => collect_target_files_from_index(
            index,
            present,
            source.kind,
        ),
    }
}

// ---------------------------------------------------------------------------
// Deployments
// ---------------------------------------------------------------------------

/// What a deployment is to do.
#[derive(Debug)]
pub struct DeployPlan {
    pub backup: bool,
    pub reason: Option<String>,
    /// The packages that the game is told of.
    pub installed_paks: Vec<PakInfo>,
    /// Those that it is told to load.
    pub enabled_paks: Vec<PakInfo>,
    pub pak_links: Vec<PakLink>,
    /// How many mods bring loose files.
    pub loose_count: usize,
    pub sources: Vec<LooseSource>,
    pub file_overrides: Vec<FileOverride>,
}

/// The load order of the active profile.
pub open spec fn active_order(library: Library) -> Seq<ProfileEntry> {
    library.profiles@[library::profile_index(library.profiles@, library.active_profile@)].order@
}

/// The file choices of the active profile.
pub open spec fn active_overrides(library: Library) -> Seq<FileOverride> {
    library.profiles@[library::profile_index(
        library.profiles@,
        library.active_profile@,
    )].file_overrides@
}

pub open spec fn has_active(library: Library) -> bool {
    library::profile_index(library.profiles@, library.active_profile@) >= 0
}

fn copy_overrides(list: &Vec<FileOverride>) -> (out: Vec<FileOverride>)
    ensures
        out@ == list@,
{
    let mut out: Vec<FileOverride> = Vec::new();
    let mut i: usize = 0;
    while i < list.len()
        invariant
            i <= list.len(),
            out@ == list@.take(i as int),
        decreases list.len() - i,
    {
        out.push(list[i].clone());
        i = i + 1;
        assert(list@.take(i as int).drop_last() =~= list@.take(i - 1));
    }
    assert(list@.take(i as int) =~= list@);
    out
}

/// Plans a deployment of the active profile; there is none without one.
pub fn deploy_with_options(
    paths: &GamePaths,
    library: &Library,
    cache_root: &str,
    options: DeployOptions,
) -> (r: Option<DeployPlan>)
    ensures
        r is Some <==> has_active(*library),
        r matches Some(plan) ==> ({
            let chosen = picks(active_order(*library), library.mods@, false);
            let all = picks(active_order(*library), library.mods@, true);
            let loose = loose_places(library.mods@, chosen);
            &&& plan.backup == options.backup
            &&& plan.reason == options.reason
            &&& plan.enabled_paks@ == paks(library.mods@, chosen)
            &&& plan.installed_paks@ == paks(library.mods@, all)
            &&& links(plan.pak_links@) == pak_links(
                library.mods@,
                all,
                cache_root@,
                paths.larian_mods_dir@,
            )
            &&& plan.loose_count == loose.len()
            &&& source_views(plan.sources@) == sources(*paths, library.mods@, loose, cache_root@)
            &&& plan.file_overrides@ == active_overrides(*library)
            &&& forall|i: int|
                0 <= i < plan.sources.len() ==> (#[trigger] plan.sources@[i]).place
                    < library.mods.len()
        }),
{
    proof {
        library::lemma_profile_index(library.profiles@, library.active_profile@);
    }
    match find_profile(&library.profiles, library.active_profile.as_str()) {
        Some(at) => {
            let profile = &library.profiles[at];
            let index = library.index_by_id();
            let chosen = pick_mods(&profile.order, &library.mods, &index, false);
            let all = pick_mods(&profile.order, &library.mods, &index, true);
            let loose = pick_loose(&library.mods, &chosen);
            Some(
                DeployPlan {
                    backup: options.backup,
                    reason: options.reason,
                    installed_paks: collect_paks(&library.mods, &all),
                    enabled_paks: collect_paks(&library.mods, &chosen),
                    pak_links: collect_links(
                        &library.mods,
                        &all,
                        cache_root,
                        paths.larian_mods_dir.as_str(),
                    ),
                    loose_count: loose.len(),
                    sources: collect_sources(paths, &library.mods, &loose, cache_root),
                    file_overrides: copy_overrides(&profile.file_overrides),
                },
            )
        },
        None => None,
    }
}

/// The directories that the conflicts of the active profile are looked for in.
pub fn conflict_sources(paths: &GamePaths, library: &Library, cache_root: &str) -> (r: Option<
    Vec<LooseSource>,
>)
    ensures
        r is Some <==> has_active(*library),
        r matches Some(list) ==> source_views(list@) == sources(
            *paths,
            library.mods@,
            picks(active_order(*library), library.mods@, false),
            cache_root@,
        ) && forall|i: int|
            0 <= i < list.len() ==> (#[trigger] list@[i]).place < library.mods.len(),
{
    proof {
        library::lemma_profile_index(library.profiles@, library.active_profile@);
    }
    match find_profile(&library.profiles, library.active_profile.as_str()) {
        Some(at) => {
            let profile = &library.profiles[at];
            let index = library.index_by_id();
            let chosen = pick_mods(&profile.order, &library.mods, &index, false);
            Some(collect_sources(paths, &library.mods, &chosen, cache_root))
        },
        None => None,
    }
}

/// The files that several enabled mods of the active profile bring, by path, given
/// what is found of each directory.
pub fn scan_conflicts(
    paths: &GamePaths,
    library: &Library,
    cache_root: &str,
    listings: &Vec<Listing>,
) -> (r: Option<Vec<ConflictEntry>>)
    ensures
        r is Some <==> has_active(*library),
        r matches Some(list) ==> ({
            let found = sources(
                *paths,
                library.mods@,
                picks(active_order(*library), library.mods@, false),
                cache_root@,
            );
            list@.map_values(loose::conflict_view()) == loose::conflicts(
                loose::candidates(found, library.mods@, listings@, found.len() as int),
                active_overrides(*library),
            )
        }),
{
    proof {
        library::lemma_profile_index(library.profiles@, library.active_profile@);
    }
    match find_profile(&library.profiles, library.active_profile.as_str()) {
        Some(at) => match conflict_sources(paths, library, cache_root) {
            Some(found) => {
                let list = collect_candidates(&found, &library.mods, listings);
                let (_plans, conflicts, _lost) = build_loose_plan(
                    &list,
                    &library.profiles[at].file_overrides,
                );
                Some(conflicts)
            },
            None => None,
        },
        None => None,
    }
}

/// What the record of a deployment says of a file.
pub open spec fn records(file: DeployedFile, plan: loose::PlanView) -> bool {
    &&& file.target@ == plan.dest_root
    &&& file.path@ == plan.dest
    &&& text::text_opt(file.source_mod) == Some(plan.mod_name)
    &&& text::text_opt(file.source_id) == Some(plan.mod_id)
    &&& text::text_opt(file.source_kind) == Some(kind_name(plan.kind))
}

/// The record of the deployed files.
pub fn deployed_files(plans: &Vec<LooseFilePlan>) -> (out: Vec<DeployedFile>)
    ensures
        out.len() == plans.len(),
        forall|i: int|
            0 <= i < plans.len() ==> records(#[trigger] out@[i], plans@[i].shown()),
{
    let mut out: Vec<DeployedFile> = Vec::new();
    let mut i: usize = 0;
    while i < plans.len()
        invariant
            i <= plans.len(),
            i == out.len(),
            forall|k: int| 0 <= k < i ==> records(#[trigger] out@[k], plans@[k].shown()),
        decreases plans.len() - i,
    {
        let plan = &plans[i];
        out.push(
            DeployedFile {
                target: plan.dest_root.clone(),
                path: plan.dest.clone(),
                source_mod: Some(plan.mod_name.clone()),
                source_id: Some(plan.mod_id.clone()),
                source_kind: Some(kind_label(plan.kind).to_owned()),
            },
        );
        i = i + 1;
    }
    out
}

/// The files to take back, last first, where the `done`-th plan could not be
/// carried out.
pub fn undo_order(plans: &Vec<LooseFilePlan>, done: usize) -> (out: Vec<String>)
    requires
        done <= plans.len(),
    ensures
        out.len() == done,
        forall|i: int| 0 <= i < done ==> (#[trigger] out@[i])@ == plans@[done - 1 - i].dest@,
{
    let mut out: Vec<String> = Vec::new();
    let mut i: usize = 0;
    while i < done
        invariant
            i <= done <= plans.len(),
            i == out.len(),
            forall|k: int| 0 <= k < i ==> (#[trigger] out@[k])@ == plans@[done - 1 - k].dest@,
        decreases done - i,
    {
        out.push(plans[done - 1 - i].dest.clone());
        i = i + 1;
    }
    out
}

/// Whether a file of an earlier deployment may be taken away.
pub open spec fn may_remove_file(p: GamePaths, path: Seq<char>) -> bool {
    paths::is_within(path, p.data_dir@) || paths::is_within(path, p.game_root@)
}

pub open spec fn file_paths(list: Seq<DeployedFile>) -> Seq<Seq<char>> {
    Seq::new(list.len(), |i: int| list[i].path@)
}

/// The files of the last deployment that are taken away: none outside the game's
/// directories.
pub open spec fn removable(p: GamePaths, manifest: DeployManifest) -> Seq<Seq<char>> {
    file_paths(manifest.files@).filter(|f: Seq<char>| may_remove_file(p, f)) + text::texts(
        manifest.pak_files@,
    ).filter(|f: Seq<char>| paths::is_within(f, p.larian_mods_dir@))
}

pub fn remove_previous_deploy(paths: &GamePaths, manifest: &DeployManifest) -> (out: Vec<String>)
    ensures
        text::texts(out@) == removable(*paths, *manifest),
{
    let ghost files = file_paths(manifest.files@);
    let ghost allowed = |f: Seq<char>| may_remove_file(*paths, f);
    let mut out: Vec<String> = Vec::new();
    let mut i: usize = 0;
    proof {
        lists::lemma_filter_whole(files, allowed);
        assert(text::texts(out@) =~= files.take(0).filter(allowed));
    }
    while i < manifest.files.len()
        invariant
            i <= manifest.files.len(),
            files == file_paths(manifest.files@),
            allowed == (|f: Seq<char>| may_remove_file(*paths, f)),
            text::texts(out@) == files.take(i as int).filter(allowed),
        decreases manifest.files.len() - i,
    {
        let path = &manifest.files[i].path;
        proof {
            lists::lemma_keep_item(files, i as int, allowed);
            assert(files[i as int] == path@);
        }
        if lies_within(path.as_str(), paths.data_dir.as_str()) || lies_within(
            path.as_str(),
            paths.game_root.as_str(),
        ) {
            let copy = path.clone();
            proof {
                text::lemma_texts_push(out@, copy);
            }
            out.push(copy);
        }
        i = i + 1;
    }
    proof {
        lists::lemma_filter_whole(files, allowed);
    }
    let ghost head = text::texts(out@);
    let ghost packs = text::texts(manifest.pak_files@);
    let ghost inside = |f: Seq<char>| paths::is_within(f, paths.larian_mods_dir@);
    let mut k: usize = 0;
    proof {
        lists::lemma_filter_whole(packs, inside);
        assert(head + packs.take(0).filter(inside) =~= head);
    }
    while k < manifest.pak_files.len()
        invariant
            k <= manifest.pak_files.len(),
            packs == text::texts(manifest.pak_files@),
            inside == (|f: Seq<char>| paths::is_within(f, paths.larian_mods_dir@)),
            text::texts(out@) == head + packs.take(k as int).filter(inside),
        decreases manifest.pak_files.len() - k,
    {
        let path = &manifest.pak_files[k];
        proof {
            lists::lemma_keep_item(packs, k as int, inside);
            assert(packs[k as int] == path@);
        }
        if lies_within(path.as_str(), paths.larian_mods_dir.as_str()) {
            let copy = path.clone();
            let ghost before = text::texts(out@);
            proof {
                text::lemma_texts_push(out@, copy);
                let f = packs.take(k as int).filter(inside);
                assert((head + f).push(copy@) =~= head + f.push(copy@));
            }
            out.push(copy);
        }
        k = k + 1;
    }
    proof {
        lists::lemma_filter_whole(packs, inside);
    }
    out
}

/// Nothing outside the game's directories is ever taken away.
pub proof fn law_removes_only_own(p: GamePaths, manifest: DeployManifest, i: int)
    requires
        0 <= i < removable(p, manifest).len(),
    ensures
        may_remove_file(p, removable(p, manifest)[i]) || paths::is_within(
            removable(p, manifest)[i],
            p.larian_mods_dir@,
        ),
{
    let allowed = |f: Seq<char>| may_remove_file(p, f);
    let inside = |f: Seq<char>| paths::is_within(f, p.larian_mods_dir@);
    let files = file_paths(manifest.files@).filter(allowed);
    let packs = text::texts(manifest.pak_files@).filter(inside);
    if i < files.len() {
        file_paths(manifest.files@).lemma_filter_pred(allowed, i);
    } else {
        text::texts(manifest.pak_files@).lemma_filter_pred(inside, i - files.len());
    }
}

/// What was brought into the game below its directories is taken away by the next
/// deployment: each file that stands below the directory of its kind, and each package.
pub proof fn law_deployed_is_taken_back(
    p: GamePaths,
    manifest: DeployManifest,
    kind: TargetKind,
    file: Seq<char>,
)
    requires
        file.len() == 0 || file[0] != '/',
    ensures
        file_paths(manifest.files@).contains(paths::joined(dest_root_of(p, kind), file))
            ==> removable(p, manifest).contains(paths::joined(dest_root_of(p, kind), file)),
        text::texts(manifest.pak_files@).contains(paths::joined(p.larian_mods_dir@, file))
            ==> removable(p, manifest).contains(paths::joined(p.larian_mods_dir@, file)),
{
    let allowed = |f: Seq<char>| may_remove_file(p, f);
    let inside = |f: Seq<char>| paths::is_within(f, p.larian_mods_dir@);
    let files = file_paths(manifest.files@);
    let packs = text::texts(manifest.pak_files@);
    let root = dest_root_of(p, kind);
    let dest = paths::joined(root, file);
    let pack = paths::joined(p.larian_mods_dir@, file);
    reveal_strlit("Generated");
    reveal_strlit("bin");
    paths::law_joined_is_within(root, file);
    paths::law_joined_is_within(p.data_dir@, "Generated"@);
    paths::law_joined_is_within(p.game_root@, "bin"@);
    paths::law_joined_is_within(p.larian_mods_dir@, file);
    assert(may_remove_file(p, dest)) by {
        let top = if kind == TargetKind::Bin {
            p.game_root@
        } else {
            p.data_dir@
        };
        let a = paths::components(top);
        let b = paths::components(root);
        let c = paths::components(dest);
        assert(a =~= b.subrange(0, a.len() as int));
        assert(a =~= c.subrange(0, a.len() as int));
    }
    lists::lemma_filter_contains(files, allowed, dest);
    lists::lemma_filter_contains(packs, inside, pack);
    let first = files.filter(allowed);
    let second = packs.filter(inside);
    if files.contains(dest) {
        let i = choose|i: int| 0 <= i < first.len() && first[i] == dest;
        assert((first + second)[i] == dest);
    }
    if packs.contains(pack) {
        let i = choose|i: int| 0 <= i < second.len() && second[i] == pack;
        assert((first + second)[first.len() + i] == pack);
    }
}

/// What is said of a deployment that was carried out.
pub fn report(
    plan: &DeployPlan,
    files: &Vec<LooseFilePlan>,
    removed_count: usize,
    overridden_files: usize,
    modes: &LinkModeCache,
) -> (r: DeployReport)
    ensures
        r.pak_count == plan.installed_paks.len(),
        r.loose_count == plan.loose_count,
        r.file_count == if files.len() + plan.pak_links.len() <= usize::MAX {
            files.len() + plan.pak_links.len()
        } else {
            usize::MAX as int
        },
        r.removed_count == removed_count,
        r.overridden_files == overridden_files,
        r.link_mode_summary@ == modes_name(modes.hard_used, modes.soft_used),
        r.warnings.len() == 0,
{
    DeployReport {
        pak_count: plan.installed_paks.len(),
        loose_count: plan.loose_count,
        file_count: files.len().saturating_add(plan.pak_links.len()),
        removed_count,
        overridden_files,
        link_mode_summary: modes.summary(),
        warnings: Vec::new(),
    }
}

} // verus!
