//! What is read of a mod's files, and what the library takes over from it.
use crate::cli_lists::collect_dependencies;
use crate::dep_keys;
use crate::dep_keys::filter_ignored_dependencies;
use crate::importer;
use crate::importer::{earliest_of, latest_of, scan_dir_times, SourceTimes};
use crate::library;
use crate::library::{resolve_times, InstallTarget, ModEntry, ModSource};
use crate::lists::copy_strings;
use crate::metadata::{JsonModInfo, ModMeta};
use crate::mod_changes::find_mod;
use crate::native_apply;
use crate::native_apply::{same_lists, same_time};
use crate::native_sync;
use crate::native_sync::{resolve_native_times, should_clear_native_created};
use crate::sorting;
use crate::sorting::has_string;
use crate::text;
use vstd::prelude::*;

verus! {

/// What is read of one package.
pub struct PakReading {
    pub meta: Option<ModMeta>,
    /// When its file was made, and when it was last changed.
    pub created: Option<i64>,
    pub modified: Option<i64>,
}

/// What is read of a mod's files.
pub struct ModReading {
    pub paks: Vec<PakReading>,
    /// The metadata beside the packages.
    pub meta: Option<ModMeta>,
    pub infos: Vec<JsonModInfo>,
    /// The times of the loose files.
    pub created: Option<i64>,
    pub modified: Option<i64>,
}

// ---------------------------------------------------------------------------
// What the mod is said to need
// ---------------------------------------------------------------------------

pub open spec fn meta_needs(meta: Option<ModMeta>) -> Seq<Seq<char>> {
    match meta {
        Some(m) => text::texts(m.dependencies@),
        None => Seq::empty(),
    }
}

/// What the first `n` packages say.
pub open spec fn pak_needs(paks: Seq<PakReading>, n: int) -> Seq<Seq<char>>
    decreases n,
{
    if n <= 0 {
        Seq::empty()
    } else {
        pak_needs(paks, n - 1) + meta_needs(paks[n - 1].meta)
    }
}

/// What the first `n` descriptions say.
pub open spec fn info_needs(infos: Seq<JsonModInfo>, n: int) -> Seq<Seq<char>>
    decreases n,
{
    if n <= 0 {
        Seq::empty()
    } else {
        info_needs(infos, n - 1) + text::texts(infos[n - 1].dependencies@)
    }
}

fn add_all(out: &mut Vec<String>, more: &Vec<String>)
    ensures
        text::texts(final(out)@) == text::texts(old(out)@) + text::texts(more@),
        final(out)@.len() == old(out)@.len() + more@.len(),
{
    let ghost start = text::texts(out@);
    let mut i: usize = 0;
    assert(start + text::texts(more@).take(0) =~= start);
    while i < more.len()
        invariant
            i <= more.len(),
            start == text::texts(old(out)@),
            out@.len() == old(out)@.len() + i,
            text::texts(out@) == start + text::texts(more@).take(i as int),
        decreases more.len() - i,
    {
        let t = more[i].clone();
        proof {
            text::lemma_texts_push(out@, t);
            assert(text::texts(more@).take(i + 1) =~= text::texts(more@).take(i as int).push(t@));
        }
        out.push(t);
        i = i + 1;
        assert(text::texts(out@) =~= start + text::texts(more@).take(i as int));
    }
    assert(text::texts(more@).take(i as int) =~= text::texts(more@));
}

fn find_pak_needs(paks: &Vec<PakReading>) -> (out: Vec<String>)
    ensures
        text::texts(out@) == pak_needs(paks@, paks@.len() as int),
{
    let mut out: Vec<String> = Vec::new();
    let mut i: usize = 0;
    assert(text::texts(out@) =~= Seq::<Seq<char>>::empty());
    while i < paks.len()
        invariant
            i <= paks.len(),
            text::texts(out@) == pak_needs(paks@, i as int),
        decreases paks.len() - i,
    {
        let ghost before = text::texts(out@);
        match &paks[i].meta {
            Some(m) => add_all(&mut out, &m.dependencies),
            None => {
                assert(before + Seq::<Seq<char>>::empty() =~= before);
            },
        }
        i = i + 1;
    }
    out
}

fn add_info_needs(out: &mut Vec<String>, infos: &Vec<JsonModInfo>)
    ensures
        text::texts(final(out)@) == text::texts(old(out)@) + info_needs(
            infos@,
            infos@.len() as int,
        ),
{
    let ghost start = text::texts(out@);
    let mut i: usize = 0;
    assert(start + Seq::<Seq<char>>::empty() =~= start);
    while i < infos.len()
        invariant
            i <= infos.len(),
            start == text::texts(old(out)@),
            text::texts(out@) == start + info_needs(infos@, i as int),
        decreases infos.len() - i,
    {
        add_all(out, &infos[i].dependencies);
        i = i + 1;
        assert(text::texts(out@) =~= start + info_needs(infos@, i as int));
    }
}

/// All that the files say the mod needs.
pub open spec fn said_needs(r: ModReading) -> Seq<Seq<char>> {
    pak_needs(r.paks@, r.paks@.len() as int) + meta_needs(r.meta) + info_needs(
        r.infos@,
        r.infos@.len() as int,
    )
}

/// What the mod needs: what its packages say, or what its metadata says where they
/// say nothing, and what its descriptions say.
pub open spec fn needs_of(r: ModReading) -> Seq<Seq<char>> {
    let in_paks = pak_needs(r.paks@, r.paks@.len() as int);
    (if in_paks.len() > 0 {
        in_paks
    } else {
        meta_needs(r.meta)
    }) + info_needs(r.infos@, r.infos@.len() as int)
}

/// The needs of the mod with an id, but for itself.
pub open spec fn needs_others(needs: Seq<Seq<char>>, id: Seq<char>) -> Seq<Seq<char>> {
    needs.filter(|d: Seq<char>| !text::same_ignoring_case(d, id))
}

/// What a mod needs, each once and in ascending order, without itself and without
/// what comes with the game.
pub fn collect_mod_dependencies(id: &str, r: &ModReading) -> (out: Vec<String>)
    ensures
        exists|all: Seq<Seq<char>>| #[trigger]
            sorting::sorted_set_of(all, needs_others(needs_of(*r), id@)) && text::texts(out@)
                == dep_keys::foreign(all),
{
    let mut deps = find_pak_needs(&r.paks);
    if deps.is_empty() {
        assert(text::texts(deps@).len() == 0);
        if let Some(m) = &r.meta {
            add_all(&mut deps, &m.dependencies);
        }
        assert(text::texts(deps@) =~= meta_needs(r.meta));
    } else {
        assert(text::texts(deps@).len() > 0);
    }
    add_info_needs(&mut deps, &r.infos);
    let sorted = collect_dependencies(id, &deps, &deps);
    assert(sorting::sorted_set_of(text::texts(sorted@), needs_others(needs_of(*r), id@)));
    filter_ignored_dependencies(&sorted)
}

// ---------------------------------------------------------------------------
// Times
// ---------------------------------------------------------------------------

pub open spec fn meta_time(meta: Option<ModMeta>) -> Option<i64> {
    match meta {
        Some(m) => m.created_at,
        None => None,
    }
}

/// When the first `n` packages say that the mod was made.
pub open spec fn pak_made(paks: Seq<PakReading>, n: int) -> Option<i64>
    decreases n,
{
    if n <= 0 {
        None
    } else {
        importer::earliest(pak_made(paks, n - 1), meta_time(paks[n - 1].meta))
    }
}

/// When the files of the first `n` packages were made, and when they were changed.
pub open spec fn pak_times(paks: Seq<PakReading>, n: int) -> (Option<i64>, Option<i64>)
    decreases n,
{
    if n <= 0 {
        (None, None)
    } else {
        let before = pak_times(paks, n - 1);
        (
            importer::earliest(before.0, paks[n - 1].created),
            importer::latest(before.1, paks[n - 1].modified),
        )
    }
}

/// When the first `n` descriptions say that the mod was made.
pub open spec fn info_made(infos: Seq<JsonModInfo>, n: int) -> Option<i64>
    decreases n,
{
    if n <= 0 {
        None
    } else {
        importer::earliest(info_made(infos, n - 1), infos[n - 1].created_at)
    }
}

/// When the metadata says that the mod was made.
pub open spec fn meta_made(r: ModReading) -> Option<i64> {
    importer::earliest(pak_made(r.paks@, r.paks@.len() as int), meta_time(r.meta))
}

/// When the mod's files were made, and when they were last changed.
pub open spec fn file_times(r: ModReading) -> (Option<i64>, Option<i64>) {
    let t = pak_times(r.paks@, r.paks@.len() as int);
    (importer::earliest(t.0, r.created), importer::latest(t.1, r.modified))
}

fn find_meta_made(r: &ModReading) -> (t: Option<i64>)
    ensures
        t == meta_made(*r),
{
    let mut t: Option<i64> = None;
    let mut i: usize = 0;
    while i < r.paks.len()
        invariant
            i <= r.paks.len(),
            t == pak_made(r.paks@, i as int),
        decreases r.paks.len() - i,
    {
        let said = match &r.paks[i].meta {
            Some(m) => m.created_at,
            None => None,
        };
        t = earliest_of(t, said);
        i = i + 1;
    }
    let said = match &r.meta {
        Some(m) => m.created_at,
        None => None,
    };
    earliest_of(t, said)
}

fn find_file_times(r: &ModReading) -> (t: (Option<i64>, Option<i64>))
    ensures
        t == file_times(*r),
{
    let mut created: Option<i64> = None;
    let mut modified: Option<i64> = None;
    let mut i: usize = 0;
    while i < r.paks.len()
        invariant
            i <= r.paks.len(),
            (created, modified) == pak_times(r.paks@, i as int),
        decreases r.paks.len() - i,
    {
        created = earliest_of(created, r.paks[i].created);
        modified = latest_of(modified, r.paks[i].modified);
        i = i + 1;
    }
    (earliest_of(created, r.created), latest_of(modified, r.modified))
}

fn find_info_made(infos: &Vec<JsonModInfo>) -> (t: Option<i64>)
    ensures
        t == info_made(infos@, infos@.len() as int),
{
    let mut t: Option<i64> = None;
    let mut i: usize = 0;
    while i < infos.len()
        invariant
            i <= infos.len(),
            t == info_made(infos@, i as int),
        decreases infos.len() - i,
    {
        t = earliest_of(t, infos[i].created_at);
        i = i + 1;
    }
    t
}

/// The times of the files of the first `n` targets that are directories.
pub open spec fn loose_times(
    targets: Seq<InstallTarget>,
    walks: Seq<Vec<SourceTimes>>,
    n: int,
) -> Seq<SourceTimes>
    decreases n,
{
    if n <= 0 {
        Seq::empty()
    } else {
        let before = loose_times(targets, walks, n - 1);
        if targets[n - 1] is Pak {
            before
        } else {
            before + walks[n - 1]@
        }
    }
}

/// The times of the loose files of a mod, of which those below each target are given.
pub fn scan_mod_targets_times(m: &ModEntry, walks: &Vec<Vec<SourceTimes>>) -> (r: SourceTimes)
    requires
        walks@.len() == m.targets@.len(),
    ensures
        ({
            let files = loose_times(m.targets@, walks@, m.targets@.len() as int);
            r == importer::in_order(
                importer::first_created(files, files.len() as int),
                importer::last_modified(files, files.len() as int),
            )
        }),
{
    let mut files: Vec<SourceTimes> = Vec::new();
    let mut i: usize = 0;
    assert(files@ =~= loose_times(m.targets@, walks@, 0));
    while i < m.targets.len()
        invariant
            i <= m.targets.len() == walks.len(),
            files@ == loose_times(m.targets@, walks@, i as int),
        decreases m.targets.len() - i,
    {
        if !matches!(m.targets[i], InstallTarget::Pak { .. }) {
            let ghost before = files@;
            let mut k: usize = 0;
            assert(files@ =~= before + walks@[i as int]@.take(0));
            while k < walks[i].len()
                invariant
                    i < walks.len(),
                    k <= walks@[i as int]@.len(),
                    files@ == before + walks@[i as int]@.take(k as int),
                decreases walks@[i as int]@.len() - k,
            {
                files.push(walks[i][k]);
                k = k + 1;
                assert(files@ =~= before + walks@[i as int]@.take(k as int));
            }
            assert(walks@[i as int]@.take(k as int) =~= walks@[i as int]@);
        }
        i = i + 1;
    }
    scan_dir_times(files.as_slice())
}

// ---------------------------------------------------------------------------
// What the library takes over
// ---------------------------------------------------------------------------

/// What changes of what is known of a mod.
#[derive(Debug)]
pub struct MetadataUpdate {
    pub id: String,
    pub created_at: Option<i64>,
    pub modified_at: Option<i64>,
    pub dependencies: Vec<String>,
}

/// When a mod is said to have been made. For a mod of the game only its metadata
/// counts; for others their descriptions count first.
pub open spec fn said_made(m: ModEntry, r: ModReading) -> Option<i64> {
    let in_infos = info_made(r.infos@, r.infos@.len() as int);
    if m.source == ModSource::Native || in_infos is None {
        meta_made(r)
    } else {
        in_infos
    }
}

/// The times that the files give for a mod.
pub open spec fn read_times(m: ModEntry, r: ModReading) -> (Option<i64>, Option<i64>) {
    let t = file_times(r);
    if m.source == ModSource::Native {
        native_sync::native_times(said_made(m, r), t.0, t.1)
    } else {
        library::resolved_times(said_made(m, r), t.0, t.1)
    }
}

/// Whether a mod of the game has a time of making that nothing states.
pub open spec fn loses_made(m: ModEntry, r: ModReading) -> bool {
    let t = file_times(r);
    m.source == ModSource::Native && said_made(m, r) is None && native_sync::is_guessed(
        m.created_at,
        t.0,
        t.1,
        m.added_at,
    )
}

/// When the mod was made, as known from now on. A time that something states is
/// taken over; one of a mod of the manager that was only a guess is made anew.
pub open spec fn next_created(m: ModEntry, r: ModReading) -> Option<i64> {
    let read = read_times(m, r).0;
    let guess = m.created_at is None || m.created_at == Some(m.added_at);
    if m.source == ModSource::Native {
        if read is Some {
            read
        } else if loses_made(m, r) {
            None
        } else {
            m.created_at
        }
    } else if read is Some && (said_made(m, r) is Some || guess) {
        read
    } else {
        m.created_at
    }
}

/// When the mod was last changed, as known from now on: never earlier than known,
/// but where that was a guess.
pub open spec fn next_modified(m: ModEntry, r: ModReading) -> Option<i64> {
    let guess = m.source == ModSource::Native && m.created_at is Some && m.created_at
        == m.modified_at;
    match read_times(m, r).1 {
        Some(t) => match m.modified_at {
            Some(known) => if guess || known < t {
                Some(t)
            } else {
                Some(known)
            },
            None => Some(t),
        },
        None => m.modified_at,
    }
}

/// What changes of what is known of a mod, going by its files.
pub fn metadata_update(m: &ModEntry, r: &ModReading) -> (u: MetadataUpdate)
    ensures
        u.id@ == m.id@,
        u.created_at == next_created(*m, *r),
        u.modified_at == next_modified(*m, *r),
        sorting::sorted_set_of(
            text::texts(u.dependencies@),
            needs_others(said_needs(*r), m.id@),
        ),
{
    let mut needs = find_pak_needs(&r.paks);
    let ghost in_paks = text::texts(needs@);
    match &r.meta {
        Some(meta) => add_all(&mut needs, &meta.dependencies),
        None => {
            assert(in_paks + Seq::<Seq<char>>::empty() =~= in_paks);
        },
    }
    add_info_needs(&mut needs, &r.infos);
    let dependencies = collect_dependencies(m.id.as_str(), &needs, &needs);

    let meta = find_meta_made(r);
    let info = find_info_made(&r.infos);
    let (file_created, file_modified) = find_file_times(r);
    let native = m.is_native();
    let said = if native || info.is_none() {
        meta
    } else {
        info
    };
    let (created, modified) = if native {
        resolve_native_times(said, file_created, file_modified)
    } else {
        resolve_times(said, file_created, file_modified)
    };
    let guess = match m.created_at {
        None => true,
        Some(t) => t == m.added_at,
    };
    let created_at = if native {
        match created {
            Some(t) => Some(t),
            None => if said.is_none() && should_clear_native_created(
                m.created_at,
                file_created,
                file_modified,
                m.added_at,
            ) {
                None
            } else {
                m.created_at
            },
        }
    } else {
        match created {
            Some(t) => if said.is_some() || guess {
                Some(t)
            } else {
                m.created_at
            },
            None => m.created_at,
        }
    };
    let same_times = match (m.created_at, m.modified_at) {
        (Some(a), Some(b)) => a == b,
        _ => false,
    };
    let modified_at = match modified {
        Some(t) => match m.modified_at {
            Some(known) => if (native && same_times) || known < t {
                Some(t)
            } else {
                Some(known)
            },
            None => Some(t),
        },
        None => m.modified_at,
    };
    MetadataUpdate { id: m.id.clone(), created_at, modified_at, dependencies }
}

/// Whether an update is what the files of a mod give.
pub open spec fn updates_mod(u: MetadataUpdate, m: ModEntry, r: ModReading) -> bool {
    &&& u.id@ == m.id@
    &&& u.created_at == next_created(m, r)
    &&& u.modified_at == next_modified(m, r)
    &&& sorting::sorted_set_of(
        text::texts(u.dependencies@),
        needs_others(said_needs(r), m.id@),
    )
}

/// How far the mods have been gone through.
#[derive(Debug)]
pub struct MetadataProgress {
    pub update: MetadataUpdate,
    pub current: usize,
    pub total: usize,
}

/// Whether two updates say the same.
pub open spec fn same_update(a: MetadataUpdate, b: MetadataUpdate) -> bool {
    &&& a.id@ == b.id@
    &&& a.created_at == b.created_at
    &&& a.modified_at == b.modified_at
    &&& text::texts(a.dependencies@) == text::texts(b.dependencies@)
}

fn copy_update(u: &MetadataUpdate) -> (r: MetadataUpdate)
    ensures
        same_update(r, *u),
{
    MetadataUpdate {
        id: u.id.clone(),
        created_at: u.created_at,
        modified_at: u.modified_at,
        dependencies: copy_strings(u.dependencies.as_slice()),
    }
}

/// Whether the updates of `n` mods were told, one after the other, of `total`.
pub open spec fn tells_updates(
    told: Seq<MetadataProgress>,
    updates: Seq<MetadataUpdate>,
    total: nat,
) -> bool {
    &&& told.len() == updates.len()
    &&& forall|i: int|
        0 <= i < told.len() ==> {
            &&& same_update((#[trigger] told[i]).update, updates[i])
            &&& told[i].current == i + 1
            &&& told[i].total == total
        }
}

/// What changes of what is known of the mods, going by their files. Each change is told
/// as it is found, with how many of the mods have been gone through.
pub fn collect_metadata_updates(
    mods: &Vec<ModEntry>,
    readings: &Vec<ModReading>,
    progress: &mut Vec<MetadataProgress>,
) -> (out: Vec<MetadataUpdate>)
    requires
        readings@.len() == mods@.len(),
    ensures
        out@.len() == mods@.len(),
        forall|i: int| 0 <= i < mods@.len() ==> updates_mod(#[trigger] out@[i], mods@[i], readings@[i]),
        final(progress)@.take(old(progress)@.len() as int) == old(progress)@,
        tells_updates(
            final(progress)@.skip(old(progress)@.len() as int),
            out@,
            mods@.len(),
        ),
{
    let ghost before = progress@;
    let mut out: Vec<MetadataUpdate> = Vec::new();
    let mut i: usize = 0;
    assert(progress@.take(before.len() as int) =~= before);
    while i < mods.len()
        invariant
            i <= mods.len() == readings.len(),
            out@.len() == i,
            forall|j: int|
                0 <= j < i ==> updates_mod(#[trigger] out@[j], mods@[j], readings@[j]),
            progress@.len() == before.len() + i,
            progress@.take(before.len() as int) == before,
            tells_updates(progress@.skip(before.len() as int), out@, mods@.len()),
        decreases mods.len() - i,
    {
        let update = metadata_update(&mods[i], &readings[i]);
        let ghost told = progress@;
        let ghost done = out@;
        progress.push(
            MetadataProgress { update: copy_update(&update), current: i + 1, total: mods.len() },
        );
        out.push(update);
        proof {
            assert(progress@.take(before.len() as int) =~= told.take(before.len() as int));
            let now = progress@.skip(before.len() as int);
            let was = told.skip(before.len() as int);
            assert forall|j: int| 0 <= j < now.len() implies same_update(
                (#[trigger] now[j]).update,
                out@[j],
            ) && now[j].current == j + 1 && now[j].total == mods@.len() by {
                if j < i {
                    assert(now[j] == was[j]);
                    assert(out@[j] == done[j]);
                }
            }
        }
        i = i + 1;
    }
    out
}

/// A mod after an update.
pub open spec fn with_update(m: ModEntry, u: MetadataUpdate) -> ModEntry {
    ModEntry {
        created_at: u.created_at,
        modified_at: u.modified_at,
        dependencies: u.dependencies,
        ..m
    }
}

/// Takes an update over into the first mod with its id. The result says whether that
/// changed anything.
pub fn apply_metadata_update(mods: &mut Vec<ModEntry>, u: MetadataUpdate) -> (dirty: bool)
    ensures
        ({
            let at = native_apply::first_mod(old(mods)@, u.id@);
            let m = old(mods)@[at];
            if at >= 0 {
                &&& final(mods)@ == old(mods)@.update(at, with_update(m, u))
                &&& dirty == (m.created_at != u.created_at || m.modified_at != u.modified_at
                    || text::texts(m.dependencies@) != text::texts(u.dependencies@))
            } else {
                final(mods)@ == old(mods)@ && !dirty
            }
        }),
{
    proof {
        native_apply::lemma_first_mod(mods@, u.id@);
    }
    match find_mod(mods, u.id.as_str()) {
        Some(at) => {
            let dirty = !same_time(mods[at].created_at, u.created_at) || !same_time(
                mods[at].modified_at,
                u.modified_at,
            ) || !same_lists(&mods[at].dependencies, &u.dependencies);
            mods[at].created_at = u.created_at;
            mods[at].modified_at = u.modified_at;
            mods[at].dependencies = u.dependencies;
            dirty
        },
        None => false,
    }
}

/// A second update by the same files finds nothing more to change of the times.
pub proof fn law_update_settles(m: ModEntry, r: ModReading, u: MetadataUpdate)
    requires
        updates_mod(u, m, r),
    ensures
        next_created(with_update(m, u), r) == u.created_at,
        next_modified(with_update(m, u), r) == u.modified_at,
{
}

// ---------------------------------------------------------------------------
// Which packages are a mod's
// ---------------------------------------------------------------------------

/// Where the package of a target was found: under the name of its folder, under its
/// own name, and by what is in the packages there.
pub struct PakPlaces {
    pub by_folder: Option<String>,
    pub by_file: Option<String>,
    pub resolved: Option<String>,
}

pub open spec fn with_path(list: Seq<Seq<char>>, path: Option<String>) -> Seq<Seq<char>> {
    match path {
        Some(p) => if list.contains(p@) {
            list
        } else {
            list.push(p@)
        },
        None => list,
    }
}

/// The list with the packages of one target.
pub open spec fn with_places(list: Seq<Seq<char>>, native: bool, p: PakPlaces) -> Seq<Seq<char>> {
    if native {
        with_path(with_path(with_path(list, p.by_folder), p.by_file), p.resolved)
    } else if p.by_file is Some {
        with_path(list, p.by_file)
    } else {
        with_path(list, p.resolved)
    }
}

/// The packages of the first `n` targets of a mod, each once.
pub open spec fn pak_paths(
    targets: Seq<InstallTarget>,
    native: bool,
    places: Seq<PakPlaces>,
    n: int,
) -> Seq<Seq<char>>
    decreases n,
{
    if n <= 0 {
        Seq::empty()
    } else {
        let before = pak_paths(targets, native, places, n - 1);
        if targets[n - 1] is Pak {
            with_places(before, native, places[n - 1])
        } else {
            before
        }
    }
}

fn push_unique(out: &mut Vec<String>, path: &Option<String>)
    ensures
        text::texts(final(out)@) == with_path(text::texts(old(out)@), *path),
{
    if let Some(p) = path {
        if !has_string(out, p.as_str()) {
            let p = p.clone();
            proof {
                text::lemma_texts_push(out@, p);
            }
            out.push(p);
        }
    }
}

/// The packages of a mod. The places are those of its targets.
pub fn resolve_pak_paths(m: &ModEntry, places: &Vec<PakPlaces>) -> (out: Vec<String>)
    requires
        places@.len() == m.targets@.len(),
    ensures
        text::texts(out@) == pak_paths(
            m.targets@,
            m.source == ModSource::Native,
            places@,
            m.targets@.len() as int,
        ),
{
    let native = m.is_native();
    let mut out: Vec<String> = Vec::new();
    let mut i: usize = 0;
    assert(text::texts(out@) =~= Seq::<Seq<char>>::empty());
    while i < m.targets.len()
        invariant
            i <= m.targets.len() == places.len(),
            native == (m.source == ModSource::Native),
            text::texts(out@) == pak_paths(m.targets@, native, places@, i as int),
        decreases m.targets.len() - i,
    {
        if matches!(m.targets[i], InstallTarget::Pak { .. }) {
            if native {
                push_unique(&mut out, &places[i].by_folder);
                push_unique(&mut out, &places[i].by_file);
                push_unique(&mut out, &places[i].resolved);
            } else if places[i].by_file.is_some() {
                push_unique(&mut out, &places[i].by_file);
            } else {
                push_unique(&mut out, &places[i].resolved);
            }
        }
        i = i + 1;
    }
    out
}

} // verus!
