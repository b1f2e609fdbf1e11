//! What the game's own settings say of the mods, and what the library takes over.
use crate::cli_lists::collect_dependencies;
use crate::fingerprint;
use crate::fingerprint::{collect_module_ids, modsettings_fingerprint};
use crate::importer;
use crate::importer::earliest_of;
use crate::library;
use crate::library::{
    collect_ids, resolve_times, InstallTarget, Library, ModEntry, ModSource, PakInfo,
};
use crate::lists::{copy_opt, copy_strings};
use crate::modsettings::{ModSettingsModule, ModSettingsSnapshot};
use crate::sorting;
use crate::sorting::has_string;
use crate::tasks::{NativeSyncProgress, NativeSyncStage};
use crate::text;
use crate::text::{concat2, same_text};
use vstd::prelude::*;

verus! {

// ---------------------------------------------------------------------------
// Times
// ---------------------------------------------------------------------------

/// The times of a mod of the game: without a stated time there is none of its
/// making, and its file says when it was changed.
pub open spec fn native_times(
    primary: Option<i64>,
    created: Option<i64>,
    modified: Option<i64>,
) -> (Option<i64>, Option<i64>) {
    if primary is Some {
        library::resolved_times(primary, created, modified)
    } else {
        (
            None,
            if modified is Some {
                modified
            } else {
                created
            },
        )
    }
}

pub fn resolve_native_times(
    primary_created: Option<i64>,
    file_created: Option<i64>,
    file_modified: Option<i64>,
) -> (r: (Option<i64>, Option<i64>))
    ensures
        r == native_times(primary_created, file_created, file_modified),
{
    if primary_created.is_some() {
        return resolve_times(primary_created, file_created, file_modified);
    }
    (
        None,
        if file_modified.is_some() {
            file_modified
        } else {
            file_created
        },
    )
}

/// Whether a mod's time of making was only taken from its file, or from when it was
/// added.
pub open spec fn is_guessed(
    current: Option<i64>,
    created: Option<i64>,
    modified: Option<i64>,
    added: i64,
) -> bool {
    current matches Some(c) && (c == added || created == Some(c) || modified == Some(c))
}

pub fn should_clear_native_created(
    current_created: Option<i64>,
    file_created: Option<i64>,
    file_modified: Option<i64>,
    added_at: i64,
) -> (r: bool)
    ensures
        r == is_guessed(current_created, file_created, file_modified, added_at),
{
    match current_created {
        Some(c) => c == added_at || (match file_created {
            Some(t) => t == c,
            None => false,
        }) || (match file_modified {
            Some(t) => t == c,
            None => false,
        }),
        None => false,
    }
}

/// The first of the times among the first `n` that are known.
pub open spec fn earliest_among(values: Seq<Option<i64>>, n: int) -> Option<i64>
    decreases n,
{
    if n <= 0 {
        None
    } else {
        importer::earliest(earliest_among(values, n - 1), values[n - 1])
    }
}

pub fn earliest_timestamp(values: &[Option<i64>]) -> (r: Option<i64>)
    ensures
        r == earliest_among(values@, values@.len() as int),
{
    let mut r: Option<i64> = None;
    let mut i: usize = 0;
    while i < values.len()
        invariant
            i <= values.len(),
            r == earliest_among(values@, i as int),
        decreases values.len() - i,
    {
        r = earliest_of(r, values[i]);
        i = i + 1;
    }
    r
}

// ---------------------------------------------------------------------------
// What is found of the packages
// ---------------------------------------------------------------------------

/// What is found of a mod's package in the game's directory.
#[derive(Debug)]
pub struct PakFacts {
    /// The file name of the package, if it was found.
    pub filename: Option<String>,
    pub meta_created: Option<i64>,
    pub dependencies: Vec<String>,
    pub created: Option<i64>,
    pub modified: Option<i64>,
}

/// What is known of the package of the mod at `i`.
pub open spec fn facts_at(facts: Seq<PakFacts>, i: int) -> Option<PakFacts> {
    if 0 <= i < facts.len() {
        Some(facts[i])
    } else {
        None
    }
}

/// The file name that a module's package has where it is not found.
pub open spec fn file_of(f: Option<PakFacts>, info: PakInfo) -> Seq<char> {
    match f {
        Some(x) => match x.filename {
            Some(n) => n@,
            None => info.folder@ + ".pak"@,
        },
        None => info.folder@ + ".pak"@,
    }
}

pub open spec fn meta_created(f: Option<PakFacts>) -> Option<i64> {
    match f {
        Some(x) => x.meta_created,
        None => None,
    }
}

pub open spec fn found_times(f: Option<PakFacts>) -> (Option<i64>, Option<i64>) {
    match f {
        Some(x) => (x.created, x.modified),
        None => (None, None),
    }
}

pub open spec fn found_needs(f: Option<PakFacts>) -> Seq<Seq<char>> {
    match f {
        Some(x) => text::texts(x.dependencies@),
        None => Seq::empty(),
    }
}

/// What a mod of the game is said to need, but for itself.
pub open spec fn native_needs(f: Option<PakFacts>, id: Seq<char>) -> Seq<Seq<char>> {
    found_needs(f).filter(|d: Seq<char>| !text::same_ignoring_case(d, id))
}

fn find_needs(f: &PakFacts, id: &str) -> (out: Vec<String>)
    ensures
        sorting::sorted_set_of(text::texts(out@), native_needs(Some(*f), id@)),
{
    collect_dependencies(id, &f.dependencies, &f.dependencies)
}

// ---------------------------------------------------------------------------
// Mods of the game that are known
// ---------------------------------------------------------------------------

/// What changes of a mod.
#[derive(Debug)]
pub struct NativeModUpdate {
    pub id: String,
    pub source: ModSource,
    pub name: String,
    pub source_label: Option<String>,
    pub targets: Vec<InstallTarget>,
    pub created_at: Option<i64>,
    pub modified_at: Option<i64>,
    pub dependencies: Vec<String>,
}

/// A target with the file of its package.
pub open spec fn with_file(t: InstallTarget, file: String) -> InstallTarget {
    match t {
        InstallTarget::Pak { file: _, info } => InstallTarget::Pak { file, info },
        other => other,
    }
}

pub open spec fn with_files(targets: Seq<InstallTarget>, file: String) -> Seq<InstallTarget> {
    Seq::new(targets.len(), |i: int| with_file(targets[i], file))
}

/// Whether a package of the targets has another file name.
pub open spec fn has_other_file(targets: Seq<InstallTarget>, file: Seq<char>) -> bool {
    exists|i: int|
        0 <= i < targets.len() && (#[trigger] targets[i] matches InstallTarget::Pak {
            file: f,
            info: _,
        } && f@ != file)
}

fn rename_files(targets: &Vec<InstallTarget>, file: &String) -> (r: (Vec<InstallTarget>, bool))
    ensures
        r.0@ == with_files(targets@, *file),
        r.1 == has_other_file(targets@, file@),
{
    let mut out: Vec<InstallTarget> = Vec::new();
    let mut changed = false;
    let mut i: usize = 0;
    while i < targets.len()
        invariant
            i <= targets.len(),
            out@ == with_files(targets@, *file).take(i as int),
            changed == exists|k: int|
                0 <= k < i && (#[trigger] targets@[k] matches InstallTarget::Pak {
                    file: f,
                    info: _,
                } && f@ != file@),
        decreases targets.len() - i,
    {
        match &targets[i] {
            InstallTarget::Pak { file: f, info } => {
                if !same_text(f.as_str(), file.as_str()) {
                    assert(targets@[i as int] matches InstallTarget::Pak { file: g, info: _ } && g@
                        != file@);
                    changed = true;
                }
                out.push(InstallTarget::Pak { file: file.clone(), info: info.clone() });
            },
            other => {
                out.push(other.clone());
            },
        }
        i = i + 1;
        assert(with_files(targets@, *file).take(i as int).drop_last() =~= with_files(
            targets@,
            *file,
        ).take(i - 1));
    }
    assert(with_files(targets@, *file).take(i as int) =~= with_files(targets@, *file));
    (out, changed)
}

/// The creation time that the game's settings state of the last module with an id.
pub open spec fn settings_created(modules: Seq<ModSettingsModule>, id: Seq<char>) -> Option<i64>
    decreases modules.len(),
{
    if modules.len() == 0 {
        None
    } else if modules.last().info.uuid@ == id {
        modules.last().created_at
    } else {
        settings_created(modules.drop_last(), id)
    }
}

fn find_settings_created(modules: &Vec<ModSettingsModule>, id: &str) -> (r: Option<i64>)
    ensures
        r == settings_created(modules@, id@),
{
    let mut n: usize = modules.len();
    assert(modules@.take(n as int) =~= modules@);
    while n > 0
        invariant
            n <= modules.len(),
            settings_created(modules@.take(n as int), id@) == settings_created(modules@, id@),
        decreases n,
    {
        assert(modules@.take(n as int).last() == modules@[n - 1]);
        assert(modules@.take(n as int).drop_last() =~= modules@.take(n - 1));
        if same_text(modules[n - 1].info.uuid.as_str(), id) {
            return modules[n - 1].created_at;
        }
        n = n - 1;
    }
    None
}

pub open spec fn is_newer(t: i64, than: Option<i64>) -> bool {
    match than {
        Some(o) => o < t,
        None => true,
    }
}

/// Whether the update is that of a mod of the game whose package was found.
pub open spec fn updates_native(
    u: NativeModUpdate,
    m: ModEntry,
    f: PakFacts,
    stated: Option<i64>,
) -> bool {
    let primary = importer::earliest(stated, f.meta_created);
    let times = native_times(primary, f.created, f.modified);
    &&& f.filename matches Some(file) && u.targets@ == with_files(m.targets@, file)
    &&& u.id == m.id
    &&& u.source == m.source
    &&& u.name == m.name
    &&& u.source_label == m.source_label
    &&& u.created_at == if primary is Some {
        if times.0 is Some {
            times.0
        } else {
            m.created_at
        }
    } else if is_guessed(m.created_at, f.created, f.modified, m.added_at) {
        None
    } else {
        m.created_at
    }
    &&& u.modified_at == match times.1 {
        Some(t) => if is_newer(t, m.modified_at) {
            Some(t)
        } else {
            m.modified_at
        },
        None => m.modified_at,
    }
    &&& sorting::sorted_set_of(text::texts(u.dependencies@), native_needs(Some(f), m.id@))
}

pub open spec fn has_pak(targets: Seq<InstallTarget>) -> bool {
    library::targets_have(targets, library::TargetKind::Pak)
}

/// Whether a mod of the game is looked at: it has a package, and that was found.
pub open spec fn is_looked_at(m: ModEntry, f: Option<PakFacts>) -> bool {
    m.source == ModSource::Native && has_pak(m.targets@) && (f matches Some(x)
        && x.filename is Some)
}

/// Whether the updates are those of the first `n` mods.
pub open spec fn are_updates(
    updates: Seq<NativeModUpdate>,
    mods: Seq<ModEntry>,
    facts: Seq<PakFacts>,
    modules: Seq<ModSettingsModule>,
    n: int,
) -> bool
    decreases n,
{
    if n <= 0 {
        updates.len() == 0
    } else {
        let m = mods[n - 1];
        if is_looked_at(m, facts_at(facts, n - 1)) {
            &&& updates.len() > 0
            &&& updates_native(
                updates.last(),
                m,
                facts[n - 1],
                settings_created(modules, m.id@),
            )
            &&& are_updates(updates.drop_last(), mods, facts, modules, n - 1)
        } else {
            are_updates(updates, mods, facts, modules, n - 1)
        }
    }
}

/// How many of the first `n` mods get another file name.
pub open spec fn renamed_count(mods: Seq<ModEntry>, facts: Seq<PakFacts>, n: int) -> nat
    decreases n,
{
    if n <= 0 {
        0
    } else {
        renamed_count(mods, facts, n - 1) + if is_looked_at(
            mods[n - 1],
            facts_at(facts, n - 1),
        ) && has_other_file(mods[n - 1].targets@, facts[n - 1].filename->0@) {
            1nat
        } else {
            0nat
        }
    }
}

fn make_update(m: &ModEntry, f: &PakFacts, file: &String, stated: Option<i64>) -> (r: (
    NativeModUpdate,
    bool,
))
    requires
        f.filename == Some(*file),
    ensures
        updates_native(r.0, *m, *f, stated),
        r.1 == has_other_file(m.targets@, file@),
{
    let (targets, changed) = rename_files(&m.targets, file);
    let primary = earliest_of(stated, f.meta_created);
    let (created_at, modified_at) = resolve_native_times(primary, f.created, f.modified);
    let next_created = if primary.is_some() {
        if created_at.is_some() {
            created_at
        } else {
            m.created_at
        }
    } else if should_clear_native_created(m.created_at, f.created, f.modified, m.added_at) {
        None
    } else {
        m.created_at
    };
    let next_modified = match modified_at {
        Some(t) => {
            let newer = match m.modified_at {
                Some(o) => o < t,
                None => true,
            };
            if newer {
                Some(t)
            } else {
                m.modified_at
            }
        },
        None => m.modified_at,
    };
    (
        NativeModUpdate {
            id: m.id.clone(),
            source: m.source,
            name: m.name.clone(),
            source_label: copy_opt(&m.source_label),
            targets,
            created_at: next_created,
            modified_at: next_modified,
            dependencies: find_needs(f, m.id.as_str()),
        },
        changed,
    )
}

fn collect_updates(
    mods: &Vec<ModEntry>,
    facts: &Vec<PakFacts>,
    modules: &Vec<ModSettingsModule>,
) -> (r: (Vec<NativeModUpdate>, usize))
    ensures
        are_updates(r.0@, mods@, facts@, modules@, mods@.len() as int),
        r.1 == renamed_count(mods@, facts@, mods@.len() as int),
{
    let mut out: Vec<NativeModUpdate> = Vec::new();
    let mut renamed: usize = 0;
    let mut i: usize = 0;
    while i < mods.len()
        invariant
            i <= mods.len(),
            renamed <= i,
            are_updates(out@, mods@, facts@, modules@, i as int),
            renamed == renamed_count(mods@, facts@, i as int),
        decreases mods.len() - i,
    {
        let m = &mods[i];
        if i < facts.len() && m.is_native() && m.has_target_kind(library::TargetKind::Pak) {
            if let Some(file) = &facts[i].filename {
                let stated = find_settings_created(modules, m.id.as_str());
                let (update, changed) = make_update(m, &facts[i], file, stated);
                let ghost before = out@;
                out.push(update);
                assert(out@.drop_last() =~= before);
                if changed {
                    renamed = renamed + 1;
                }
            }
        }
        i = i + 1;
    }
    (out, renamed)
}

// ---------------------------------------------------------------------------
// Mods of the game that are new
// ---------------------------------------------------------------------------

/// Where the last module with an id stands, or -1.
pub open spec fn last_module(modules: Seq<ModSettingsModule>, id: Seq<char>) -> int
    decreases modules.len(),
{
    if modules.len() == 0 {
        -1
    } else if modules.last().info.uuid@ == id {
        modules.len() - 1
    } else {
        last_module(modules.drop_last(), id)
    }
}

fn find_last_module(modules: &Vec<ModSettingsModule>, id: &str) -> (r: Option<usize>)
    ensures
        match r {
            Some(i) => last_module(modules@, id@) == i && i < modules.len(),
            None => last_module(modules@, id@) == -1,
        },
{
    let mut n: usize = modules.len();
    assert(modules@.take(n as int) =~= modules@);
    while n > 0
        invariant
            n <= modules.len(),
            last_module(modules@.take(n as int), id@) == last_module(modules@, id@),
        decreases n,
    {
        assert(modules@.take(n as int).last() == modules@[n - 1]);
        assert(modules@.take(n as int).drop_last() =~= modules@.take(n - 1));
        if same_text(modules[n - 1].info.uuid.as_str(), id) {
            return Some(n - 1);
        }
        n = n - 1;
    }
    None
}

/// The places of the modules that the library lacks and that stand in the first `n`
/// of the order, in that order.
pub open spec fn lacking_in_order(
    modules: Seq<ModSettingsModule>,
    order: Seq<Seq<char>>,
    known: Seq<Seq<char>>,
    n: int,
) -> Seq<int>
    decreases n,
{
    if n <= 0 {
        Seq::empty()
    } else {
        let before = lacking_in_order(modules, order, known, n - 1);
        let id = order[n - 1];
        let at = last_module(modules, id);
        if at >= 0 && !known.contains(id) && !order.take(n - 1).contains(id) {
            before.push(at)
        } else {
            before
        }
    }
}

/// The places of those that stand in no order, among the first `n`.
pub open spec fn lacking_besides(
    modules: Seq<ModSettingsModule>,
    order: Seq<Seq<char>>,
    known: Seq<Seq<char>>,
    n: int,
) -> Seq<int>
    decreases n,
{
    if n <= 0 {
        Seq::empty()
    } else {
        let before = lacking_besides(modules, order, known, n - 1);
        let id = modules[n - 1].info.uuid@;
        if last_module(modules, id) == n - 1 && !known.contains(id) && !order.contains(id) {
            before.push(n - 1)
        } else {
            before
        }
    }
}

/// The modules that the library lacks: first those in the load order, then the
/// others.
pub open spec fn lacking(s: ModSettingsSnapshot, known: Seq<Seq<char>>) -> Seq<int> {
    let order = text::texts(s.order@);
    lacking_in_order(s.modules@, order, known, order.len() as int) + lacking_besides(
        s.modules@,
        order,
        known,
        s.modules@.len() as int,
    )
}

/// The modules of the game's settings that the library lacks.
pub fn missing_modules(snapshot: &ModSettingsSnapshot, mods: &Vec<ModEntry>) -> (out: Vec<usize>)
    ensures
        crate::rank_order::as_ints(out@) == lacking(*snapshot, library::mod_ids(mods@)),
        forall|i: int| 0 <= i < out.len() ==> (#[trigger] out@[i]) < snapshot.modules.len(),
{
    let known = collect_ids(mods.as_slice());
    let modules = &snapshot.modules;
    let order = &snapshot.order;
    let ghost ids = library::mod_ids(mods@);
    let ghost all = text::texts(order@);
    let mut out: Vec<usize> = Vec::new();
    let mut seen: Vec<String> = Vec::new();
    let mut i: usize = 0;
    assert(crate::rank_order::as_ints(out@) =~= lacking_in_order(modules@, all, ids, 0));
    assert(text::texts(seen@) =~= all.take(0));
    while i < order.len()
        invariant
            i <= order.len(),
            all == text::texts(order@),
            ids == text::texts(known@),
            text::texts(seen@) == all.take(i as int),
            crate::rank_order::as_ints(out@) == lacking_in_order(modules@, all, ids, i as int),
            forall|k: int| 0 <= k < out.len() ==> (#[trigger] out@[k]) < modules.len(),
        decreases order.len() - i,
    {
        let id = &order[i];
        assert(all[i as int] == id@);
        if !has_string(seen.as_slice(), id.as_str()) && !has_string(
            known.as_slice(),
            id.as_str(),
        ) {
            if let Some(at) = find_last_module(modules, id.as_str()) {
                proof {
                    crate::rank_order::lemma_as_ints_push(out@, at);
                }
                out.push(at);
            }
        }
        let copy = id.clone();
        proof {
            text::lemma_texts_push(seen@, copy);
            assert(all.take(i + 1) =~= all.take(i as int).push(id@));
        }
        seen.push(copy);
        i = i + 1;
    }
    let ghost head = crate::rank_order::as_ints(out@);
    let mut k: usize = 0;
    assert(head + lacking_besides(modules@, all, ids, 0) =~= head);
    while k < modules.len()
        invariant
            k <= modules.len(),
            all == text::texts(order@),
            ids == text::texts(known@),
            crate::rank_order::as_ints(out@) == head + lacking_besides(
                modules@,
                all,
                ids,
                k as int,
            ),
            forall|q: int| 0 <= q < out.len() ==> (#[trigger] out@[q]) < modules.len(),
        decreases modules.len() - k,
    {
        let id = modules[k].info.uuid.as_str();
        if !has_string(order.as_slice(), id) && !has_string(known.as_slice(), id) {
            if let Some(at) = find_last_module(modules, id) {
                if at == k {
                    proof {
                        crate::rank_order::lemma_as_ints_push(out@, k);
                        let rest = lacking_besides(modules@, all, ids, k as int);
                        assert((head + rest).push(k as int) =~= head + rest.push(k as int));
                    }
                    out.push(k);
                }
            }
        }
        k = k + 1;
    }
    out
}

/// Whether the mod is that of a module of the game's settings.
pub open spec fn is_native_mod(
    m: ModEntry,
    module: ModSettingsModule,
    f: Option<PakFacts>,
    now: i64,
) -> bool {
    let primary = importer::earliest(module.created_at, meta_created(f));
    let times = native_times(primary, found_times(f).0, found_times(f).1);
    &&& m.id == module.info.uuid
    &&& m.name == module.info.name
    &&& m.created_at == times.0
    &&& m.modified_at == times.1
    &&& m.added_at == now
    &&& m.targets@.len() == 1
    &&& m.targets@[0] matches InstallTarget::Pak { file, info } && file@ == file_of(
        f,
        module.info,
    ) && info == module.info
    &&& m.target_overrides@.len() == 0
    &&& m.source_label is None
    &&& m.source == ModSource::Native
    &&& sorting::sorted_set_of(
        text::texts(m.dependencies@),
        native_needs(f, module.info.uuid@),
    )
}

fn make_native_mod(module: &ModSettingsModule, f: Option<&PakFacts>, now: i64) -> (m: ModEntry)
    ensures
        is_native_mod(
            m,
            *module,
            match f {
                Some(x) => Some(*x),
                None => None,
            },
            now,
        ),
{
    let info = &module.info;
    let file = match f {
        Some(x) => match &x.filename {
            Some(n) => n.clone(),
            None => concat2(info.folder.as_str(), ".pak"),
        },
        None => concat2(info.folder.as_str(), ".pak"),
    };
    let (meta, created, modified) = match f {
        Some(x) => (x.meta_created, x.created, x.modified),
        None => (None, None, None),
    };
    let dependencies = match f {
        Some(x) => find_needs(x, info.uuid.as_str()),
        None => {
            let none: Vec<String> = Vec::new();
            proof {
                let keeps = |d: Seq<char>| !text::same_ignoring_case(d, info.uuid@);
                Seq::<Seq<char>>::empty().lemma_filter_len(keeps);
                assert(text::texts(none@) =~= Seq::<Seq<char>>::empty());
                assert(native_needs(None, info.uuid@) =~= Seq::<Seq<char>>::empty());
            }
            none
        },
    };
    let primary = earliest_of(module.created_at, meta);
    let (created_at, modified_at) = resolve_native_times(primary, created, modified);
    let mut targets: Vec<InstallTarget> = Vec::new();
    targets.push(InstallTarget::Pak { file, info: info.clone() });
    ModEntry {
        id: info.uuid.clone(),
        name: info.name.clone(),
        created_at,
        modified_at,
        added_at: now,
        targets,
        target_overrides: Vec::new(),
        source_label: None,
        source: ModSource::Native,
        dependencies,
    }
}

/// What the library takes over from the game.
#[derive(Debug)]
pub struct NativeSyncDelta {
    pub updates: Vec<NativeModUpdate>,
    pub added: Vec<ModEntry>,
    pub updated_native_files: usize,
    /// How many mods that are neither the game's own nor managed became the game's own:
    /// there are none of that kind.
    pub adopted_native: usize,
    pub modsettings_exists: bool,
    pub modsettings_hash: Option<String>,
    /// The ids of the mods that the game has switched on.
    pub enabled_set: Vec<String>,
    pub order: Vec<String>,
}

/// One stage, step by step.
pub open spec fn steps(stage: NativeSyncStage, n: nat) -> Seq<NativeSyncProgress> {
    Seq::new(
        n,
        |i: int|
            NativeSyncProgress { stage, current: (i + 1) as usize, total: n as usize },
    )
}

/// How many of the first `n` mods are the game's own.
pub open spec fn native_count(mods: Seq<ModEntry>, n: int) -> nat
    decreases n,
{
    if n <= 0 {
        0
    } else {
        native_count(mods, n - 1) + if mods[n - 1].source == ModSource::Native {
            1nat
        } else {
            0nat
        }
    }
}

/// How many ids the first `n` modules have that no later module has.
pub open spec fn module_count(modules: Seq<ModSettingsModule>, n: int) -> nat
    decreases n,
{
    if n <= 0 {
        0
    } else {
        module_count(modules, n - 1) + if last_module(modules, modules[n - 1].info.uuid@) == n - 1 {
            1nat
        } else {
            0nat
        }
    }
}

/// What is told meanwhile: each mod of the game, each other mod, and each module of the
/// settings.
pub open spec fn sync_steps(
    mods: Seq<ModEntry>,
    modules: Seq<ModSettingsModule>,
) -> Seq<NativeSyncProgress> {
    let own = native_count(mods, mods.len() as int);
    steps(NativeSyncStage::NativeFiles, own) + steps(
        NativeSyncStage::AdoptNative,
        (mods.len() - own) as nat,
    ) + steps(NativeSyncStage::AddMissing, module_count(modules, modules.len() as int))
}

fn tell_steps(progress: &mut Vec<NativeSyncProgress>, stage: NativeSyncStage, n: usize)
    ensures
        final(progress)@ == old(progress)@ + steps(stage, n as nat),
{
    let ghost before = progress@;
    let mut i: usize = 0;
    assert(progress@ =~= before + steps(stage, n as nat).take(0));
    while i < n
        invariant
            i <= n,
            progress@ == before + steps(stage, n as nat).take(i as int),
        decreases n - i,
    {
        progress.push(NativeSyncProgress { stage, current: i + 1, total: n });
        i = i + 1;
        assert(progress@ =~= before + steps(stage, n as nat).take(i as int));
    }
    assert(steps(stage, n as nat).take(n as int) =~= steps(stage, n as nat));
}

fn count_native(mods: &Vec<ModEntry>) -> (r: usize)
    ensures
        r == native_count(mods@, mods@.len() as int),
        r <= mods.len(),
{
    let mut r: usize = 0;
    let mut i: usize = 0;
    while i < mods.len()
        invariant
            r <= i <= mods.len(),
            r == native_count(mods@, i as int),
        decreases mods.len() - i,
    {
        if mods[i].is_native() {
            r = r + 1;
        }
        i = i + 1;
    }
    r
}

fn count_modules(modules: &Vec<ModSettingsModule>) -> (r: usize)
    ensures
        r == module_count(modules@, modules@.len() as int),
{
    let mut r: usize = 0;
    let mut i: usize = 0;
    while i < modules.len()
        invariant
            r <= i <= modules.len(),
            r == module_count(modules@, i as int),
        decreases modules.len() - i,
    {
        if let Some(at) = find_last_module(modules, modules[i].info.uuid.as_str()) {
            if at == i {
                r = r + 1;
            }
        }
        i = i + 1;
    }
    r
}

/// Works out what the library takes over from the game: what is found of the
/// packages of its mods, and of the packages of the mods that it lacks. What is gone
/// through is told step by step.
pub fn sync_native_mods_delta(
    library: &Library,
    snapshot: &ModSettingsSnapshot,
    modsettings_exists: bool,
    facts: &Vec<PakFacts>,
    missing_facts: &Vec<PakFacts>,
    now: i64,
    progress: &mut Vec<NativeSyncProgress>,
) -> (r: NativeSyncDelta)
    ensures
        final(progress)@ == old(progress)@ + sync_steps(library.mods@, snapshot.modules@),
        are_updates(
            r.updates@,
            library.mods@,
            facts@,
            snapshot.modules@,
            library.mods@.len() as int,
        ),
        r.updated_native_files == renamed_count(library.mods@, facts@, library.mods@.len() as int),
        r.adopted_native == 0,
        r.modsettings_exists == modsettings_exists,
        text::text_opt(r.modsettings_hash) == if modsettings_exists {
            Some(fingerprint::blake3_digest(fingerprint::settings_bytes(*snapshot)))
        } else {
            None
        },
        text::texts(r.enabled_set@) == if snapshot.order@.len() == 0 {
            fingerprint::module_ids(snapshot.modules@)
        } else {
            text::texts(snapshot.order@)
        },
        r.order@ == snapshot.order@,
        ({
            let places = lacking(*snapshot, library::mod_ids(library.mods@));
            &&& r.added@.len() == places.len()
            &&& forall|i: int|
                0 <= i < places.len() ==> is_native_mod(
                    #[trigger] r.added@[i],
                    snapshot.modules@[places[i]],
                    facts_at(missing_facts@, i),
                    now,
                )
        }),
{
    let own = count_native(&library.mods);
    tell_steps(progress, NativeSyncStage::NativeFiles, own);
    tell_steps(progress, NativeSyncStage::AdoptNative, library.mods.len() - own);
    tell_steps(progress, NativeSyncStage::AddMissing, count_modules(&snapshot.modules));
    assert(progress@ =~= old(progress)@ + sync_steps(library.mods@, snapshot.modules@));
    let hash = if modsettings_exists {
        Some(modsettings_fingerprint(snapshot))
    } else {
        None
    };
    let enabled_set = if snapshot.order.is_empty() {
        collect_module_ids(&snapshot.modules)
    } else {
        copy_strings(snapshot.order.as_slice())
    };
    let (updates, renamed) = collect_updates(&library.mods, facts, &snapshot.modules);
    let places = missing_modules(snapshot, &library.mods);
    let ghost wanted = lacking(*snapshot, library::mod_ids(library.mods@));
    let mut added: Vec<ModEntry> = Vec::new();
    let mut i: usize = 0;
    while i < places.len()
        invariant
            i <= places.len(),
            i == added.len(),
            wanted == crate::rank_order::as_ints(places@),
            forall|k: int|
                0 <= k < places.len() ==> (#[trigger] places@[k]) < snapshot.modules.len(),
            forall|k: int|
                0 <= k < i ==> is_native_mod(
                    #[trigger] added@[k],
                    snapshot.modules@[wanted[k]],
                    facts_at(missing_facts@, k),
                    now,
                ),
        decreases places.len() - i,
    {
        let at = places[i];
        assert(wanted[i as int] == at);
        let f = if i < missing_facts.len() {
            Some(&missing_facts[i])
        } else {
            None
        };
        added.push(make_native_mod(&snapshot.modules[at], f, now));
        i = i + 1;
    }
    assert(wanted.len() == places.len());
    NativeSyncDelta {
        updates,
        added,
        updated_native_files: renamed,
        adopted_native: 0,
        modsettings_exists,
        modsettings_hash: hash,
        enabled_set,
        order: copy_strings(snapshot.order.as_slice()),
    }
}

} // verus!
