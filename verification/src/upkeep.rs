//! How what is known of the mods is kept up to date: after the start, when it is to be
//! read anew, and after an import.
use crate::actions;
use crate::actions::{also, also_all, log, no_actions, say, toast, Action, ActionView};
use crate::actions::{LogLevel, ToastLevel};
use crate::config::AppConfig;
use crate::dep_keys;
use crate::dep_missing;
use crate::dep_missing::cached_mod_dependencies;
use crate::fingerprint;
use crate::fingerprint::{metadata_cache_key, METADATA_CACHE_VERSION};
use crate::library;
use crate::library::{Library, ModEntry};
use crate::metadata_desk;
use crate::metadata_desk::{metadata_cache_valid, MetadataDesk};
use crate::mod_requests;
use crate::mod_requests::run_startup_dependency_check;
use crate::native_apply;
use crate::native_apply::normalize_mod_sources;
use crate::rank_state::SmartRankRefreshMode;
use crate::text;
use crate::update_desk::{UpdateDesk, UpdateStatus};
use vstd::prelude::*;

verus! {

// ---------------------------------------------------------------------------
// What is stored of the mods
// ---------------------------------------------------------------------------

/// What is stored of what a mod needs: that of the last one with its id.
pub open spec fn stored_needs(mods: Seq<ModEntry>, i: int) -> Seq<Seq<char>> {
    dep_keys::foreign(
        text::texts(mods[library::last_index(mods, mods[i].id@)].dependencies@),
    )
}

pub open spec fn are_stored(deps: Seq<Vec<String>>, mods: Seq<ModEntry>) -> bool {
    &&& deps.len() == mods.len()
    &&& forall|i: int|
        0 <= i < deps.len() ==> #[trigger] dep_missing::needs_at(deps, i) == stored_needs(mods, i)
}

/// Whether other mods are held back than before.
pub open spec fn blocks_change(before: Library, deps: Seq<Vec<String>>) -> bool {
    !dep_missing::same_members(
        text::texts(before.dependency_blocks@),
        dep_missing::blocked_ids(before.mods@, deps, before.mods@.len() as int),
    )
}

/// Whether the mods that lack something are held back, and no others.
pub open spec fn blocks_settled(after: Library, before: Library, deps: Seq<Vec<String>>) -> bool {
    &&& after == (Library { dependency_blocks: after.dependency_blocks, ..before })
    &&& if blocks_change(before, deps) {
        text::texts(after.dependency_blocks@) == dep_missing::blocked_ids(
            before.mods@,
            deps,
            before.mods@.len() as int,
        )
    } else {
        after == before
    }
}

/// Whether mods that lack something were switched off where that is still to be done.
pub open spec fn looked_once(
    after: Library,
    before: Library,
    deps: Seq<Vec<String>>,
    due: bool,
    notice: bool,
    says: Seq<ActionView>,
) -> bool {
    if due {
        mod_requests::startup_looked(after, before, deps, notice, says)
    } else {
        after == before && says.len() == 0
    }
}

pub open spec fn relied_on(
    after: Library,
    mid: Library,
    before: Library,
    deps: Seq<Vec<String>>,
    pending: bool,
    notice: bool,
    checked: Seq<ActionView>,
    says: Seq<ActionView>,
) -> bool {
    &&& are_stored(deps, before.mods@)
    &&& blocks_settled(mid, before, deps)
    &&& looked_once(after, mid, deps, pending, notice, checked)
    &&& says == seq![
        ActionView::Log(LogLevel::Info, "Metadata cache valid; skipping refresh"@),
    ] + mod_requests::block_says(blocks_change(before, deps)) + checked + seq![
        ActionView::WarmRanking,
    ]
}

/// Whether what is stored was relied on, or else the files of the mods are being read.
pub open spec fn refresh_begun(
    desk: MetadataDesk,
    old_desk: MetadataDesk,
    after: Library,
    before: Library,
    pending: bool,
    old_pending: bool,
    notice: bool,
    says: Seq<ActionView>,
) -> bool {
    if metadata_desk::is_valid(before) {
        &&& desk == (MetadataDesk { cache: desk.cache, ready: true, ..old_desk })
        &&& metadata_desk::is_primed(desk.cache@, before.mods@)
        &&& !pending
        &&& exists|mid: Library, deps: Seq<Vec<String>>, checked: Seq<ActionView>| #[trigger]
            relied_on(after, mid, before, deps, old_pending, notice, checked, says)
    } else {
        &&& after == before
        &&& pending == old_pending
        &&& if old_desk.active {
            desk == old_desk && says.len() == 0
        } else {
            &&& is_reading(desk, old_desk, before.mods@.len())
            &&& says == seq![ActionView::ReadMods]
        }
    }
}

/// Whether the files of `total` mods are being read from the beginning.
pub open spec fn is_reading(desk: MetadataDesk, old_desk: MetadataDesk, total: nat) -> bool {
    &&& desk == (MetadataDesk {
        active: true,
        processed: 0,
        total: desk.total,
        processed_ids: desk.processed_ids,
        dirty: false,
        ready: false,
        ..old_desk
    })
    &&& desk.total == total
    &&& desk.processed_ids@.len() == 0
}

/// What the mods need, by a cache that was filled from what is stored of them.
fn collect_stored_needs(desk: &MetadataDesk, library: &Library) -> (deps: Vec<Vec<String>>)
    requires
        metadata_desk::is_primed(desk.cache@, library.mods@),
    ensures
        are_stored(deps@, library.mods@),
{
    let nothing: Vec<String> = Vec::new();
    let mut deps: Vec<Vec<String>> = Vec::new();
    let mut i: usize = 0;
    while i < library.mods.len()
        invariant
            i <= library.mods.len(),
            metadata_desk::is_primed(desk.cache@, library.mods@),
            deps.len() == i,
            forall|k: int|
                0 <= k < i ==> #[trigger] dep_missing::needs_at(deps@, k) == stored_needs(
                    library.mods@,
                    k,
                ),
        decreases library.mods.len() - i,
    {
        let ghost before = deps@;
        let ghost id = library.mods@[i as int].id@;
        proof {
            library::lemma_last_index(library.mods@, id);
            assert(library::mod_ids(library.mods@)[i as int] == id);
            assert(desk.cache@.contains_key(id));
        }
        deps.push(
            cached_mod_dependencies(
                &library.mods[i],
                &desk.cache,
                library.metadata_cache_version,
                &nothing,
            ),
        );
        proof {
            assert forall|k: int| 0 <= k < i + 1 implies #[trigger] dep_missing::needs_at(deps@, k)
                == stored_needs(library.mods@, k) by {
                if k < i {
                    assert(dep_missing::needs_at(before, k) == dep_missing::needs_at(deps@, k));
                }
            }
        }
        i = i + 1;
    }
    deps
}

/// Relies on what is stored of the mods where that still holds, and reads their files
/// otherwise. `pending` says that mods which lack something are still to be switched off.
pub fn maybe_start_metadata_refresh(
    desk: &mut MetadataDesk,
    library: &mut Library,
    pending: &mut bool,
    config: &AppConfig,
) -> (out: Vec<Action>)
    ensures
        refresh_begun(
            *final(desk),
            *old(desk),
            *final(library),
            *old(library),
            *final(pending),
            *old(pending),
            config.show_startup_dependency_notice,
            actions::action_views(out@),
        ),
{
    let mut out = no_actions();
    if !metadata_cache_valid(library) {
        if desk.start_metadata_refresh(library.mods.len()) {
            also(&mut out, Action::ReadMods);
            assert(actions::action_views(out@) =~= seq![ActionView::ReadMods]);
        }
        return out;
    }
    let ghost start = *library;
    log(&mut out, LogLevel::Info, "Metadata cache valid; skipping refresh");
    desk.prime_dependency_cache_from_library(library);
    let deps = collect_stored_needs(desk, library);
    let changed = library.refresh_dependency_blocks(&deps, true);
    let ghost mid = *library;
    if changed {
        also(&mut out, Action::SaveLibrary);
    }
    let ghost first = actions::action_views(out@);
    let more = run_startup_dependency_check(library, pending, true, &deps, config);
    let ghost checked = actions::action_views(more@);
    also_all(&mut out, more);
    also(&mut out, Action::WarmRanking);
    proof {
        let says = actions::action_views(out@);
        assert(first =~= seq![
            ActionView::Log(LogLevel::Info, "Metadata cache valid; skipping refresh"@),
        ] + mod_requests::block_says(changed));
        assert(says =~= first + checked + seq![ActionView::WarmRanking]);
        assert(relied_on(
            *library,
            mid,
            start,
            deps@,
            *old(pending),
            config.show_startup_dependency_notice,
            checked,
            says,
        ));
    }
    out
}

// ---------------------------------------------------------------------------
// After the start
// ---------------------------------------------------------------------------

/// Whether what follows the start was done: the mods that the manager keeps files of are
/// its own, and what is known of the mods is settled on top of that.
pub open spec fn started_over(
    desk: MetadataDesk,
    old_desk: MetadataDesk,
    after: Library,
    mid: Library,
    before: Library,
    rooted: Seq<Seq<char>>,
    pending: bool,
    old_pending: bool,
    notice: bool,
    begun: Seq<ActionView>,
    says: Seq<ActionView>,
) -> bool {
    &&& mid == (Library { mods: mid.mods, ..before })
    &&& mid.mods@ == native_apply::sources_kept(before.mods@, rooted)
    &&& refresh_begun(desk, old_desk, after, mid, pending, old_pending, notice, begun)
    &&& says == mod_requests::block_says(mid.mods@ != before.mods@) + begun + seq![
        ActionView::ScanConflicts("startup"@),
    ]
}

pub open spec fn started(
    desk: MetadataDesk,
    old_desk: MetadataDesk,
    after: Library,
    before: Library,
    rooted: Seq<Seq<char>>,
    pending: bool,
    old_pending: bool,
    notice: bool,
    says: Seq<ActionView>,
) -> bool {
    exists|mid: Library, begun: Seq<ActionView>| #[trigger]
        started_over(
            desk,
            old_desk,
            after,
            mid,
            before,
            rooted,
            pending,
            old_pending,
            notice,
            begun,
            says,
        )
}

/// What follows once the game's mods were taken over at the start. The first result says
/// whether to look for a newer version.
pub fn run_post_sync_tasks(
    desk: &mut MetadataDesk,
    library: &mut Library,
    pending: &mut bool,
    update: &mut UpdateDesk,
    rooted: &Vec<String>,
    config: &AppConfig,
    now: u64,
) -> (r: (bool, Vec<Action>))
    ensures
        started(
            *final(desk),
            *old(desk),
            *final(library),
            *old(library),
            text::texts(rooted@),
            *final(pending),
            *old(pending),
            config.show_startup_dependency_notice,
            actions::action_views(r.1@),
        ),
        r.0 == !old(update).active,
        *final(update) == if r.0 {
            UpdateDesk { status: UpdateStatus::Checking, active: true, started_at: Some(now) }
        } else {
            *old(update)
        },
{
    let ghost start = *library;
    let mut out = no_actions();
    let changed = normalize_mod_sources(&mut library.mods, rooted);
    if changed {
        also(&mut out, Action::SaveLibrary);
    }
    let ghost first = actions::action_views(out@);
    let ghost mid = *library;
    let more = maybe_start_metadata_refresh(desk, library, pending, config);
    let ghost begun = actions::action_views(more@);
    also_all(&mut out, more);
    also(&mut out, Action::ScanConflicts("startup".to_owned()));
    let starts = update.start_update_check(now);
    proof {
        let says = actions::action_views(out@);
        assert(first =~= mod_requests::block_says(changed));
        assert(says =~= first + begun + seq![ActionView::ScanConflicts("startup"@)]);
        assert(started_over(
            *desk,
            *old(desk),
            *library,
            mid,
            start,
            text::texts(rooted@),
            *pending,
            *old(pending),
            config.show_startup_dependency_notice,
            begun,
            says,
        ));
    }
    (starts, out)
}

// ---------------------------------------------------------------------------
// Reading anew
// ---------------------------------------------------------------------------

/// What is said once what is known of the mods is forgotten.
pub open spec fn cleared_says(reads: bool) -> Seq<ActionView> {
    seq![ActionView::ForgetRanking, ActionView::SaveLibrary] + (if reads {
        seq![ActionView::ReadMods]
    } else {
        Seq::empty()
    }) + seq![
        ActionView::Status("System caches cleared"@),
        ActionView::Toast(ToastLevel::Info, "System caches cleared"@, 2),
    ]
}

/// Forgets what is known of the mods, and reads their files unless that is going on.
pub fn clear_system_caches(desk: &mut MetadataDesk, library: &mut Library) -> (out: Vec<Action>)
    ensures
        *final(library) == (Library {
            metadata_cache_version: 0,
            metadata_cache_key: None,
            ..*old(library)
        }),
        final(desk).cache@ == Map::<Seq<char>, Vec<String>>::empty(),
        if old(desk).active {
            *final(desk) == (MetadataDesk { cache: final(desk).cache, ready: false, ..*old(desk) })
        } else {
            is_reading(
                *final(desk),
                MetadataDesk { cache: final(desk).cache, ..*old(desk) },
                old(library).mods@.len(),
            )
        },
        actions::action_views(out@) == cleared_says(!old(desk).active),
{
    let mut out = no_actions();
    desk.clear(library);
    also(&mut out, Action::ForgetRanking);
    also(&mut out, Action::SaveLibrary);
    if desk.start_metadata_refresh(library.mods.len()) {
        also(&mut out, Action::ReadMods);
    }
    say(&mut out, "System caches cleared");
    toast(&mut out, ToastLevel::Info, "System caches cleared", 2);
    assert(actions::action_views(out@) =~= cleared_says(!old(desk).active));
    out
}

pub open spec fn read_over(
    after: Library,
    mid: Library,
    before: Library,
    old_desk: MetadataDesk,
    ready: bool,
    reads: Seq<Vec<String>>,
    deps: Seq<Vec<String>>,
    pending: bool,
    notice: bool,
    applied: Seq<ActionView>,
    checked: Seq<ActionView>,
    says: Seq<ActionView>,
) -> bool {
    &&& metadata_desk::completed(
        mid,
        before,
        old_desk.cache@,
        ready,
        old_desk.dirty,
        reads,
        applied,
    )
    &&& deps.len() == before.mods@.len()
    &&& forall|i: int|
        0 <= i < deps.len() ==> #[trigger] dep_missing::needs_at(deps, i)
            == metadata_desk::all_known_needs(
            mid.mods@,
            old_desk.cache@,
            METADATA_CACHE_VERSION,
            reads,
            i,
        )
    &&& looked_once(after, mid, deps, pending && ready, notice, checked)
    &&& says == applied + checked + seq![ActionView::WarmRanking]
}

/// Takes in that the files of all mods were read. `reads` is what they say.
pub fn finish_metadata_refresh(
    desk: &mut MetadataDesk,
    library: &mut Library,
    pending: &mut bool,
    reads: &Vec<Vec<String>>,
    config: &AppConfig,
) -> (out: Vec<Action>)
    requires
        reads@.len() == old(library).mods@.len(),
    ensures
        *final(desk) == (MetadataDesk {
            active: false,
            ready: old(desk).total == 0 || old(desk).cache@.dom().len() > 0,
            dirty: false,
            ..*old(desk)
        }),
        *final(pending) == (*old(pending) && !final(desk).ready),
        exists|
            mid: Library,
            deps: Seq<Vec<String>>,
            applied: Seq<ActionView>,
            checked: Seq<ActionView>,
        | #[trigger]
            read_over(
                *final(library),
                mid,
                *old(library),
                *old(desk),
                final(desk).ready,
                reads@,
                deps,
                *old(pending),
                config.show_startup_dependency_notice,
                applied,
                checked,
                actions::action_views(out@),
            ),
{
    let ghost start = *library;
    let mut out = desk.take_completed(library, reads);
    let ghost applied = actions::action_views(out@);
    let ghost mid = *library;
    let deps = desk.known_needs(library, reads);
    let more = run_startup_dependency_check(library, pending, desk.ready, &deps, config);
    let ghost checked = actions::action_views(more@);
    also_all(&mut out, more);
    also(&mut out, Action::WarmRanking);
    proof {
        let says = actions::action_views(out@);
        assert(says =~= applied + checked + seq![ActionView::WarmRanking]);
        assert(read_over(
            *library,
            mid,
            start,
            *old(desk),
            desk.ready,
            reads@,
            deps@,
            *old(pending),
            config.show_startup_dependency_notice,
            applied,
            checked,
            says,
        ));
    }
    out
}

/// Takes in that the files of the mods could not be read.
pub fn fail_metadata_refresh(desk: &mut MetadataDesk, error: &str) -> (out: Vec<Action>)
    ensures
        *final(desk) == (MetadataDesk { active: false, ..*old(desk) }),
        actions::action_views(out@) == seq![
            ActionView::Log(LogLevel::Warn, "Metadata refresh failed: "@ + error@),
            ActionView::WarmRanking,
        ],
{
    let mut out = desk.take_failed(error);
    also(&mut out, Action::WarmRanking);
    assert(actions::action_views(out@) =~= seq![
        ActionView::Log(LogLevel::Warn, "Metadata refresh failed: "@ + error@),
        ActionView::WarmRanking,
    ]);
    out
}

// ---------------------------------------------------------------------------
// After an import
// ---------------------------------------------------------------------------

/// What is said and done once mods were put into the library. `news` says that one of
/// them needs something else than is stored, and `owned` that one became the manager's.
pub open spec fn import_says(news: bool, owned: bool) -> Seq<ActionView> {
    seq![ActionView::RefreshRanking(SmartRankRefreshMode::Incremental, "import"@)]
        + mod_requests::block_says(news) + seq![ActionView::SaveLibrary]
        + mod_requests::block_says(owned) + seq![ActionView::ScanConflicts("library update"@)]
}

/// Whether what mods need that were just put into the library is stored, and what is
/// stored of all mods holds.
pub open spec fn needs_stored(
    after: Seq<ModEntry>,
    before: Seq<ModEntry>,
    entries: Seq<ModEntry>,
    needs: Seq<Vec<String>>,
) -> bool {
    &&& after.len() == before.len()
    &&& forall|i: int|
        0 <= i < before.len() ==> {
            let m = before[i];
            let e = metadata_desk::last_entry(entries, m.id@, entries.len() as int);
            let own = #[trigger] after[i];
            &&& own == (ModEntry { dependencies: own.dependencies, ..m })
            &&& text::texts(own.dependencies@) == if e >= 0 && native_apply::first_mod(
                before,
                m.id@,
            ) == i {
                text::texts(needs[e]@)
            } else {
                text::texts(m.dependencies@)
            }
        }
}

pub open spec fn import_stored(
    after: Library,
    mid: Seq<ModEntry>,
    before: Library,
    entries: Seq<ModEntry>,
    needs: Seq<Vec<String>>,
    rooted: Seq<Seq<char>>,
    says: Seq<ActionView>,
) -> bool {
    &&& needs_stored(mid, before.mods@, entries, needs)
    &&& after == (Library {
        mods: after.mods,
        metadata_cache_key: after.metadata_cache_key,
        metadata_cache_version: METADATA_CACHE_VERSION,
        ..before
    })
    &&& text::text_opt(after.metadata_cache_key) == Some(fingerprint::mods_key(mid))
    &&& after.mods@ == native_apply::sources_kept(mid, rooted)
    &&& says == import_says(
        metadata_desk::some_news(before.mods@, entries, needs, entries.len() as int),
        after.mods@ != mid,
    )
}

/// What follows once `entries` were put into the library. `needs` is what their files say
/// that they need, and the manager keeps files of the mods in `rooted`.
pub fn settle_import(
    desk: &mut MetadataDesk,
    library: &mut Library,
    entries: &Vec<ModEntry>,
    needs: &Vec<Vec<String>>,
    rooted: &Vec<String>,
) -> (out: Vec<Action>)
    requires
        needs@.len() == entries@.len(),
    ensures
        *final(desk) == (MetadataDesk { cache: final(desk).cache, ..*old(desk) }),
        metadata_desk::cache_updated(
            final(desk).cache@,
            old(desk).cache@,
            entries@,
            needs@,
            entries@.len() as int,
        ),
        exists|mid: Seq<ModEntry>| #[trigger]
            import_stored(
                *final(library),
                mid,
                *old(library),
                entries@,
                needs@,
                text::texts(rooted@),
                actions::action_views(out@),
            ),
{
    let ghost start = *library;
    let mut out = no_actions();
    also(
        &mut out,
        Action::RefreshRanking(SmartRankRefreshMode::Incremental, "import".to_owned()),
    );
    let news = desk.update_dependency_cache_for_entries(library, entries, needs);
    if news {
        also(&mut out, Action::SaveLibrary);
    }
    let ghost mid = library.mods@;
    library.metadata_cache_key = Some(metadata_cache_key(&library.mods));
    library.metadata_cache_version = METADATA_CACHE_VERSION;
    also(&mut out, Action::SaveLibrary);
    let owned = normalize_mod_sources(&mut library.mods, rooted);
    if owned {
        also(&mut out, Action::SaveLibrary);
    }
    also(&mut out, Action::ScanConflicts("library update".to_owned()));
    proof {
        let says = actions::action_views(out@);
        assert(says =~= import_says(news, owned));
        assert(import_stored(
            *library,
            mid,
            start,
            entries@,
            needs@,
            text::texts(rooted@),
            says,
        ));
    }
    out
}

// ---------------------------------------------------------------------------
// Laws
// ---------------------------------------------------------------------------

/// Once the caches were cleared, what is stored of the mods no longer holds: the next
/// look reads their files.
pub proof fn law_cleared_is_read(
    before: Library,
    desk: MetadataDesk,
    old_desk: MetadataDesk,
    after: Library,
    pending: bool,
    old_pending: bool,
    notice: bool,
    says: Seq<ActionView>,
)
    requires
        before.metadata_cache_version == 0,
        !old_desk.active,
        refresh_begun(desk, old_desk, after, before, pending, old_pending, notice, says),
    ensures
        says == seq![ActionView::ReadMods],
        desk.active,
        !desk.ready,
        after == before,
{
}

/// Once what is stored of the mods was relied on, mods that lack something are not
/// switched off again.
pub proof fn law_looks_once(
    desk: MetadataDesk,
    old_desk: MetadataDesk,
    after: Library,
    before: Library,
    pending: bool,
    notice: bool,
    says: Seq<ActionView>,
)
    requires
        metadata_desk::is_valid(before),
        refresh_begun(desk, old_desk, after, before, pending, false, notice, says),
    ensures
        after == (Library { dependency_blocks: after.dependency_blocks, ..before }),
        !pending,
        says.len() <= 3,
{
}

} // verus!
