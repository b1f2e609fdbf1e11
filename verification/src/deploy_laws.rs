//! What a deployment promises: where files come from, where they go, which packages the
//! game is told of.
use crate::bg3::GamePaths;
use crate::deploy;
use crate::deploy::{Listing, SourceView};
use crate::library;
use crate::library::{
    FileOverride, InstallTarget, ModEntry, ModSource, PakInfo, ProfileEntry, TargetKind,
};
use crate::lists;
use crate::loose;
use crate::loose::CandidateView;
use crate::paths;
use crate::sorting;
use vstd::prelude::*;

verus! {

// ---------------------------------------------------------------------------
// Which mods
// ---------------------------------------------------------------------------

/// A mod takes part exactly where the load order has an entry of it, switched on unless
/// `all` are asked for; of several mods with one id it is the last.
pub proof fn law_picked_by_entry(order: Seq<ProfileEntry>, mods: Seq<ModEntry>, all: bool, place: int)
    ensures
        deploy::picks(order, mods, all).contains(place) <==> exists|i: int|
            0 <= i < order.len() && ((#[trigger] order[i]).enabled || all)
                && library::is_last_with_id(mods, order[i].id@, place),
    decreases order.len(),
{
    if order.len() > 0 {
        let front = order.drop_last();
        law_picked_by_entry(front, mods, all, place);
        let last = order.last();
        assert(last == order[order.len() - 1]);
        library::lemma_last_index(mods, last.id@);
        let before = deploy::picks(front, mods, all);
        lists::lemma_push_contains(before, library::last_index(mods, last.id@), place);
        assert(before.contains(place) || !before.contains(place));
        if exists|i: int|
            0 <= i < front.len() && ((#[trigger] front[i]).enabled || all)
                && library::is_last_with_id(mods, front[i].id@, place) {
            let i = choose|i: int|
                0 <= i < front.len() && ((#[trigger] front[i]).enabled || all)
                    && library::is_last_with_id(mods, front[i].id@, place);
            assert(order[i] == front[i]);
        }
        if exists|i: int|
            0 <= i < order.len() && ((#[trigger] order[i]).enabled || all)
                && library::is_last_with_id(mods, order[i].id@, place) {
            let i = choose|i: int|
                0 <= i < order.len() && ((#[trigger] order[i]).enabled || all)
                    && library::is_last_with_id(mods, order[i].id@, place);
            if i < front.len() {
                assert(front[i] == order[i]);
            }
        }
    }
}

/// Mods take part in the order of the load order.
pub proof fn law_picked_in_order(
    order: Seq<ProfileEntry>,
    mods: Seq<ModEntry>,
    all: bool,
    i: int,
    j: int,
)
    requires
        0 <= i < j < order.len(),
        order[i].enabled || all,
        order[j].enabled || all,
        library::mod_ids(mods).contains(order[i].id@),
        library::mod_ids(mods).contains(order[j].id@),
    ensures
        exists|x: int, y: int|
            0 <= x < y < deploy::picks(order, mods, all).len() && library::is_last_with_id(
                mods,
                order[i].id@,
                #[trigger] deploy::picks(order, mods, all)[x],
            ) && library::is_last_with_id(
                mods,
                order[j].id@,
                #[trigger] deploy::picks(order, mods, all)[y],
            ),
    decreases order.len(),
{
    let front = order.drop_last();
    let before = deploy::picks(front, mods, all);
    let now = deploy::picks(order, mods, all);
    library::lemma_last_index(mods, order[i].id@);
    library::lemma_last_index(mods, order[j].id@);
    let pi = library::last_index(mods, order[i].id@);
    let pj = library::last_index(mods, order[j].id@);
    if j < front.len() {
        law_picked_in_order(front, mods, all, i, j);
        assert(front[i] == order[i] && front[j] == order[j]);
        let (x, y) = choose|x: int, y: int|
            0 <= x < y < before.len() && library::is_last_with_id(
                mods,
                order[i].id@,
                #[trigger] before[x],
            ) && library::is_last_with_id(mods, order[j].id@, #[trigger] before[y]);
        assert(now[x] == before[x] && now[y] == before[y]);
    } else {
        law_picked_by_entry(front, mods, all, pi);
        assert(front[i] == order[i]);
        assert(before.contains(pi));
        let x = choose|x: int| 0 <= x < before.len() && before[x] == pi;
        assert(now =~= before.push(pj));
        assert(now[x] == pi);
        assert(now[before.len() as int] == pj);
    }
}

// ---------------------------------------------------------------------------
// Packages
// ---------------------------------------------------------------------------

proof fn lemma_paks_of(m: ModEntry, n: int, info: PakInfo)
    requires
        0 <= n <= m.targets@.len(),
    ensures
        deploy::paks_of(m, n).contains(info) <==> exists|t: int|
            0 <= t < n && ((#[trigger] m.targets@[t]) matches InstallTarget::Pak { file, info: i }
                && i == info) && library::switched_on(m.target_overrides@, TargetKind::Pak),
    decreases n,
{
    if n > 0 {
        lemma_paks_of(m, n - 1, info);
        let before = deploy::paks_of(m, n - 1);
        match m.targets@[n - 1] {
            InstallTarget::Pak { file, info: i } => {
                lists::lemma_push_contains(before, i, info);
            },
            _ => {},
        }
        assert(before.contains(info) || !before.contains(info));
    }
}

/// The game is told of a package exactly where a mod that takes part brings it and
/// packages of the mod are switched on.
pub proof fn law_told_of_packages(mods: Seq<ModEntry>, places: Seq<int>, info: PakInfo)
    requires
        deploy::are_places(places, mods),
    ensures
        deploy::paks(mods, places).contains(info) <==> exists|k: int, t: int|
            0 <= k < places.len() && 0 <= t < mods[places[k]].targets@.len() && ((
            #[trigger] mods[#[trigger] places[k]].targets@[t]) matches InstallTarget::Pak {
                file,
                info: i,
            } && i == info) && library::switched_on(
                mods[places[k]].target_overrides@,
                TargetKind::Pak,
            ),
    decreases places.len(),
{
    if places.len() > 0 {
        let front = places.drop_last();
        assert(deploy::are_places(front, mods)) by {
            assert forall|i: int| 0 <= i < front.len() implies 0 <= #[trigger] front[i]
                < mods.len() by {
                assert(front[i] == places[i]);
            }
        }
        law_told_of_packages(mods, front, info);
        assert(places.last() == places[places.len() - 1]);
        let m = mods[places.last()];
        lemma_paks_of(m, m.targets@.len() as int, info);
        let a = deploy::paks(mods, front);
        let b = deploy::paks_of(m, m.targets@.len() as int);
        lemma_sum_contains(a, b, info);
        if a.contains(info) {
            let (k, t) = choose|k: int, t: int|
                0 <= k < front.len() && 0 <= t < mods[front[k]].targets@.len() && ((
                #[trigger] mods[#[trigger] front[k]].targets@[t]) matches InstallTarget::Pak {
                    file,
                    info: i,
                } && i == info) && library::switched_on(
                    mods[front[k]].target_overrides@,
                    TargetKind::Pak,
                );
            assert(places[k] == front[k]);
            assert(mods[places[k]].targets@[t] == mods[front[k]].targets@[t]);
        }
        if b.contains(info) {
            let t = choose|t: int|
                0 <= t < m.targets@.len() && ((#[trigger] m.targets@[t]) matches InstallTarget::Pak {
                    file,
                    info: i,
                } && i == info);
            assert(mods[places[places.len() - 1]].targets@[t] == m.targets@[t]);
        }
        if exists|k: int, t: int|
            0 <= k < places.len() && 0 <= t < mods[places[k]].targets@.len() && ((
            #[trigger] mods[#[trigger] places[k]].targets@[t]) matches InstallTarget::Pak {
                file,
                info: i,
            } && i == info) && library::switched_on(
                mods[places[k]].target_overrides@,
                TargetKind::Pak,
            ) {
            let (k, t) = choose|k: int, t: int|
                0 <= k < places.len() && 0 <= t < mods[places[k]].targets@.len() && ((
                #[trigger] mods[#[trigger] places[k]].targets@[t]) matches InstallTarget::Pak {
                    file,
                    info: i,
                } && i == info) && library::switched_on(
                    mods[places[k]].target_overrides@,
                    TargetKind::Pak,
                );
            if k < front.len() {
                assert(front[k] == places[k]);
                assert(mods[front[k]].targets@[t] == mods[places[k]].targets@[t]);
            } else {
                assert(m.targets@[t] == mods[places[k]].targets@[t]);
            }
        }
    }
}

proof fn lemma_sum_contains<T>(a: Seq<T>, b: Seq<T>, x: T)
    ensures
        (a + b).contains(x) <==> a.contains(x) || b.contains(x),
{
    if a.contains(x) {
        let i = choose|i: int| 0 <= i < a.len() && a[i] == x;
        assert((a + b)[i] == x);
    }
    if b.contains(x) {
        let i = choose|i: int| 0 <= i < b.len() && b[i] == x;
        assert((a + b)[a.len() + i] == x);
    }
    if (a + b).contains(x) {
        let i = choose|i: int| 0 <= i < (a + b).len() && (a + b)[i] == x;
        if i < a.len() {
            assert(a[i] == x);
        } else {
            assert(b[i - a.len()] == x);
        }
    }
}

/// Whether a link brings a package of a mod into the game: from the place where the
/// manager keeps it, below `mods` and the id of the mod, to a file called by the folder of
/// the package.
pub open spec fn links_package(
    link: (Seq<char>, Seq<char>),
    m: ModEntry,
    t: int,
    cache_root: Seq<char>,
    mods_dir: Seq<char>,
) -> bool {
    &&& 0 <= t < m.targets@.len()
    &&& m.source == ModSource::Managed
    &&& library::switched_on(m.target_overrides@, TargetKind::Pak)
    &&& m.targets@[t] matches InstallTarget::Pak { file, info }
    &&& (m.id@.len() == 0 || m.id@[0] != '/') && (file@.len() == 0 || file@[0] != '/')
        ==> paths::parts(link.0) == paths::parts(cache_root) + seq!["mods"@] + paths::parts(m.id@)
        + paths::parts(file@)
    &&& info.folder@.len() == 0 || info.folder@[0] != '/' ==> paths::parts(link.1)
        == paths::parts(mods_dir) + paths::parts(info.folder@ + ".pak"@)
}

proof fn lemma_mods_dir(cache_root: Seq<char>, id: Seq<char>, file: Seq<char>)
    requires
        id.len() == 0 || id[0] != '/',
        file.len() == 0 || file[0] != '/',
    ensures
        paths::parts(paths::joined(deploy::mod_dir(cache_root, id), file)) == paths::parts(
            cache_root,
        ) + seq!["mods"@] + paths::parts(id) + paths::parts(file),
{
    reveal_strlit("mods");
    reveal_strlit(".");
    let a = paths::joined(cache_root, "mods"@);
    paths::lemma_parts_joined(cache_root, "mods"@);
    paths::lemma_parts_joined(a, id);
    paths::lemma_parts_joined(paths::joined(a, id), file);
    lemma_one_part("mods"@);
}

proof fn lemma_one_part(name: Seq<char>)
    requires
        !name.contains('/'),
        name.len() > 0,
        name != "."@,
    ensures
        paths::parts(name) == seq![name],
{
    paths::lemma_parts_piece(name);
}

proof fn lemma_link(
    m: ModEntry,
    cache_root: Seq<char>,
    mods_dir: Seq<char>,
    n: int,
    i: int,
)
    requires
        m.source == ModSource::Managed,
        0 <= n <= m.targets@.len(),
        0 <= i < deploy::links_of(m, cache_root, mods_dir, n).len(),
    ensures
        exists|t: int| #[trigger]
            links_package(
                deploy::links_of(m, cache_root, mods_dir, n)[i],
                m,
                t,
                cache_root,
                mods_dir,
            ),
    decreases n,
{
    let before = deploy::links_of(m, cache_root, mods_dir, n - 1);
    if i < before.len() {
        lemma_link(m, cache_root, mods_dir, n - 1, i);
        assert(deploy::links_of(m, cache_root, mods_dir, n)[i] == before[i]);
    } else {
        lemma_links_package(m, cache_root, mods_dir, n - 1);
        assert(links_package(
            deploy::links_of(m, cache_root, mods_dir, n)[i],
            m,
            n - 1,
            cache_root,
            mods_dir,
        ));
    }
}

proof fn lemma_links_package(
    m: ModEntry,
    cache_root: Seq<char>,
    mods_dir: Seq<char>,
    t: int,
)
    requires
        0 <= t < m.targets@.len(),
        m.source == ModSource::Managed,
        library::switched_on(m.target_overrides@, TargetKind::Pak),
        m.targets@[t] is Pak,
    ensures
        deploy::links_of(m, cache_root, mods_dir, t + 1).len() > 0,
        links_package(
            deploy::links_of(m, cache_root, mods_dir, t + 1).last(),
            m,
            t,
            cache_root,
            mods_dir,
        ),
{
    match m.targets@[t] {
        InstallTarget::Pak { file, info } => {
            reveal_strlit(".pak");
            if (m.id@.len() == 0 || m.id@[0] != '/') && (file@.len() == 0 || file@[0] != '/') {
                lemma_mods_dir(cache_root, m.id@, file@);
            }
            if info.folder@.len() == 0 || info.folder@[0] != '/' {
                let name = info.folder@ + ".pak"@;
                assert(name[0] == if info.folder@.len() == 0 {
                    '.'
                } else {
                    info.folder@[0]
                });
                paths::lemma_parts_joined(mods_dir, name);
            }
        },
        _ => {},
    }
}

/// Each link brings a package of a mod that takes part and that the manager keeps; none
/// touches a mod of the game's own manager.
pub proof fn law_links_are_packages(
    mods: Seq<ModEntry>,
    places: Seq<int>,
    cache_root: Seq<char>,
    mods_dir: Seq<char>,
    i: int,
)
    requires
        deploy::are_places(places, mods),
        0 <= i < deploy::pak_links(mods, places, cache_root, mods_dir).len(),
    ensures
        exists|k: int, t: int|
            0 <= k < places.len() && #[trigger] links_package(
                deploy::pak_links(mods, places, cache_root, mods_dir)[i],
                mods[places[k]],
                t,
                cache_root,
                mods_dir,
            ),
    decreases places.len(),
{
    let front = places.drop_last();
    let before = deploy::pak_links(mods, front, cache_root, mods_dir);
    let now = deploy::pak_links(mods, places, cache_root, mods_dir);
    let m = mods[places.last()];
    assert(places.last() == places[places.len() - 1]);
    assert(deploy::are_places(front, mods)) by {
        assert forall|k: int| 0 <= k < front.len() implies 0 <= #[trigger] front[k]
            < mods.len() by {
            assert(front[k] == places[k]);
        }
    }
    if i < before.len() {
        law_links_are_packages(mods, front, cache_root, mods_dir, i);
        assert(now[i] == before[i]);
        let (k, t) = choose|k: int, t: int|
            0 <= k < front.len() && #[trigger] links_package(
                before[i],
                mods[front[k]],
                t,
                cache_root,
                mods_dir,
            );
        assert(front[k] == places[k]);
        assert(links_package(now[i], mods[places[k]], t, cache_root, mods_dir));
    } else {
        let own = deploy::links_of(m, cache_root, mods_dir, m.targets@.len() as int);
        lemma_link(m, cache_root, mods_dir, m.targets@.len() as int, i - before.len());
        assert(now[i] == own[i - before.len()]);
        let t = choose|t: int| #[trigger]
            links_package(own[i - before.len()], m, t, cache_root, mods_dir);
        assert(links_package(now[i], mods[places[places.len() - 1]], t, cache_root, mods_dir));
    }
}

proof fn lemma_link_kept(
    m: ModEntry,
    cache_root: Seq<char>,
    mods_dir: Seq<char>,
    a: int,
    b: int,
    i: int,
)
    requires
        0 <= a <= b <= m.targets@.len(),
        0 <= i < deploy::links_of(m, cache_root, mods_dir, a).len(),
    ensures
        i < deploy::links_of(m, cache_root, mods_dir, b).len(),
        deploy::links_of(m, cache_root, mods_dir, b)[i] == deploy::links_of(
            m,
            cache_root,
            mods_dir,
            a,
        )[i],
    decreases b - a,
{
    if a < b {
        lemma_link_kept(m, cache_root, mods_dir, a, b - 1, i);
    }
}

/// Each package of a mod that takes part and that the manager keeps is linked, where
/// packages of the mod are switched on.
pub proof fn law_packages_are_linked(
    mods: Seq<ModEntry>,
    places: Seq<int>,
    cache_root: Seq<char>,
    mods_dir: Seq<char>,
    k: int,
    t: int,
)
    requires
        deploy::are_places(places, mods),
        0 <= k < places.len(),
        mods[places[k]].source == ModSource::Managed,
        library::switched_on(mods[places[k]].target_overrides@, TargetKind::Pak),
        0 <= t < mods[places[k]].targets@.len(),
        mods[places[k]].targets@[t] is Pak,
    ensures
        exists|i: int|
            0 <= i < deploy::pak_links(mods, places, cache_root, mods_dir).len() && links_package(
                #[trigger] deploy::pak_links(mods, places, cache_root, mods_dir)[i],
                mods[places[k]],
                t,
                cache_root,
                mods_dir,
            ),
    decreases places.len(),
{
    let front = places.drop_last();
    let before = deploy::pak_links(mods, front, cache_root, mods_dir);
    let now = deploy::pak_links(mods, places, cache_root, mods_dir);
    assert(places.last() == places[places.len() - 1]);
    if k < front.len() {
        assert(deploy::are_places(front, mods)) by {
            assert forall|j: int| 0 <= j < front.len() implies 0 <= #[trigger] front[j]
                < mods.len() by {
                assert(front[j] == places[j]);
            }
        }
        assert(front[k] == places[k]);
        law_packages_are_linked(mods, front, cache_root, mods_dir, k, t);
        let i = choose|i: int|
            0 <= i < before.len() && links_package(
                #[trigger] before[i],
                mods[front[k]],
                t,
                cache_root,
                mods_dir,
            );
        assert(now[i] == before[i]);
    } else {
        let m = mods[places[k]];
        let n = m.targets@.len() as int;
        lemma_links_package(m, cache_root, mods_dir, t);
        let some = deploy::links_of(m, cache_root, mods_dir, t + 1);
        lemma_link_kept(m, cache_root, mods_dir, t + 1, n, some.len() - 1);
        let own = deploy::links_of(m, cache_root, mods_dir, n);
        assert(now =~= before + own);
        assert(now[before.len() + some.len() - 1] == some.last());
    }
}

// ---------------------------------------------------------------------------
// Loose files
// ---------------------------------------------------------------------------

/// The target of a mod that takes part, which a directory of loose files is of.
pub open spec fn is_source_of(
    s: SourceView,
    mods: Seq<ModEntry>,
    places: Seq<int>,
    cache_root: Seq<char>,
    t: int,
) -> bool {
    let m = mods[s.place];
    &&& 0 <= s.order < places.len()
    &&& s.place == places[s.order]
    &&& 0 <= t < m.targets@.len()
    &&& library::switched_on(m.target_overrides@, s.kind)
    &&& match m.targets@[t] {
        InstallTarget::Pak { .. } => false,
        InstallTarget::Generated { dir } => s.kind == TargetKind::Generated && s.source_root
            == paths::joined(deploy::mod_dir(cache_root, m.id@), dir@),
        InstallTarget::Data { dir } => s.kind == TargetKind::Data && s.source_root
            == paths::joined(deploy::mod_dir(cache_root, m.id@), dir@),
        InstallTarget::Bin { dir } => s.kind == TargetKind::Bin && s.source_root
            == paths::joined(deploy::mod_dir(cache_root, m.id@), dir@),
    }
}

proof fn lemma_sources_of(
    p: GamePaths,
    mods: Seq<ModEntry>,
    places: Seq<int>,
    cache_root: Seq<char>,
    order: int,
    n: int,
    i: int,
)
    requires
        0 <= order < places.len(),
        0 <= n <= mods[places[order]].targets@.len(),
        0 <= i < deploy::sources_of(
            p,
            mods[places[order]],
            cache_root,
            places[order],
            order,
            n,
        ).len(),
    ensures
        ({
            let s = deploy::sources_of(
                p,
                mods[places[order]],
                cache_root,
                places[order],
                order,
                n,
            )[i];
            &&& s.order == order
            &&& s.dest_root == deploy::dest_root_of(p, s.kind)
            &&& exists|t: int| #[trigger] is_source_of(s, mods, places, cache_root, t)
        }),
    decreases n,
{
    let m = mods[places[order]];
    let before = deploy::sources_of(p, m, cache_root, places[order], order, n - 1);
    let now = deploy::sources_of(p, m, cache_root, places[order], order, n);
    if i < before.len() {
        lemma_sources_of(p, mods, places, cache_root, order, n - 1, i);
        assert(now[i] == before[i]);
    } else {
        assert(is_source_of(now[i], mods, places, cache_root, n - 1));
    }
}

proof fn lemma_source(
    p: GamePaths,
    mods: Seq<ModEntry>,
    places: Seq<int>,
    cache_root: Seq<char>,
    i: int,
)
    requires
        0 <= i < deploy::sources(p, mods, places, cache_root).len(),
    ensures
        ({
            let s = deploy::sources(p, mods, places, cache_root)[i];
            &&& s.dest_root == deploy::dest_root_of(p, s.kind)
            &&& exists|t: int| #[trigger] is_source_of(s, mods, places, cache_root, t)
        }),
    decreases places.len(),
{
    let front = places.drop_last();
    let before = deploy::sources(p, mods, front, cache_root);
    let now = deploy::sources(p, mods, places, cache_root);
    if i < before.len() {
        lemma_source(p, mods, front, cache_root, i);
        assert(now[i] == before[i]);
        let t = choose|t: int| #[trigger] is_source_of(before[i], mods, front, cache_root, t);
        assert(front[before[i].order] == places[before[i].order]);
        assert(is_source_of(now[i], mods, places, cache_root, t));
    } else {
        let order = places.len() - 1;
        let m = mods[places[order]];
        assert(places.last() == places[order]);
        lemma_sources_of(
            p,
            mods,
            places,
            cache_root,
            order,
            m.targets@.len() as int,
            i - before.len(),
        );
    }
}

proof fn lemma_candidate(
    sources: Seq<SourceView>,
    mods: Seq<ModEntry>,
    listings: Seq<Listing>,
    n: int,
    i: int,
) -> (j: int)
    requires
        0 <= i < loose::candidates(sources, mods, listings, n).len(),
    ensures
        0 <= j < n,
        loose::candidates(sources, mods, listings, n)[i] == loose::candidate(
            sources[j],
            mods[sources[j].place],
            loose::candidates(sources, mods, listings, n)[i].relative_path,
        ),
    decreases n,
{
    let before = loose::candidates(sources, mods, listings, n - 1);
    if i < before.len() {
        lemma_candidate(sources, mods, listings, n - 1, i)
    } else {
        n - 1
    }
}

/// All loose files of the mods that take part.
pub open spec fn all_candidates(
    p: GamePaths,
    mods: Seq<ModEntry>,
    places: Seq<int>,
    cache_root: Seq<char>,
    listings: Seq<Listing>,
) -> Seq<CandidateView> {
    let s = deploy::sources(p, mods, places, cache_root);
    loose::candidates(s, mods, listings, s.len() as int)
}

/// Whether a path has the names of the directory that files of a kind belong in, and then
/// those of the file: generated files below `Generated` in the directory of the game's data,
/// those for the executable below `bin` in the directory of the game, other data right in
/// the directory of the game's data.
pub open spec fn belongs(p: GamePaths, kind: TargetKind, path: Seq<char>, file: Seq<char>) -> bool {
    match kind {
        TargetKind::Generated => paths::parts(path) == paths::parts(p.data_dir@)
            + seq!["Generated"@] + paths::parts(file),
        TargetKind::Bin => paths::parts(path) == paths::parts(p.game_root@) + seq!["bin"@]
            + paths::parts(file),
        TargetKind::Data => paths::parts(path) == paths::parts(p.data_dir@) + paths::parts(file),
        TargetKind::Pak => false,
    }
}

proof fn lemma_belongs(p: GamePaths, kind: TargetKind, file: Seq<char>)
    requires
        kind != TargetKind::Pak,
        file.len() == 0 || file[0] != '/',
    ensures
        belongs(p, kind, paths::joined(deploy::dest_root_of(p, kind), file), file),
{
    reveal_strlit("Generated");
    reveal_strlit("bin");
    reveal_strlit(".");
    paths::lemma_parts_joined(deploy::dest_root_of(p, kind), file);
    match kind {
        TargetKind::Generated => {
            paths::lemma_parts_joined(p.data_dir@, "Generated"@);
            lemma_one_part("Generated"@);
        },
        TargetKind::Bin => {
            paths::lemma_parts_joined(p.game_root@, "bin"@);
            lemma_one_part("bin"@);
        },
        _ => {},
    }
}

/// Each loose file comes from a directory of a mod that takes part, kept below `mods` and
/// the id of the mod, and goes where files of its kind belong, under the same names.
pub proof fn law_loose_files_land(
    p: GamePaths,
    mods: Seq<ModEntry>,
    places: Seq<int>,
    cache_root: Seq<char>,
    listings: Seq<Listing>,
    i: int,
)
    requires
        0 <= i < all_candidates(p, mods, places, cache_root, listings).len(),
        ({
            let file = all_candidates(p, mods, places, cache_root, listings)[i].relative_path;
            file.len() == 0 || file[0] != '/'
        }),
    ensures
        ({
            let c = all_candidates(p, mods, places, cache_root, listings)[i];
            let m = mods[places[c.order]];
            &&& belongs(p, c.kind, c.dest, c.relative_path)
            &&& 0 <= c.order < places.len()
            &&& c.mod_id == m.id@
            &&& c.mod_name == m.name@
            &&& exists|t: int|
                0 <= t < m.targets@.len() && {
                    let dir = match #[trigger] m.targets@[t] {
                        InstallTarget::Pak { .. } => ""@,
                        InstallTarget::Generated { dir } => dir@,
                        InstallTarget::Data { dir } => dir@,
                        InstallTarget::Bin { dir } => dir@,
                    };
                    &&& !(m.targets@[t] is Pak)
                    &&& (m.targets@[t] is Generated) == (c.kind == TargetKind::Generated)
                    &&& (m.targets@[t] is Data) == (c.kind == TargetKind::Data)
                    &&& (m.targets@[t] is Bin) == (c.kind == TargetKind::Bin)
                    &&& (m.id@.len() == 0 || m.id@[0] != '/') && (dir.len() == 0 || dir[0] != '/')
                        ==> paths::parts(c.source) == paths::parts(cache_root) + seq!["mods"@]
                        + paths::parts(m.id@) + paths::parts(dir) + paths::parts(c.relative_path)
                }
        }),
{
    let s = deploy::sources(p, mods, places, cache_root);
    let c = all_candidates(p, mods, places, cache_root, listings)[i];
    let j = lemma_candidate(s, mods, listings, s.len() as int, i);
    lemma_source(p, mods, places, cache_root, j);
    let t = choose|t: int| #[trigger] is_source_of(s[j], mods, places, cache_root, t);
    let m = mods[places[c.order]];
    lemma_belongs(p, c.kind, c.relative_path);
    let dir = match m.targets@[t] {
        InstallTarget::Pak { .. } => ""@,
        InstallTarget::Generated { dir } => dir@,
        InstallTarget::Data { dir } => dir@,
        InstallTarget::Bin { dir } => dir@,
    };
    if (m.id@.len() == 0 || m.id@[0] != '/') && (dir.len() == 0 || dir[0] != '/') {
        lemma_mods_dir(cache_root, m.id@, dir);
        paths::lemma_parts_joined(s[j].source_root, c.relative_path);
    }
}

/// A generated file and a data file of the same path below their directories never meet.
pub proof fn law_generated_is_apart(
    p: GamePaths,
    mods: Seq<ModEntry>,
    places: Seq<int>,
    cache_root: Seq<char>,
    listings: Seq<Listing>,
    i: int,
    j: int,
)
    requires
        0 <= i < all_candidates(p, mods, places, cache_root, listings).len(),
        0 <= j < all_candidates(p, mods, places, cache_root, listings).len(),
        ({
            let a = all_candidates(p, mods, places, cache_root, listings)[i];
            let b = all_candidates(p, mods, places, cache_root, listings)[j];
            &&& a.kind == TargetKind::Generated
            &&& b.kind == TargetKind::Data
            &&& a.relative_path == b.relative_path
            &&& a.relative_path.len() == 0 || a.relative_path[0] != '/'
        }),
    ensures
        ({
            let a = all_candidates(p, mods, places, cache_root, listings)[i];
            let b = all_candidates(p, mods, places, cache_root, listings)[j];
            loose::key(a) != loose::key(b)
        }),
{
    let a = all_candidates(p, mods, places, cache_root, listings)[i];
    let b = all_candidates(p, mods, places, cache_root, listings)[j];
    law_loose_files_land(p, mods, places, cache_root, listings, i);
    law_loose_files_land(p, mods, places, cache_root, listings, j);
    paths::law_key_tells_apart(a.dest, b.dest);
    if loose::key(a) == loose::key(b) {
        lemma_same_parts(a.dest, b.dest);
        assert(paths::parts(a.dest).len() == paths::parts(b.dest).len() + 1);
    }
}

proof fn lemma_same_parts(a: Seq<char>, b: Seq<char>)
    requires
        paths::components(a) == paths::components(b),
    ensures
        paths::parts(a) == paths::parts(b),
{
    let x = paths::components(a);
    let y = paths::components(b);
    reveal_strlit("/");
    reveal_strlit(".");
    assert("/"@[0] != "."@[0]);
    assert("/"@.contains('/')) by {
        assert("/"@[0] == '/');
    }
    if paths::parts(a).len() == x.len() {
        assert(x =~= paths::parts(a));
        if x.len() > 0 {
            paths::law_parts_are_names(a, 0);
        }
        assert(paths::parts(b).len() == y.len());
        assert(y =~= paths::parts(b));
    } else {
        assert(paths::parts(a) =~= x.skip(1));
        if paths::parts(b).len() == y.len() {
            assert(y =~= paths::parts(b));
            paths::law_parts_are_names(b, 0);
        }
        assert(paths::parts(b) =~= y.skip(1));
    }
}

/// Each planned file is one that a mod brings, and goes where files of its kind belong.
pub proof fn law_planned_files_land(
    p: GamePaths,
    mods: Seq<ModEntry>,
    places: Seq<int>,
    cache_root: Seq<char>,
    listings: Seq<Listing>,
    choices: Seq<FileOverride>,
    i: int,
)
    requires
        0 <= i < loose::plans(
            all_candidates(p, mods, places, cache_root, listings),
            choices,
        ).len(),
        forall|k: int|
            0 <= k < all_candidates(p, mods, places, cache_root, listings).len() ==> {
                let file = (#[trigger] all_candidates(
                    p,
                    mods,
                    places,
                    cache_root,
                    listings,
                )[k]).relative_path;
                file.len() == 0 || file[0] != '/'
            },
    ensures
        ({
            let c = all_candidates(p, mods, places, cache_root, listings);
            let plan = loose::plans(c, choices)[i];
            exists|k: int|
                0 <= k < c.len() && plan.source == (#[trigger] c[k]).source && plan.mod_id
                    == c[k].mod_id && plan.kind == c[k].kind && plan.order == c[k].order
                    && paths::components(plan.dest) == paths::components(c[k].dest) && belongs(
                    p,
                    plan.kind,
                    plan.dest,
                    c[k].relative_path,
                )
        }),
{
    let c = all_candidates(p, mods, places, cache_root, listings);
    let keys = loose::first_keys(c);
    let before = keys.map_values(|k: Seq<char>| loose::plan_for(c, choices, k));
    let list = loose::plans(c, choices);
    let plan = list[i];
    sorting::law_ranking_permutes(before, loose::plan_before());
    assert(list.to_multiset().count(plan) > 0) by {
        broadcast use vstd::seq_lib::group_to_multiset_ensures;

        assert(list.contains(plan));
    }
    assert(before.contains(plan)) by {
        broadcast use vstd::seq_lib::group_to_multiset_ensures;

    }
    let g = choose|g: int| 0 <= g < before.len() && before[g] == plan;
    let key = keys[g];
    assert(keys.contains(key));
    loose::lemma_winner_key(c, choices, key);
    let w = loose::winner(c, loose::places_of(c, key), choices);
    let first = loose::places_of(c, key)[0];
    assert(plan == loose::plan_for(c, choices, key));
    law_loose_files_land(p, mods, places, cache_root, listings, w);
    paths::law_key_tells_apart(c[first].dest, c[w].dest);
    lemma_same_parts(plan.dest, c[w].dest);
}

/// Each file that is found for a loose target of a mod that takes part is brought, unless
/// it is left out.
pub proof fn law_loose_files_are_brought(
    p: GamePaths,
    mods: Seq<ModEntry>,
    places: Seq<int>,
    cache_root: Seq<char>,
    order: int,
    t: int,
)
    requires
        0 <= order < places.len(),
        0 <= t < mods[places[order]].targets@.len(),
        !(mods[places[order]].targets@[t] is Pak),
        library::switched_on(
            mods[places[order]].target_overrides@,
            mods[places[order]].targets@[t].kind_of(),
        ),
    ensures
        exists|i: int|
            0 <= i < deploy::sources(p, mods, places, cache_root).len() && is_source_of(
                #[trigger] deploy::sources(p, mods, places, cache_root)[i],
                mods,
                places,
                cache_root,
                t,
            ) && deploy::sources(p, mods, places, cache_root)[i].order == order,
    decreases places.len(),
{
    let front = places.drop_last();
    let before = deploy::sources(p, mods, front, cache_root);
    let now = deploy::sources(p, mods, places, cache_root);
    assert(places.last() == places[places.len() - 1]);
    if order < front.len() {
        assert(front[order] == places[order]);
        law_loose_files_are_brought(p, mods, front, cache_root, order, t);
        let i = choose|i: int|
            0 <= i < before.len() && is_source_of(
                #[trigger] before[i],
                mods,
                front,
                cache_root,
                t,
            ) && before[i].order == order;
        assert(now[i] == before[i]);
        assert(is_source_of(now[i], mods, places, cache_root, t));
    } else {
        let m = mods[places[order]];
        let n = m.targets@.len() as int;
        let i = lemma_source_kept(p, mods, places, cache_root, order, t, n);
        let own = deploy::sources_of(p, m, cache_root, places[order], order, n);
        assert(now[before.len() + i] == own[i]);
    }
}

proof fn lemma_source_kept(
    p: GamePaths,
    mods: Seq<ModEntry>,
    places: Seq<int>,
    cache_root: Seq<char>,
    order: int,
    t: int,
    n: int,
) -> (i: int)
    requires
        0 <= order < places.len(),
        0 <= t < n <= mods[places[order]].targets@.len(),
        !(mods[places[order]].targets@[t] is Pak),
        library::switched_on(
            mods[places[order]].target_overrides@,
            mods[places[order]].targets@[t].kind_of(),
        ),
    ensures
        ({
            let own = deploy::sources_of(
                p,
                mods[places[order]],
                cache_root,
                places[order],
                order,
                n,
            );
            &&& 0 <= i < own.len()
            &&& own[i].order == order
            &&& is_source_of(own[i], mods, places, cache_root, t)
        }),
    decreases n,
{
    let m = mods[places[order]];
    let before = deploy::sources_of(p, m, cache_root, places[order], order, n - 1);
    if t == n - 1 {
        before.len() as int
    } else {
        lemma_source_kept(p, mods, places, cache_root, order, t, n - 1)
    }
}

} // verus!
