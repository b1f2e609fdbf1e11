//! What holds of what is known of a mod once its files were read.
use crate::library::{ModEntry, ModSource};
use crate::lists;
use crate::metadata::JsonModInfo;
use crate::mod_readings;
use crate::mod_readings::{MetadataUpdate, ModReading, PakReading};
use crate::text;
use vstd::prelude::*;

verus! {

// ---------------------------------------------------------------------------
// Needs
// ---------------------------------------------------------------------------

/// Whether one of the packages of a mod states a need.
pub open spec fn pak_states(r: ModReading, d: Seq<char>) -> bool {
    exists|k: int|
        0 <= k < r.paks@.len() && ((#[trigger] r.paks@[k]).meta matches Some(m) && text::texts(
            m.dependencies@,
        ).contains(d))
}

/// Whether the metadata beside the packages states a need.
pub open spec fn meta_states(r: ModReading, d: Seq<char>) -> bool {
    r.meta matches Some(m) && text::texts(m.dependencies@).contains(d)
}

/// Whether one of the descriptions of a mod states a need.
pub open spec fn info_states(r: ModReading, d: Seq<char>) -> bool {
    exists|k: int|
        0 <= k < r.infos@.len() && text::texts((#[trigger] r.infos@[k]).dependencies@).contains(d)
}

/// A mod is taken to need all that its packages, its metadata and its descriptions state,
/// but for itself, and nothing else.
pub proof fn law_needs_what_is_stated(u: MetadataUpdate, m: ModEntry, r: ModReading, d: Seq<char>)
    requires
        mod_readings::updates_mod(u, m, r),
    ensures
        text::texts(u.dependencies@).contains(d) <==> !text::same_ignoring_case(d, m.id@) && (
        pak_states(r, d) || meta_states(r, d) || info_states(r, d)),
{
    let keeps = |x: Seq<char>| !text::same_ignoring_case(x, m.id@);
    let all = mod_readings::said_needs(r);
    let a = mod_readings::pak_needs(r.paks@, r.paks@.len() as int);
    let b = mod_readings::meta_needs(r.meta);
    let c = mod_readings::info_needs(r.infos@, r.infos@.len() as int);
    lists::lemma_filter_contains(all, keeps, d);
    lemma_sum(a + b, c, d);
    lemma_sum(a, b, d);
    lemma_pak_needs(r.paks@, r.paks@.len() as int, d);
    lemma_info_needs(r.infos@, r.infos@.len() as int, d);
}

/// Where the packages of a mod state needs, the metadata beside them is not asked.
pub proof fn law_packages_before_metadata(r: ModReading, d: Seq<char>)
    ensures
        ({
            let told = exists|x: Seq<char>| pak_states(r, x);
            mod_readings::needs_of(r).contains(d) <==> info_states(r, d) || pak_states(r, d) || (
            !told && meta_states(r, d))
        }),
{
    let n = r.paks@.len() as int;
    let a = mod_readings::pak_needs(r.paks@, n);
    let b = mod_readings::meta_needs(r.meta);
    let c = mod_readings::info_needs(r.infos@, r.infos@.len() as int);
    lemma_sum(a, c, d);
    lemma_sum(b, c, d);
    lemma_pak_needs(r.paks@, n, d);
    lemma_info_needs(r.infos@, r.infos@.len() as int, d);
    if a.len() > 0 {
        lemma_pak_needs(r.paks@, n, a[0]);
        assert(a.contains(a[0]));
        assert(pak_states(r, a[0]));
    } else {
        assert forall|x: Seq<char>| !pak_states(r, x) by {
            lemma_pak_needs(r.paks@, n, x);
        }
    }
}

proof fn lemma_sum<T>(a: Seq<T>, b: Seq<T>, x: T)
    ensures
        (a + b).contains(x) <==> a.contains(x) || b.contains(x),
{
    let s = a + b;
    if a.contains(x) {
        let i = choose|i: int| 0 <= i < a.len() && a[i] == x;
        assert(s[i] == x);
    }
    if b.contains(x) {
        let i = choose|i: int| 0 <= i < b.len() && b[i] == x;
        assert(s[a.len() + i] == x);
    }
    if s.contains(x) {
        let i = choose|i: int| 0 <= i < s.len() && s[i] == x;
        if i < a.len() {
            assert(a[i] == x);
        } else {
            assert(b[i - a.len()] == x);
        }
    }
}

proof fn lemma_pak_needs(paks: Seq<PakReading>, n: int, d: Seq<char>)
    requires
        0 <= n <= paks.len(),
    ensures
        mod_readings::pak_needs(paks, n).contains(d) <==> exists|k: int|
            0 <= k < n && ((#[trigger] paks[k]).meta matches Some(m) && text::texts(
                m.dependencies@,
            ).contains(d)),
    decreases n,
{
    if n > 0 {
        lemma_pak_needs(paks, n - 1, d);
        lemma_sum(
            mod_readings::pak_needs(paks, n - 1),
            mod_readings::meta_needs(paks[n - 1].meta),
            d,
        );
        if mod_readings::pak_needs(paks, n - 1).contains(d) {
            let k = choose|k: int|
                0 <= k < n - 1 && ((#[trigger] paks[k]).meta matches Some(m) && text::texts(
                    m.dependencies@,
                ).contains(d));
            assert(0 <= k < n && (paks[k].meta matches Some(m) && text::texts(
                m.dependencies@,
            ).contains(d)));
        }
        assert(paks[n - 1] == paks[n - 1]);
    }
}

proof fn lemma_info_needs(infos: Seq<JsonModInfo>, n: int, d: Seq<char>)
    requires
        0 <= n <= infos.len(),
    ensures
        mod_readings::info_needs(infos, n).contains(d) <==> exists|k: int|
            0 <= k < n && text::texts((#[trigger] infos[k]).dependencies@).contains(d),
    decreases n,
{
    if n > 0 {
        lemma_info_needs(infos, n - 1, d);
        lemma_sum(
            mod_readings::info_needs(infos, n - 1),
            text::texts(infos[n - 1].dependencies@),
            d,
        );
        if mod_readings::info_needs(infos, n - 1).contains(d) {
            let k = choose|k: int|
                0 <= k < n - 1 && text::texts((#[trigger] infos[k]).dependencies@).contains(d);
            assert(0 <= k < n && text::texts(infos[k].dependencies@).contains(d));
        }
        assert(infos[n - 1] == infos[n - 1]);
    }
}

// ---------------------------------------------------------------------------
// Times
// ---------------------------------------------------------------------------

/// Whether the metadata of a package, or that beside the packages, states a time of making.
pub open spec fn meta_dates(r: ModReading, t: i64) -> bool {
    ||| (r.meta matches Some(m) && m.created_at == Some(t))
    ||| exists|k: int|
        0 <= k < r.paks@.len() && ((#[trigger] r.paks@[k]).meta matches Some(m) && m.created_at
            == Some(t))
}

/// Whether one of the descriptions states a time of making.
pub open spec fn info_dates(r: ModReading, t: i64) -> bool {
    exists|k: int| 0 <= k < r.infos@.len() && (#[trigger] r.infos@[k]).created_at == Some(t)
}

proof fn lemma_pak_made(paks: Seq<PakReading>, n: int)
    requires
        0 <= n <= paks.len(),
    ensures
        mod_readings::pak_made(paks, n) matches Some(t) ==> exists|k: int|
            0 <= k < n && ((#[trigger] paks[k]).meta matches Some(m) && m.created_at == Some(t)),
        forall|k: int|
            0 <= k < n ==> ((#[trigger] paks[k]).meta matches Some(m) ==> (m.created_at matches Some(
                x,
            ) ==> (mod_readings::pak_made(paks, n) matches Some(t) && t <= x))),
    decreases n,
{
    if n > 0 {
        lemma_pak_made(paks, n - 1);
        if let Some(t) = mod_readings::pak_made(paks, n) {
            if mod_readings::pak_made(paks, n - 1) == Some(t) {
                let k = choose|k: int|
                    0 <= k < n - 1 && ((#[trigger] paks[k]).meta matches Some(m) && m.created_at
                        == Some(t));
                assert(0 <= k < n && (paks[k].meta matches Some(m) && m.created_at == Some(t)));
            } else {
                assert(paks[n - 1].meta matches Some(m) && m.created_at == Some(t));
            }
        }
    }
}

proof fn lemma_info_made(infos: Seq<JsonModInfo>, n: int)
    requires
        0 <= n <= infos.len(),
    ensures
        mod_readings::info_made(infos, n) matches Some(t) ==> exists|k: int|
            0 <= k < n && (#[trigger] infos[k]).created_at == Some(t),
        forall|k: int|
            0 <= k < n ==> ((#[trigger] infos[k]).created_at matches Some(x) ==> (
            mod_readings::info_made(infos, n) matches Some(t) && t <= x)),
    decreases n,
{
    if n > 0 {
        lemma_info_made(infos, n - 1);
        if let Some(t) = mod_readings::info_made(infos, n) {
            if mod_readings::info_made(infos, n - 1) == Some(t) {
                let k = choose|k: int| 0 <= k < n - 1 && (#[trigger] infos[k]).created_at == Some(t);
                assert(0 <= k < n && infos[k].created_at == Some(t));
            } else {
                assert(infos[n - 1].created_at == Some(t));
            }
        }
    }
}

proof fn lemma_pak_changed(paks: Seq<PakReading>, n: int)
    requires
        0 <= n <= paks.len(),
    ensures
        forall|k: int|
            0 <= k < n ==> ((#[trigger] paks[k]).modified matches Some(x) ==> (
            mod_readings::pak_times(paks, n).1 matches Some(t) && t >= x)),
    decreases n,
{
    if n > 0 {
        lemma_pak_changed(paks, n - 1);
    }
}

proof fn lemma_meta_made(r: ModReading)
    ensures
        mod_readings::meta_made(r) matches Some(t) ==> meta_dates(r, t),
        forall|x: i64| #[trigger]
            meta_dates(r, x) ==> (mod_readings::meta_made(r) matches Some(t) && t <= x),
{
    lemma_pak_made(r.paks@, r.paks@.len() as int);
    assert forall|x: i64| #[trigger] meta_dates(r, x) implies (mod_readings::meta_made(
        r,
    ) matches Some(t) && t <= x) by {
        if !(r.meta matches Some(m) && m.created_at == Some(x)) {
            let k = choose|k: int|
                0 <= k < r.paks@.len() && ((#[trigger] r.paks@[k]).meta matches Some(m)
                    && m.created_at == Some(x));
            assert(r.paks@[k].meta is Some);
        }
    }
}

/// When a mod was made, once its files were read. The earliest time that the descriptions
/// of a mod of the manager state counts; where they state none, and for a mod of the game
/// in any case, the earliest that metadata states. Where nothing states a time, a mod of
/// the manager keeps one that is not the time it was added at.
pub proof fn law_made_when_stated(u: MetadataUpdate, m: ModEntry, r: ModReading, t: i64)
    requires
        mod_readings::updates_mod(u, m, r),
    ensures
        m.source != ModSource::Native && info_dates(r, t) ==> (u.created_at matches Some(c) && c
            <= t && info_dates(r, c)),
        meta_dates(r, t) && (m.source == ModSource::Native || forall|x: i64| !info_dates(r, x))
            ==> (u.created_at matches Some(c) && c <= t && meta_dates(r, c)),
        m.source != ModSource::Native && (forall|x: i64| !info_dates(r, x) && !meta_dates(r, x))
            && m.created_at == Some(t) && t != m.added_at ==> u.created_at == Some(t),
{
    lemma_info_made(r.infos@, r.infos@.len() as int);
    lemma_meta_made(r);
    let infos = mod_readings::info_made(r.infos@, r.infos@.len() as int);
    if info_dates(r, t) {
        let k = choose|k: int|
            0 <= k < r.infos@.len() && (#[trigger] r.infos@[k]).created_at == Some(t);
        assert(infos is Some);
    }
    if let Some(c) = infos {
        let k = choose|k: int|
            0 <= k < r.infos@.len() && (#[trigger] r.infos@[k]).created_at == Some(c);
        assert(info_dates(r, c));
    }
    if let Some(c) = mod_readings::meta_made(r) {
        assert(meta_dates(r, c));
    }
}

/// The time of the last change is that of the last change of a file, or later; it is never
/// put earlier than it was known, but where it was only guessed, for a mod of the game, to
/// be the time of making.
pub proof fn law_changed_when_files_were(u: MetadataUpdate, m: ModEntry, r: ModReading, k: int, x: i64)
    requires
        mod_readings::updates_mod(u, m, r),
    ensures
        0 <= k < r.paks@.len() && r.paks@[k].modified == Some(x) ==> (u.modified_at matches Some(y)
            && y >= x),
        r.modified == Some(x) ==> (u.modified_at matches Some(y) && y >= x),
        m.modified_at == Some(x) && !(m.source == ModSource::Native && m.created_at == Some(x))
            ==> (u.modified_at matches Some(y) && y >= x),
{
    lemma_pak_changed(r.paks@, r.paks@.len() as int);
}

} // verus!
