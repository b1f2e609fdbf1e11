//! What holds of what is done to the mods, one by one: choosing where they go, deciding who
//! wins a file, taking them away, and reading what is found of them.
use crate::actions::ActionView;
use crate::calendar;
use crate::choice_laws;
use crate::conflicts;
use crate::conflicts::ConflictDesk;
use crate::deploy;
use crate::deploy::{ConflictEntry, SigilLinkMode};
use crate::duplicates;
use crate::import_desk;
use crate::import_desk::{ImportDesk, ImportStep};
use crate::importer;
use crate::info_json;
use crate::info_json::FoundFile;
use crate::library;
use crate::library::{InstallTarget, Library, ModEntry, TargetKind};
use crate::lists;
use crate::loose;
use crate::metadata::ModMeta;
use crate::mod_changes;
use crate::mod_choices;
use crate::mod_removal;
use crate::mod_scan;
use crate::mod_scan::SaidTogether;
use crate::mod_table;
use crate::paths;
use crate::text;
use crate::versions::Likeness;
use vstd::prelude::*;

verus! {

// ---------------------------------------------------------------------------
// Where a mod goes
// ---------------------------------------------------------------------------

proof fn lemma_kinds(targets: Seq<InstallTarget>, n: int, kind: TargetKind)
    requires
        0 <= n <= targets.len(),
    ensures
        mod_table::kinds(targets, n).no_duplicates(),
        mod_table::kinds(targets, n).contains(kind) <==> exists|i: int|
            0 <= i < n && (#[trigger] targets[i]).kind_of() == kind,
    decreases n,
{
    if n > 0 {
        lemma_kinds(targets, n - 1, kind);
        let before = mod_table::kinds(targets, n - 1);
        let here = targets[n - 1].kind_of();
        lists::lemma_push_contains(before, here, kind);
        if before.contains(kind) {
            let i = choose|i: int| 0 <= i < n - 1 && (#[trigger] targets[i]).kind_of() == kind;
            assert(0 <= i < n && targets[i].kind_of() == kind);
        }
        if here == kind {
            assert(targets[n - 1].kind_of() == kind);
        }
    }
}

/// Where one kind of a mod's targets was chosen, that kind is on and every other kind that
/// the mod has is off; where none was chosen, all kinds are on. No other mod changes.
pub proof fn law_chosen_kind_is_on(
    after: Library,
    before: Library,
    at: int,
    selection: Option<TargetKind>,
    kind: TargetKind,
    other: int,
)
    requires
        mod_choices::target_set(after, before, at, selection),
        0 <= at < before.mods@.len(),
        library::targets_have(before.mods@[at].targets@, kind),
    ensures
        library::switched_on(after.mods@[at].target_overrides@, kind) <==> (selection is None
            || selection == Some(kind)),
        after.mods@[at].targets == before.mods@[at].targets,
        after.mods@[at].id == before.mods@[at].id,
        0 <= other < before.mods@.len() && other != at ==> after.mods@[other]
            == before.mods@[other],
{
    let m = before.mods@[at];
    let n = m.targets@.len() as int;
    let all = mod_table::kinds(m.targets@, n);
    lemma_kinds(m.targets@, n, kind);
    let t = choose|t: int| 0 <= t < m.targets@.len() && (#[trigger] m.targets@[t]).kind_of() == kind;
    assert(all.contains(kind));
    let k = choose|k: int| 0 <= k < all.len() && all[k] == kind;
    if let Some(wish) = selection {
        let switches = after.mods@[at].target_overrides@;
        assert(switches == mod_changes::only_kind(all, wish));
        assert(library::is_first_switch(switches, kind, k)) by {
            assert forall|j: int| 0 <= j < k implies (#[trigger] switches[j]).kind != kind by {
                assert(all[j] != all[k]);
            }
        }
        assert forall|i: int| #[trigger] library::is_first_switch(switches, kind, i) implies
            switches[i].enabled == (kind == wish) by {}
    }
}

// ---------------------------------------------------------------------------
// Who wins a file
// ---------------------------------------------------------------------------

/// A winner that was set is the one that the file goes to in the next deployment, and the
/// one that is shown; the mod that wins by itself needs no choice. Neither the load order
/// nor another profile nor another conflict changes. No file is to have two choices to
/// begin with.
pub proof fn law_set_winner_wins(
    after: Library,
    before: Library,
    desk_after: ConflictDesk,
    desk: ConflictDesk,
    at: int,
    id: Seq<char>,
    other: int,
)
    requires
        0 <= at < desk.conflicts@.len(),
        mod_changes::active_place(before) >= 0,
        conflicts::choices_set(after, before, desk.conflicts@[at], id),
        conflicts::winner_set(desk_after, desk, at, id),
        ({
            let c = desk.conflicts@[at];
            let old_choices = before.profiles@[mod_changes::active_place(
                before,
            )].file_overrides@;
            &&& forall|i: int|
                0 <= i < old_choices.len() && choice_laws::is_about(
                    #[trigger] old_choices[i],
                    c.target,
                    c.relative_path@,
                ) ==> old_choices[i].relative_path@ == c.relative_path@
            &&& forall|i: int, j: int|
                0 <= i < j < old_choices.len() && choice_laws::is_about(
                    #[trigger] old_choices[i],
                    c.target,
                    c.relative_path@,
                ) ==> !choice_laws::is_about(
                    #[trigger] old_choices[j],
                    c.target,
                    c.relative_path@,
                )
        }),
    ensures
        ({
            let p = mod_changes::active_place(before);
            let c = desk.conflicts@[at];
            let d = desk_after.conflicts@[at];
            &&& loose::override_for(
                after.profiles@[p].file_overrides@,
                c.target,
                c.relative_path@,
            ) == if id == c.default_winner_id@ {
                None
            } else {
                Some(id)
            }
            &&& after.profiles@[p].order@ == before.profiles@[p].order@
            &&& 0 <= other < before.profiles@.len() && other != p ==> after.profiles@[other]
                == before.profiles@[other]
            &&& d.winner_id@ == id
            &&& d.overridden <==> id != c.default_winner_id@
            &&& d.default_winner_id == c.default_winner_id
            &&& 0 <= other < desk.conflicts@.len() && other != at ==> desk_after.conflicts@[other]
                == desk.conflicts@[other]
        }),
{
    let p = mod_changes::active_place(before);
    let c = desk.conflicts@[at];
    choice_laws::law_choice_reaches_its_file(
        before.profiles@[p].file_overrides@,
        after.profiles@[p].file_overrides@,
        c.target,
        c.relative_path@,
        id,
        c.default_winner_id@,
        c.target,
        c.relative_path@,
    );
}

/// The name that is shown of a winner is that of the candidate with its id.
pub proof fn law_winner_has_its_name(after: ConflictEntry, before: ConflictEntry, id: Seq<char>, k: int)
    requires
        conflicts::with_winner(after, before, id),
        0 <= k < before.candidates@.len(),
        before.candidates@[k].mod_id@ == id,
        forall|j: int| 0 <= j < before.candidates@.len() && j != k ==> (
        #[trigger] before.candidates@[j]).mod_id@ != id,
    ensures
        after.winner_id@ == id,
        after.winner_name@ == before.candidates@[k].mod_name@,
        after.candidates == before.candidates,
{
    choice_laws::lemma_candidate(before.candidates@, id, k);
}

// ---------------------------------------------------------------------------
// Taking mods away
// ---------------------------------------------------------------------------

/// Taking a mod out takes out that mod and no other, of the library and of each profile.
pub proof fn law_others_are_not_removed(
    after: Library,
    before: Library,
    id: Seq<char>,
    other: Seq<char>,
    p: int,
)
    requires
        mod_changes::mod_removed(after, before, id),
        other != id,
        0 <= p < before.profiles@.len(),
    ensures
        mod_changes::has_mod(after.mods@, other) <==> mod_changes::has_mod(before.mods@, other),
        library::order_ids(after.profiles@[p].order@).contains(other) <==> library::order_ids(
            before.profiles@[p].order@,
        ).contains(other),
        after.profiles@[p].name@ == before.profiles@[p].name@,
{
    let keeps = mod_changes::other_mods(id);
    let entries = mod_changes::other_entries(id);
    let a = after.mods@;
    let b = before.mods@;
    if mod_changes::has_mod(a, other) {
        let i = choose|i: int| 0 <= i < a.len() && (#[trigger] a[i]).id@ == other;
        lists::lemma_filter_contains(b, keeps, a[i]);
        assert(a.contains(a[i]));
        let j = choose|j: int| 0 <= j < b.len() && b[j] == a[i];
        assert(b[j].id@ == other);
    }
    if mod_changes::has_mod(b, other) {
        let j = choose|j: int| 0 <= j < b.len() && (#[trigger] b[j]).id@ == other;
        lists::lemma_filter_contains(b, keeps, b[j]);
        assert(b.contains(b[j]));
        let i = choose|i: int| 0 <= i < a.len() && a[i] == b[j];
        assert(a[i].id@ == other);
    }
    assert(mod_changes::without_mod(after.profiles@[p], before.profiles@[p], id));
    let x = after.profiles@[p].order@;
    let y = before.profiles@[p].order@;
    let xs = library::order_ids(x);
    let ys = library::order_ids(y);
    if xs.contains(other) {
        let i = choose|i: int| 0 <= i < xs.len() && xs[i] == other;
        lists::lemma_filter_contains(y, entries, x[i]);
        assert(x.contains(x[i]));
        let j = choose|j: int| 0 <= j < y.len() && y[j] == x[i];
        assert(ys[j] == other);
    }
    if ys.contains(other) {
        let j = choose|j: int| 0 <= j < ys.len() && ys[j] == other;
        lists::lemma_filter_contains(y, entries, y[j]);
        assert(y.contains(y[j]));
        let i = choose|i: int| 0 <= i < x.len() && x[i] == y[j];
        assert(xs[i] == other);
    }
}

/// Where a mod was deleted, it is gone from the library and from every profile, and those
/// that needed it are off in every profile; nothing else is switched.
pub proof fn law_deleted_leaves_nothing_behind(
    after: Library,
    mid: Library,
    before: Library,
    id: Seq<char>,
    native_files: bool,
    ids: Seq<Seq<char>>,
    status: Seq<char>,
    says: Seq<ActionView>,
    p: int,
    i: int,
)
    requires
        mod_removal::deleted(after, mid, before, id, native_files, ids, status, says),
        0 <= p < before.profiles@.len(),
        0 <= i < after.profiles@[p].order@.len(),
    ensures
        !mod_changes::has_mod(after.mods@, id),
        after.profiles@[p].order@[i].id@ != id,
        ids.contains(after.profiles@[p].order@[i].id@) ==> !after.profiles@[p].order@[i].enabled,
        !ids.contains(after.profiles@[p].order@[i].id@) ==> before.profiles@[p].order@.contains(
            after.profiles@[p].order@[i],
        ),
{
    let bare = Library {
        metadata_cache_key: before.metadata_cache_key,
        metadata_cache_version: before.metadata_cache_version,
        ..mid
    };
    mod_changes::law_removed_is_gone(bare, before, id, p, i);
    assert(mod_changes::without_mod(bare.profiles@[p], before.profiles@[p], id));
    assert(after.profiles@[p].order@ == mod_changes::switched(
        mid.profiles@[p].order@,
        ids,
        false,
    ));
    let e = mid.profiles@[p].order@[i];
    lists::lemma_filter_contains(
        before.profiles@[p].order@,
        mod_changes::other_entries(id),
        e,
    );
    assert(mid.profiles@[p].order@.contains(e));
}

// ---------------------------------------------------------------------------
// What comes in
// ---------------------------------------------------------------------------

/// Of mods that are brought in none is lost: those that clash with a mod that is there are
/// asked about, each once, and the others are taken.
pub proof fn law_brought_in_are_taken_or_asked(
    after: ImportDesk,
    before: ImportDesk,
    mods: Seq<ModEntry>,
    new: Seq<ModEntry>,
    label: Seq<char>,
    step: ImportStep,
    says: Seq<ActionView>,
)
    requires
        import_desk::staged(after, before, mods, new, label, step, says),
    ensures
        step is Decide ==> after.approved@.len() + after.duplicates@.len()
            == before.approved@.len() + before.duplicates@.len() + new.len(),
        step is Decide ==> after.duplicates@.len() > before.duplicates@.len(),
        step !is Decide ==> (step matches ImportStep::Apply { mods: list, .. } && list@.len()
            == new.len()) && after == before,
{
    duplicates::law_staged_all(mods, new, new.len() as int);
}

/// Questions come in turn: the first is asked, the others wait; once none is left, all that
/// was approved is taken in, and nothing is left over.
pub proof fn law_questions_in_turn(
    after: ImportDesk,
    before: ImportDesk,
    step: ImportStep,
    says: Seq<ActionView>,
)
    requires
        import_desk::next_decision(after, before, step, says),
    ensures
        before.duplicates@.len() > 0 ==> {
            &&& after.pending_duplicate matches Some(d) && seq![d] + after.duplicates@
                == before.duplicates@
            &&& after.approved@ == before.approved@
        },
        before.duplicates@.len() == 0 && before.approved@.len() > 0 ==> (step matches ImportStep::Apply {
            mods,
            ..
        } && mods@ == before.approved@),
        before.duplicates@.len() == 0 ==> after.approved@.len() == 0 && after.duplicates@.len()
            == 0,
{
    if before.duplicates@.len() > 0 {
        assert(seq![before.duplicates@[0]] + after.duplicates@ =~= before.duplicates@);
    }
}

/// What is read of several packages together: what one of them needs, all need; the tags
/// add up; and the first time of making counts.
pub proof fn law_packages_add_up(said: SaidTogether, metas: Seq<Option<ModMeta>>, s: String)
    requires
        said.sums_up(metas),
    ensures
        said.dependencies@.contains(s) <==> exists|i: int|
            0 <= i < metas.len() && (#[trigger] metas[i] matches Some(m)
                && m.dependencies@.contains(s)),
        said.tags@.contains(s) <==> exists|i: int|
            0 <= i < metas.len() && (#[trigger] metas[i] matches Some(m) && m.tags@.contains(s)),
        said.created_at matches Some(t) ==> exists|i: int|
            0 <= i < metas.len() && (#[trigger] metas[i] matches Some(m) && m.created_at == Some(
                t,
            )),
        forall|i: int|
            0 <= i < metas.len() ==> (#[trigger] metas[i] matches Some(m) ==> (m.created_at matches Some(
                x,
            ) ==> (said.created_at matches Some(t) && t <= x))),
{
    lemma_metas(metas, metas.len() as int, s);
}

proof fn lemma_metas(metas: Seq<Option<ModMeta>>, n: int, s: String)
    requires
        0 <= n <= metas.len(),
    ensures
        mod_scan::needs_in(metas, n).contains(s) <==> exists|i: int|
            0 <= i < n && (#[trigger] metas[i] matches Some(m) && m.dependencies@.contains(s)),
        mod_scan::tags_in(metas, n).contains(s) <==> exists|i: int|
            0 <= i < n && (#[trigger] metas[i] matches Some(m) && m.tags@.contains(s)),
        mod_scan::first_made(metas, n) matches Some(t) ==> exists|i: int|
            0 <= i < n && (#[trigger] metas[i] matches Some(m) && m.created_at == Some(t)),
        forall|i: int|
            0 <= i < n ==> (#[trigger] metas[i] matches Some(m) ==> (m.created_at matches Some(x)
                ==> (mod_scan::first_made(metas, n) matches Some(t) && t <= x))),
    decreases n,
{
    if n > 0 {
        lemma_metas(metas, n - 1, s);
        let needs = mod_scan::needs_in(metas, n - 1);
        let tags = mod_scan::tags_in(metas, n - 1);
        if let Some(m) = metas[n - 1] {
            lemma_sum(needs, m.dependencies@, s);
            lemma_sum(tags, m.tags@, s);
        } else {
            assert(needs + Seq::<String>::empty() =~= needs);
            assert(tags + Seq::<String>::empty() =~= tags);
        }
        if needs.contains(s) {
            let i = choose|i: int|
                0 <= i < n - 1 && (#[trigger] metas[i] matches Some(m) && m.dependencies@.contains(
                    s,
                ));
            assert(0 <= i < n && (metas[i] matches Some(m) && m.dependencies@.contains(s)));
        }
        if tags.contains(s) {
            let i = choose|i: int|
                0 <= i < n - 1 && (#[trigger] metas[i] matches Some(m) && m.tags@.contains(s));
            assert(0 <= i < n && (metas[i] matches Some(m) && m.tags@.contains(s)));
        }
        if let Some(t) = mod_scan::first_made(metas, n) {
            if mod_scan::first_made(metas, n - 1) == Some(t) {
                let i = choose|i: int|
                    0 <= i < n - 1 && (#[trigger] metas[i] matches Some(m) && m.created_at == Some(
                        t,
                    ));
                assert(0 <= i < n && (metas[i] matches Some(m) && m.created_at == Some(t)));
            } else {
                assert(metas[n - 1] matches Some(m) && m.created_at == Some(t));
            }
        }
    }
}

proof fn lemma_sum<T>(a: Seq<T>, b: Seq<T>, x: T)
    ensures
        (a + b).contains(x) <==> a.contains(x) || b.contains(x),
{
    let s = a + b;
    if a.contains(x) {
        let i = choose|i: int| 0 <= i < a.len() && a[i] == x;
        assert(s[i] == x);
    }
    if b.contains(x) {
        let i = choose|i: int| 0 <= i < b.len() && b[i] == x;
        assert(s[a.len() + i] == x);
    }
    if s.contains(x) {
        let i = choose|i: int| 0 <= i < s.len() && s[i] == x;
        if i < a.len() {
            assert(a[i] == x);
        } else {
            assert(b[i - a.len()] == x);
        }
    }
}

// ---------------------------------------------------------------------------
// Files that describe a mod
// ---------------------------------------------------------------------------

/// Whether a file is called by a name, whatever the case.
pub open spec fn is_named(f: FoundFile, name: Seq<char>) -> bool {
    paths::base_name(f.path@) matches Some(n) && text::unicode_lowercase(n) == name
}

/// The file of information that is read is an `info.json` where there is one, else a
/// `mod.json`, else a `modinfo.json`, and of those with one name one that lies least deep.
pub proof fn law_information_by_name(files: Seq<FoundFile>, r: Option<usize>, i: int)
    requires
        info_json::is_best(files, |f: FoundFile| info_json::info_rank(f), r),
        0 <= i < files.len(),
    ensures
        is_named(files[i], "info.json"@) || is_named(files[i], "mod.json"@) || is_named(
            files[i],
            "modinfo.json"@,
        ) ==> r is Some,
        r matches Some(k) ==> {
            let best = files[k as int];
            &&& k < files.len()
            &&& is_named(best, "info.json"@) || is_named(best, "mod.json"@) || is_named(
                best,
                "modinfo.json"@,
            )
            &&& is_named(files[i], "info.json"@) ==> is_named(best, "info.json"@) && best.depth
                <= files[i].depth
            &&& is_named(files[i], "mod.json"@) ==> is_named(best, "info.json"@) || (is_named(
                best,
                "mod.json"@,
            ) && best.depth <= files[i].depth)
            &&& is_named(files[i], "modinfo.json"@) && is_named(best, "modinfo.json"@)
                ==> best.depth <= files[i].depth
        },
{
    reveal_strlit("info.json");
    reveal_strlit("mod.json");
    reveal_strlit("modinfo.json");
    assert("info.json"@.len() == 9 && "mod.json"@.len() == 8 && "modinfo.json"@.len() == 12);
    let rank = |f: FoundFile| info_json::info_rank(f);
    assert(rank(files[i]) == info_json::info_rank(files[i]));
    if let Some(k) = r {
        assert(rank(files[k as int]) == info_json::info_rank(files[k as int]));
    }
}

/// The module description that is read is a `meta.lsx`, one below a `Mods` directory where
/// there is one, and of those one that lies least deep.
pub proof fn law_description_by_place(files: Seq<FoundFile>, r: Option<usize>, i: int)
    requires
        info_json::is_best(files, |f: FoundFile| info_json::meta_rank(f), r),
        0 <= i < files.len(),
        paths::base_name(files[i].path@) matches Some(n) && text::same_ignoring_case(
            n,
            "meta.lsx"@,
        ),
    ensures
        r matches Some(k) && {
            let best = files[k as int];
            &&& k < files.len()
            &&& paths::base_name(best.path@) matches Some(n) && text::same_ignoring_case(
                n,
                "meta.lsx"@,
            )
            &&& paths::has_part(files[i].path@, "Mods"@) ==> paths::has_part(best.path@, "Mods"@)
            &&& paths::has_part(files[i].path@, "Mods"@) == paths::has_part(best.path@, "Mods"@)
                ==> best.depth <= files[i].depth
        },
{
    let rank = |f: FoundFile| info_json::meta_rank(f);
    assert(rank(files[i]) == info_json::meta_rank(files[i]));
    if let Some(k) = r {
        assert(rank(files[k as int]) == info_json::meta_rank(files[k as int]));
    }
}

// ---------------------------------------------------------------------------
// Links, labels, days and likeness
// ---------------------------------------------------------------------------

/// Files are hard-linked just where both sides lie on one file system, whichever side is
/// asked first.
pub proof fn law_hard_links_within_one(a: u64, b: u64)
    ensures
        deploy::mode_between(a, b) == SigilLinkMode::Hardlink <==> a == b,
        deploy::mode_between(a, b) == SigilLinkMode::Symlink <==> a != b,
        deploy::mode_between(a, b) == deploy::mode_between(b, a),
        deploy::modes_name(true, true) == "mixed"@,
        deploy::modes_name(true, false) == "hardlink"@,
        deploy::modes_name(false, true) == "symlink"@,
        deploy::modes_name(false, false) == "none"@,
{
}

/// A label that is safe to name a file by is as long as the label, holds letters, digits,
/// dashes and underscores alone, and keeps those of the label; making it safe again changes
/// nothing.
pub proof fn law_safe_labels(s: Seq<char>, i: int)
    ensures
        importer::safe_label(s).len() == s.len(),
        importer::safe_label(importer::safe_label(s)) == importer::safe_label(s),
        0 <= i < s.len() ==> {
            let c = importer::safe_label(s)[i];
            &&& 'a' <= c <= 'z' || 'A' <= c <= 'Z' || '0' <= c <= '9' || c == '-' || c == '_'
            &&& ('a' <= s[i] <= 'z' || 'A' <= s[i] <= 'Z' || '0' <= s[i] <= '9' || s[i] == '-')
                ==> c == s[i]
        },
{
    assert(importer::safe_label(importer::safe_label(s)) =~= importer::safe_label(s));
}

/// The days are numbered without a gap: each day has the number after that of the day
/// before, over the ends of months and years.
pub proof fn law_days_follow(y: int, m: int, d: int)
    requires
        1 <= m <= 12,
        1 <= d <= calendar::days_in_month(y, m),
        0 <= y,
    ensures
        d < calendar::days_in_month(y, m) ==> calendar::day_number(y, m, d + 1)
            == calendar::day_number(y, m, d) + 1,
        d == calendar::days_in_month(y, m) && m < 12 ==> calendar::day_number(y, m + 1, 1)
            == calendar::day_number(y, m, d) + 1,
        d == 31 && m == 12 ==> calendar::day_number(y + 1, 1, 1) == calendar::day_number(y, m, d)
            + 1,
        calendar::day_number(1970, 1, 1) == 0,
{
    reveal_with_fuel(calendar::days_before_month, 13);
}

/// The likeness in hundredths is a true rounding: it is off by no more than half a
/// hundredth, is a hundred for texts that need no change and nothing for texts that have
/// nothing in common.
pub proof fn law_likeness_is_rounded(l: Likeness)
    requires
        l.changes <= l.length,
        l.length > 0,
    ensures
        2 * l.percent() * l.length <= 200 * (l.length - l.changes) + l.length,
        2 * l.percent() * l.length >= 200 * (l.length - l.changes) - l.length,
        l.changes == 0 ==> l.percent() == 100,
        l.changes == l.length ==> l.percent() == 0,
{
    let n = l.length as int;
    let parts = 100 * (l.length - l.changes);
    let whole = parts / n;
    let rest = parts % n;
    assert(parts == whole * n + rest && 0 <= rest < n) by (nonlinear_arith)
        requires
            n > 0,
            whole == parts / n,
            rest == parts % n,
    ;
    assert(2 * (whole + 1) * n == 2 * (whole * n) + 2 * n) by (nonlinear_arith);
    assert(2 * whole * n == 2 * (whole * n)) by (nonlinear_arith);
    if l.changes == 0 {
        assert(whole == 100 && rest == 0) by (nonlinear_arith)
            requires
                parts == 100 * n,
                parts == whole * n + rest,
                0 <= rest < n,
        ;
    }
    if l.changes == l.length {
        assert(whole == 0 && rest == 0) by (nonlinear_arith)
            requires
                parts == 0,
                parts == whole * n + rest,
                0 <= rest < n,
        ;
    }
}

/// Texts are close enough to mean the same where at least eighty-eight hundredths of them
/// agree; one pair is at least as alike as another where as great a share of it agrees.
pub proof fn law_close_by_share(a: Likeness, b: Likeness)
    requires
        a.changes <= a.length,
        b.changes <= b.length,
    ensures
        a.is_close() <==> 100 * (a.length - a.changes) >= 88 * a.length,
        a.at_least(b) <==> (a.length - a.changes) * b.length >= (b.length - b.changes) * a.length,
{
    let x = a.changes as int;
    let y = a.length as int;
    let u = b.changes as int;
    let v = b.length as int;
    assert((y - x) * v == y * v - x * v) by (nonlinear_arith);
    assert((v - u) * y == y * v - u * y) by (nonlinear_arith);
}

} // verus!
