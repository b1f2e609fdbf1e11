//! What holds of where the game is looked for, and of what is counted.
use crate::bg3;
use crate::cli_lists;
use crate::deploy;
use crate::importer;
use crate::importer::{LinkView, TargetFiles};
use crate::labels;
use crate::library::{InstallTarget, ModEntry, ModSource, ProfileEntry};
use crate::lists;
use crate::mod_choices;
use crate::mod_view;
use crate::native_sync;
use crate::paths;
use crate::text;
use vstd::prelude::*;

verus! {

/// Of several places the first that is there is taken.
pub proof fn law_first_place_there(
    candidates: Seq<Seq<char>>,
    existing: Seq<Seq<char>>,
    k: int,
)
    requires
        0 <= k < candidates.len(),
        existing.contains(candidates[k]),
        forall|j: int| 0 <= j < k ==> !existing.contains(#[trigger] candidates[j]),
    ensures
        bg3::first_existing(candidates, existing) == Some(candidates[k]),
    decreases k,
{
    if k > 0 {
        assert(!existing.contains(candidates[0]));
        let rest = candidates.drop_first();
        assert forall|j: int| 0 <= j < k - 1 implies !existing.contains(#[trigger] rest[j]) by {
            assert(rest[j] == candidates[j + 1]);
        }
        law_first_place_there(rest, existing, k - 1);
    }
}

/// No place is taken exactly where none of them is there.
pub proof fn law_no_place_there(candidates: Seq<Seq<char>>, existing: Seq<Seq<char>>)
    ensures
        bg3::first_existing(candidates, existing) is None <==> forall|k: int|
            0 <= k < candidates.len() ==> !existing.contains(#[trigger] candidates[k]),
    decreases candidates.len(),
{
    if candidates.len() > 0 {
        let rest = candidates.drop_first();
        law_no_place_there(rest, existing);
        if forall|k: int| 0 <= k < candidates.len() ==> !existing.contains(#[trigger] candidates[k]) {
            assert forall|k: int| 0 <= k < rest.len() implies !existing.contains(
                #[trigger] rest[k],
            ) by {
                assert(rest[k] == candidates[k + 1]);
            }
        }
        if !existing.contains(candidates[0]) && (forall|k: int|
            0 <= k < rest.len() ==> !existing.contains(#[trigger] rest[k])) {
            assert forall|k: int| 0 <= k < candidates.len() implies !existing.contains(
                #[trigger] candidates[k],
            ) by {
                if k > 0 {
                    assert(candidates[k] == rest[k - 1]);
                }
            }
        }
    }
}

/// The directory that the game itself keeps goes before the one that it keeps under
/// Steam.
pub proof fn law_own_data_first(home: Seq<char>, existing: Seq<Seq<char>>)
    ensures
        ({
            let own = paths::joined(
                paths::joined(home, ".local/share/Larian Studios"@),
                "Baldur's Gate 3"@,
            );
            let found = bg3::first_existing(bg3::larian_places(home), existing);
            &&& existing.contains(own) ==> found == Some(own)
            &&& found is None ==> !existing.contains(own)
        }),
{
}

/// Whether a directory is the `i`th of Steam's own, or named in that one's list.
pub open spec fn is_library(
    bases: Seq<Seq<char>>,
    lists: Seq<Option<Seq<char>>>,
    i: int,
    p: Seq<char>,
) -> bool {
    bases[i] == p || (lists[i] matches Some(raw) && bg3::library_paths(raw).contains(p))
}

/// The libraries of Steam are its own directories and those that their lists name.
pub proof fn law_libraries_are_known(
    bases: Seq<Seq<char>>,
    lists: Seq<Option<Seq<char>>>,
    n: int,
    p: Seq<char>,
)
    requires
        0 <= n <= bases.len(),
        bases.len() == lists.len(),
    ensures
        bg3::all_libraries(bases, lists, n).contains(p) <==> exists|i: int|
            0 <= i < n && is_library(bases, lists, i, p),
    decreases n,
{
    if n > 0 {
        let last = n - 1;
        law_libraries_are_known(bases, lists, last, p);
        let before = bg3::all_libraries(bases, lists, last);
        let all = bg3::all_libraries(bases, lists, n);
        match lists[last] {
            Some(raw) => {
                let named = bg3::library_paths(raw);
                lists::lemma_push_contains(before + named, bases[last], p);
                if before.contains(p) {
                    let k = choose|k: int| 0 <= k < before.len() && before[k] == p;
                    assert((before + named)[k] == p);
                }
                if named.contains(p) {
                    let k = choose|k: int| 0 <= k < named.len() && named[k] == p;
                    assert((before + named)[before.len() + k] == p);
                }
                if (before + named).contains(p) {
                    let k = choose|k: int|
                        0 <= k < (before + named).len() && (before + named)[k] == p;
                    if k < before.len() {
                        assert(before[k] == p);
                    } else {
                        assert(named[k - before.len()] == p);
                    }
                }
            },
            None => {
                lists::lemma_push_contains(before, bases[last], p);
            },
        }
        assert(all.contains(p) <==> before.contains(p) || is_library(bases, lists, last, p));
    }
}

proof fn lemma_nothing_replaced(p: Seq<char>, at: int)
    requires
        0 <= at <= p.len(),
        !p.contains('\\'),
    ensures
        text::replaced_from(p, "\\\\"@, "\\"@, at) == p.skip(at),
    decreases p.len() - at,
{
    reveal_strlit("\\\\");
    if at < p.len() {
        lemma_nothing_replaced(p, at + 1);
        assert(p.contains(p[at]));
        assert(!text::stands_at(p, "\\\\"@, at)) by {
            if text::stands_at(p, "\\\\"@, at) {
                assert(p[at] == "\\\\"@[0]);
            }
        }
        assert(seq![p[at]] + p.skip(at + 1) =~= p.skip(at));
    } else {
        assert(p.skip(at) =~= Seq::<char>::empty());
    }
}

proof fn lemma_split_at_quote(s: Seq<char>)
    ensures
        text::split_any(s + "\""@, "\""@) == text::split_any(s, "\""@).push(Seq::empty()),
{
    reveal_strlit("\"");
    let all = s + "\""@;
    assert(all.drop_last() =~= s);
    assert("\""@[0] == '"');
    assert("\""@.contains(all.last()));
}

/// A line of a list that says `"path"` and then a directory in quotes names it.
pub proof fn law_named_directory_is_read(line: Seq<char>, gap: Seq<char>, p: Seq<char>)
    requires
        text::trimmed(line) == "\"path\""@ + gap + "\""@ + p + "\""@,
        !gap.contains('"'),
        !p.contains('"'),
        !p.contains('\\'),
    ensures
        bg3::line_path(line) == Some(p),
{
    reveal_strlit("\"");
    reveal_strlit("path");
    reveal_strlit("\"path\"");
    let q = "\""@;
    let none = Seq::<char>::empty();
    let t = text::trimmed(line);
    assert(q =~= seq!['"']);
    assert(none + q + "path"@ + q =~= "\"path\""@);
    assert(t =~= none + q + "path"@ + q + gap + q + p + q);
    assert forall|i: int| 0 <= i < "path"@.len() implies !q.contains(#[trigger] "path"@[i]) by {}
    assert forall|i: int| 0 <= i < gap.len() implies !q.contains(#[trigger] gap[i]) by {
        assert(gap.contains(gap[i]));
    }
    assert forall|i: int| 0 <= i < p.len() implies !q.contains(#[trigger] p[i]) by {
        assert(p.contains(p[i]));
    }
    lemma_split_at_quote(none);
    labels::lemma_split_rest(none + q, q, "path"@);
    lemma_split_at_quote(none + q + "path"@);
    labels::lemma_split_rest(none + q + "path"@ + q, q, gap);
    lemma_split_at_quote(none + q + "path"@ + q + gap);
    labels::lemma_split_rest(none + q + "path"@ + q + gap + q, q, p);
    lemma_split_at_quote(none + q + "path"@ + q + gap + q + p);
    let pieces = text::split_any(t, q);
    assert(text::split_any(none, q) =~= seq![none]);
    assert(pieces.len() == 5);
    assert(pieces[3] =~= p);
    assert(t.subrange(0, 6) =~= "\"path\""@);
    assert(text::stands_at(t, "\"path\""@, 0));
    lemma_nothing_replaced(p, 0);
    assert(p.skip(0) =~= p);
}

/// The packages of a mod are looked for by the names of their files.
pub proof fn law_packages_by_their_files(
    targets: Seq<InstallTarget>,
    dir: Seq<char>,
    n: int,
    p: Seq<char>,
)
    requires
        0 <= n <= targets.len(),
    ensures
        cli_lists::planned_paks(targets, dir, n).contains(p) <==> exists|i: int|
            0 <= i < n && (#[trigger] targets[i] matches InstallTarget::Pak { file, info } && p
                == paths::joined(dir, file@)),
    decreases n,
{
    if n > 0 {
        let last = n - 1;
        law_packages_by_their_files(targets, dir, last, p);
        if let InstallTarget::Pak { file, info } = targets[last] {
            lists::lemma_push_contains(
                cli_lists::planned_paks(targets, dir, last),
                paths::joined(dir, file@),
                p,
            );
        }
    }
}

/// The files of a target are listed with their sizes, all but those that are never
/// copied.
pub proof fn law_files_are_linked(t: TargetFiles, n: int, v: LinkView)
    requires
        0 <= n <= t.files@.len(),
    ensures
        importer::links_in(t, n).contains(v) <==> v.kind == t.kind && !deploy::is_ignored(
            paths::joined(t.root@, v.path),
        ) && exists|i: int|
            0 <= i < n && (#[trigger] t.files@[i]).path@ == v.path && t.files@[i].size == v.size,
    decreases n,
{
    if n > 0 {
        let last = n - 1;
        law_files_are_linked(t, last, v);
        let f = t.files@[last];
        let made = LinkView { kind: t.kind, path: f.path@, size: f.size };
        lists::lemma_push_contains(importer::links_in(t, last), made, v);
        if v.kind == t.kind && v.path == f.path@ && v.size == f.size {
            assert(v == made);
        }
    }
}

pub open spec fn are_on() -> spec_fn(ProfileEntry) -> bool {
    |e: ProfileEntry| e.enabled
}

pub open spec fn are_native() -> spec_fn(ModEntry) -> bool {
    |m: ModEntry| m.source == ModSource::Native
}

pub open spec fn have_choices(ids: Seq<Seq<char>>) -> spec_fn(ModEntry) -> bool {
    |m: ModEntry| ids.contains(m.id@) && m.target_overrides@.len() > 0
}

/// As many mods are told to be on as a profile has on.
pub proof fn law_on_are_counted(order: Seq<ProfileEntry>, n: int)
    requires
        0 <= n <= order.len(),
    ensures
        mod_view::on_count(order, n) == order.take(n).filter(are_on()).len(),
    decreases n,
{
    reveal(Seq::filter);
    if n > 0 {
        law_on_are_counted(order, n - 1);
        assert(order.take(n).drop_last() =~= order.take(n - 1));
    }
}

/// As many mods are told to be the game's own to manage as there are.
pub proof fn law_native_are_counted(mods: Seq<ModEntry>, n: int)
    requires
        0 <= n <= mods.len(),
    ensures
        native_sync::native_count(mods, n) == mods.take(n).filter(are_native()).len(),
    decreases n,
{
    reveal(Seq::filter);
    if n > 0 {
        law_native_are_counted(mods, n - 1);
        assert(mods.take(n).drop_last() =~= mods.take(n - 1));
    }
}

/// As many mods are told to have lost their choices as were asked for and had any.
pub proof fn law_cleared_are_counted(mods: Seq<ModEntry>, ids: Seq<Seq<char>>, n: int)
    requires
        0 <= n <= mods.len(),
    ensures
        mod_choices::clear_count(mods, ids, n) == mods.take(n).filter(have_choices(ids)).len(),
    decreases n,
{
    reveal(Seq::filter);
    if n > 0 {
        law_cleared_are_counted(mods, ids, n - 1);
        assert(mods.take(n).drop_last() =~= mods.take(n - 1));
    }
}

} // verus!
