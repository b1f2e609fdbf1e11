//! What holds of the choices that are made between mods, and of what a deployment leaves
//! out and takes away.
use crate::bg3::GamePaths;
use crate::conflicts;
use crate::conflicts::ChoiceView;
use crate::deploy;
use crate::deploy::{ConflictEntry, DeployManifest};
use crate::library::{FileOverride, TargetKind};
use crate::lists;
use crate::loose;
use crate::paths;
use crate::text;
use vstd::prelude::*;

verus! {

// ---------------------------------------------------------------------------
// Choices
// ---------------------------------------------------------------------------

/// Whether a choice is about a file.
pub open spec fn is_about(c: FileOverride, kind: TargetKind, path: Seq<char>) -> bool {
    c.kind == kind && paths::path_key(c.relative_path@) == paths::path_key(path)
}

/// Of the choices about a file the last decides; a file without one is not decided.
pub proof fn law_last_choice_decides(
    choices: Seq<FileOverride>,
    kind: TargetKind,
    path: Seq<char>,
)
    ensures
        match loose::override_for(choices, kind, path) {
            Some(id) => exists|i: int|
                0 <= i < choices.len() && is_about(#[trigger] choices[i], kind, path)
                    && choices[i].mod_id@ == id && forall|j: int|
                    i < j < choices.len() ==> !is_about(#[trigger] choices[j], kind, path),
            None => forall|j: int|
                0 <= j < choices.len() ==> !is_about(#[trigger] choices[j], kind, path),
        },
    decreases choices.len(),
{
    if choices.len() > 0 {
        let front = choices.drop_last();
        let n = choices.len() - 1;
        if is_about(choices[n], kind, path) {
            assert(is_about(choices[n], kind, path) && choices[n].mod_id@
                == choices.last().mod_id@);
        } else {
            law_last_choice_decides(front, kind, path);
            match loose::override_for(front, kind, path) {
                Some(id) => {
                    let i = choose|i: int|
                        0 <= i < front.len() && is_about(#[trigger] front[i], kind, path)
                            && front[i].mod_id@ == id && forall|j: int|
                            i < j < front.len() ==> !is_about(#[trigger] front[j], kind, path);
                    assert(is_about(choices[i], kind, path));
                    assert forall|j: int| i < j < choices.len() implies !is_about(
                        #[trigger] choices[j],
                        kind,
                        path,
                    ) by {
                        if j < n {
                            assert(front[j] == choices[j]);
                        }
                    }
                },
                None => {
                    assert forall|j: int| 0 <= j < choices.len() implies !is_about(
                        #[trigger] choices[j],
                        kind,
                        path,
                    ) by {
                        if j < n {
                            assert(front[j] == choices[j]);
                        }
                    }
                },
            }
        }
    }
}

spec fn view_is_about(c: ChoiceView, kind: TargetKind, path: Seq<char>) -> bool {
    c.kind == kind && paths::path_key(c.path) == paths::path_key(path)
}

spec fn chosen(views: Seq<ChoiceView>, kind: TargetKind, path: Seq<char>) -> Option<Seq<char>>
    decreases views.len(),
{
    if views.len() == 0 {
        None
    } else if view_is_about(views.last(), kind, path) {
        Some(views.last().id)
    } else {
        chosen(views.drop_last(), kind, path)
    }
}

proof fn lemma_chosen(choices: Seq<FileOverride>, kind: TargetKind, path: Seq<char>)
    ensures
        loose::override_for(choices, kind, path) == chosen(
            conflicts::choice_views(choices),
            kind,
            path,
        ),
    decreases choices.len(),
{
    if choices.len() > 0 {
        lemma_chosen(choices.drop_last(), kind, path);
        assert(conflicts::choice_views(choices).drop_last() =~= conflicts::choice_views(
            choices.drop_last(),
        ));
    }
}

proof fn lemma_chosen_filter(
    views: Seq<ChoiceView>,
    keeps: spec_fn(ChoiceView) -> bool,
    kind: TargetKind,
    path: Seq<char>,
)
    requires
        forall|i: int|
            0 <= i < views.len() && view_is_about(#[trigger] views[i], kind, path) ==> keeps(
                views[i],
            ),
    ensures
        chosen(views.filter(keeps), kind, path) == chosen(views, kind, path),
    decreases views.len(),
{
    reveal(Seq::filter);
    if views.len() > 0 {
        let front = views.drop_last();
        assert forall|i: int|
            0 <= i < front.len() && view_is_about(#[trigger] front[i], kind, path) implies keeps(
            front[i],
        ) by {
            assert(views[i] == front[i]);
        }
        lemma_chosen_filter(front, keeps, kind, path);
        assert(views[views.len() - 1] == views.last());
        if keeps(views.last()) {
            assert(views.filter(keeps) == front.filter(keeps).push(views.last()));
            assert(front.filter(keeps).push(views.last()).drop_last() =~= front.filter(keeps));
        }
    }
}

proof fn lemma_chosen_same(
    a: Seq<ChoiceView>,
    b: Seq<ChoiceView>,
    kind: TargetKind,
    path: Seq<char>,
)
    requires
        a.len() == b.len(),
        forall|i: int|
            0 <= i < a.len() ==> (#[trigger] a[i] == b[i] || (!view_is_about(a[i], kind, path)
                && !view_is_about(b[i], kind, path))),
    ensures
        chosen(a, kind, path) == chosen(b, kind, path),
    decreases a.len(),
{
    if a.len() > 0 {
        assert(a[a.len() - 1] == b[a.len() - 1] || (!view_is_about(a.last(), kind, path)
            && !view_is_about(b.last(), kind, path)));
        assert forall|i: int| 0 <= i < a.len() - 1 implies (#[trigger] a.drop_last()[i]
            == b.drop_last()[i] || (!view_is_about(a.drop_last()[i], kind, path) && !view_is_about(
            b.drop_last()[i],
            kind,
            path,
        ))) by {
            assert(a[i] == b[i] || (!view_is_about(a[i], kind, path) && !view_is_about(
                b[i],
                kind,
                path,
            )));
        }
        lemma_chosen_same(a.drop_last(), b.drop_last(), kind, path);
    }
}

proof fn lemma_chosen_one(views: Seq<ChoiceView>, kind: TargetKind, path: Seq<char>, at: int)
    requires
        0 <= at < views.len(),
        view_is_about(views[at], kind, path),
        forall|j: int| at < j < views.len() ==> !view_is_about(#[trigger] views[j], kind, path),
    ensures
        chosen(views, kind, path) == Some(views[at].id),
    decreases views.len(),
{
    if at < views.len() - 1 {
        let front = views.drop_last();
        assert(!view_is_about(views[views.len() - 1], kind, path));
        assert forall|j: int| at < j < front.len() implies !view_is_about(
            #[trigger] front[j],
            kind,
            path,
        ) by {
            assert(front[j] == views[j]);
        }
        lemma_chosen_one(front, kind, path, at);
    }
}

proof fn lemma_chosen_none(views: Seq<ChoiceView>, kind: TargetKind, path: Seq<char>)
    requires
        forall|j: int| 0 <= j < views.len() ==> !view_is_about(#[trigger] views[j], kind, path),
    ensures
        chosen(views, kind, path) is None,
    decreases views.len(),
{
    if views.len() > 0 {
        assert(!view_is_about(views[views.len() - 1], kind, path));
        assert forall|j: int| 0 <= j < views.drop_last().len() implies !view_is_about(
            #[trigger] views.drop_last()[j],
            kind,
            path,
        ) by {
            assert(views.drop_last()[j] == views[j]);
        }
        lemma_chosen_none(views.drop_last(), kind, path);
    }
}

/// The choice that was set for a file decides it in the next deployment; where it is that
/// of the mod which wins by itself, nothing decides the file. Files of other kinds or with
/// other paths are decided as before. No file is to have two choices to begin with.
pub proof fn law_choice_reaches_its_file(
    before: Seq<FileOverride>,
    after: Seq<FileOverride>,
    kind: TargetKind,
    path: Seq<char>,
    id: Seq<char>,
    default: Seq<char>,
    other_kind: TargetKind,
    other_path: Seq<char>,
)
    requires
        conflicts::choice_views(after) == conflicts::with_choice(
            conflicts::choice_views(before),
            kind,
            path,
            id,
            default,
        ),
        forall|i: int|
            0 <= i < before.len() && is_about(#[trigger] before[i], kind, path)
                ==> before[i].relative_path@ == path,
        forall|i: int, j: int|
            0 <= i < j < before.len() && is_about(#[trigger] before[i], kind, path) ==> !is_about(
                #[trigger] before[j],
                kind,
                path,
            ),
    ensures
        loose::override_for(after, kind, path) == if id == default {
            None
        } else {
            Some(id)
        },
        other_kind != kind || paths::path_key(other_path) != paths::path_key(path)
            ==> loose::override_for(after, other_kind, other_path) == loose::override_for(
            before,
            other_kind,
            other_path,
        ),
{
    let old_views = conflicts::choice_views(before);
    let views = conflicts::choice_views(after);
    lemma_chosen(after, kind, path);
    lemma_chosen(after, other_kind, other_path);
    lemma_chosen(before, other_kind, other_path);
    let at = conflicts::choice_place(old_views, kind, path, 0);
    conflicts::lemma_choice_place(old_views, kind, path, 0);
    let keeps = conflicts::other_files(kind, path);
    let apart = other_kind != kind || paths::path_key(other_path) != paths::path_key(path);
    if id == default {
        assert forall|j: int| 0 <= j < views.len() implies !view_is_about(
            #[trigger] views[j],
            kind,
            path,
        ) by {
            assert(views.contains(views[j]));
            lists::lemma_filter_contains(old_views, keeps, views[j]);
            let i = choose|i: int| 0 <= i < old_views.len() && old_views[i] == views[j];
            if view_is_about(views[j], kind, path) {
                assert(is_about(before[i], kind, path));
            }
        }
        lemma_chosen_none(views, kind, path);
        if apart {
            lemma_chosen_filter(old_views, keeps, other_kind, other_path);
        }
    } else if at >= 0 {
        assert(is_about(before[at], kind, path));
        assert forall|j: int| at < j < views.len() implies !view_is_about(
            #[trigger] views[j],
            kind,
            path,
        ) by {
            assert(views[j] == old_views[j]);
            assert(!is_about(before[j], kind, path));
        }
        lemma_chosen_one(views, kind, path, at);
        if apart {
            assert forall|i: int| 0 <= i < views.len() implies (#[trigger] views[i] == old_views[i]
                || (!view_is_about(views[i], other_kind, other_path) && !view_is_about(
                old_views[i],
                other_kind,
                other_path,
            ))) by {}
            lemma_chosen_same(views, old_views, other_kind, other_path);
        }
    } else {
        assert(views[views.len() - 1] == (ChoiceView { kind, path, id }));
        assert(views.drop_last() =~= old_views);
    }
}

/// Going on from the winner of a conflict leads to the candidate behind it, and from the
/// last to the first; going back leads the other way.
pub proof fn law_candidates_go_round(c: ConflictEntry, k: int)
    requires
        0 <= k < c.candidates@.len(),
        c.candidates@[k].mod_id@ == c.winner_id@,
        forall|j: int| 0 <= j < k ==> (#[trigger] c.candidates@[j]).mod_id@ != c.winner_id@,
    ensures
        conflicts::next_candidate(c, 1) == if k + 1 < c.candidates@.len() {
            k + 1
        } else {
            0
        },
        conflicts::next_candidate(c, -1) == if k > 0 {
            k - 1
        } else {
            c.candidates@.len() - 1
        },
{
    lemma_candidate(c.candidates@, c.winner_id@, k);
    let n = c.candidates@.len() as int;
    assert((k + 1) % n == if k + 1 < n {
        k + 1
    } else {
        0
    }) by (nonlinear_arith)
        requires
            0 <= k < n,
    ;
    assert((k - 1) % n == if k > 0 {
        k - 1
    } else {
        n - 1
    }) by (nonlinear_arith)
        requires
            0 <= k < n,
    ;
}

pub proof fn lemma_candidate(list: Seq<deploy::ConflictCandidate>, id: Seq<char>, k: int)
    requires
        0 <= k < list.len(),
        list[k].mod_id@ == id,
        forall|j: int| 0 <= j < k ==> (#[trigger] list[j]).mod_id@ != id,
    ensures
        conflicts::candidate_place(list, id) == k,
    decreases list.len(),
{
    let front = list.drop_last();
    if k < front.len() {
        assert forall|j: int| 0 <= j < k implies (#[trigger] front[j]).mod_id@ != id by {
            assert(list[j].mod_id@ != id);
        }
        lemma_candidate(front, id, k);
    } else {
        lemma_no_candidate(front, id);
    }
}

proof fn lemma_no_candidate(list: Seq<deploy::ConflictCandidate>, id: Seq<char>)
    requires
        forall|j: int| 0 <= j < list.len() ==> (#[trigger] list[j]).mod_id@ != id,
    ensures
        conflicts::candidate_place(list, id) == -1,
    decreases list.len(),
{
    if list.len() > 0 {
        assert(list[list.len() - 1].mod_id@ != id);
        assert forall|j: int| 0 <= j < list.drop_last().len() implies (
        #[trigger] list.drop_last()[j]).mod_id@ != id by {
            assert(list[j].mod_id@ != id);
        }
        lemma_no_candidate(list.drop_last(), id);
    }
}

// ---------------------------------------------------------------------------
// What is left out and what is taken away
// ---------------------------------------------------------------------------

/// The names of files and directories that systems leave behind, in any case of letters.
pub open spec fn left_behind() -> Seq<Seq<char>> {
    seq!["__macosx"@, ".ds_store"@, "thumbs.db"@]
}

/// The directories that tools keep.
pub open spec fn of_tools() -> Seq<Seq<char>> {
    seq![".git"@, ".svn"@, ".vscode"@]
}

/// A path is left out just where one of its parts is such a name.
pub proof fn law_left_out_by_name(path: Seq<char>)
    ensures
        deploy::is_ignored(path) <==> exists|i: int|
            0 <= i < paths::components(path).len() && (left_behind().contains(
                text::ascii_lower(#[trigger] paths::components(path)[i]),
            ) || of_tools().contains(paths::components(path)[i])),
{
    reveal_strlit("__MACOSX");
    reveal_strlit("__macosx");
    reveal_strlit(".ds_store");
    reveal_strlit("thumbs.db");
    assert(text::ascii_lower("__MACOSX"@) =~= "__macosx"@);
    assert(text::ascii_lower(".ds_store"@) =~= ".ds_store"@);
    assert(text::ascii_lower("thumbs.db"@) =~= "thumbs.db"@);
    let a = left_behind();
    let b = of_tools();
    assert(a.len() == 3 && a[0] == "__macosx"@ && a[1] == ".ds_store"@ && a[2] == "thumbs.db"@);
    assert(b.len() == 3 && b[0] == ".git"@ && b[1] == ".svn"@ && b[2] == ".vscode"@);
    assert forall|part: Seq<char>| #[trigger]
        deploy::is_ignored_part(part) == (a.contains(text::ascii_lower(part)) || b.contains(part)) by {
        let low = text::ascii_lower(part);
        assert(a.contains(low) == (low == a[0] || low == a[1] || low == a[2]));
        assert(b.contains(part) == (part == b[0] || part == b[1] || part == b[2]));
    }
    let parts = paths::components(path);
    if deploy::is_ignored(path) {
        let i = choose|i: int| 0 <= i < parts.len() && deploy::is_ignored_part(#[trigger] parts[i]);
        assert(a.contains(text::ascii_lower(parts[i])) || b.contains(parts[i]));
    }
    if exists|i: int|
        0 <= i < parts.len() && (a.contains(text::ascii_lower(#[trigger] parts[i])) || b.contains(
            parts[i],
        )) {
        let i = choose|i: int|
            0 <= i < parts.len() && (a.contains(text::ascii_lower(#[trigger] parts[i]))
                || b.contains(parts[i]));
        assert(deploy::is_ignored_part(parts[i]));
    }
}

/// A deployment takes away what the last one recorded and nothing else: of its files those
/// below the game's data or its directory, of its packages those below the directory of
/// packages.
pub proof fn law_takes_away_what_was_recorded(p: GamePaths, manifest: DeployManifest, path: Seq<char>)
    ensures
        deploy::removable(p, manifest).contains(path) <==> {
            ||| (exists|i: int|
                0 <= i < manifest.files@.len() && (#[trigger] manifest.files@[i]).path@ == path)
                && (paths::components(p.data_dir@).is_prefix_of(paths::components(path))
                || paths::components(p.game_root@).is_prefix_of(paths::components(path)))
            ||| (exists|i: int|
                0 <= i < manifest.pak_files@.len() && (#[trigger] manifest.pak_files@[i])@ == path)
                && paths::components(p.larian_mods_dir@).is_prefix_of(paths::components(path))
        },
{
    let allowed = |f: Seq<char>| deploy::may_remove_file(p, f);
    let inside = |f: Seq<char>| paths::is_within(f, p.larian_mods_dir@);
    let files = deploy::file_paths(manifest.files@);
    let packs = text::texts(manifest.pak_files@);
    lists::lemma_filter_contains(files, allowed, path);
    lists::lemma_filter_contains(packs, inside, path);
    let a = files.filter(allowed);
    let b = packs.filter(inside);
    if a.contains(path) {
        let i = choose|i: int| 0 <= i < a.len() && a[i] == path;
        assert((a + b)[i] == path);
    }
    if b.contains(path) {
        let i = choose|i: int| 0 <= i < b.len() && b[i] == path;
        assert((a + b)[a.len() + i] == path);
    }
    if (a + b).contains(path) {
        let i = choose|i: int| 0 <= i < (a + b).len() && (a + b)[i] == path;
        if i < a.len() {
            assert(a[i] == path);
        } else {
            assert(b[i - a.len()] == path);
        }
    }
    if files.contains(path) {
        let i = choose|i: int| 0 <= i < files.len() && files[i] == path;
        assert(manifest.files@[i].path@ == path);
    }
    if packs.contains(path) {
        let i = choose|i: int| 0 <= i < packs.len() && packs[i] == path;
        assert(manifest.pak_files@[i]@ == path);
    }
    if exists|i: int| 0 <= i < manifest.files@.len() && (#[trigger] manifest.files@[i]).path@ == path {
        let i = choose|i: int|
            0 <= i < manifest.files@.len() && (#[trigger] manifest.files@[i]).path@ == path;
        assert(files[i] == path);
    }
    if exists|i: int| 0 <= i < manifest.pak_files@.len() && (#[trigger] manifest.pak_files@[i])@ == path {
        let i = choose|i: int|
            0 <= i < manifest.pak_files@.len() && (#[trigger] manifest.pak_files@[i])@ == path;
        assert(packs[i] == path);
    }
}

} // verus!
