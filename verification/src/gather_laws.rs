//! What holds of what is gathered from several places.
use crate::bg3;
use crate::dep_lookup::DependencyLookup;
use crate::importer::SourceTimes;
use crate::input_text;
use crate::library::{InstallTarget, ProfileEntry};
use crate::lists;
use crate::mod_readings;
use crate::mod_scan;
use crate::mod_switches;
use crate::pak_index;
use crate::text;
use vstd::prelude::*;

verus! {

proof fn lemma_sum_contains<T>(a: Seq<T>, b: Seq<T>, x: T)
    ensures
        (a + b).contains(x) <==> a.contains(x) || b.contains(x),
{
    let all = a + b;
    if a.contains(x) {
        let i = choose|i: int| 0 <= i < a.len() && a[i] == x;
        assert(all[i] == x);
    }
    if b.contains(x) {
        let i = choose|i: int| 0 <= i < b.len() && b[i] == x;
        assert(all[a.len() + i] == x);
    }
    if all.contains(x) {
        let i = choose|i: int| 0 <= i < all.len() && all[i] == x;
        if i < a.len() {
            assert(a[i] == x);
        } else {
            assert(b[i - a.len()] == x);
        }
    }
}

/// Whether the package at `i` was read and holds a file of this name and size.
pub open spec fn holds_file(packages: Seq<Option<Vec<u8>>>, i: int, f: (Seq<char>, u64)) -> bool {
    packages[i] matches Some(bytes) && (pak_index::listed_files(bytes@) matches Ok(entries)
        && pak_index::files_of(entries).contains(f))
}

/// Whether the package at `i` was read and cannot be listed.
pub open spec fn is_broken(packages: Seq<Option<Vec<u8>>>, i: int) -> bool {
    packages[i] matches Some(bytes) && pak_index::listed_files(bytes@) is Err
}

/// The files of several packages are those that any of them holds, and are not known
/// where one of them cannot be listed.
pub proof fn law_packages_listed_together(
    packages: Seq<Option<Vec<u8>>>,
    n: int,
    f: (Seq<char>, u64),
)
    requires
        0 <= n <= packages.len(),
    ensures
        mod_scan::listed_in(packages, n) is Err <==> exists|i: int|
            0 <= i < n && is_broken(packages, i),
        mod_scan::listed_in(packages, n) matches Ok(all) ==> (all.contains(f) <==> exists|i: int|
            0 <= i < n && holds_file(packages, i, f)),
    decreases n,
{
    if n > 0 {
        let last = n - 1;
        law_packages_listed_together(packages, last, f);
        if let Ok(before) = mod_scan::listed_in(packages, last) {
            if let Some(bytes) = packages[last] {
                if let Ok(entries) = pak_index::listed_files(bytes@) {
                    lemma_sum_contains(before, pak_index::files_of(entries), f);
                    assert(!is_broken(packages, last));
                } else {
                    assert(is_broken(packages, last));
                }
            } else {
                assert(!is_broken(packages, last));
            }
            assert(mod_scan::listed_in(packages, n) matches Ok(all) ==> (all.contains(f)
                <==> before.contains(f) || holds_file(packages, last, f)));
        }
    }
}

/// Whether the target at `i` is a directory, and a file in it has these times.
pub open spec fn has_times(
    targets: Seq<InstallTarget>,
    walks: Seq<Vec<SourceTimes>>,
    i: int,
    t: SourceTimes,
) -> bool {
    targets[i] !is Pak && walks[i]@.contains(t)
}

/// The times of loose files are those of the files in the directories of a mod, and of
/// none of its packages.
pub proof fn law_loose_files_have_times(
    targets: Seq<InstallTarget>,
    walks: Seq<Vec<SourceTimes>>,
    n: int,
    t: SourceTimes,
)
    requires
        0 <= n <= targets.len(),
        targets.len() == walks.len(),
    ensures
        mod_readings::loose_times(targets, walks, n).contains(t) <==> exists|i: int|
            0 <= i < n && has_times(targets, walks, i, t),
    decreases n,
{
    if n > 0 {
        let last = n - 1;
        law_loose_files_have_times(targets, walks, last, t);
        let before = mod_readings::loose_times(targets, walks, last);
        lemma_sum_contains(before, walks[last]@, t);
        assert(mod_readings::loose_times(targets, walks, n).contains(t) <==> before.contains(t)
            || has_times(targets, walks, last, t));
    }
}

/// The mods that are on, or off, among the shown rows are those that the rows show and
/// that are.
pub proof fn law_rows_give_their_mods(
    order: Seq<ProfileEntry>,
    rows: Seq<int>,
    on: bool,
    n: int,
    id: Seq<char>,
)
    requires
        0 <= n <= rows.len(),
    ensures
        mod_switches::ids_in_rows(order, rows, on, n).contains(id) <==> exists|i: int|
            0 <= i < n && order[#[trigger] rows[i]].id@ == id && order[rows[i]].enabled == on,
    decreases n,
{
    if n > 0 {
        let last = n - 1;
        law_rows_give_their_mods(order, rows, on, last, id);
        let before = mod_switches::ids_in_rows(order, rows, on, last);
        lists::lemma_push_contains(before, order[rows[last]].id@, id);
        let here = order[rows[last]].id@ == id && order[rows[last]].enabled == on;
        assert(mod_switches::ids_in_rows(order, rows, on, n).contains(id) <==> before.contains(id)
            || here);
    }
}

/// Whether the mods that stand under the `i`th key have this one among them.
pub open spec fn stands_under(l: DependencyLookup, keys: Seq<Seq<char>>, i: int, id: Seq<char>) -> bool {
    l.id_of(keys[i]) == Some(id) || l.ids(keys[i]).contains(id)
}

/// A mod is found under several keys where it stands under any of them.
pub proof fn law_found_under_any_key(
    l: DependencyLookup,
    keys: Seq<Seq<char>>,
    n: int,
    id: Seq<char>,
)
    requires
        0 <= n <= keys.len(),
    ensures
        l.ids_for(keys, n).contains(id) <==> exists|i: int| 0 <= i < n && stands_under(l, keys, i, id),
    decreases n,
{
    if n > 0 {
        let last = n - 1;
        law_found_under_any_key(l, keys, last, id);
        let before = l.ids_for(keys, last);
        let own = match l.id_of(keys[last]) {
            Some(x) => seq![x],
            None => Seq::empty(),
        };
        lemma_sum_contains(before + own, l.ids(keys[last]), id);
        lemma_sum_contains(before, own, id);
        assert(own.contains(id) <==> l.id_of(keys[last]) == Some(id)) by {
            if l.id_of(keys[last]) == Some(id) {
                assert(own[0] == id);
            }
        }
        assert(l.ids_for(keys, n).contains(id) <==> before.contains(id) || stands_under(
            l,
            keys,
            last,
            id,
        ));
    }
}

/// A list names the directories that its lines name.
pub proof fn law_list_names_its_lines(lines: Seq<Seq<char>>, p: Seq<char>)
    ensures
        bg3::named_paths(lines).contains(p) <==> exists|i: int|
            0 <= i < lines.len() && bg3::line_path(#[trigger] lines[i]) == Some(p),
    decreases lines.len(),
{
    if lines.len() > 0 {
        let front = lines.drop_last();
        law_list_names_its_lines(front, p);
        let before = bg3::named_paths(front);
        if let Some(x) = bg3::line_path(lines.last()) {
            lists::lemma_push_contains(before, x, p);
        }
        if exists|i: int| 0 <= i < front.len() && bg3::line_path(#[trigger] front[i]) == Some(p) {
            let i = choose|i: int|
                0 <= i < front.len() && bg3::line_path(#[trigger] front[i]) == Some(p);
            assert(lines[i] == front[i]);
        }
        if exists|i: int| 0 <= i < lines.len() && bg3::line_path(#[trigger] lines[i]) == Some(p) {
            let i = choose|i: int|
                0 <= i < lines.len() && bg3::line_path(#[trigger] lines[i]) == Some(p);
            if i < front.len() {
                assert(front[i] == lines[i]);
            }
        }
    }
}

/// A mod is replaced where one says so, and where one only confirms what was proposed;
/// one answers for all the others as well only with a word that says all.
pub proof fn law_answer_by_word(input: Seq<char>, proposed: Option<bool>)
    ensures
        ({
            let word = text::unicode_lowercase(text::trimmed(input));
            let a = input_text::answer(input, proposed);
            &&& a is Overwrite <==> seq!["o"@, "y"@, "yes"@].contains(word) || (word.len() == 0
                && proposed == Some(true))
            &&& a is OverwriteAll <==> seq!["a"@, "all"@].contains(word)
            &&& a is SkipAll <==> seq!["k"@, "skipall"@, "skip-all"@].contains(word)
        }),
{
    reveal_strlit("o");
    reveal_strlit("y");
    reveal_strlit("yes");
    reveal_strlit("a");
    reveal_strlit("all");
    reveal_strlit("k");
    reveal_strlit("skipall");
    reveal_strlit("skip-all");
    let word = text::unicode_lowercase(text::trimmed(input));
    let over = seq!["o"@, "y"@, "yes"@];
    let all = seq!["a"@, "all"@];
    let skip = seq!["k"@, "skipall"@, "skip-all"@];
    assert(over[0] == "o"@ && over[1] == "y"@ && over[2] == "yes"@);
    assert(all[0] == "a"@ && all[1] == "all"@);
    assert(skip[0] == "k"@ && skip[1] == "skipall"@ && skip[2] == "skip-all"@);
    assert("o"@[0] != "a"@[0] && "o"@[0] != "k"@[0] && "y"@[0] != "a"@[0] && "y"@[0] != "k"@[0]);
    assert("yes"@[0] == 'y' && "all"@[0] == 'a' && "skipall"@[0] == 's' && "skip-all"@[0] == 's');
    assert(word == word);
}

} // verus!
