//! What holds of the conflicts that are shown between mods.
use crate::library::FileOverride;
use crate::lists;
use crate::loose;
use crate::loose::{CandidateView, ConflictView};
use crate::sorting;
use vstd::prelude::*;

verus! {

/// Whether a conflict is that over the destination of the file at `i`: its rivals are the
/// mods that bring a file for it, in load order and with none left out, the last of them
/// is the one that wins by itself, and who wins is the one whose file is deployed.
pub open spec fn is_over(
    v: ConflictView,
    c: Seq<CandidateView>,
    choices: Seq<FileOverride>,
    i: int,
) -> bool {
    let k = loose::key(c[i]);
    let plan = loose::plan_for(c, choices, k);
    &&& forall|a: int|
        0 <= a < c.len() && loose::key(#[trigger] c[a]) == k ==> v.candidates.contains(
            (c[a].mod_id, c[a].mod_name),
        )
    &&& forall|r: int|
        0 <= r < v.candidates.len() ==> exists|a: int|
            0 <= a < c.len() && loose::key(#[trigger] c[a]) == k && #[trigger] v.candidates[r] == (
                c[a].mod_id,
                c[a].mod_name,
            )
    &&& v.candidates.len() > 1
    &&& v.winner_id == plan.mod_id
    &&& v.winner_name == plan.mod_name
    &&& v.target == plan.kind
    &&& v.candidates.contains((v.winner_id, v.winner_name))
    &&& v.default_winner_id == v.candidates.last().0
    &&& v.overridden <==> v.winner_id != v.default_winner_id
    &&& exists|a: int|
        0 <= a < c.len() && loose::key(#[trigger] c[a]) == k && c[a].mod_id == v.default_winner_id
            && forall|b: int| a < b < c.len() ==> loose::key(#[trigger] c[b]) != k
}

/// Two files for one destination make a conflict, which is shown.
pub proof fn law_every_clash_is_shown(
    c: Seq<CandidateView>,
    choices: Seq<FileOverride>,
    i: int,
    j: int,
)
    requires
        0 <= i < j < c.len(),
        loose::key(c[i]) == loose::key(c[j]),
    ensures
        exists|n: int|
            0 <= n < loose::conflicts(c, choices).len() && is_over(
                #[trigger] loose::conflicts(c, choices)[n],
                c,
                choices,
                i,
            ),
{
    let k = loose::key(c[i]);
    let keys = loose::first_keys(c);
    loose::law_each_destination_once(c, choices, k);
    assert(loose::key(c[i]) == k);
    let t = choose|t: int| 0 <= t < keys.len() && keys[t] == k;
    lemma_two_places(c, k, i, j);
    lemma_among(c, choices, keys.len() as int, t);
    let list = loose::conflicts_among(c, choices, keys.len() as int);
    let v = loose::conflict_for(c, choices, k);
    sorting::lemma_in_ranking(list, loose::conflict_before(), v);
    let shown = loose::conflicts(c, choices);
    let n = choose|n: int| 0 <= n < shown.len() && shown[n] == v;
    lemma_conflict(c, choices, i);
    assert(is_over(shown[n], c, choices, i));
}

/// Every conflict that is shown is over a destination that two files are brought for.
pub proof fn law_conflict_is_a_clash(c: Seq<CandidateView>, choices: Seq<FileOverride>, n: int)
    requires
        0 <= n < loose::conflicts(c, choices).len(),
    ensures
        exists|i: int, j: int|
            0 <= i < j < c.len() && loose::key(#[trigger] c[i]) == loose::key(#[trigger] c[j])
                && is_over(loose::conflicts(c, choices)[n], c, choices, i),
{
    let keys = loose::first_keys(c);
    let list = loose::conflicts_among(c, choices, keys.len() as int);
    sorting::lemma_ranking_members(list, loose::conflict_before(), n);
    let v = loose::conflicts(c, choices)[n];
    lemma_from_among(c, choices, keys.len() as int, v);
    let t = choose|t: int|
        0 <= t < keys.len() && v == loose::conflict_for(c, choices, #[trigger] keys[t])
            && loose::places_of(c, keys[t]).len() > 1;
    let k = keys[t];
    let places = loose::places_of(c, k);
    loose::lemma_place_range(c, k, places[0]);
    loose::lemma_place_range(c, k, places[1]);
    assert(places.contains(places[0]) && places.contains(places[1]));
    assert(loose::key(c[places[0]]) == k && loose::key(c[places[1]]) == k);
    lemma_conflict(c, choices, places[0]);
}

proof fn lemma_two_places(c: Seq<CandidateView>, k: Seq<char>, i: int, j: int)
    requires
        0 <= i < j < c.len(),
        loose::key(c[i]) == k,
        loose::key(c[j]) == k,
    ensures
        loose::places_of(c, k).len() > 1,
{
    let places = loose::places_of(c, k);
    loose::lemma_place_range(c, k, i);
    loose::lemma_place_range(c, k, j);
    let a = choose|a: int| 0 <= a < places.len() && places[a] == i;
    let b = choose|b: int| 0 <= b < places.len() && places[b] == j;
    assert(a != b);
}

proof fn lemma_among(c: Seq<CandidateView>, choices: Seq<FileOverride>, n: int, t: int)
    requires
        0 <= t < n <= loose::first_keys(c).len(),
        loose::places_of(c, loose::first_keys(c)[t]).len() > 1,
    ensures
        loose::conflicts_among(c, choices, n).contains(
            loose::conflict_for(c, choices, loose::first_keys(c)[t]),
        ),
    decreases n,
{
    let before = loose::conflicts_among(c, choices, n - 1);
    let want = loose::conflict_for(c, choices, loose::first_keys(c)[t]);
    let here = loose::conflict_for(c, choices, loose::first_keys(c)[n - 1]);
    lists::lemma_push_contains(before, here, want);
    if t < n - 1 {
        lemma_among(c, choices, n - 1, t);
    }
}

proof fn lemma_from_among(
    c: Seq<CandidateView>,
    choices: Seq<FileOverride>,
    n: int,
    v: ConflictView,
)
    requires
        0 <= n <= loose::first_keys(c).len(),
        loose::conflicts_among(c, choices, n).contains(v),
    ensures
        exists|t: int|
            0 <= t < n && v == loose::conflict_for(c, choices, #[trigger] loose::first_keys(c)[t])
                && loose::places_of(c, loose::first_keys(c)[t]).len() > 1,
    decreases n,
{
    if n > 0 {
        let keys = loose::first_keys(c);
        let before = loose::conflicts_among(c, choices, n - 1);
        let here = loose::conflict_for(c, choices, keys[n - 1]);
        lists::lemma_push_contains(before, here, v);
        if before.contains(v) {
            lemma_from_among(c, choices, n - 1, v);
            let t = choose|t: int|
                0 <= t < n - 1 && v == loose::conflict_for(c, choices, #[trigger] keys[t])
                    && loose::places_of(c, keys[t]).len() > 1;
            assert(0 <= t < n && v == loose::conflict_for(c, choices, keys[t]));
        } else {
            assert(v == loose::conflict_for(c, choices, keys[n - 1]));
        }
    }
}

proof fn lemma_conflict(c: Seq<CandidateView>, choices: Seq<FileOverride>, i: int)
    requires
        0 <= i < c.len(),
        loose::places_of(c, loose::key(c[i])).len() > 1,
    ensures
        is_over(loose::conflict_for(c, choices, loose::key(c[i])), c, choices, i),
{
    let k = loose::key(c[i]);
    let v = loose::conflict_for(c, choices, k);
    let places = loose::places_of(c, k);
    loose::law_each_destination_once(c, choices, k);
    assert(loose::key(c[i]) == k);
    loose::lemma_winner_key(c, choices, k);
    assert forall|a: int| 0 <= a < c.len() && loose::key(#[trigger] c[a]) == k implies
        v.candidates.contains((c[a].mod_id, c[a].mod_name)) by {
        loose::lemma_place_range(c, k, a);
        let r = choose|r: int| 0 <= r < places.len() && places[r] == a;
        assert(v.candidates[r] == (c[a].mod_id, c[a].mod_name));
    }
    assert forall|r: int| 0 <= r < v.candidates.len() implies exists|a: int|
        0 <= a < c.len() && loose::key(#[trigger] c[a]) == k && #[trigger] v.candidates[r] == (
            c[a].mod_id,
            c[a].mod_name,
        ) by {
        loose::lemma_place_range(c, k, places[r]);
        assert(places.contains(places[r]));
        assert(loose::key(c[places[r]]) == k);
    }
    let w = loose::winner(c, places, choices);
    assert(v.candidates.contains((c[w].mod_id, c[w].mod_name)));
    let last = places.last();
    loose::lemma_place_range(c, k, last);
    assert(places[places.len() - 1] == last);
    assert(places.contains(last));
    assert(loose::key(c[last]) == k && c[last].mod_id == v.default_winner_id);
    assert forall|b: int| last < b < c.len() implies loose::key(#[trigger] c[b]) != k by {
        loose::lemma_place_range(c, k, b);
        if loose::key(c[b]) == k {
            let r = choose|r: int| 0 <= r < places.len() && places[r] == b;
            assert(r == places.len() - 1 || places[r] < places[places.len() - 1]);
        }
    }
}

} // verus!
