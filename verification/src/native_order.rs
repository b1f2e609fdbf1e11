//! Following the game in what is switched on, and in what order.
use crate::cli_lists;
use crate::cli_lists::index_entries;
use crate::library;
use crate::library::{ModEntry, ProfileEntry, TargetKind};
use crate::lists;
use crate::sorting::has_string;
use crate::text;
use crate::text::same_text;
use vstd::hash_map::StringHashMap;
use vstd::prelude::*;

verus! {

/// Whether the mod with an id brings a package.
pub open spec fn mod_has_pak(mods: Seq<ModEntry>, id: Seq<char>) -> bool {
    let k = library::last_index(mods, id);
    k >= 0 && library::targets_have(mods[k].targets@, TargetKind::Pak)
}

fn brings_pak(mods: &Vec<ModEntry>, index: &StringHashMap<usize>, id: &str) -> (r: bool)
    requires
        library::indexes(index@, mods@),
    ensures
        r == mod_has_pak(mods@, id@),
{
    proof {
        library::lemma_last_index(mods@, id@);
        assert(index@.contains_key(id@) || !index@.contains_key(id@));
    }
    match index.get(id) {
        Some(k) => mods[*k].has_target_kind(TargetKind::Pak),
        None => false,
    }
}

// ---------------------------------------------------------------------------
// What is switched on
// ---------------------------------------------------------------------------

/// An entry as the game has it: a mod with a package is on if the game has it on and
/// nothing holds it back.
pub open spec fn follow_entry(
    e: ProfileEntry,
    mods: Seq<ModEntry>,
    on: Seq<Seq<char>>,
    blocks: Seq<Seq<char>>,
) -> ProfileEntry {
    if mod_has_pak(mods, e.id@) {
        ProfileEntry { enabled: on.contains(e.id@) && !blocks.contains(e.id@), ..e }
    } else {
        e
    }
}

pub open spec fn followed(
    order: Seq<ProfileEntry>,
    mods: Seq<ModEntry>,
    on: Seq<Seq<char>>,
    blocks: Seq<Seq<char>>,
) -> Seq<ProfileEntry> {
    Seq::new(order.len(), |i: int| follow_entry(order[i], mods, on, blocks))
}

/// Switches the mods with packages as the game has them. The result says whether
/// that changed anything.
pub fn follow_switches(
    order: &mut Vec<ProfileEntry>,
    mods: &Vec<ModEntry>,
    index: &StringHashMap<usize>,
    on: &Vec<String>,
    blocks: &Vec<String>,
) -> (changed: bool)
    requires
        library::indexes(index@, mods@),
    ensures
        final(order)@ == followed(old(order)@, mods@, text::texts(on@), text::texts(blocks@)),
        changed == (final(order)@ != old(order)@),
{
    let ghost start = order@;
    let ghost goal = followed(start, mods@, text::texts(on@), text::texts(blocks@));
    let mut changed = false;
    let mut i: usize = 0;
    while i < order.len()
        invariant
            i <= order.len() == start.len(),
            start == old(order)@,
            library::indexes(index@, mods@),
            goal == followed(start, mods@, text::texts(on@), text::texts(blocks@)),
            forall|j: int| 0 <= j < i ==> order@[j] == goal[j],
            forall|j: int| i <= j < start.len() ==> order@[j] == start[j],
            changed <==> exists|j: int| 0 <= j < i && #[trigger] goal[j] != start[j],
        decreases order.len() - i,
    {
        if brings_pak(mods, index, order[i].id.as_str()) {
            let wanted = has_string(on, order[i].id.as_str()) && !has_string(
                blocks,
                order[i].id.as_str(),
            );
            if order[i].enabled != wanted {
                order[i].enabled = wanted;
                changed = true;
                assert(goal[i as int] != start[i as int]);
            }
        }
        assert(order@[i as int] == goal[i as int]);
        i = i + 1;
    }
    assert(order@ =~= goal);
    proof {
        if !changed {
            assert(goal =~= start);
        }
    }
    changed
}

// ---------------------------------------------------------------------------
// In what order
// ---------------------------------------------------------------------------

/// The ids of the first `n` entries whose mods bring a package, or of those whose
/// mods do not.
pub open spec fn ids_with(
    order: Seq<ProfileEntry>,
    mods: Seq<ModEntry>,
    pak: bool,
    n: int,
) -> Seq<Seq<char>>
    decreases n,
{
    if n <= 0 {
        Seq::empty()
    } else if mod_has_pak(mods, order[n - 1].id@) == pak {
        ids_with(order, mods, pak, n - 1).push(order[n - 1].id@)
    } else {
        ids_with(order, mods, pak, n - 1)
    }
}

/// Those of the first `n` wishes that can be met, each once.
pub open spec fn taken(wish: Seq<Seq<char>>, paks: Seq<Seq<char>>, n: int) -> Seq<Seq<char>>
    decreases n,
{
    if n <= 0 {
        Seq::empty()
    } else {
        let before = taken(wish, paks, n - 1);
        if paks.contains(wish[n - 1]) && !before.contains(wish[n - 1]) {
            before.push(wish[n - 1])
        } else {
            before
        }
    }
}

/// Those of the first `n` ids that are not among the chosen.
pub open spec fn left_over(paks: Seq<Seq<char>>, chosen: Seq<Seq<char>>, n: int) -> Seq<Seq<char>>
    decreases n,
{
    if n <= 0 {
        Seq::empty()
    } else if chosen.contains(paks[n - 1]) {
        left_over(paks, chosen, n - 1)
    } else {
        left_over(paks, chosen, n - 1).push(paks[n - 1])
    }
}

/// The ids in the game's order: first the mods without packages, then those with one
/// as the game wishes, then the rest.
pub open spec fn game_ids(
    order: Seq<ProfileEntry>,
    mods: Seq<ModEntry>,
    wish: Seq<Seq<char>>,
) -> Seq<Seq<char>> {
    let loose = ids_with(order, mods, false, order.len() as int);
    let paks = ids_with(order, mods, true, order.len() as int);
    let chosen = taken(wish, paks, wish.len() as int);
    loose + chosen + left_over(paks, chosen, paks.len() as int)
}

/// The entries of some ids.
pub open spec fn placed(order: Seq<ProfileEntry>, ids: Seq<Seq<char>>) -> Seq<ProfileEntry> {
    Seq::new(ids.len(), |i: int| order[cli_lists::last_entry(order, ids[i])])
}

/// The load order after the game's wishes. Where an id stands twice, so that entries
/// would be lost, it stays.
pub open spec fn rearranged(
    order: Seq<ProfileEntry>,
    mods: Seq<ModEntry>,
    wish: Seq<Seq<char>>,
) -> Seq<ProfileEntry> {
    let ids = game_ids(order, mods, wish);
    if wish.len() > 0 && ids.len() == order.len() {
        placed(order, ids)
    } else {
        order
    }
}

fn collect_ids_with(
    order: &Vec<ProfileEntry>,
    mods: &Vec<ModEntry>,
    index: &StringHashMap<usize>,
    pak: bool,
) -> (out: Vec<String>)
    requires
        library::indexes(index@, mods@),
    ensures
        text::texts(out@) == ids_with(order@, mods@, pak, order@.len() as int),
{
    let mut out: Vec<String> = Vec::new();
    let mut i: usize = 0;
    assert(text::texts(out@) =~= Seq::<Seq<char>>::empty());
    while i < order.len()
        invariant
            i <= order.len(),
            library::indexes(index@, mods@),
            text::texts(out@) == ids_with(order@, mods@, pak, i as int),
        decreases order.len() - i,
    {
        if brings_pak(mods, index, order[i].id.as_str()) == pak {
            let id = order[i].id.clone();
            proof {
                text::lemma_texts_push(out@, id);
            }
            out.push(id);
        }
        i = i + 1;
    }
    out
}

fn take_wishes(wish: &Vec<String>, paks: &Vec<String>) -> (out: Vec<String>)
    ensures
        text::texts(out@) == taken(text::texts(wish@), text::texts(paks@), wish@.len() as int),
{
    let mut out: Vec<String> = Vec::new();
    let mut i: usize = 0;
    assert(text::texts(out@) =~= Seq::<Seq<char>>::empty());
    while i < wish.len()
        invariant
            i <= wish.len(),
            text::texts(out@) == taken(text::texts(wish@), text::texts(paks@), i as int),
        decreases wish.len() - i,
    {
        if has_string(paks, wish[i].as_str()) && !has_string(&out, wish[i].as_str()) {
            let id = wish[i].clone();
            proof {
                text::lemma_texts_push(out@, id);
            }
            out.push(id);
        }
        i = i + 1;
    }
    out
}

fn add_left_over(out: &mut Vec<String>, paks: &Vec<String>, chosen: &Vec<String>)
    ensures
        text::texts(final(out)@) == text::texts(old(out)@) + left_over(
            text::texts(paks@),
            text::texts(chosen@),
            paks@.len() as int,
        ),
{
    let ghost start = text::texts(out@);
    let mut i: usize = 0;
    assert(start + Seq::<Seq<char>>::empty() =~= start);
    while i < paks.len()
        invariant
            i <= paks.len(),
            start == text::texts(old(out)@),
            text::texts(out@) == start + left_over(
                text::texts(paks@),
                text::texts(chosen@),
                i as int,
            ),
        decreases paks.len() - i,
    {
        if !has_string(chosen, paks[i].as_str()) {
            let id = paks[i].clone();
            proof {
                text::lemma_texts_push(out@, id);
            }
            out.push(id);
            assert(text::texts(out@) =~= start + left_over(
                text::texts(paks@),
                text::texts(chosen@),
                i + 1,
            ));
        }
        i = i + 1;
    }
}

pub proof fn lemma_known_ids(order: Seq<ProfileEntry>, mods: Seq<ModEntry>, wish: Seq<Seq<char>>)
    ensures
        forall|i: int|
            0 <= i < game_ids(order, mods, wish).len() ==> library::order_ids(order).contains(
                #[trigger] game_ids(order, mods, wish)[i],
            ),
{
    let n = order.len() as int;
    let loose = ids_with(order, mods, false, n);
    let paks = ids_with(order, mods, true, n);
    let chosen = taken(wish, paks, wish.len() as int);
    lemma_ids_with(order, mods, false, n);
    lemma_ids_with(order, mods, true, n);
    lemma_taken(wish, paks, wish.len() as int);
    lemma_left_over(paks, chosen, paks.len() as int);
    let all = game_ids(order, mods, wish);
    assert forall|i: int| 0 <= i < all.len() implies library::order_ids(order).contains(
        #[trigger] all[i],
    ) by {
        if i < loose.len() {
            assert(loose.contains(all[i]));
        } else if i < loose.len() + chosen.len() {
            assert(chosen[i - loose.len()] == all[i]);
            assert(chosen.contains(all[i]));
        } else {
            let rest = left_over(paks, chosen, paks.len() as int);
            assert(rest[i - loose.len() - chosen.len()] == all[i]);
            assert(rest.contains(all[i]));
        }
    }
}

proof fn lemma_ids_with(order: Seq<ProfileEntry>, mods: Seq<ModEntry>, pak: bool, n: int)
    requires
        0 <= n <= order.len(),
    ensures
        forall|id: Seq<char>| #[trigger]
            ids_with(order, mods, pak, n).contains(id) <==> mod_has_pak(mods, id) == pak && (
            exists|k: int| 0 <= k < n && (#[trigger] order[k]).id@ == id),
        forall|id: Seq<char>| #[trigger]
            ids_with(order, mods, pak, n).contains(id) ==> library::order_ids(order).contains(id),
    decreases n,
{
    let all = ids_with(order, mods, pak, n);
    if n > 0 {
        lemma_ids_with(order, mods, pak, n - 1);
        let before = ids_with(order, mods, pak, n - 1);
        let last = order[n - 1].id@;
        assert forall|id: Seq<char>| #[trigger] all.contains(id) <==> mod_has_pak(mods, id) == pak
            && (exists|k: int| 0 <= k < n && (#[trigger] order[k]).id@ == id) by {
            lists::lemma_push_contains(before, last, id);
            assert(before.contains(id) || !before.contains(id));
            if mod_has_pak(mods, id) == pak && (exists|k: int|
                0 <= k < n && (#[trigger] order[k]).id@ == id) {
                let k = choose|k: int| 0 <= k < n && (#[trigger] order[k]).id@ == id;
                if k < n - 1 {
                    assert(before.contains(id));
                }
            }
        }
    }
    assert forall|id: Seq<char>| #[trigger] all.contains(id) implies library::order_ids(
        order,
    ).contains(id) by {
        let k = choose|k: int| 0 <= k < n && (#[trigger] order[k]).id@ == id;
        assert(library::order_ids(order)[k] == id);
    }
}

proof fn lemma_taken(wish: Seq<Seq<char>>, paks: Seq<Seq<char>>, n: int)
    requires
        0 <= n <= wish.len(),
    ensures
        forall|id: Seq<char>| #[trigger] taken(wish, paks, n).contains(id) ==> paks.contains(id),
        taken(wish, paks, n).no_duplicates(),
    decreases n,
{
    if n > 0 {
        lemma_taken(wish, paks, n - 1);
        let before = taken(wish, paks, n - 1);
        assert forall|id: Seq<char>| #[trigger]
            taken(wish, paks, n).contains(id) implies paks.contains(id) by {
            lists::lemma_push_contains(before, wish[n - 1], id);
            assert(before.contains(id) || !before.contains(id));
        }
    }
}

proof fn lemma_left_over(paks: Seq<Seq<char>>, chosen: Seq<Seq<char>>, n: int)
    requires
        0 <= n <= paks.len(),
    ensures
        forall|id: Seq<char>| #[trigger]
            left_over(paks, chosen, n).contains(id) <==> !chosen.contains(id) && paks.take(
                n,
            ).contains(id),
        forall|id: Seq<char>| #[trigger]
            left_over(paks, chosen, n).contains(id) ==> paks.contains(id),
        paks.no_duplicates() ==> left_over(paks, chosen, n).no_duplicates(),
    decreases n,
{
    let all = left_over(paks, chosen, n);
    if n > 0 {
        lemma_left_over(paks, chosen, n - 1);
        let before = left_over(paks, chosen, n - 1);
        assert(paks.take(n) =~= paks.take(n - 1).push(paks[n - 1]));
        assert forall|id: Seq<char>| #[trigger] all.contains(id) <==> !chosen.contains(id)
            && paks.take(n).contains(id) by {
            lists::lemma_push_contains(before, paks[n - 1], id);
            lists::lemma_push_contains(paks.take(n - 1), paks[n - 1], id);
            assert(before.contains(id) || !before.contains(id));
        }
        if paks.no_duplicates() {
            assert(!paks.take(n - 1).contains(paks[n - 1]));
            assert(!before.contains(paks[n - 1]));
        }
    }
    assert forall|id: Seq<char>| #[trigger] all.contains(id) implies paks.contains(id) by {
        assert(paks.take(n).contains(id));
        let k = choose|k: int| 0 <= k < paks.take(n).len() && paks.take(n)[k] == id;
        assert(paks[k] == id);
    }
}

fn place_entries(order: &Vec<ProfileEntry>, ids: &Vec<String>) -> (out: Vec<ProfileEntry>)
    requires
        forall|i: int|
            0 <= i < ids@.len() ==> library::order_ids(order@).contains(
                #[trigger] text::texts(ids@)[i],
            ),
    ensures
        out@ == placed(order@, text::texts(ids@)),
{
    let index = index_entries(order);
    let ghost goal = placed(order@, text::texts(ids@));
    let mut out: Vec<ProfileEntry> = Vec::new();
    let mut i: usize = 0;
    while i < ids.len()
        invariant
            i <= ids.len(),
            cli_lists::finds_entries(index@, order@),
            goal == placed(order@, text::texts(ids@)),
            out@ == goal.take(i as int),
            forall|j: int|
                0 <= j < ids@.len() ==> library::order_ids(order@).contains(
                    #[trigger] text::texts(ids@)[j],
                ),
        decreases ids.len() - i,
    {
        proof {
            let id = text::texts(ids@)[i as int];
            assert(library::order_ids(order@).contains(id));
            let k = choose|k: int|
                0 <= k < library::order_ids(order@).len() && library::order_ids(order@)[k] == id;
            lemma_last_entry(order@, id, k);
            assert(index@.contains_key(id));
        }
        if let Some(k) = index.get(ids[i].as_str()) {
            out.push(order[*k].clone());
        }
        i = i + 1;
        assert(out@ =~= goal.take(i as int));
    }
    assert(out@ =~= goal);
    out
}

pub proof fn lemma_last_entry(order: Seq<ProfileEntry>, id: Seq<char>, k: int)
    requires
        0 <= k < order.len(),
        order[k].id@ == id,
    ensures
        0 <= cli_lists::last_entry(order, id) < order.len(),
        order[cli_lists::last_entry(order, id)].id@ == id,
    decreases order.len(),
{
    if order.last().id@ != id {
        lemma_last_entry(order.drop_last(), id, k);
    }
}

fn same_entries(a: &Vec<ProfileEntry>, b: &Vec<ProfileEntry>) -> (r: bool)
    ensures
        r == (library::entries(a@) == library::entries(b@)),
{
    let ghost x = library::entries(a@);
    let ghost y = library::entries(b@);
    if a.len() != b.len() {
        assert(x.len() != y.len());
        return false;
    }
    let mut i: usize = 0;
    while i < a.len()
        invariant
            i <= a.len() == b.len(),
            x == library::entries(a@),
            y == library::entries(b@),
            forall|k: int| 0 <= k < i ==> x[k] == y[k],
        decreases a.len() - i,
    {
        if a[i].enabled != b[i].enabled || !same_text(a[i].id.as_str(), b[i].id.as_str()) {
            assert(x[i as int] != y[i as int]);
            return false;
        }
        i = i + 1;
    }
    assert(x =~= y);
    true
}

/// Puts a load order into the game's order. The result says whether that changed
/// anything.
pub fn follow_order(
    order: &mut Vec<ProfileEntry>,
    mods: &Vec<ModEntry>,
    index: &StringHashMap<usize>,
    wish: &Vec<String>,
) -> (changed: bool)
    requires
        library::indexes(index@, mods@),
    ensures
        library::entries(final(order)@) == library::entries(
            rearranged(old(order)@, mods@, text::texts(wish@)),
        ),
        changed == (library::entries(final(order)@) != library::entries(old(order)@)),
        !changed ==> *final(order) == *old(order),
{
    if wish.is_empty() {
        return false;
    }
    let loose = collect_ids_with(order, mods, index, false);
    let paks = collect_ids_with(order, mods, index, true);
    let chosen = take_wishes(wish, &paks);
    let mut ids = loose;
    let mut i: usize = 0;
    let ghost first = text::texts(ids@);
    assert(first + text::texts(chosen@).take(0) =~= first);
    while i < chosen.len()
        invariant
            i <= chosen.len(),
            text::texts(ids@) == first + text::texts(chosen@).take(i as int),
        decreases chosen.len() - i,
    {
        let id = chosen[i].clone();
        proof {
            text::lemma_texts_push(ids@, id);
            assert(text::texts(chosen@).take(i + 1) =~= text::texts(chosen@).take(i as int).push(
                id@,
            ));
        }
        ids.push(id);
        i = i + 1;
        assert(text::texts(ids@) =~= first + text::texts(chosen@).take(i as int));
    }
    assert(text::texts(chosen@).take(i as int) =~= text::texts(chosen@));
    add_left_over(&mut ids, &paks, &chosen);
    assert(text::texts(ids@) == game_ids(order@, mods@, text::texts(wish@)));
    if ids.len() != order.len() {
        return false;
    }
    proof {
        lemma_known_ids(order@, mods@, text::texts(wish@));
    }
    let new_order = place_entries(order, &ids);
    if same_entries(&new_order, order) {
        return false;
    }
    *order = new_order;
    true
}

// ---------------------------------------------------------------------------
// Laws
// ---------------------------------------------------------------------------

proof fn lemma_ids_with_once(order: Seq<ProfileEntry>, mods: Seq<ModEntry>, pak: bool, n: int)
    requires
        0 <= n <= order.len(),
        library::order_ids(order).no_duplicates(),
    ensures
        ids_with(order, mods, pak, n).no_duplicates(),
    decreases n,
{
    if n > 0 {
        lemma_ids_with_once(order, mods, pak, n - 1);
        lemma_ids_with(order, mods, pak, n - 1);
        let before = ids_with(order, mods, pak, n - 1);
        let last = order[n - 1].id@;
        if before.contains(last) {
            let k = choose|k: int| 0 <= k < n - 1 && (#[trigger] order[k]).id@ == last;
            assert(library::order_ids(order)[k] == library::order_ids(order)[n - 1]);
        }
    }
}

/// Once a profile follows the game, a mod with a package is on exactly where the game has
/// it on and nothing holds it back, whatever its switch was; a mod without one keeps its
/// switch; and nothing moves.
pub proof fn law_switches_are_the_games(
    order: Seq<ProfileEntry>,
    mods: Seq<ModEntry>,
    on: Seq<Seq<char>>,
    blocks: Seq<Seq<char>>,
    i: int,
)
    requires
        0 <= i < order.len(),
    ensures
        followed(order, mods, on, blocks).len() == order.len(),
        followed(order, mods, on, blocks)[i].id == order[i].id,
        library::last_index(mods, order[i].id@) >= 0 && (exists|t: int|
            0 <= t < mods[library::last_index(mods, order[i].id@)].targets@.len() && (
            #[trigger] mods[library::last_index(mods, order[i].id@)].targets@[t]) is Pak)
            ==> (followed(order, mods, on, blocks)[i].enabled <==> on.contains(order[i].id@)
            && !blocks.contains(order[i].id@)),
        library::last_index(mods, order[i].id@) < 0 || (forall|t: int|
            0 <= t < mods[library::last_index(mods, order[i].id@)].targets@.len() ==> !((
            #[trigger] mods[library::last_index(mods, order[i].id@)].targets@[t]) is Pak))
            ==> followed(order, mods, on, blocks)[i] == order[i],
{
    let k = library::last_index(mods, order[i].id@);
    if k >= 0 {
        let targets = mods[k].targets@;
        if exists|t: int| 0 <= t < targets.len() && (#[trigger] targets[t]) is Pak {
            let t = choose|t: int| 0 <= t < targets.len() && (#[trigger] targets[t]) is Pak;
            assert(targets[t].kind_of() == TargetKind::Pak);
        }
    }
}

/// To follow the game twice is to follow it once, and what a profile had on before makes
/// no difference to its mods with packages.
pub proof fn law_following_settles(
    order: Seq<ProfileEntry>,
    other: Seq<ProfileEntry>,
    mods: Seq<ModEntry>,
    on: Seq<Seq<char>>,
    blocks: Seq<Seq<char>>,
    i: int,
)
    requires
        0 <= i < order.len(),
        i < other.len(),
        other[i].id@ == order[i].id@,
        mod_has_pak(mods, order[i].id@),
    ensures
        followed(followed(order, mods, on, blocks), mods, on, blocks) == followed(
            order,
            mods,
            on,
            blocks,
        ),
        followed(other, mods, on, blocks)[i].enabled == followed(order, mods, on, blocks)[i].enabled,
{
    let once = followed(order, mods, on, blocks);
    assert(followed(once, mods, on, blocks) =~= once);
}

/// Where each mod stands once in a load order, following the game's order loses
/// none, doubles none and changes none.
pub proof fn law_game_order_keeps_mods(
    order: Seq<ProfileEntry>,
    mods: Seq<ModEntry>,
    wish: Seq<Seq<char>>,
)
    requires
        library::order_ids(order).no_duplicates(),
    ensures
        game_ids(order, mods, wish).len() == order.len(),
        rearranged(order, mods, wish).len() == order.len(),
        library::order_ids(rearranged(order, mods, wish)).no_duplicates(),
        forall|i: int|
            0 <= i < order.len() ==> rearranged(order, mods, wish).contains(#[trigger] order[i]),
{
    let n = order.len() as int;
    let own = library::order_ids(order);
    let loose = ids_with(order, mods, false, n);
    let paks = ids_with(order, mods, true, n);
    let chosen = taken(wish, paks, wish.len() as int);
    let rest = left_over(paks, chosen, paks.len() as int);
    let ids = game_ids(order, mods, wish);
    lemma_ids_with(order, mods, false, n);
    lemma_ids_with(order, mods, true, n);
    lemma_ids_with_once(order, mods, false, n);
    lemma_ids_with_once(order, mods, true, n);
    lemma_taken(wish, paks, wish.len() as int);
    lemma_left_over(paks, chosen, paks.len() as int);
    assert(paks.take(paks.len() as int) =~= paks);
    assert(ids.no_duplicates()) by {
        assert forall|i: int, j: int| 0 <= i < j < ids.len() implies ids[i] != ids[j] by {
            let a = loose.len() as int;
            let b = a + chosen.len();
            if j < a {
                assert(loose[i] != loose[j]);
            } else if i < a {
                assert(loose.contains(loose[i]));
                if j < b {
                    assert(chosen.contains(chosen[j - a]));
                } else {
                    assert(rest.contains(rest[j - b]));
                }
            } else if j < b {
                assert(chosen[i - a] != chosen[j - a]);
            } else if i < b {
                assert(chosen.contains(chosen[i - a]));
                assert(rest.contains(rest[j - b]));
            } else {
                assert(rest[i - b] != rest[j - b]);
            }
        }
    }
    assert forall|id: Seq<char>| own.contains(id) implies ids.contains(id) by {
        let k = choose|k: int| 0 <= k < own.len() && own[k] == id;
        assert(order[k].id@ == id);
        if !mod_has_pak(mods, id) {
            assert(loose.contains(id));
            let i = choose|i: int| 0 <= i < loose.len() && loose[i] == id;
            assert(ids[i] == id);
        } else {
            assert(paks.contains(id));
            if chosen.contains(id) {
                let i = choose|i: int| 0 <= i < chosen.len() && chosen[i] == id;
                assert(ids[loose.len() + i] == id);
            } else {
                assert(rest.contains(id));
                let i = choose|i: int| 0 <= i < rest.len() && rest[i] == id;
                assert(ids[loose.len() + chosen.len() + i] == id);
            }
        }
    }
    lemma_known_ids(order, mods, wish);
    assert(ids.to_set() =~= own.to_set()) by {
        assert forall|id: Seq<char>| ids.contains(id) implies own.contains(id) by {
            let i = choose|i: int| 0 <= i < ids.len() && ids[i] == id;
            assert(own.contains(ids[i]));
        }
    }
    ids.unique_seq_to_set();
    own.unique_seq_to_set();
    assert(ids.len() == order.len());
    let new = placed(order, ids);
    assert forall|i: int| 0 <= i < ids.len() implies (#[trigger] new[i]).id@ == ids[i] && 0
        <= cli_lists::last_entry(order, ids[i]) < order.len() by {
        assert(own.contains(ids[i]));
        let k = choose|k: int| 0 <= k < own.len() && own[k] == ids[i];
        lemma_last_entry(order, ids[i], k);
    }
    assert(library::order_ids(new) =~= ids);
    assert forall|i: int| 0 <= i < order.len() implies new.contains(#[trigger] order[i]) by {
        let id = order[i].id@;
        assert(own[i] == id);
        assert(ids.contains(id));
        let k = choose|k: int| 0 <= k < ids.len() && ids[k] == id;
        let e = cli_lists::last_entry(order, id);
        assert(new[k] == order[e]);
        assert(own[e] == new[k].id@);
        assert(own[e] == own[i]);
        assert(e == i);
    }
    if !(wish.len() > 0) {
        assert forall|i: int| 0 <= i < order.len() implies order.contains(#[trigger] order[i]) by {
            assert(order[i] == order[i]);
        }
    }
}

proof fn lemma_ids_in_order(
    order: Seq<ProfileEntry>,
    mods: Seq<ModEntry>,
    pak: bool,
    n: int,
    i: int,
    j: int,
) -> (r: (int, int))
    requires
        0 <= i < j < n <= order.len(),
        mod_has_pak(mods, order[i].id@) == pak,
        mod_has_pak(mods, order[j].id@) == pak,
    ensures
        0 <= r.0 < r.1 < ids_with(order, mods, pak, n).len(),
        ids_with(order, mods, pak, n)[r.0] == order[i].id@,
        ids_with(order, mods, pak, n)[r.1] == order[j].id@,
    decreases n,
{
    let before = ids_with(order, mods, pak, n - 1);
    if j == n - 1 {
        lemma_ids_with(order, mods, pak, n - 1);
        assert(before.contains(order[i].id@));
        let x = choose|x: int| 0 <= x < before.len() && before[x] == order[i].id@;
        (x, before.len() as int)
    } else {
        lemma_ids_in_order(order, mods, pak, n - 1, i, j)
    }
}

proof fn lemma_all_taken(wish: Seq<Seq<char>>, paks: Seq<Seq<char>>, n: int)
    requires
        0 <= n <= wish.len(),
    ensures
        forall|id: Seq<char>| #[trigger]
            taken(wish, paks, n).contains(id) <==> paks.contains(id) && wish.take(n).contains(id),
    decreases n,
{
    if n > 0 {
        lemma_all_taken(wish, paks, n - 1);
        let before = taken(wish, paks, n - 1);
        assert(wish.take(n) =~= wish.take(n - 1).push(wish[n - 1]));
        assert forall|id: Seq<char>| #[trigger]
            taken(wish, paks, n).contains(id) <==> paks.contains(id) && wish.take(n).contains(
                id,
            ) by {
            lists::lemma_push_contains(before, wish[n - 1], id);
            lists::lemma_push_contains(wish.take(n - 1), wish[n - 1], id);
            assert(before.contains(id) || !before.contains(id));
        }
    }
}

proof fn lemma_taken_in_order(
    wish: Seq<Seq<char>>,
    paks: Seq<Seq<char>>,
    n: int,
    a: int,
    b: int,
) -> (r: (int, int))
    requires
        wish.no_duplicates(),
        0 <= a < b < n <= wish.len(),
        paks.contains(wish[a]),
        paks.contains(wish[b]),
    ensures
        0 <= r.0 < r.1 < taken(wish, paks, n).len(),
        taken(wish, paks, n)[r.0] == wish[a],
        taken(wish, paks, n)[r.1] == wish[b],
    decreases n,
{
    let before = taken(wish, paks, n - 1);
    lemma_all_taken(wish, paks, n - 1);
    if b == n - 1 {
        assert(wish.take(n - 1)[a] == wish[a]);
        assert(before.contains(wish[a]));
        assert(!before.contains(wish[b])) by {
            if before.contains(wish[b]) {
                let front = wish.take(n - 1);
                let k = choose|k: int| 0 <= k < front.len() && front[k] == wish[b];
                assert(wish[k] == wish[b]);
            }
        }
        let x = choose|x: int| 0 <= x < before.len() && before[x] == wish[a];
        (x, before.len() as int)
    } else {
        lemma_taken_in_order(wish, paks, n - 1, a, b)
    }
}

proof fn lemma_left_in_order(
    paks: Seq<Seq<char>>,
    chosen: Seq<Seq<char>>,
    n: int,
    a: int,
    b: int,
) -> (r: (int, int))
    requires
        0 <= a < b < n <= paks.len(),
        !chosen.contains(paks[a]),
        !chosen.contains(paks[b]),
    ensures
        0 <= r.0 < r.1 < left_over(paks, chosen, n).len(),
        left_over(paks, chosen, n)[r.0] == paks[a],
        left_over(paks, chosen, n)[r.1] == paks[b],
    decreases n,
{
    let before = left_over(paks, chosen, n - 1);
    if b == n - 1 {
        lemma_left_over(paks, chosen, n - 1);
        assert(paks.take(n - 1)[a] == paks[a]);
        assert(before.contains(paks[a]));
        let x = choose|x: int| 0 <= x < before.len() && before[x] == paks[a];
        (x, before.len() as int)
    } else {
        lemma_left_in_order(paks, chosen, n - 1, a, b)
    }
}

/// Two places of ids in the game's order, one before the other, that are those of two
/// entries.
proof fn lemma_ids_placed(
    order: Seq<ProfileEntry>,
    mods: Seq<ModEntry>,
    wish: Seq<Seq<char>>,
    i: int,
    j: int,
) -> (r: (int, int))
    requires
        library::order_ids(order).no_duplicates(),
        wish.no_duplicates(),
        0 <= i < order.len(),
        0 <= j < order.len(),
        goes_first(order, mods, wish, i, j),
    ensures
        0 <= r.0 < r.1 < game_ids(order, mods, wish).len(),
        game_ids(order, mods, wish)[r.0] == order[i].id@,
        game_ids(order, mods, wish)[r.1] == order[j].id@,
{
    let n = order.len() as int;
    let loose = ids_with(order, mods, false, n);
    let paks = ids_with(order, mods, true, n);
    let w = wish.len() as int;
    let chosen = taken(wish, paks, w);
    let rest = left_over(paks, chosen, paks.len() as int);
    let a = order[i].id@;
    let b = order[j].id@;
    lemma_ids_with(order, mods, false, n);
    lemma_ids_with(order, mods, true, n);
    lemma_all_taken(wish, paks, w);
    lemma_left_over(paks, chosen, paks.len() as int);
    assert(wish.take(w) =~= wish);
    assert(paks.take(paks.len() as int) =~= paks);
    if !mod_has_pak(mods, a) && !mod_has_pak(mods, b) {
        lemma_ids_in_order(order, mods, false, n, i, j)
    } else if !mod_has_pak(mods, a) {
        assert(loose.contains(a));
        let x = choose|x: int| 0 <= x < loose.len() && loose[x] == a;
        assert(paks.contains(b));
        if chosen.contains(b) {
            let y = choose|y: int| 0 <= y < chosen.len() && chosen[y] == b;
            (x, loose.len() + y)
        } else {
            assert(rest.contains(b));
            let y = choose|y: int| 0 <= y < rest.len() && rest[y] == b;
            (x, loose.len() + chosen.len() + y)
        }
    } else if wish.contains(a) && wish.contains(b) {
        let (x, y) = lemma_taken_in_order(wish, paks, w, wish.index_of(a), wish.index_of(b));
        (loose.len() + x, loose.len() + y)
    } else if wish.contains(a) {
        assert(chosen.contains(a));
        assert(rest.contains(b));
        let x = choose|x: int| 0 <= x < chosen.len() && chosen[x] == a;
        let y = choose|y: int| 0 <= y < rest.len() && rest[y] == b;
        (loose.len() + x, loose.len() + chosen.len() + y)
    } else {
        let (p, q) = lemma_ids_in_order(order, mods, true, n, i, j);
        let (x, y) = lemma_left_in_order(paks, chosen, paks.len() as int, p, q);
        (loose.len() + chosen.len() + x, loose.len() + chosen.len() + y)
    }
}

/// Whether the entry at `i` is to stand before the one at `j` in the game's order: a mod
/// without a package before one with one, two without as they stood, two that the game
/// orders as it has them, one that it orders before one that it does not, and two that it
/// does not order as they stood.
pub open spec fn goes_first(
    order: Seq<ProfileEntry>,
    mods: Seq<ModEntry>,
    wish: Seq<Seq<char>>,
    i: int,
    j: int,
) -> bool {
    let a = order[i].id@;
    let b = order[j].id@;
    if !mod_has_pak(mods, a) || !mod_has_pak(mods, b) {
        !mod_has_pak(mods, a) && (mod_has_pak(mods, b) || i < j)
    } else if wish.contains(a) || wish.contains(b) {
        wish.contains(a) && (!wish.contains(b) || wish.index_of(a) < wish.index_of(b))
    } else {
        i < j
    }
}

/// Following the game's order puts mods with packages into the order that the game has, in
/// behind those without, and keeps the order of all others.
pub proof fn law_order_is_the_games(
    order: Seq<ProfileEntry>,
    mods: Seq<ModEntry>,
    wish: Seq<Seq<char>>,
    i: int,
    j: int,
)
    requires
        library::order_ids(order).no_duplicates(),
        wish.len() > 0,
        wish.no_duplicates(),
        0 <= i < order.len(),
        0 <= j < order.len(),
        goes_first(order, mods, wish, i, j),
    ensures
        exists|x: int, y: int|
            0 <= x < y < rearranged(order, mods, wish).len() && #[trigger] rearranged(
                order,
                mods,
                wish,
            )[x] == order[i] && #[trigger] rearranged(order, mods, wish)[y] == order[j],
{
    let own = library::order_ids(order);
    let ids = game_ids(order, mods, wish);
    law_game_order_keeps_mods(order, mods, wish);
    let (x, y) = lemma_ids_placed(order, mods, wish, i, j);
    lemma_last_entry(order, order[i].id@, i);
    lemma_last_entry(order, order[j].id@, j);
    let p = cli_lists::last_entry(order, order[i].id@);
    let q = cli_lists::last_entry(order, order[j].id@);
    assert(own[p] == own[i] && own[q] == own[j]);
    assert(rearranged(order, mods, wish)[x] == order[i]);
    assert(rearranged(order, mods, wish)[y] == order[j]);
}

/// Where the game has no order, nothing moves.
pub proof fn law_no_wish_moves_nothing(order: Seq<ProfileEntry>, mods: Seq<ModEntry>)
    ensures
        rearranged(order, mods, Seq::empty()) == order,
{
}

} // verus!
