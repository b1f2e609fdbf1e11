//! What holds of the list of what mods need and do not find.
use crate::dep_keys;
use crate::dep_missing;
use crate::dep_queue;
use crate::dep_queue::{DependencyStatus, ItemView};
use crate::library::ModEntry;
use crate::lists;
use crate::need_laws;
use vstd::prelude::*;

verus! {

/// Two ways to name a dependency that have the same module id in them mean the same thing,
/// and two with different module ids do not.
pub proof fn law_told_apart_by_id(a: Seq<char>, b: Seq<char>)
    requires
        dep_keys::uuid_of(a) is Some,
        dep_keys::uuid_of(b) is Some,
    ensures
        dep_queue::signature_of(a) == dep_queue::signature_of(b) <==> dep_keys::uuid_of(a)
            == dep_keys::uuid_of(b),
{
}

/// Whether the need at `d` of the mod at `i` can be looked for and is met by no mod.
pub open spec fn lacks(
    library: Seq<ModEntry>,
    mods: Seq<ModEntry>,
    deps: Seq<Vec<String>>,
    i: int,
    d: int,
) -> bool {
    0 <= i < mods.len() && 0 <= d < deps[i]@.len() && need_laws::is_amiss(
        library,
        mods[i].id@,
        deps[i]@[d]@,
    )
}

/// What a mod lacks stands in the list, as missing and with the mod's name by it.
pub proof fn law_missing_is_listed(
    library: Seq<ModEntry>,
    mods: Seq<ModEntry>,
    deps: Seq<Vec<String>>,
    i: int,
    d: int,
)
    requires
        deps.len() == mods.len(),
        lacks(library, mods, deps, i, d),
    ensures
        ({
            let list = dep_queue::missing_items(library, mods, deps, mods.len() as int);
            exists|k: int|
                0 <= k < list.len() && (#[trigger] list[k]).0 == dep_queue::signature_of(
                    deps[i]@[d]@,
                ) && list[k].1.required_by.contains(mods[i].shown_name()) && list[k].1.status
                    == DependencyStatus::Missing
        }),
{
    let list = dep_queue::missing_items(library, mods, deps, mods.len() as int);
    lemma_listed(library, mods, deps, mods.len() as int, i, d);
    lemma_reasons(library, mods, deps, mods.len() as int);
    let k = choose|k: int|
        0 <= k < list.len() && is_for(
            #[trigger] list[k],
            dep_queue::signature_of(deps[i]@[d]@),
            mods[i].shown_name(),
        );
    assert(is_sound(list[k], library, mods, deps));
}

/// Nothing stands in the list that no mod lacks: each entry is called by a need that is not
/// met, each mod named by it lacks that thing, and no thing stands in the list twice.
pub proof fn law_listed_is_missing(
    library: Seq<ModEntry>,
    mods: Seq<ModEntry>,
    deps: Seq<Vec<String>>,
    k: int,
    by: Seq<char>,
)
    requires
        deps.len() == mods.len(),
        0 <= k < dep_queue::missing_items(library, mods, deps, mods.len() as int).len(),
    ensures
        ({
            let list = dep_queue::missing_items(library, mods, deps, mods.len() as int);
            &&& exists|i: int, d: int|
                #[trigger] lacks(library, mods, deps, i, d) && list[k].1.label == deps[i]@[d]@
                    && dep_queue::signature_of(deps[i]@[d]@) == list[k].0
            &&& list[k].1.required_by.contains(by) ==> exists|i: int, d: int|
                #[trigger] lacks(library, mods, deps, i, d) && mods[i].shown_name() == by
                    && dep_queue::signature_of(deps[i]@[d]@) == list[k].0
            &&& forall|j: int| 0 <= j < list.len() && j != k ==> (#[trigger] list[j]).0 != list[k].0
        }),
{
    let list = dep_queue::missing_items(library, mods, deps, mods.len() as int);
    lemma_reasons(library, mods, deps, mods.len() as int);
    assert(is_sound(list[k], library, mods, deps));
    if list[k].1.required_by.contains(by) {
        assert(is_asked_by(list[k].0, by, library, mods, deps));
    }
    assert(told_apart(list));
}

spec fn is_for(entry: (Seq<char>, ItemView), signature: Seq<char>, by: Seq<char>) -> bool {
    entry.0 == signature && entry.1.required_by.contains(by)
}

spec fn is_asked_by(
    signature: Seq<char>,
    by: Seq<char>,
    library: Seq<ModEntry>,
    mods: Seq<ModEntry>,
    deps: Seq<Vec<String>>,
) -> bool {
    exists|i: int, d: int|
        #[trigger] lacks(library, mods, deps, i, d) && mods[i].shown_name() == by
            && dep_queue::signature_of(deps[i]@[d]@) == signature
}

spec fn is_sound(
    entry: (Seq<char>, ItemView),
    library: Seq<ModEntry>,
    mods: Seq<ModEntry>,
    deps: Seq<Vec<String>>,
) -> bool {
    &&& entry.1.status == DependencyStatus::Missing
    &&& exists|i: int, d: int|
        #[trigger] lacks(library, mods, deps, i, d) && entry.1.label == deps[i]@[d]@
            && dep_queue::signature_of(deps[i]@[d]@) == entry.0
    &&& forall|by: Seq<char>| #[trigger]
        entry.1.required_by.contains(by) ==> is_asked_by(entry.0, by, library, mods, deps)
}

spec fn told_apart(list: Seq<(Seq<char>, ItemView)>) -> bool {
    forall|a: int, b: int|
        0 <= a < list.len() && 0 <= b < list.len() && a != b ==> (#[trigger] list[a]).0 != (
        #[trigger] list[b]).0
}

proof fn lemma_place(list: Seq<(Seq<char>, ItemView)>, signature: Seq<char>)
    ensures
        ({
            let at = dep_queue::place_of(list, signature);
            &&& -1 <= at < list.len()
            &&& at >= 0 ==> list[at].0 == signature
            &&& at < 0 ==> forall|j: int|
                0 <= j < list.len() ==> (#[trigger] list[j]).0 != signature
        }),
    decreases list.len(),
{
    if list.len() > 0 {
        let front = list.drop_last();
        lemma_place(front, signature);
        assert(list[list.len() - 1] == list.last());
        assert(forall|j: int| 0 <= j < front.len() ==> front[j] == #[trigger] list[j]);
    }
}

proof fn lemma_need(list: Seq<(Seq<char>, ItemView)>, dep: Seq<char>, by: Seq<char>)
    ensures
        ({
            let after = dep_queue::with_need(list, dep, by);
            let signature = dep_queue::signature_of(dep);
            &&& after.len() >= list.len()
            &&& forall|k: int, s: Seq<char>, who: Seq<char>|
                0 <= k < list.len() && #[trigger] is_for(list[k], s, who) ==> is_for(
                    after[k],
                    s,
                    who,
                )
            &&& exists|k: int| 0 <= k < after.len() && is_for(#[trigger] after[k], signature, by)
            &&& told_apart(list) ==> told_apart(after)
        }),
{
    let after = dep_queue::with_need(list, dep, by);
    let signature = dep_queue::signature_of(dep);
    let at = dep_queue::place_of(list, signature);
    lemma_place(list, signature);
    if at >= 0 {
        let old_names = list[at].1.required_by;
        lists::lemma_push_contains(old_names, by, by);
        assert(is_for(after[at], signature, by));
        assert forall|k: int, s: Seq<char>, who: Seq<char>|
            0 <= k < list.len() && #[trigger] is_for(list[k], s, who) implies is_for(
            after[k],
            s,
            who,
        ) by {
            if k != at {
                assert(after[k] == list[k]);
            } else {
                lists::lemma_push_contains(old_names, by, who);
            }
        }
        if told_apart(list) {
            assert forall|a: int, b: int|
                0 <= a < after.len() && 0 <= b < after.len() && a != b implies (
            #[trigger] after[a]).0 != (#[trigger] after[b]).0 by {
                assert(list[a].0 != list[b].0);
            }
        }
    } else {
        let k = list.len() as int;
        let none = dep_queue::new_item(dep).required_by;
        lists::lemma_push_contains(none, by, by);
        assert(is_for(after[k], signature, by));
        assert forall|j: int, s: Seq<char>, who: Seq<char>|
            0 <= j < list.len() && #[trigger] is_for(list[j], s, who) implies is_for(
            after[j],
            s,
            who,
        ) by {
            assert(after[j] == list[j]);
        }
        if told_apart(list) {
            assert forall|a: int, b: int|
                0 <= a < after.len() && 0 <= b < after.len() && a != b implies (
            #[trigger] after[a]).0 != (#[trigger] after[b]).0 by {
                if a < k && b < k {
                    assert(list[a].0 != list[b].0);
                } else if a < k {
                    assert(list[a].0 != signature);
                } else {
                    assert(list[b].0 != signature);
                }
            }
        }
    }
}

proof fn lemma_needs(
    list: Seq<(Seq<char>, ItemView)>,
    library: Seq<ModEntry>,
    m: ModEntry,
    deps: Seq<Seq<char>>,
    n: int,
)
    requires
        0 <= n <= deps.len(),
    ensures
        ({
            let after = dep_queue::with_needs(list, library, m, deps, n);
            &&& after.len() >= list.len()
            &&& forall|k: int, s: Seq<char>, who: Seq<char>|
                0 <= k < list.len() && #[trigger] is_for(list[k], s, who) ==> is_for(
                    after[k],
                    s,
                    who,
                )
            &&& forall|d: int|
                0 <= d < n && dep_missing::is_lacking(library, #[trigger] deps[d], m.id@)
                    ==> exists|k: int|
                    0 <= k < after.len() && is_for(
                        #[trigger] after[k],
                        dep_queue::signature_of(deps[d]),
                        m.shown_name(),
                    )
            &&& told_apart(list) ==> told_apart(after)
        }),
    decreases n,
{
    if n > 0 {
        lemma_needs(list, library, m, deps, n - 1);
        let before = dep_queue::with_needs(list, library, m, deps, n - 1);
        let after = dep_queue::with_needs(list, library, m, deps, n);
        lemma_need(before, deps[n - 1], m.shown_name());
        assert forall|d: int|
            0 <= d < n && dep_missing::is_lacking(library, #[trigger] deps[d], m.id@) implies exists|
            k: int,
        |
            0 <= k < after.len() && is_for(
                #[trigger] after[k],
                dep_queue::signature_of(deps[d]),
                m.shown_name(),
            ) by {
            if d < n - 1 {
                let k = choose|k: int|
                    0 <= k < before.len() && is_for(
                        #[trigger] before[k],
                        dep_queue::signature_of(deps[d]),
                        m.shown_name(),
                    );
                assert(is_for(after[k], dep_queue::signature_of(deps[d]), m.shown_name()));
            }
        }
        assert forall|k: int, s: Seq<char>, who: Seq<char>|
            0 <= k < list.len() && #[trigger] is_for(list[k], s, who) implies is_for(
            after[k],
            s,
            who,
        ) by {
            assert(is_for(before[k], s, who));
        }
    }
}

proof fn lemma_listed(
    library: Seq<ModEntry>,
    mods: Seq<ModEntry>,
    deps: Seq<Vec<String>>,
    n: int,
    i: int,
    d: int,
)
    requires
        deps.len() == mods.len(),
        0 <= i < n <= mods.len(),
        lacks(library, mods, deps, i, d),
    ensures
        ({
            let list = dep_queue::missing_items(library, mods, deps, n);
            exists|k: int|
                0 <= k < list.len() && is_for(
                    #[trigger] list[k],
                    dep_queue::signature_of(deps[i]@[d]@),
                    mods[i].shown_name(),
                )
        }),
    decreases n,
{
    let before = dep_queue::missing_items(library, mods, deps, n - 1);
    let needs = dep_missing::needs_at(deps, n - 1);
    let after = dep_queue::missing_items(library, mods, deps, n);
    let signature = dep_queue::signature_of(deps[i]@[d]@);
    lemma_needs(before, library, mods[n - 1], needs, needs.len() as int);
    if i < n - 1 {
        lemma_listed(library, mods, deps, n - 1, i, d);
        let k = choose|k: int|
            0 <= k < before.len() && is_for(
                #[trigger] before[k],
                signature,
                mods[i].shown_name(),
            );
        assert(is_for(after[k], signature, mods[i].shown_name()));
    } else {
        assert(needs[d] == deps[i]@[d]@);
        need_laws::lemma_amiss(library, mods[i].id@, needs[d]);
        assert(dep_missing::is_lacking(library, needs[d], mods[i].id@));
    }
}

spec fn all_sound(
    list: Seq<(Seq<char>, ItemView)>,
    library: Seq<ModEntry>,
    mods: Seq<ModEntry>,
    deps: Seq<Vec<String>>,
) -> bool {
    forall|k: int| 0 <= k < list.len() ==> is_sound(#[trigger] list[k], library, mods, deps)
}

proof fn lemma_sound_need(
    list: Seq<(Seq<char>, ItemView)>,
    library: Seq<ModEntry>,
    mods: Seq<ModEntry>,
    deps: Seq<Vec<String>>,
    i: int,
    d: int,
)
    requires
        all_sound(list, library, mods, deps),
        lacks(library, mods, deps, i, d),
    ensures
        all_sound(
            dep_queue::with_need(list, deps[i]@[d]@, mods[i].shown_name()),
            library,
            mods,
            deps,
        ),
{
    let dep = deps[i]@[d]@;
    let by = mods[i].shown_name();
    let signature = dep_queue::signature_of(dep);
    let after = dep_queue::with_need(list, dep, by);
    let at = dep_queue::place_of(list, signature);
    lemma_place(list, signature);
    assert(is_asked_by(signature, by, library, mods, deps));
    assert forall|k: int| 0 <= k < after.len() implies is_sound(
        #[trigger] after[k],
        library,
        mods,
        deps,
    ) by {
        if at >= 0 {
            assert(is_sound(list[k], library, mods, deps));
            if k == at {
                let names = list[at].1.required_by;
                assert forall|who: Seq<char>| #[trigger]
                    after[k].1.required_by.contains(who) implies is_asked_by(
                    signature,
                    who,
                    library,
                    mods,
                    deps,
                ) by {
                    lists::lemma_push_contains(names, by, who);
                }
            }
        } else if k < list.len() {
            assert(is_sound(list[k], library, mods, deps));
        } else {
            let none = dep_queue::new_item(dep).required_by;
            assert forall|who: Seq<char>| #[trigger]
                after[k].1.required_by.contains(who) implies is_asked_by(
                signature,
                who,
                library,
                mods,
                deps,
            ) by {
                lists::lemma_push_contains(none, by, who);
            }
            assert(lacks(library, mods, deps, i, d) && after[k].1.label == deps[i]@[d]@);
        }
    }
}

proof fn lemma_sound_needs(
    list: Seq<(Seq<char>, ItemView)>,
    library: Seq<ModEntry>,
    mods: Seq<ModEntry>,
    deps: Seq<Vec<String>>,
    i: int,
    n: int,
)
    requires
        all_sound(list, library, mods, deps),
        0 <= i < mods.len(),
        0 <= n <= deps[i]@.len(),
    ensures
        all_sound(
            dep_queue::with_needs(
                list,
                library,
                mods[i],
                dep_missing::needs_at(deps, i),
                n,
            ),
            library,
            mods,
            deps,
        ),
    decreases n,
{
    if n > 0 {
        let needs = dep_missing::needs_at(deps, i);
        lemma_sound_needs(list, library, mods, deps, i, n - 1);
        assert(needs[n - 1] == deps[i]@[n - 1]@);
        need_laws::lemma_amiss(library, mods[i].id@, needs[n - 1]);
        if dep_missing::is_lacking(library, needs[n - 1], mods[i].id@) {
            let before = dep_queue::with_needs(list, library, mods[i], needs, n - 1);
            lemma_sound_need(before, library, mods, deps, i, n - 1);
        }
    }
}

proof fn lemma_reasons(library: Seq<ModEntry>, mods: Seq<ModEntry>, deps: Seq<Vec<String>>, n: int)
    requires
        deps.len() == mods.len(),
        0 <= n <= mods.len(),
    ensures
        all_sound(dep_queue::missing_items(library, mods, deps, n), library, mods, deps),
        told_apart(dep_queue::missing_items(library, mods, deps, n)),
    decreases n,
{
    if n > 0 {
        lemma_reasons(library, mods, deps, n - 1);
        let before = dep_queue::missing_items(library, mods, deps, n - 1);
        let needs = dep_missing::needs_at(deps, n - 1);
        lemma_sound_needs(before, library, mods, deps, n - 1, deps[n - 1]@.len() as int);
        lemma_needs(before, library, mods[n - 1], needs, needs.len() as int);
    }
}

} // verus!
