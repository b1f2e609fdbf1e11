//! What holds of the needs of mods: who meets them, who is held back, and who has to go
//! along.
use crate::actions::ActionView;
use crate::config::AppConfig;
use crate::dep_desk::DependencyDesk;
use crate::dep_keys;
use crate::dep_keys::RunKind;
use crate::dep_lookup;
use crate::dep_missing;
use crate::library;
use crate::library::{InstallTarget, Library, ModEntry, ProfileEntry};
use crate::lists;
use crate::metadata;
use crate::mod_changes;
use crate::mod_switches;
use crate::mod_view;
use crate::native_apply;
use crate::text;
use vstd::prelude::*;

verus! {

// ---------------------------------------------------------------------------
// Runs of characters
// ---------------------------------------------------------------------------

/// What cannot stand in a run parts it: the runs of a text are those before such a
/// character and those behind it.
pub proof fn law_runs_are_parted(a: Seq<char>, c: char, b: Seq<char>, kind: RunKind)
    requires
        !dep_keys::in_run(kind, c),
    ensures
        dep_keys::runs(a.push(c) + b, kind) == dep_keys::runs(a, kind) + dep_keys::runs(b, kind),
{
    let s = a.push(c) + b;
    let n = a.len() as int;
    lemma_runs_of_front(s, a, kind, n);
    assert(dep_keys::runs_upto(s, kind, n + 1) == (dep_keys::runs(a, kind), Seq::<char>::empty()))
        by {
        assert(s[n] == c);
        let (done, open) = dep_keys::runs_upto(s, kind, n);
        assert(dep_keys::runs_upto(s, kind, n + 1) == (
            done + dep_keys::if_any(open),
            Seq::<char>::empty(),
        ));
    }
    lemma_runs_of_rest(s, b, kind, n + 1, b.len() as int);
    let (done, open) = dep_keys::runs_upto(b, kind, b.len() as int);
    assert(s.len() == n + 1 + b.len());
    assert(dep_keys::runs(s, kind) =~= dep_keys::runs(a, kind) + dep_keys::runs(b, kind));
}

proof fn lemma_runs_of_front(s: Seq<char>, a: Seq<char>, kind: RunKind, n: int)
    requires
        0 <= n <= a.len() <= s.len(),
        forall|i: int| 0 <= i < a.len() ==> #[trigger] s[i] == a[i],
    ensures
        dep_keys::runs_upto(s, kind, n) == dep_keys::runs_upto(a, kind, n),
    decreases n,
{
    if n > 0 {
        lemma_runs_of_front(s, a, kind, n - 1);
        assert(s[n - 1] == a[n - 1]);
    }
}

proof fn lemma_runs_of_rest(s: Seq<char>, b: Seq<char>, kind: RunKind, from: int, n: int)
    requires
        0 <= from,
        0 <= n <= b.len(),
        s.len() == from + b.len(),
        forall|i: int| 0 <= i < b.len() ==> s[from + i] == #[trigger] b[i],
        dep_keys::runs_upto(s, kind, from).1.len() == 0,
    ensures
        dep_keys::runs_upto(s, kind, from + n).0 == dep_keys::runs_upto(s, kind, from).0
            + dep_keys::runs_upto(b, kind, n).0,
        dep_keys::runs_upto(s, kind, from + n).1 == dep_keys::runs_upto(b, kind, n).1,
    decreases n,
{
    if n > 0 {
        lemma_runs_of_rest(s, b, kind, from, n - 1);
        assert(s[from + (n - 1)] == b[n - 1]);
        assert(from + n - 1 == from + (n - 1));
        let (done, open) = dep_keys::runs_upto(b, kind, n - 1);
        let start = dep_keys::runs_upto(s, kind, from).0;
        if !dep_keys::in_run(kind, b[n - 1]) {
            assert(start + done + dep_keys::if_any(open) =~= start + (done + dep_keys::if_any(
                open,
            )));
        }
    } else {
        let start = dep_keys::runs_upto(s, kind, from).0;
        assert(start + Seq::<Seq<char>>::empty() =~= start);
        assert(dep_keys::runs_upto(s, kind, from).1 =~= Seq::<char>::empty());
    }
}

/// A text of nothing but characters of a run is one run; an empty one has none.
pub proof fn law_run_is_whole(s: Seq<char>, kind: RunKind)
    requires
        forall|i: int| 0 <= i < s.len() ==> dep_keys::in_run(kind, #[trigger] s[i]),
    ensures
        s.len() > 0 ==> dep_keys::runs(s, kind) == seq![s],
        s.len() == 0 ==> dep_keys::runs(s, kind) == Seq::<Seq<char>>::empty(),
{
    lemma_open_run(s, kind, s.len() as int);
    assert(s.take(s.len() as int) =~= s);
    assert(Seq::<Seq<char>>::empty() + dep_keys::if_any(s) =~= dep_keys::if_any(s));
}

proof fn lemma_open_run(s: Seq<char>, kind: RunKind, n: int)
    requires
        0 <= n <= s.len(),
        forall|i: int| 0 <= i < s.len() ==> dep_keys::in_run(kind, #[trigger] s[i]),
    ensures
        dep_keys::runs_upto(s, kind, n) == (Seq::<Seq<char>>::empty(), s.take(n)),
    decreases n,
{
    if n > 0 {
        lemma_open_run(s, kind, n - 1);
        assert(s.take(n) =~= s.take(n - 1).push(s[n - 1]));
    } else {
        assert(s.take(0) =~= Seq::<char>::empty());
    }
}

// ---------------------------------------------------------------------------
// Who meets a need
// ---------------------------------------------------------------------------

/// Whether a package of a mod is called by a name.
pub open spec fn pak_is_called(t: InstallTarget, name: Seq<char>) -> bool {
    t matches InstallTarget::Pak { file, info } && (file@ == name || info.uuid@ == name
        || info.folder@ == name || info.name@ == name)
}

/// Whether a mod is called by a name: its id, its name, the name that is shown, the
/// label of where it came from, or a name of one of its packages.
pub open spec fn is_called(m: ModEntry, name: Seq<char>) -> bool {
    ||| m.id@ == name
    ||| m.name@ == name
    ||| m.shown_name() == name
    ||| (m.source_label matches Some(l) && l@ == name)
    ||| exists|t: int| 0 <= t < m.targets@.len() && pak_is_called(#[trigger] m.targets@[t], name)
}

/// Whether a text has words that a mod answers to: its name, the name that is shown, its
/// label, or the file, folder or name of one of its packages. Ids have no words.
pub open spec fn has_words(m: ModEntry, whole: Seq<char>) -> bool {
    ||| m.name@ == whole
    ||| m.shown_name() == whole
    ||| (m.source_label matches Some(l) && l@ == whole)
    ||| exists|t: int|
        0 <= t < m.targets@.len() && (#[trigger] m.targets@[t] matches InstallTarget::Pak {
            file,
            info,
        } && (file@ == whole || info.folder@ == whole || info.name@ == whole))
}

/// A name that a mod answers to is one that it is called by, or a word of four letters or
/// more.
pub open spec fn is_heard(m: ModEntry, name: Seq<char>) -> bool {
    ||| is_called(m, name)
    ||| name.len() >= 4 && exists|whole: Seq<char>| #[trigger]
        has_words(m, whole) && dep_keys::runs(whole, RunKind::Word).contains(name)
}

/// Whether a name stands in a dependency: as the whole of it, as a module id in it, or as
/// one of its words.
pub open spec fn stands_in(dep: Seq<char>, name: Seq<char>) -> bool {
    ||| dep == name
    ||| metadata::is_uuid_text(name) && dep_keys::runs(dep, RunKind::Id).contains(name)
    ||| dep_keys::runs(dep, RunKind::Word).contains(name)
}

/// Whether two names are alike but for case and marks.
pub open spec fn alike(a: Seq<char>, b: Seq<char>) -> bool {
    library::label_key(a) == library::label_key(b) && library::label_key(a).len() > 0
}

/// Whether a mod and a dependency have a name in common.
pub open spec fn have_a_name(m: ModEntry, dep: Seq<char>) -> bool {
    exists|a: Seq<char>, b: Seq<char>|
        #![trigger stands_in(dep, a), is_heard(m, b)]
        stands_in(dep, a) && is_heard(m, b) && alike(a, b)
}

/// A mod answers to a dependency that names it: by its id, its name, its label, or the
/// file, module id, folder or name of one of its packages, or by a longer word of those.
pub proof fn law_named_mod_answers(mods: Seq<ModEntry>, i: int, dep: Seq<char>)
    requires
        0 <= i < mods.len(),
        have_a_name(mods[i], dep),
    ensures
        dep_missing::answers_to(mods, dep, mods[i].id@),
{
    let (a, b) = choose|a: Seq<char>, b: Seq<char>|
        #![trigger stands_in(dep, a), is_heard(mods[i], b)]
        stands_in(dep, a) && is_heard(mods[i], b) && alike(a, b);
    let key = library::label_key(a);
    lemma_called(mods[i], b);
    lemma_keyed_name(dep_lookup::mod_names(mods[i]), b);
    lemma_named_in(dep, a);
    lemma_keyed_name(dep_lookup::dependency_names(dep), a);
    assert(mods[i].id@ == mods[i].id@);
    assert(dep_lookup::answers(mods, mods[i].id@, key));
}

/// A mod answers to a dependency only by a name that the two have in common.
pub proof fn law_answers_by_name(mods: Seq<ModEntry>, dep: Seq<char>, id: Seq<char>)
    requires
        dep_missing::answers_to(mods, dep, id),
    ensures
        exists|k: int|
            0 <= k < mods.len() && (#[trigger] mods[k]).id@ == id && have_a_name(mods[k], dep),
{
    let key = choose|key: Seq<char>|
        dep_lookup::match_keys(dep).contains(key) && #[trigger] dep_lookup::answers(mods, id, key);
    let k = choose|k: int|
        0 <= k < mods.len() && #[trigger] mods[k].id@ == id && dep_lookup::mod_keys(
            mods[k],
        ).contains(key);
    let a = lemma_name_of_key(dep_lookup::dependency_names(dep), key);
    let b = lemma_name_of_key(dep_lookup::mod_names(mods[k]), key);
    lemma_stands_in(dep, a);
    lemma_heard(mods[k], b);
    assert(stands_in(dep, a) && is_heard(mods[k], b));
    assert(have_a_name(mods[k], dep));
}

proof fn lemma_keyed_name(names: Seq<Seq<char>>, name: Seq<char>)
    requires
        names.contains(name),
        library::label_key(name).len() > 0,
    ensures
        dep_lookup::keyed(names).contains(library::label_key(name)),
{
    let i = choose|i: int| 0 <= i < names.len() && names[i] == name;
    dep_lookup::lemma_keyed(names, i);
}

proof fn lemma_name_of_key(names: Seq<Seq<char>>, key: Seq<char>) -> (name: Seq<char>)
    requires
        dep_lookup::keyed(names).contains(key),
    ensures
        names.contains(name),
        library::label_key(name) == key,
        key.len() > 0,
    decreases names.len(),
{
    let front = names.drop_last();
    let last = library::label_key(names.last());
    if last.len() > 0 && last == key {
        assert(names[names.len() - 1] == names.last());
        names.last()
    } else {
        if last.len() > 0 {
            lists::lemma_push_contains(dep_lookup::keyed(front), last, key);
        }
        let name = lemma_name_of_key(front, key);
        let k = choose|k: int| 0 <= k < front.len() && front[k] == name;
        assert(names[k] == name);
        name
    }
}

proof fn lemma_sum_contains<T>(a: Seq<T>, b: Seq<T>, x: T)
    ensures
        (a + b).contains(x) <==> a.contains(x) || b.contains(x),
{
    let s = a + b;
    if a.contains(x) {
        let i = choose|i: int| 0 <= i < a.len() && a[i] == x;
        assert(s[i] == x);
    }
    if b.contains(x) {
        let i = choose|i: int| 0 <= i < b.len() && b[i] == x;
        assert(s[a.len() + i] == x);
    }
    if s.contains(x) {
        let i = choose|i: int| 0 <= i < s.len() && s[i] == x;
        if i < a.len() {
            assert(a[i] == x);
        } else {
            assert(b[i - a.len()] == x);
        }
    }
}

proof fn lemma_one_contains<T>(y: T, x: T)
    ensures
        seq![y].contains(x) <==> x == y,
{
    assert(seq![y][0] == y);
}

proof fn lemma_dependency_name(dep: Seq<char>, name: Seq<char>)
    ensures
        dep_lookup::dependency_names(dep).contains(name) <==> stands_in(dep, name),
{
    let ids = dep_keys::uuids_in(dep);
    let words = dep_keys::runs(dep, RunKind::Word);
    let keeps = |r: Seq<char>| metadata::is_uuid_text(r);
    lemma_sum_contains(seq![dep] + ids, words, name);
    lemma_sum_contains(seq![dep], ids, name);
    lemma_one_contains(dep, name);
    lists::lemma_filter_contains(dep_keys::runs(dep, RunKind::Id), keeps, name);
}

proof fn lemma_named_in(dep: Seq<char>, name: Seq<char>)
    requires
        stands_in(dep, name),
    ensures
        dep_lookup::dependency_names(dep).contains(name),
{
    lemma_dependency_name(dep, name);
}

proof fn lemma_stands_in(dep: Seq<char>, name: Seq<char>)
    requires
        dep_lookup::dependency_names(dep).contains(name),
    ensures
        stands_in(dep, name),
{
    lemma_dependency_name(dep, name);
}

proof fn lemma_with_words(s: Seq<char>, name: Seq<char>)
    ensures
        dep_lookup::with_words(s).contains(name) <==> s == name || (name.len() >= 4
            && dep_keys::runs(s, RunKind::Word).contains(name)),
{
    let keeps = |w: Seq<char>| w.len() >= 4;
    lemma_sum_contains(seq![s], dep_lookup::long_words(s), name);
    lemma_one_contains(s, name);
    lists::lemma_filter_contains(dep_keys::runs(s, RunKind::Word), keeps, name);
}

proof fn lemma_pak_step(
    before: Seq<Seq<char>>,
    file: Seq<char>,
    uuid: Seq<char>,
    folder: Seq<char>,
    called: Seq<char>,
    name: Seq<char>,
)
    ensures
        (before + dep_lookup::with_words(file) + seq![uuid] + dep_lookup::with_words(folder)
            + dep_lookup::with_words(called)).contains(name) <==> {
            ||| before.contains(name)
            ||| dep_lookup::with_words(file).contains(name)
            ||| uuid == name
            ||| dep_lookup::with_words(folder).contains(name)
            ||| dep_lookup::with_words(called).contains(name)
        },
{
    let f = dep_lookup::with_words(file);
    let d = dep_lookup::with_words(folder);
    let c = dep_lookup::with_words(called);
    lemma_sum_contains(before + f + seq![uuid] + d, c, name);
    lemma_sum_contains(before + f + seq![uuid], d, name);
    lemma_sum_contains(before + f, seq![uuid], name);
    lemma_sum_contains(before, f, name);
    lemma_one_contains(uuid, name);
}

spec fn pak_is_heard(t: InstallTarget, name: Seq<char>) -> bool {
    t matches InstallTarget::Pak { file, info } && (info.uuid@ == name
        || dep_lookup::with_words(file@).contains(name) || dep_lookup::with_words(
        info.folder@,
    ).contains(name) || dep_lookup::with_words(info.name@).contains(name))
}

proof fn lemma_pak_called(targets: Seq<InstallTarget>, n: int, t: int, name: Seq<char>)
    requires
        0 <= t < n <= targets.len(),
        pak_is_heard(targets[t], name),
    ensures
        dep_lookup::pak_names(targets, n).contains(name),
    decreases n,
{
    if t < n - 1 {
        lemma_pak_called(targets, n - 1, t, name);
    }
    if let InstallTarget::Pak { file, info } = targets[n - 1] {
        lemma_pak_step(
            dep_lookup::pak_names(targets, n - 1),
            file@,
            info.uuid@,
            info.folder@,
            info.name@,
            name,
        );
    }
}

proof fn lemma_pak_heard(m: ModEntry, n: int, name: Seq<char>)
    requires
        0 <= n <= m.targets@.len(),
        dep_lookup::pak_names(m.targets@, n).contains(name),
    ensures
        is_heard(m, name),
    decreases n,
{
    if n > 0 {
        let targets = m.targets@;
        match targets[n - 1] {
            InstallTarget::Pak { file, info } => {
                lemma_pak_step(
                    dep_lookup::pak_names(targets, n - 1),
                    file@,
                    info.uuid@,
                    info.folder@,
                    info.name@,
                    name,
                );
                lemma_with_words(file@, name);
                lemma_with_words(info.folder@, name);
                lemma_with_words(info.name@, name);
                assert(pak_is_called(targets[n - 1], file@));
                assert(pak_is_called(targets[n - 1], info.uuid@));
                assert(pak_is_called(targets[n - 1], info.folder@));
                assert(pak_is_called(targets[n - 1], info.name@));
                assert(is_called(m, file@) && is_called(m, info.uuid@) && is_called(m, info.folder@)
                    && is_called(m, info.name@));
                assert(has_words(m, file@) && has_words(m, info.folder@) && has_words(
                    m,
                    info.name@,
                ));
                if dep_lookup::pak_names(targets, n - 1).contains(name) {
                    lemma_pak_heard(m, n - 1, name);
                }
            },
            _ => {
                lemma_pak_heard(m, n - 1, name);
            },
        }
    }
}

spec fn label_names(m: ModEntry) -> Seq<Seq<char>> {
    match m.source_label {
        Some(l) => dep_lookup::with_words(l@),
        None => Seq::empty(),
    }
}

proof fn lemma_mod_names(m: ModEntry, name: Seq<char>)
    ensures
        dep_lookup::mod_names(m).contains(name) <==> {
            ||| m.id@ == name
            ||| dep_lookup::with_words(m.name@).contains(name)
            ||| dep_lookup::with_words(m.shown_name()).contains(name)
            ||| label_names(m).contains(name)
            ||| dep_lookup::pak_names(m.targets@, m.targets@.len() as int).contains(name)
        },
{
    let n = dep_lookup::with_words(m.name@);
    let s = dep_lookup::with_words(m.shown_name());
    let l = label_names(m);
    let p = dep_lookup::pak_names(m.targets@, m.targets@.len() as int);
    lemma_sum_contains(seq![m.id@] + n + s + l, p, name);
    lemma_sum_contains(seq![m.id@] + n + s, l, name);
    lemma_sum_contains(seq![m.id@] + n, s, name);
    lemma_sum_contains(seq![m.id@], n, name);
    lemma_one_contains(m.id@, name);
}

proof fn lemma_called(m: ModEntry, name: Seq<char>)
    requires
        is_heard(m, name),
    ensures
        dep_lookup::mod_names(m).contains(name),
{
    lemma_mod_names(m, name);
    lemma_with_words(m.name@, name);
    lemma_with_words(m.shown_name(), name);
    if let Some(l) = m.source_label {
        lemma_with_words(l@, name);
    }
    let n = m.targets@.len() as int;
    if is_called(m, name) {
        if exists|t: int|
            0 <= t < m.targets@.len() && pak_is_called(#[trigger] m.targets@[t], name) {
            let t = choose|t: int|
                0 <= t < m.targets@.len() && pak_is_called(#[trigger] m.targets@[t], name);
            if let InstallTarget::Pak { file, info } = m.targets@[t] {
                lemma_with_words(file@, name);
                lemma_with_words(info.folder@, name);
                lemma_with_words(info.name@, name);
            }
            lemma_pak_called(m.targets@, n, t, name);
        }
    } else {
        let whole = choose|whole: Seq<char>| #[trigger]
            has_words(m, whole) && dep_keys::runs(whole, RunKind::Word).contains(name);
        if exists|t: int|
            0 <= t < m.targets@.len() && (#[trigger] m.targets@[t] matches InstallTarget::Pak {
                file,
                info,
            } && (file@ == whole || info.folder@ == whole || info.name@ == whole)) {
            let t = choose|t: int|
                0 <= t < m.targets@.len() && (#[trigger] m.targets@[t] matches InstallTarget::Pak {
                    file,
                    info,
                } && (file@ == whole || info.folder@ == whole || info.name@ == whole));
            lemma_with_words(whole, name);
            lemma_pak_called(m.targets@, n, t, name);
        }
    }
}

proof fn lemma_heard(m: ModEntry, name: Seq<char>)
    requires
        dep_lookup::mod_names(m).contains(name),
    ensures
        is_heard(m, name),
{
    lemma_mod_names(m, name);
    lemma_with_words(m.name@, name);
    lemma_with_words(m.shown_name(), name);
    assert(is_called(m, m.id@) && is_called(m, m.name@) && is_called(m, m.shown_name()));
    assert(has_words(m, m.name@) && has_words(m, m.shown_name()));
    if let Some(l) = m.source_label {
        lemma_with_words(l@, name);
        assert(is_called(m, l@) && has_words(m, l@));
    }
    if dep_lookup::pak_names(m.targets@, m.targets@.len() as int).contains(name) {
        lemma_pak_heard(m, m.targets@.len() as int, name);
    }
}

// ---------------------------------------------------------------------------
// Who is held back
// ---------------------------------------------------------------------------

/// A mod is held back just where one of its needs can be looked for and is met by no mod:
/// neither by another nor, where the need names it, by the mod itself.
pub proof fn law_held_back_lacks(mods: Seq<ModEntry>, deps: Seq<Vec<String>>, id: Seq<char>)
    requires
        deps.len() == mods.len(),
    ensures
        dep_missing::blocked_ids(mods, deps, mods.len() as int).contains(id) <==> exists|
            i: int,
            d: int,
        |
            0 <= i < mods.len() && #[trigger] mods[i].id@ == id && 0 <= d < deps[i]@.len()
                && is_amiss(mods, id, #[trigger] deps[i]@[d]@),
        dep_missing::blocked_ids(mods, deps, mods.len() as int).no_duplicates(),
{
    lemma_held_back(mods, deps, id, mods.len() as int);
}

/// Whether a need of the mod with `id` is not met by any mod.
pub open spec fn is_amiss(mods: Seq<ModEntry>, id: Seq<char>, dep: Seq<char>) -> bool {
    &&& !dep_keys::is_unverified(dep)
    &&& forall|k: int|
        0 <= k < mods.len() && dep_missing::answers_to(mods, dep, (#[trigger] mods[k]).id@)
            ==> mods[k].id@ == id && !text::contains_text(
            text::ascii_lower(dep),
            text::ascii_lower(id),
        )
}

pub proof fn lemma_amiss(mods: Seq<ModEntry>, id: Seq<char>, dep: Seq<char>)
    ensures
        is_amiss(mods, id, dep) <==> dep_missing::is_lacking(mods, dep, id),
{
    if is_amiss(mods, id, dep) {
        assert forall|by: Seq<char>| !#[trigger] dep_missing::meets(mods, dep, id, by) by {
            if dep_missing::answers_to(mods, dep, by) {
                law_answers_by_name(mods, dep, by);
                let k = choose|k: int|
                    0 <= k < mods.len() && (#[trigger] mods[k]).id@ == by && have_a_name(
                        mods[k],
                        dep,
                    );
                assert(mods[k].id@ == by);
            }
        }
    }
    if dep_missing::is_lacking(mods, dep, id) {
        assert forall|k: int|
            0 <= k < mods.len() && dep_missing::answers_to(
                mods,
                dep,
                (#[trigger] mods[k]).id@,
            ) implies mods[k].id@ == id && !text::contains_text(
            text::ascii_lower(dep),
            text::ascii_lower(id),
        ) by {
            assert(!dep_missing::meets(mods, dep, id, mods[k].id@));
        }
    }
}

proof fn lemma_lacking(mods: Seq<ModEntry>, deps: Seq<String>, id: Seq<char>, n: int)
    requires
        0 <= n <= deps.len(),
    ensures
        dep_missing::lacking_count(mods, text::texts(deps), id, n) > 0 <==> exists|d: int|
            0 <= d < n && is_amiss(mods, id, #[trigger] deps[d]@),
    decreases n,
{
    if n > 0 {
        lemma_lacking(mods, deps, id, n - 1);
        lemma_amiss(mods, id, deps[n - 1]@);
        assert(text::texts(deps)[n - 1] == deps[n - 1]@);
        if dep_missing::lacking_count(mods, text::texts(deps), id, n - 1) > 0 {
            let d = choose|d: int| 0 <= d < n - 1 && is_amiss(mods, id, #[trigger] deps[d]@);
            assert(0 <= d < n && is_amiss(mods, id, deps[d]@));
        }
        if exists|d: int| 0 <= d < n && is_amiss(mods, id, #[trigger] deps[d]@) {
            let d = choose|d: int| 0 <= d < n && is_amiss(mods, id, #[trigger] deps[d]@);
            if d < n - 1 {
                assert(0 <= d < n - 1 && is_amiss(mods, id, deps[d]@));
            }
        }
    }
}

spec fn lacks_before(mods: Seq<ModEntry>, deps: Seq<Vec<String>>, id: Seq<char>, n: int) -> bool {
    exists|i: int, d: int|
        0 <= i < n && #[trigger] mods[i].id@ == id && 0 <= d < deps[i]@.len() && is_amiss(
            mods,
            id,
            #[trigger] deps[i]@[d]@,
        )
}

proof fn lemma_held_back(mods: Seq<ModEntry>, deps: Seq<Vec<String>>, id: Seq<char>, n: int)
    requires
        deps.len() == mods.len(),
        0 <= n <= mods.len(),
    ensures
        dep_missing::blocked_ids(mods, deps, n).contains(id) <==> lacks_before(mods, deps, id, n),
        dep_missing::blocked_ids(mods, deps, n).no_duplicates(),
    decreases n,
{
    if n > 0 {
        lemma_held_back(mods, deps, id, n - 1);
        let before = dep_missing::blocked_ids(mods, deps, n - 1);
        let here = mods[n - 1].id@;
        lemma_lacking(mods, deps[n - 1]@, here, deps[n - 1]@.len() as int);
        lists::lemma_push_contains(before, here, id);
        if lacks_before(mods, deps, id, n - 1) {
            let (i, d) = choose|i: int, d: int|
                0 <= i < n - 1 && #[trigger] mods[i].id@ == id && 0 <= d < deps[i]@.len()
                    && is_amiss(mods, id, #[trigger] deps[i]@[d]@);
            assert(mods[i].id@ == id && is_amiss(mods, id, deps[i]@[d]@));
        }
        if dep_missing::lacks_some(mods, deps, n - 1) && here == id {
            let d = choose|d: int|
                0 <= d < deps[n - 1]@.len() && is_amiss(mods, here, #[trigger] deps[n - 1]@[d]@);
            assert(mods[n - 1].id@ == id && is_amiss(mods, id, deps[n - 1]@[d]@));
        }
        if lacks_before(mods, deps, id, n) {
            let (i, d) = choose|i: int, d: int|
                0 <= i < n && #[trigger] mods[i].id@ == id && 0 <= d < deps[i]@.len() && is_amiss(
                    mods,
                    id,
                    #[trigger] deps[i]@[d]@,
                );
            if i == n - 1 {
                assert(is_amiss(mods, here, deps[n - 1]@[d]@));
            } else {
                assert(0 <= i < n - 1 && mods[i].id@ == id && is_amiss(mods, id, deps[i]@[d]@));
            }
        }
    }
}

/// A need can be looked for unless all that is known of it is an id: one that starts with
/// an underscore cannot, and one that is no module id can.
pub proof fn law_what_can_be_looked_for(dep: Seq<char>)
    ensures
        dep.len() > 0 && dep[0] == '_' ==> dep_keys::is_unverified(dep),
        (dep.len() == 0 || dep[0] != '_') && !metadata::is_uuid_text(dep)
            ==> !dep_keys::is_unverified(dep),
        metadata::is_uuid_text(dep) ==> dep_keys::is_unverified(dep),
{
    reveal_strlit("_");
    if dep.len() > 0 && dep[0] == '_' {
        assert(dep.subrange(0, 1) =~= "_"@);
    }
    if text::starts_with(dep, "_"@) {
        assert(dep.subrange(0, 1)[0] == "_"@[0]);
    }
    if metadata::is_uuid_text(dep) {
        lemma_bare_id(dep);
    }
}

/// Nothing is left to call a bare module id by.
proof fn lemma_bare_id(dep: Seq<char>)
    requires
        metadata::is_uuid_text(dep),
    ensures
        dep_keys::display_label(dep) == "Unknown dependency"@,
{
    assert forall|i: int| 0 <= i < dep.len() implies dep_keys::in_run(
        RunKind::Id,
        #[trigger] dep[i],
    ) by {
        assert(metadata::is_dash_place(i) ==> dep[i] == '-');
    }
    law_run_is_whole(dep, RunKind::Id);
    let keeps = |r: Seq<char>| metadata::is_uuid_text(r);
    let one = seq![dep];
    lists::lemma_keep_item(one, 0, keeps);
    lists::lemma_filter_whole(one, keeps);
    assert(one.take(0) =~= Seq::<Seq<char>>::empty());
    assert(one.take(1) =~= one);
    reveal(Seq::filter);
    assert(dep_keys::uuids_in(dep) =~= one);
    assert(text::stands_at(dep, dep, 0)) by {
        assert(dep.subrange(0, dep.len() as int) =~= dep);
    }
    assert(dep_keys::cut_at(dep, dep, 0) =~= Seq::<char>::empty());
    let none = Seq::<char>::empty();
    assert(text::swap_char(none, '_', ' ') =~= none);
    assert(text::swap_char(none, '-', ' ') =~= none);
    assert(text::words(none) =~= Seq::<Seq<char>>::empty());
    assert(text::join(Seq::<Seq<char>>::empty(), " "@) =~= none);
}

// ---------------------------------------------------------------------------
// Who needs a mod
// ---------------------------------------------------------------------------

/// The mods that need a mod are the others that state a need it answers to, each under
/// its id and the name that is shown.
pub proof fn law_dependents_need_it(
    mods: Seq<ModEntry>,
    deps: Seq<Vec<String>>,
    t: int,
    id: Seq<char>,
    name: Seq<char>,
)
    requires
        deps.len() == mods.len(),
        0 <= t < mods.len(),
        forall|k: int| 0 <= k < mods.len() && k != t ==> (#[trigger] mods[k]).id@ != mods[t].id@,
    ensures
        dep_missing::dependents(mods, deps, mods[t].id@, mods.len() as int).contains((id, name))
            <==> exists|i: int, d: int|
            0 <= i < mods.len() && i != t && #[trigger] mods[i].id@ == id && mods[i].shown_name()
                == name && 0 <= d < deps[i]@.len() && dep_missing::answers_to(
                mods,
                #[trigger] deps[i]@[d]@,
                mods[t].id@,
            ),
{
    native_apply::lemma_first_mod(mods, mods[t].id@);
    assert(mod_changes::is_first_mod(mods, mods[t].id@, t));
    lemma_dependents(mods, deps, t, id, name, mods.len() as int);
}

spec fn needs_before(
    mods: Seq<ModEntry>,
    deps: Seq<Vec<String>>,
    t: int,
    id: Seq<char>,
    name: Seq<char>,
    n: int,
) -> bool {
    exists|i: int, d: int|
        0 <= i < n && i != t && #[trigger] mods[i].id@ == id && mods[i].shown_name() == name && 0
            <= d < deps[i]@.len() && dep_missing::answers_to(
            mods,
            #[trigger] deps[i]@[d]@,
            mods[t].id@,
        )
}

proof fn lemma_needs_one(mods: Seq<ModEntry>, deps: Seq<Vec<String>>, t: int, i: int)
    requires
        deps.len() == mods.len(),
        0 <= t < mods.len(),
        0 <= i < mods.len(),
        forall|k: int| 0 <= k < mods.len() && k != t ==> (#[trigger] mods[k]).id@ != mods[t].id@,
    ensures
        dep_missing::needs_one_of(dep_missing::needs_at(deps, i), dep_lookup::mod_keys(mods[t]))
            <==> exists|d: int|
            0 <= d < deps[i]@.len() && dep_missing::answers_to(
                mods,
                #[trigger] deps[i]@[d]@,
                mods[t].id@,
            ),
{
    let needs = dep_missing::needs_at(deps, i);
    let keys = dep_lookup::mod_keys(mods[t]);
    if dep_missing::needs_one_of(needs, keys) {
        let (d, key) = choose|d: int, key: Seq<char>|
            0 <= d < needs.len() && #[trigger] dep_lookup::match_keys(needs[d]).contains(key)
                && keys.contains(key);
        assert(needs[d] == deps[i]@[d]@);
        assert(mods[t].id@ == mods[t].id@);
        assert(dep_lookup::answers(mods, mods[t].id@, key));
        assert(dep_missing::answers_to(mods, deps[i]@[d]@, mods[t].id@));
    }
    if exists|d: int|
        0 <= d < deps[i]@.len() && dep_missing::answers_to(
            mods,
            #[trigger] deps[i]@[d]@,
            mods[t].id@,
        ) {
        let d = choose|d: int|
            0 <= d < deps[i]@.len() && dep_missing::answers_to(
                mods,
                #[trigger] deps[i]@[d]@,
                mods[t].id@,
            );
        let key = choose|key: Seq<char>|
            dep_lookup::match_keys(deps[i]@[d]@).contains(key) && #[trigger] dep_lookup::answers(
                mods,
                mods[t].id@,
                key,
            );
        assert(needs[d] == deps[i]@[d]@);
        assert(dep_lookup::match_keys(needs[d]).contains(key) && keys.contains(key));
    }
}

proof fn lemma_dependents(
    mods: Seq<ModEntry>,
    deps: Seq<Vec<String>>,
    t: int,
    id: Seq<char>,
    name: Seq<char>,
    n: int,
)
    requires
        deps.len() == mods.len(),
        0 <= t < mods.len(),
        0 <= n <= mods.len(),
        native_apply::first_mod(mods, mods[t].id@) == t,
        forall|k: int| 0 <= k < mods.len() && k != t ==> (#[trigger] mods[k]).id@ != mods[t].id@,
    ensures
        dep_missing::dependents(mods, deps, mods[t].id@, n).contains((id, name)) <==> needs_before(
            mods,
            deps,
            t,
            id,
            name,
            n,
        ),
    decreases n,
{
    if n > 0 {
        lemma_dependents(mods, deps, t, id, name, n - 1);
        lemma_needs_one(mods, deps, t, n - 1);
        let before = dep_missing::dependents(mods, deps, mods[t].id@, n - 1);
        let m = mods[n - 1];
        lists::lemma_push_contains(before, (m.id@, m.shown_name()), (id, name));
        if needs_before(mods, deps, t, id, name, n - 1) {
            let (i, d) = choose|i: int, d: int|
                0 <= i < n - 1 && i != t && #[trigger] mods[i].id@ == id && mods[i].shown_name()
                    == name && 0 <= d < deps[i]@.len() && dep_missing::answers_to(
                    mods,
                    #[trigger] deps[i]@[d]@,
                    mods[t].id@,
                );
            assert(mods[i].id@ == id && dep_missing::answers_to(
                mods,
                deps[i]@[d]@,
                mods[t].id@,
            ));
        }
        if m.id@ != mods[t].id@ && dep_missing::needs_one_of(
            dep_missing::needs_at(deps, n - 1),
            dep_lookup::mod_keys(mods[t]),
        ) && id == m.id@ && name == m.shown_name() {
            let d = choose|d: int|
                0 <= d < deps[n - 1]@.len() && dep_missing::answers_to(
                    mods,
                    #[trigger] deps[n - 1]@[d]@,
                    mods[t].id@,
                );
            assert(mods[n - 1].id@ == id && dep_missing::answers_to(
                mods,
                deps[n - 1]@[d]@,
                mods[t].id@,
            ));
        }
        if needs_before(mods, deps, t, id, name, n) {
            let (i, d) = choose|i: int, d: int|
                0 <= i < n && i != t && #[trigger] mods[i].id@ == id && mods[i].shown_name()
                    == name && 0 <= d < deps[i]@.len() && dep_missing::answers_to(
                    mods,
                    #[trigger] deps[i]@[d]@,
                    mods[t].id@,
                );
            if i == n - 1 {
                assert(m.id@ != mods[t].id@);
                assert(dep_missing::answers_to(mods, deps[n - 1]@[d]@, mods[t].id@));
            } else {
                assert(0 <= i < n - 1 && mods[i].id@ == id && dep_missing::answers_to(
                    mods,
                    deps[i]@[d]@,
                    mods[t].id@,
                ));
            }
        }
    }
}

// ---------------------------------------------------------------------------
// Switching on what is needed
// ---------------------------------------------------------------------------

/// Switching mods counts the entries that it changes: none just where the order stays as
/// it is, and one more for each entry that was the other way.
pub proof fn law_switch_counts_changes(
    order: Seq<ProfileEntry>,
    last: ProfileEntry,
    ids: Seq<Seq<char>>,
    enabled: bool,
)
    ensures
        ({
            let more = order.push(last);
            let changed = mod_changes::switch_count(order, ids, enabled, order.len() as int);
            let now = mod_changes::switch_count(more, ids, enabled, more.len() as int);
            &&& now == changed + if mod_changes::switched(more, ids, enabled).last().enabled
                == last.enabled {
                0nat
            } else {
                1nat
            }
            &&& mod_changes::switched(more, ids, enabled).drop_last() == mod_changes::switched(
                order,
                ids,
                enabled,
            )
        }),
        mod_changes::switch_count(Seq::empty(), ids, enabled, 0) == 0,
{
    let more = order.push(last);
    lemma_count_of_front(more, order, ids, enabled, order.len() as int);
    assert(more[more.len() - 1] == last);
    assert(mod_changes::switched(more, ids, enabled).drop_last() =~= mod_changes::switched(
        order,
        ids,
        enabled,
    ));
}

proof fn lemma_count_of_front(
    more: Seq<ProfileEntry>,
    order: Seq<ProfileEntry>,
    ids: Seq<Seq<char>>,
    enabled: bool,
    n: int,
)
    requires
        0 <= n <= order.len() <= more.len(),
        forall|i: int| 0 <= i < order.len() ==> #[trigger] more[i] == order[i],
    ensures
        mod_changes::switch_count(more, ids, enabled, n) == mod_changes::switch_count(
            order,
            ids,
            enabled,
            n,
        ),
    decreases n,
{
    if n > 0 {
        lemma_count_of_front(more, order, ids, enabled, n - 1);
        assert(more[n - 1] == order[n - 1]);
    }
}

/// Switching mods changes the entries of those mods and no others, and those as asked.
pub proof fn law_switch_is_of_the_asked(
    order: Seq<ProfileEntry>,
    ids: Seq<Seq<char>>,
    enabled: bool,
    i: int,
)
    requires
        0 <= i < order.len(),
    ensures
        ({
            let after = mod_changes::switched(order, ids, enabled)[i];
            &&& after.id == order[i].id
            &&& after.enabled != order[i].enabled ==> ids.contains(order[i].id@)
            &&& ids.contains(order[i].id@) ==> after.enabled == enabled
        }),
{
}

/// Where a mod to be switched on states a need that can be looked for and that no mod
/// answers to, the library stays as it is.
pub proof fn law_nothing_on_without_needs(
    after: Library,
    desk_after: DependencyDesk,
    before: Library,
    desk: DependencyDesk,
    ids: Seq<Seq<char>>,
    deps: Seq<Vec<String>>,
    config: AppConfig,
    says: Seq<ActionView>,
    j: int,
    i: int,
    d: int,
)
    requires
        mod_switches::enable_done(after, desk_after, before, desk, ids, deps, config, says),
        deps.len() == before.mods@.len(),
        0 <= j < ids.len(),
        mod_changes::is_first_mod(before.mods@, ids[j], i),
        0 <= d < deps[i]@.len(),
        !dep_keys::is_unverified(deps[i]@[d]@),
        forall|k: int| 0 <= k < before.mods@.len() ==> !dep_missing::answers_to(
            before.mods@,
            deps[i]@[d]@,
            (#[trigger] before.mods@[k]).id@,
        ),
    ensures
        after == before,
{
    let mods = before.mods@;
    let dep = deps[i]@[d]@;
    let places = mod_switches::places_of(mods, ids, ids.len() as int);
    let needs = mod_switches::needs_of(deps, places, places.len() as int);
    native_apply::lemma_first_mod(mods, ids[j]);
    lemma_place_listed(mods, ids, ids.len() as int, j);
    let p = choose|p: int| 0 <= p < places.len() && places[p] == i;
    lemma_need_listed(deps, places, places.len() as int, p, d);
    let q = choose|q: int| 0 <= q < needs.len() && needs[q] == dep;
    assert(mod_switches::is_unmet(mods, needs[q])) by {
        assert forall|by: Seq<char>| !#[trigger] dep_missing::answers_to(mods, dep, by) by {
            if dep_missing::answers_to(mods, dep, by) {
                law_answers_by_name(mods, dep, by);
                let k = choose|k: int|
                    0 <= k < mods.len() && (#[trigger] mods[k]).id@ == by && have_a_name(
                        mods[k],
                        dep,
                    );
                assert(!dep_missing::answers_to(mods, dep, mods[k].id@));
            }
        }
    }
    assert(mod_switches::some_unmet(mods, needs));
}

proof fn lemma_place_listed(mods: Seq<ModEntry>, ids: Seq<Seq<char>>, n: int, j: int)
    requires
        0 <= j < n <= ids.len(),
        native_apply::first_mod(mods, ids[j]) >= 0,
    ensures
        mod_switches::places_of(mods, ids, n).contains(native_apply::first_mod(mods, ids[j])),
    decreases n,
{
    let at = native_apply::first_mod(mods, ids[n - 1]);
    let want = native_apply::first_mod(mods, ids[j]);
    let before = mod_switches::places_of(mods, ids, n - 1);
    if j < n - 1 {
        lemma_place_listed(mods, ids, n - 1, j);
    }
    lists::lemma_push_contains(before, at, want);
}

proof fn lemma_need_listed(deps: Seq<Vec<String>>, places: Seq<int>, n: int, p: int, d: int)
    requires
        0 <= p < n <= places.len(),
        0 <= d < deps[places[p]]@.len(),
    ensures
        mod_switches::needs_of(deps, places, n).contains(deps[places[p]]@[d]@),
    decreases n,
{
    let before = mod_switches::needs_of(deps, places, n - 1);
    let here = dep_missing::needs_at(deps, places[n - 1]);
    let want = deps[places[p]]@[d]@;
    lemma_sum_contains(before, here, want);
    if p < n - 1 {
        lemma_need_listed(deps, places, n - 1, p, d);
    } else {
        assert(here[d] == want);
    }
}

/// Where every need of the mods to be switched on either cannot be looked for or is
/// answered by some mod, the mods are on afterwards, and so is what answers their needs.
pub proof fn law_met_needs_let_on(
    after: Library,
    desk_after: DependencyDesk,
    before: Library,
    desk: DependencyDesk,
    ids: Seq<Seq<char>>,
    deps: Seq<Vec<String>>,
    config: AppConfig,
    says: Seq<ActionView>,
    j: int,
    i: int,
    e: int,
)
    requires
        mod_switches::enable_done(after, desk_after, before, desk, ids, deps, config, says),
        deps.len() == before.mods@.len(),
        mod_changes::active_place(before) >= 0,
        0 <= j < ids.len(),
        mod_changes::is_first_mod(before.mods@, ids[j], i),
        forall|a: int, b: int, d: int|
            0 <= a < ids.len() && #[trigger] mod_changes::is_first_mod(before.mods@, ids[a], b)
                && 0 <= d < deps[b]@.len() ==> is_served(before.mods@, #[trigger] deps[b]@[d]@),
        0 <= e < mod_view::active_order(before).len(),
    ensures
        ids.contains(mod_view::active_order(before)[e].id@) ==> mod_view::active_order(
            after,
        )[e].enabled,
        (exists|d: int|
            0 <= d < deps[i]@.len() && dep_missing::answers_to(
                before.mods@,
                #[trigger] deps[i]@[d]@,
                mod_view::active_order(before)[e].id@,
            )) ==> mod_view::active_order(after)[e].enabled,
{
    let mods = before.mods@;
    let n = ids.len() as int;
    let places = mod_switches::places_of(mods, ids, n);
    let needs = mod_switches::needs_of(deps, places, places.len() as int);
    native_apply::lemma_first_mod(mods, ids[j]);
    lemma_place_listed(mods, ids, n, j);
    let p = choose|p: int| 0 <= p < places.len() && places[p] == i;
    if mod_switches::some_unmet(mods, needs) {
        let q = choose|q: int| 0 <= q < needs.len() && mod_switches::is_unmet(
            mods,
            #[trigger] needs[q],
        );
        let (at, d) = lemma_need_of(deps, places, places.len() as int, q);
        let a = lemma_place_of(mods, ids, n, at);
        native_apply::lemma_first_mod(mods, ids[a]);
        assert(mod_changes::is_first_mod(mods, ids[a], places[at]));
        assert(is_served(mods, deps[places[at]]@[d]@));
    }
    let id = mod_view::active_order(before)[e].id@;
    if exists|d: int|
        0 <= d < deps[i]@.len() && dep_missing::answers_to(mods, #[trigger] deps[i]@[d]@, id) {
        let d = choose|d: int|
            0 <= d < deps[i]@.len() && dep_missing::answers_to(mods, #[trigger] deps[i]@[d]@, id);
        lemma_need_listed(deps, places, places.len() as int, p, d);
        let q = choose|q: int| 0 <= q < needs.len() && needs[q] == deps[i]@[d]@;
        assert(dep_missing::answers_to(mods, needs[q], id));
        assert(mod_switches::is_needed(mods, needs, id));
    }
    if ids.contains(id) || mod_switches::is_needed(mods, needs, id) {
        mod_switches::law_needed_are_on(after, before, ids, needs, e);
    }
}

/// Whether a need cannot be looked for or is answered by some mod.
pub open spec fn is_served(mods: Seq<ModEntry>, dep: Seq<char>) -> bool {
    dep_keys::is_unverified(dep) || exists|k: int|
        0 <= k < mods.len() && dep_missing::answers_to(mods, dep, (#[trigger] mods[k]).id@)
}

proof fn lemma_need_of(deps: Seq<Vec<String>>, places: Seq<int>, n: int, q: int) -> (r: (int, int))
    requires
        0 <= n <= places.len(),
        0 <= q < mod_switches::needs_of(deps, places, n).len(),
    ensures
        0 <= r.0 < n,
        0 <= r.1 < deps[places[r.0]]@.len(),
        mod_switches::needs_of(deps, places, n)[q] == deps[places[r.0]]@[r.1]@,
    decreases n,
{
    if n <= 0 {
        (0int, 0int)
    } else {
        let before = mod_switches::needs_of(deps, places, n - 1);
        let here = dep_missing::needs_at(deps, places[n - 1]);
        if q < before.len() {
            lemma_need_of(deps, places, n - 1, q)
        } else {
            assert(mod_switches::needs_of(deps, places, n)[q] == here[q - before.len()]);
            (n - 1, q - before.len())
        }
    }
}

proof fn lemma_place_of(mods: Seq<ModEntry>, ids: Seq<Seq<char>>, n: int, p: int) -> (a: int)
    requires
        0 <= n <= ids.len(),
        0 <= p < mod_switches::places_of(mods, ids, n).len(),
    ensures
        0 <= a < n,
        native_apply::first_mod(mods, ids[a]) == mod_switches::places_of(mods, ids, n)[p],
        native_apply::first_mod(mods, ids[a]) >= 0,
    decreases n,
{
    if n <= 0 {
        0int
    } else {
        let before = mod_switches::places_of(mods, ids, n - 1);
        if p < before.len() {
            lemma_place_of(mods, ids, n - 1, p)
        } else {
            n - 1
        }
    }
}

/// Where mods were switched on, all that is now on was on before, was asked for, or
/// answers to a need of a mod that was asked for.
pub proof fn law_on_for_a_reason(
    after: Library,
    before: Library,
    ids: Seq<Seq<char>>,
    needs: Seq<Seq<char>>,
    i: int,
)
    requires
        mod_changes::active_place(before) >= 0,
        mod_switches::switched_in_active(
            after,
            before,
            mod_switches::with_needed(ids, before.mods@, needs),
            true,
        ),
        0 <= i < mod_view::active_order(before).len(),
    ensures
        mod_view::active_order(after).len() == mod_view::active_order(before).len(),
        mod_view::active_order(after)[i].id == mod_view::active_order(before)[i].id,
        mod_view::active_order(after)[i].enabled ==> {
            let id = mod_view::active_order(before)[i].id@;
            ||| mod_view::active_order(before)[i].enabled
            ||| ids.contains(id)
            ||| exists|d: int|
                0 <= d < needs.len() && dep_missing::answers_to(
                    before.mods@,
                    #[trigger] needs[d],
                    id,
                )
        },
        mod_view::active_order(before)[i].enabled ==> mod_view::active_order(after)[i].enabled,
{
    let list = mod_switches::with_needed(ids, before.mods@, needs);
    mod_switches::lemma_with_needed_is(ids, before.mods@, needs);
    assert(forall|k: int| 0 <= k < before.profiles@.len() ==> (#[trigger] after.profiles@[k]).name
        == before.profiles@[k].name);
    mod_switches::lemma_same_names(after.profiles@, before.profiles@, before.active_profile@);
    let id = mod_view::active_order(before)[i].id@;
    if list.contains(id) {
        assert(ids.contains(id) || mod_switches::is_needed(before.mods@, needs, id));
    }
}

} // verus!
