//! Orders: the order of texts, sorting by a strict order, and lists of texts
//! that are sorted and hold nothing twice.
use crate::text;
use crate::text::same_text;
use vstd::prelude::*;

verus! {

// ---------------------------------------------------------------------------
// The order of texts
// ---------------------------------------------------------------------------

/// Whether text `a` comes before text `b`: at the first difference it has the
/// smaller character, or it is a proper prefix of `b`.
pub open spec fn text_before(a: Seq<char>, b: Seq<char>) -> bool
    decreases a.len(),
{
    if b.len() == 0 {
        false
    } else if a.len() == 0 {
        true
    } else if a[0] == b[0] {
        text_before(a.drop_first(), b.drop_first())
    } else {
        a[0] < b[0]
    }
}

pub proof fn lemma_text_before_asymmetric(a: Seq<char>, b: Seq<char>)
    requires
        text_before(a, b),
    ensures
        !text_before(b, a),
    decreases a.len(),
{
    if a.len() > 0 && b.len() > 0 && a[0] == b[0] {
        lemma_text_before_asymmetric(a.drop_first(), b.drop_first());
    }
}

pub proof fn lemma_text_before_irreflexive(a: Seq<char>)
    ensures
        !text_before(a, a),
    decreases a.len(),
{
    if a.len() > 0 {
        lemma_text_before_irreflexive(a.drop_first());
    }
}

pub proof fn lemma_text_before_transitive(a: Seq<char>, b: Seq<char>, c: Seq<char>)
    requires
        text_before(a, b),
        text_before(b, c),
    ensures
        text_before(a, c),
    decreases a.len(),
{
    if a.len() > 0 && b.len() > 0 && c.len() > 0 && a[0] == b[0] && b[0] == c[0] {
        lemma_text_before_transitive(a.drop_first(), b.drop_first(), c.drop_first());
    }
}

/// Of two different texts one comes before the other.
pub proof fn lemma_text_before_total(a: Seq<char>, b: Seq<char>)
    ensures
        a == b || text_before(a, b) || text_before(b, a),
    decreases a.len(),
{
    if a.len() == 0 && b.len() == 0 {
        assert(a =~= b);
    } else if a.len() > 0 && b.len() > 0 && a[0] == b[0] {
        lemma_text_before_total(a.drop_first(), b.drop_first());
        if a.drop_first() == b.drop_first() {
            assert(a =~= seq![a[0]] + a.drop_first());
            assert(b =~= seq![b[0]] + b.drop_first());
        }
    }
}

pub proof fn lemma_text_before_splits(a: Seq<char>, b: Seq<char>, c: Seq<char>)
    requires
        text_before(a, b),
    ensures
        text_before(a, c) || text_before(c, b),
{
    lemma_text_before_total(a, c);
    if text_before(c, a) {
        lemma_text_before_transitive(c, a, b);
    }
}

pub fn is_text_before(a: &str, b: &str) -> (r: bool)
    ensures
        r == text_before(a@, b@),
{
    let mut left = a.chars();
    let mut right = b.chars();
    let ghost mut i: int = 0;
    assert(a@.skip(0) =~= a@);
    assert(b@.skip(0) =~= b@);
    loop
        invariant
            0 <= i <= a@.len(),
            i <= b@.len(),
            vstd::std_specs::iter::IteratorSpec::obeys_prophetic_iter_laws(&left),
            vstd::std_specs::iter::IteratorSpec::obeys_prophetic_iter_laws(&right),
            vstd::std_specs::iter::IteratorSpec::remaining(&left) == a@.skip(i),
            vstd::std_specs::iter::IteratorSpec::remaining(&right) == b@.skip(i),
            text_before(a@.skip(i), b@.skip(i)) == text_before(a@, b@),
        decreases a@.len() - i,
    {
        let x = left.next();
        let y = right.next();
        match (x, y) {
            (Some(c), Some(d)) => {
                assert(a@.skip(i)[0] == c && b@.skip(i)[0] == d);
                if c != d {
                    return c < d;
                }
                proof {
                    assert(a@.skip(i).drop_first() =~= a@.skip(i + 1));
                    assert(b@.skip(i).drop_first() =~= b@.skip(i + 1));
                    i = i + 1;
                }
            },
            (None, Some(_)) => {
                return true;
            },
            (_, None) => {
                return false;
            },
        }
    }
}

// ---------------------------------------------------------------------------
// Sorting by a strict order
// ---------------------------------------------------------------------------

/// Where `x` goes among `s`: in front of the first value that does not come before
/// it.
pub open spec fn place_by<T>(s: Seq<T>, x: T, before: spec_fn(T, T) -> bool, from: int) -> int
    decreases s.len() - from,
{
    if from < 0 || from >= s.len() || !before(s[from], x) {
        from
    } else {
        place_by(s, x, before, from + 1)
    }
}

/// The values in order, those that stay as they are among themselves where neither
/// comes before the other.
pub open spec fn ranking_by<T>(s: Seq<T>, before: spec_fn(T, T) -> bool) -> Seq<T>
    decreases s.len(),
{
    if s.len() == 0 {
        s
    } else {
        let rest = ranking_by(s.skip(1), before);
        rest.insert(place_by(rest, s[0], before, 0), s[0])
    }
}

proof fn lemma_place_by<T>(s: Seq<T>, x: T, before: spec_fn(T, T) -> bool, from: int)
    requires
        0 <= from <= s.len(),
    ensures
        from <= place_by(s, x, before, from) <= s.len(),
        forall|i: int| from <= i < place_by(s, x, before, from) ==> before(#[trigger] s[i], x),
        place_by(s, x, before, from) < s.len() ==> !before(
            s[place_by(s, x, before, from)],
            x,
        ),
    decreases s.len() - from,
{
    if from < s.len() && before(s[from], x) {
        lemma_place_by(s, x, before, from + 1);
    }
}

/// Ordering the values keeps them all.
pub proof fn law_ranking_permutes<T>(s: Seq<T>, before: spec_fn(T, T) -> bool)
    ensures
        ranking_by(s, before).len() == s.len(),
        ranking_by(s, before).to_multiset() == s.to_multiset(),
    decreases s.len(),
{
    if s.len() > 0 {
        law_ranking_permutes(s.skip(1), before);
        let rest = ranking_by(s.skip(1), before);
        lemma_place_by(rest, s[0], before, 0);
        lemma_insert_multiset(rest, place_by(rest, s[0], before, 0), s[0]);
        lemma_insert_multiset(s.skip(1), 0, s[0]);
        assert(s.skip(1).insert(0, s[0]) =~= s);
    }
}

/// The values are in order: none comes before one that stands in front of it.
pub proof fn law_ranking_in_order<T>(s: Seq<T>, before: spec_fn(T, T) -> bool)
    requires
        forall|a: T, b: T| #[trigger] before(a, b) ==> !before(b, a),
        forall|a: T, b: T, c: T|
            #![trigger before(a, c), before(c, b)]
            before(a, b) ==> before(a, c) || before(c, b),
    ensures
        forall|i: int, j: int|
            0 <= i < j < ranking_by(s, before).len() ==> !before(
                #[trigger] ranking_by(s, before)[j],
                #[trigger] ranking_by(s, before)[i],
            ),
    decreases s.len(),
{
    if s.len() > 0 {
        law_ranking_in_order(s.skip(1), before);
        let r = ranking_by(s.skip(1), before);
        let x = s[0];
        let k = place_by(r, x, before, 0);
        lemma_place_by(r, x, before, 0);
        let t = r.insert(k, x);
        assert forall|i: int, j: int| 0 <= i < j < t.len() implies !before(
            #[trigger] t[j],
            #[trigger] t[i],
        ) by {
            if j == k {
                assert(t[i] == r[i]);
                assert(before(r[i], x));
            } else if i == k {
                assert(t[j] == r[j - 1]);
                assert(!before(r[k], x));
                if before(r[j - 1], x) {
                    assert(before(r[j - 1], r[k]) || before(r[k], x));
                    assert(j - 1 != k);
                }
            } else {
                let a = if i < k {
                    i
                } else {
                    i - 1
                };
                let b = if j < k {
                    j
                } else {
                    j - 1
                };
                assert(t[i] == r[a] && t[j] == r[b]);
            }
        }
    }
}

pub proof fn lemma_ranking_members<T>(s: Seq<T>, before: spec_fn(T, T) -> bool, k: int)
    requires
        0 <= k < ranking_by(s, before).len(),
    ensures
        s.contains(ranking_by(s, before)[k]),
    decreases s.len(),
{
    if s.len() > 0 {
        let rest = ranking_by(s.skip(1), before);
        lemma_place_by(rest, s[0], before, 0);
        let at = place_by(rest, s[0], before, 0);
        if k == at {
            assert(s.contains(s[0]));
        } else {
            let q = if k < at {
                k
            } else {
                k - 1
            };
            lemma_ranking_members(s.skip(1), before, q);
            let j = choose|j: int| 0 <= j < s.skip(1).len() && s.skip(1)[j] == rest[q];
            assert(s[j + 1] == rest[q]);
        }
    }
}

pub proof fn lemma_in_ranking<T>(s: Seq<T>, before: spec_fn(T, T) -> bool, x: T)
    requires
        s.contains(x),
    ensures
        ranking_by(s, before).contains(x),
{
    broadcast use vstd::seq_lib::group_to_multiset_ensures;

    law_ranking_permutes(s, before);
    assert(s.to_multiset().count(x) > 0);
}

/// Whether a reading of the values keeps the order among them.
pub open spec fn keeps_order<A, B>(
    s: Seq<A>,
    f: spec_fn(A) -> B,
    before: spec_fn(A, A) -> bool,
    other: spec_fn(B, B) -> bool,
) -> bool {
    forall|x: A, y: A|
        s.contains(x) && s.contains(y) ==> #[trigger] before(x, y) == other(f(x), f(y))
}

/// Ordering commutes with a reading of the values that keeps the order.
pub proof fn lemma_ranking_map<A, B>(
    s: Seq<A>,
    f: spec_fn(A) -> B,
    before: spec_fn(A, A) -> bool,
    other: spec_fn(B, B) -> bool,
)
    requires
        keeps_order(s, f, before, other),
    ensures
        ranking_by(s, before).map_values(f) == ranking_by(s.map_values(f), other),
    decreases s.len(),
{
    if s.len() > 0 {
        assert forall|x: A| s.skip(1).contains(x) implies s.contains(x) by {
            let j = choose|j: int| 0 <= j < s.skip(1).len() && s.skip(1)[j] == x;
            assert(s[j + 1] == x);
        }
        lemma_ranking_map(s.skip(1), f, before, other);
        let rest = ranking_by(s.skip(1), before);
        assert(s.map_values(f).skip(1) =~= s.skip(1).map_values(f));
        assert forall|k: int| 0 <= k < rest.len() implies before(#[trigger] rest[k], s[0]) == other(
            f(rest[k]),
            f(s[0]),
        ) by {
            lemma_ranking_members(s.skip(1), before, k);
            assert(s.contains(rest[k]));
            assert(s.contains(s[0]));
        }
        lemma_place_map(rest, s[0], f, before, other, 0);
        lemma_place_by(rest, s[0], before, 0);
        let k = place_by(rest, s[0], before, 0);
        assert(rest.insert(k, s[0]).map_values(f) =~= rest.map_values(f).insert(k, f(s[0])));
    } else {
        assert(s.map_values(f) =~= Seq::<B>::empty());
        assert(ranking_by(s, before).map_values(f) =~= Seq::<B>::empty());
    }
}

proof fn lemma_place_map<A, B>(
    s: Seq<A>,
    x: A,
    f: spec_fn(A) -> B,
    before: spec_fn(A, A) -> bool,
    other: spec_fn(B, B) -> bool,
    from: int,
)
    requires
        0 <= from <= s.len(),
        forall|k: int| 0 <= k < s.len() ==> before(#[trigger] s[k], x) == other(f(s[k]), f(x)),
    ensures
        place_by(s, x, before, from) == place_by(s.map_values(f), f(x), other, from),
    decreases s.len() - from,
{
    if from < s.len() {
        assert(before(s[from], x) == other(f(s[from]), f(x)));
        lemma_place_map(s, x, f, before, other, from + 1);
    }
}

/// Values with a strict order.
pub trait Ranked: Sized {
    spec fn before(self, other: Self) -> bool;

    proof fn before_asymmetric(a: Self, b: Self)
        requires
            a.before(b),
        ensures
            !b.before(a),
    ;

    proof fn before_splits(a: Self, b: Self, c: Self)
        requires
            a.before(b),
        ensures
            a.before(c) || c.before(b),
    ;

    fn is_before(&self, other: &Self) -> (r: bool)
        ensures
            r == self.before(*other),
    ;
}

/// The order of a type, as a relation.
pub open spec fn order_of<T: Ranked>() -> spec_fn(T, T) -> bool {
    |a: T, b: T| a.before(b)
}

/// The values in their order.
pub open spec fn ranking<T: Ranked>(s: Seq<T>) -> Seq<T> {
    ranking_by(s, order_of::<T>())
}

/// No value comes before one that stands to its left.
pub open spec fn ranked<T: Ranked>(s: Seq<T>) -> bool {
    forall|i: int, j: int| 0 <= i < j < s.len() ==> !(#[trigger] s[j]).before(#[trigger] s[i])
}

proof fn lemma_insert_multiset<T>(s: Seq<T>, at: int, x: T)
    requires
        0 <= at <= s.len(),
    ensures
        s.insert(at, x).to_multiset() == s.to_multiset().insert(x),
{
    broadcast use vstd::seq_lib::group_to_multiset_ensures;

    let t = s.insert(at, x);
    assert(t.remove(at) =~= s);
    assert(t[at] == x);
    assert(t.to_multiset().count(x) > 0) by {
        assert(t.contains(x));
    }
    assert(s.to_multiset().insert(x) =~= t.to_multiset());
}

/// What is ordered stands in order.
pub proof fn law_ranking_ranked<T: Ranked>(s: Seq<T>)
    ensures
        ranked(ranking(s)),
    decreases s.len(),
{
    if s.len() > 0 {
        law_ranking_ranked(s.skip(1));
        lemma_insert_ranked(ranking(s.skip(1)), s[0]);
    }
}

proof fn lemma_insert_ranked<T: Ranked>(s: Seq<T>, x: T)
    requires
        ranked(s),
    ensures
        ranked(s.insert(place_by(s, x, order_of::<T>(), 0), x)),
{
    let k = place_by(s, x, order_of::<T>(), 0);
    lemma_place_by(s, x, order_of::<T>(), 0);
    let t = s.insert(k, x);
    assert forall|i: int, j: int| 0 <= i < j < t.len() implies !(#[trigger] t[j]).before(
        #[trigger] t[i],
    ) by {
        if j == k {
            assert(t[i] == s[i]);
            assert(order_of::<T>()(s[i], x));
            if x.before(s[i]) {
                T::before_asymmetric(x, s[i]);
            }
        } else if i == k {
            assert(t[j] == s[j - 1]);
            assert(!order_of::<T>()(s[k], x));
            if s[j - 1].before(x) {
                T::before_splits(s[j - 1], x, s[k]);
            }
        } else {
            let a = if i < k {
                i
            } else {
                i - 1
            };
            let b = if j < k {
                j
            } else {
                j - 1
            };
            assert(t[i] == s[a] && t[j] == s[b]);
        }
    }
}

/// Puts `x` in front of the values of `out` that do not come before it.
fn insert_ranked<T: Ranked>(out: &mut Vec<T>, x: T)
    requires
        ranked(old(out)@),
    ensures
        final(out)@ == old(out)@.insert(place_by(old(out)@, x, order_of::<T>(), 0), x),
{
    let ghost s = out@;
    let mut low: usize = 0;
    let mut high: usize = out.len();
    while low < high
        invariant
            low <= high <= out.len(),
            out@ == s,
            ranked(s),
            forall|i: int| 0 <= i < low ==> (#[trigger] s[i]).before(x),
            forall|i: int| high <= i < s.len() ==> !(#[trigger] s[i]).before(x),
        decreases high - low,
    {
        let middle: usize = low + (high - low) / 2;
        if out[middle].is_before(&x) {
            proof {
                assert forall|i: int| 0 <= i < middle + 1 implies (#[trigger] s[i]).before(x) by {
                    if i < middle {
                        T::before_splits(s[middle as int], x, s[i]);
                    }
                }
            }
            low = middle + 1;
        } else {
            proof {
                assert forall|i: int| middle <= i < s.len() implies !(#[trigger] s[i]).before(
                    x,
                ) by {
                    if s[i].before(x) && middle < i {
                        T::before_splits(s[i], x, s[middle as int]);
                    }
                }
            }
            high = middle;
        }
    }
    proof {
        let k = place_by(s, x, order_of::<T>(), 0);
        lemma_place_by(s, x, order_of::<T>(), 0);
        if k < low {
            assert(!order_of::<T>()(s[k], x));
        }
        if low < k {
            assert(order_of::<T>()(s[low as int], x));
        }
    }
    out.insert(low, x);
}

/// The values of `v`, sorted.
pub fn sort<T: Ranked>(v: Vec<T>) -> (out: Vec<T>)
    ensures
        out@ == ranking(v@),
        ranked(out@),
        out@.to_multiset() == v@.to_multiset(),
        out.len() == v.len(),
{
    let ghost all = v@;
    let mut rest = v;
    let mut out: Vec<T> = Vec::new();
    assert(out@ =~= ranking(all.skip(all.len() as int)));
    while rest.len() > 0
        invariant
            rest.len() <= all.len(),
            rest@ == all.take(rest.len() as int),
            out@ == ranking(all.skip(rest.len() as int)),
        decreases rest.len(),
    {
        let x = rest.remove(rest.len() - 1);
        proof {
            let n = rest.len() as int;
            assert(all.skip(n)[0] == x);
            assert(all.skip(n).skip(1) =~= all.skip(n + 1));
            assert(rest@ =~= all.take(n));
            law_ranking_ranked(all.skip(n + 1));
        }
        insert_ranked(&mut out, x);
    }
    proof {
        assert(all.skip(0) =~= all);
        law_ranking_ranked(all);
        law_ranking_permutes(all, order_of::<T>());
    }
    out
}

impl Ranked for String {
    open spec fn before(self, other: Self) -> bool {
        text_before(self@, other@)
    }

    proof fn before_asymmetric(a: Self, b: Self) {
        lemma_text_before_asymmetric(a@, b@);
    }

    proof fn before_splits(a: Self, b: Self, c: Self) {
        lemma_text_before_splits(a@, b@, c@);
    }

    fn is_before(&self, other: &Self) -> (r: bool) {
        is_text_before(self.as_str(), other.as_str())
    }
}

pub open spec fn text_order() -> spec_fn(Seq<char>, Seq<char>) -> bool {
    |a: Seq<char>, b: Seq<char>| text_before(a, b)
}

/// Texts in order.
pub open spec fn sorted_texts(list: Seq<Seq<char>>) -> Seq<Seq<char>> {
    ranking_by(list, text_order())
}

pub fn sort_texts(v: Vec<String>) -> (out: Vec<String>)
    ensures
        text::texts(out@) == sorted_texts(text::texts(v@)),
{
    proof {
        let view = |s: String| s@;
        assert(v@.map_values(view) =~= text::texts(v@));
        assert(ranking(v@).map_values(view) =~= text::texts(ranking(v@)));
        assert(keeps_order(v@, view, order_of::<String>(), text_order()));
        lemma_ranking_map(v@, view, order_of::<String>(), text_order());
    }
    sort(v)
}

// ---------------------------------------------------------------------------
// Lists of texts
// ---------------------------------------------------------------------------

/// Each text comes before those to its right; so none occurs twice.
pub open spec fn ascending(s: Seq<Seq<char>>) -> bool {
    forall|i: int, j: int| 0 <= i < j < s.len() ==> text_before(#[trigger] s[i], #[trigger] s[j])
}

/// `out` holds the texts of `from`, each once, in ascending order.
pub open spec fn sorted_set_of(out: Seq<Seq<char>>, from: Seq<Seq<char>>) -> bool {
    &&& ascending(out)
    &&& forall|t: Seq<char>| #[trigger] out.contains(t) <==> from.contains(t)
}

/// Two ascending lists with the same texts are the same list.
pub proof fn lemma_sorted_set_unique(a: Seq<Seq<char>>, b: Seq<Seq<char>>)
    requires
        ascending(a),
        ascending(b),
        forall|t: Seq<char>| #[trigger] a.contains(t) <==> b.contains(t),
    ensures
        a == b,
    decreases a.len(),
{
    if a.len() == 0 {
        if b.len() > 0 {
            assert(b.contains(b[0]));
            assert(a.contains(b[0]));
        }
        assert(a =~= b);
    } else {
        assert(a.contains(a.last()));
        assert(b.contains(a.last()));
        let k = choose|k: int| 0 <= k < b.len() && b[k] == a.last();
        assert(b.contains(b.last()));
        assert(a.contains(b.last()));
        let m = choose|m: int| 0 <= m < a.len() && a[m] == b.last();
        if k < b.len() - 1 {
            assert(text_before(b[k], b.last()));
            if m < a.len() - 1 {
                assert(text_before(a[m], a.last()));
                lemma_text_before_asymmetric(b[k], b.last());
            } else {
                lemma_text_before_irreflexive(a.last());
            }
        }
        assert(a.last() == b.last());
        let c = a.drop_last();
        let d = b.drop_last();
        assert forall|t: Seq<char>| #[trigger] c.contains(t) <==> d.contains(t) by {
            if c.contains(t) {
                let i = choose|i: int| 0 <= i < c.len() && c[i] == t;
                assert(a[i] == t);
                assert(a.contains(t));
                assert(b.contains(t));
                let j = choose|j: int| 0 <= j < b.len() && b[j] == t;
                if j == b.len() - 1 {
                    assert(text_before(a[i], a.last()));
                    lemma_text_before_irreflexive(t);
                }
                assert(d[j] == t);
            }
            if d.contains(t) {
                let i = choose|i: int| 0 <= i < d.len() && d[i] == t;
                assert(b[i] == t);
                assert(b.contains(t));
                assert(a.contains(t));
                let j = choose|j: int| 0 <= j < a.len() && a[j] == t;
                if j == a.len() - 1 {
                    assert(text_before(b[i], b.last()));
                    lemma_text_before_irreflexive(t);
                }
                assert(c[j] == t);
            }
        }
        lemma_sorted_set_unique(c, d);
        assert(a =~= c.push(a.last()));
        assert(b =~= d.push(b.last()));
    }
}

/// Where `t` stands in `v`, if it does: the first such index.
pub fn text_position(v: &[String], t: &str) -> (r: Option<usize>)
    ensures
        match r {
            Some(i) => i < v.len() && v@[i as int]@ == t@ && forall|j: int|
                0 <= j < i ==> (#[trigger] v@[j])@ != t@,
            None => !text::texts(v@).contains(t@),
        },
        r is Some <==> text::texts(v@).contains(t@),
{
    let mut i: usize = 0;
    while i < v.len()
        invariant
            i <= v.len(),
            forall|j: int| 0 <= j < i ==> (#[trigger] v@[j])@ != t@,
        decreases v.len() - i,
    {
        if same_text(v[i].as_str(), t) {
            assert(text::texts(v@)[i as int] == t@);
            return Some(i);
        }
        i = i + 1;
    }
    proof {
        if text::texts(v@).contains(t@) {
            let j = choose|j: int| 0 <= j < text::texts(v@).len() && text::texts(v@)[j] == t@;
            assert(v@[j]@ == t@);
        }
    }
    None
}

/// Whether `t` is one of the texts of `v`.
pub fn has_string(v: &[String], t: &str) -> (r: bool)
    ensures
        r == text::texts(v@).contains(t@),
{
    text_position(v, t).is_some()
}

/// Where `x` belongs in an ascending list: how many of its texts come before `x`.
pub fn sorted_place(v: &Vec<String>, x: &str) -> (k: usize)
    requires
        ascending(text::texts(v@)),
    ensures
        k <= v.len(),
        forall|i: int| 0 <= i < k ==> text_before(#[trigger] text::texts(v@)[i], x@),
        forall|i: int| k <= i < v.len() ==> !text_before(#[trigger] text::texts(v@)[i], x@),
{
    let ghost s = text::texts(v@);
    let mut low: usize = 0;
    let mut high: usize = v.len();
    while low < high
        invariant
            low <= high <= v.len(),
            s == text::texts(v@),
            ascending(s),
            forall|i: int| 0 <= i < low ==> text_before(#[trigger] s[i], x@),
            forall|i: int| high <= i < v.len() ==> !text_before(#[trigger] s[i], x@),
        decreases high - low,
    {
        let mid: usize = low + (high - low) / 2;
        assert(s[mid as int] == v@[mid as int]@);
        if is_text_before(v[mid].as_str(), x) {
            assert forall|i: int| 0 <= i <= mid implies text_before(#[trigger] s[i], x@) by {
                if i < mid {
                    lemma_text_before_transitive(s[i], s[mid as int], x@);
                }
            }
            low = mid + 1;
        } else {
            assert forall|i: int| mid <= i < v.len() implies !text_before(#[trigger] s[i], x@) by {
                if i > mid && text_before(s[i], x@) {
                    lemma_text_before_transitive(s[mid as int], s[i], x@);
                }
            }
            high = mid;
        }
    }
    low
}

/// A text that is put where it belongs in an ascending list leaves the list ascending.
pub proof fn lemma_insert_ascending(s: Seq<Seq<char>>, x: Seq<char>, k: int)
    requires
        ascending(s),
        0 <= k <= s.len(),
        forall|i: int| 0 <= i < k ==> text_before(#[trigger] s[i], x),
        forall|i: int| k <= i < s.len() ==> !text_before(#[trigger] s[i], x),
        k < s.len() ==> s[k] != x,
    ensures
        ascending(s.insert(k, x)),
        forall|t: Seq<char>| #[trigger] s.insert(k, x).contains(t) <==> s.contains(t) || t == x,
{
    let t = s.insert(k, x);
    if k < s.len() {
        lemma_text_before_total(s[k], x);
    }
    assert forall|i: int, j: int| 0 <= i < j < t.len() implies text_before(
        #[trigger] t[i],
        #[trigger] t[j],
    ) by {
        if j == k {
            assert(t[i] == s[i]);
        } else if i == k {
            assert(t[j] == s[j - 1]);
            if j - 1 > k {
                lemma_text_before_transitive(x, s[k], s[j - 1]);
            }
        } else {
            let a = if i < k {
                i
            } else {
                i - 1
            };
            let b = if j < k {
                j
            } else {
                j - 1
            };
            assert(t[i] == s[a] && t[j] == s[b]);
        }
    }
    assert forall|u: Seq<char>| #[trigger] t.contains(u) <==> s.contains(u) || u == x by {
        if s.contains(u) {
            let i = choose|i: int| 0 <= i < s.len() && s[i] == u;
            if i < k {
                assert(t[i] == u);
            } else {
                assert(t[i + 1] == u);
            }
        }
        if u == x {
            assert(t[k] == u);
        }
        if t.contains(u) && u != x {
            let i = choose|i: int| 0 <= i < t.len() && t[i] == u;
            if i < k {
                assert(s[i] == u);
            } else {
                assert(s[i - 1] == u);
            }
        }
    }
}

/// Adds `x` to an ascending list, unless it is there.
pub fn insert_sorted(out: &mut Vec<String>, x: String)
    requires
        ascending(text::texts(old(out)@)),
    ensures
        ascending(text::texts(final(out)@)),
        forall|t: Seq<char>| #[trigger]
            text::texts(final(out)@).contains(t) <==> text::texts(old(out)@).contains(t) || t == x@,
{
    let ghost s = text::texts(out@);
    let k = sorted_place(out, x.as_str());
    if k < out.len() && same_text(out[k].as_str(), x.as_str()) {
        assert(s[k as int] == x@);
        return;
    }
    proof {
        lemma_insert_ascending(s, x@, k as int);
    }
    let ghost t = s.insert(k as int, x@);
    out.insert(k, x);
    assert(text::texts(out@) =~= t);
}

/// The texts of `v`, each once, in ascending order.
pub fn sort_dedup(v: &[String]) -> (out: Vec<String>)
    ensures
        sorted_set_of(text::texts(out@), text::texts(v@)),
{
    let mut out: Vec<String> = Vec::new();
    let mut i: usize = 0;
    while i < v.len()
        invariant
            i <= v.len(),
            ascending(text::texts(out@)),
            forall|t: Seq<char>| #[trigger]
                text::texts(out@).contains(t) <==> text::texts(v@).take(i as int).contains(t),
        decreases v.len() - i,
    {
        let ghost s = text::texts(v@).take(i as int);
        proof {
            let n = text::texts(v@).take(i + 1);
            assert(n =~= s.push(v@[i as int]@));
            assert forall|t: Seq<char>| #[trigger] n.contains(t) <==> s.contains(t) || t
                == v@[i as int]@ by {
                if s.contains(t) {
                    let k = choose|k: int| 0 <= k < s.len() && s[k] == t;
                    assert(n[k] == t);
                }
                if t == v@[i as int]@ {
                    assert(n[i as int] == t);
                }
                if n.contains(t) && t != v@[i as int]@ {
                    let k = choose|k: int| 0 <= k < n.len() && n[k] == t;
                    assert(s[k] == t);
                }
            }
        }
        insert_sorted(&mut out, v[i].clone());
        i = i + 1;
    }
    assert(text::texts(v@).take(i as int) =~= text::texts(v@));
    out
}

/// The texts of a list, each once, in ascending order.
pub open spec fn sorted_set(list: Seq<Seq<char>>) -> Seq<Seq<char>> {
    choose|out: Seq<Seq<char>>| sorted_set_of(out, list)
}

/// There is only one such list.
pub proof fn lemma_sorted_set(out: Seq<Seq<char>>, list: Seq<Seq<char>>)
    requires
        sorted_set_of(out, list),
    ensures
        sorted_set(list) == out,
{
    let other = sorted_set(list);
    assert(sorted_set_of(other, list));
    assert forall|t: Seq<char>| #[trigger] out.contains(t) <==> other.contains(t) by {
        assert(out.contains(t) <==> list.contains(t));
        assert(other.contains(t) <==> list.contains(t));
    }
    lemma_sorted_set_unique(out, other);
}

/// There is such a list.
pub proof fn lemma_sorted_set_is(list: Seq<Seq<char>>)
    ensures
        sorted_set_of(sorted_set(list), list),
    decreases list.len(),
{
    if list.len() == 0 {
        assert(sorted_set_of(Seq::empty(), list));
    } else {
        let front = list.drop_last();
        let x = list.last();
        lemma_sorted_set_is(front);
        let s = sorted_set(front);
        assert(list =~= front.push(x));
        assert forall|t: Seq<char>| #[trigger] list.contains(t) <==> front.contains(t) || t == x by {
            crate::lists::lemma_push_contains(front, x, t);
        }
        if s.contains(x) {
            assert(sorted_set_of(s, list));
        } else {
            let k = lemma_text_place(s, x, s.len() as int);
            if k < s.len() {
                assert(s.contains(s[k]));
            }
            lemma_insert_ascending(s, x, k);
            assert(sorted_set_of(s.insert(k, x), list));
        }
    }
}

proof fn lemma_text_place(s: Seq<Seq<char>>, x: Seq<char>, n: int) -> (k: int)
    requires
        ascending(s),
        0 <= n <= s.len(),
        forall|i: int| n <= i < s.len() ==> !text_before(#[trigger] s[i], x),
    ensures
        0 <= k <= s.len(),
        forall|i: int| 0 <= i < k ==> text_before(#[trigger] s[i], x),
        forall|i: int| k <= i < s.len() ==> !text_before(#[trigger] s[i], x),
    decreases n,
{
    if n == 0 {
        0
    } else if text_before(s[n - 1], x) {
        assert forall|i: int| 0 <= i < n implies text_before(#[trigger] s[i], x) by {
            if i < n - 1 {
                lemma_text_before_transitive(s[i], s[n - 1], x);
            }
        }
        n
    } else {
        lemma_text_place(s, x, n - 1)
    }
}

} // verus!
