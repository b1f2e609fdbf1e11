//! Lists: keeping the items that a test accepts, exchanging neighbours, copying.
use vstd::prelude::*;

verus! {

/// The items of `s` without the one at `i`, where the items before `i` are
/// already the accepted ones.
pub proof fn lemma_keep_item<T>(s: Seq<T>, k: int, p: spec_fn(T) -> bool)
    requires
        0 <= k < s.len(),
    ensures
        s.take(k + 1).filter(p) == if p(s[k]) {
            s.take(k).filter(p).push(s[k])
        } else {
            s.take(k).filter(p)
        },
{
    assert(s.take(k + 1).drop_last() =~= s.take(k));
    reveal(Seq::filter);
}

pub proof fn lemma_filter_whole<T>(s: Seq<T>, p: spec_fn(T) -> bool)
    ensures
        s.take(s.len() as int).filter(p) == s.filter(p),
        s.take(0).filter(p) == Seq::<T>::empty(),
{
    assert(s.take(s.len() as int) =~= s);
    assert(s.take(0) =~= Seq::empty());
    reveal(Seq::filter);
}

pub proof fn lemma_filter_all<T>(s: Seq<T>, p: spec_fn(T) -> bool)
    requires
        forall|i: int| 0 <= i < s.len() ==> #[trigger] p(s[i]),
    ensures
        s.filter(p) == s,
    decreases s.len(),
{
    reveal(Seq::filter);
    if s.len() > 0 {
        let rest = s.drop_last();
        assert forall|i: int| 0 <= i < rest.len() implies #[trigger] p(rest[i]) by {
            assert(p(s[i]));
        }
        lemma_filter_all(rest, p);
        assert(p(s[s.len() - 1]));
        assert(rest.push(s.last()) =~= s);
    } else {
        assert(s =~= Seq::empty());
    }
}

/// Exchanges the item at `i` with the next one.
pub fn swap_with_next<T>(v: &mut Vec<T>, i: usize)
    requires
        i + 1 < old(v).len(),
    ensures
        final(v)@ == old(v)@.update(i as int, old(v)@[i + 1]).update(i + 1, old(v)@[i as int]),
{
    let x = v.remove(i + 1);
    v.insert(i, x);
    assert(v@ =~= old(v)@.update(i as int, old(v)@[i + 1]).update(i + 1, old(v)@[i as int]));
}

/// A copy of a list of texts.
pub fn copy_strings(v: &[String]) -> (out: Vec<String>)
    ensures
        out@ == v@,
{
    let mut out: Vec<String> = Vec::new();
    let mut i: usize = 0;
    while i < v.len()
        invariant
            i <= v.len(),
            out@ == v@.take(i as int),
        decreases v.len() - i,
    {
        out.push(v[i].clone());
        i = i + 1;
        assert(v@.take(i as int).drop_last() =~= v@.take(i - 1));
    }
    assert(v@.take(i as int) =~= v@);
    out
}

/// A copy of an optional text.
pub fn copy_opt(v: &Option<String>) -> (out: Option<String>)
    ensures
        out == *v,
{
    match v {
        Some(s) => Some(s.clone()),
        None => None,
    }
}

// ---------------------------------------------------------------------------
// Sorting by a number, the largest first
// ---------------------------------------------------------------------------

/// `x` put behind the items whose number is at least as large.
pub open spec fn insert_desc(s: Seq<int>, x: int, keys: Seq<nat>) -> Seq<int>
    decreases s.len(),
{
    if s.len() == 0 || keys[s.last()] >= keys[x] {
        s.push(x)
    } else {
        insert_desc(s.drop_last(), x, keys).push(s.last())
    }
}

/// The first `n` indices in the order of their numbers, the largest first; equal
/// numbers keep their order.
pub open spec fn desc_order(keys: Seq<nat>, n: int) -> Seq<int>
    decreases n,
{
    if n <= 0 {
        Seq::empty()
    } else {
        insert_desc(desc_order(keys, n - 1), n - 1, keys)
    }
}

pub open spec fn nats(v: Seq<usize>) -> Seq<nat> {
    Seq::new(v.len(), |i: int| v[i] as nat)
}

proof fn lemma_insert_desc(s: Seq<int>, x: int, keys: Seq<nat>, k: int)
    requires
        0 <= k <= s.len(),
        forall|i: int| k <= i < s.len() ==> keys[#[trigger] s[i]] < keys[x],
        k > 0 ==> keys[s[k - 1]] >= keys[x],
    ensures
        insert_desc(s, x, keys) == s.insert(k, x),
    decreases s.len(),
{
    if k < s.len() {
        lemma_insert_desc(s.drop_last(), x, keys, k);
        assert(s.drop_last().insert(k, x).push(s.last()) =~= s.insert(k, x));
    } else {
        assert(s.insert(k, x) =~= s.push(x));
    }
}

/// The indices of `keys` in the order of their numbers, the largest first.
pub fn order_desc(keys: &Vec<usize>) -> (out: Vec<usize>)
    ensures
        crate::rank_order::as_ints(out@) == desc_order(nats(keys@), keys@.len() as int),
        forall|i: int| 0 <= i < out.len() ==> (#[trigger] out@[i]) < keys.len(),
        out.len() == keys.len(),
{
    let mut out: Vec<usize> = Vec::new();
    let ghost all = nats(keys@);
    let mut n: usize = 0;
    assert(crate::rank_order::as_ints(out@) =~= Seq::empty());
    while n < keys.len()
        invariant
            n <= keys.len(),
            all == nats(keys@),
            out.len() == n,
            crate::rank_order::as_ints(out@) == desc_order(all, n as int),
            forall|i: int| 0 <= i < out.len() ==> (#[trigger] out@[i]) < n,
        decreases keys.len() - n,
    {
        let ghost s = crate::rank_order::as_ints(out@);
        let mut k: usize = out.len();
        while k > 0 && keys[out[k - 1]] < keys[n]
            invariant
                k <= out.len(),
                n < keys.len(),
                all == nats(keys@),
                s == crate::rank_order::as_ints(out@),
                forall|i: int| 0 <= i < out.len() ==> (#[trigger] out@[i]) < n,
                forall|i: int| k <= i < s.len() ==> all[#[trigger] s[i]] < all[n as int],
            decreases k,
        {
            assert(s[k - 1] == out@[k - 1]);
            k = k - 1;
        }
        proof {
            if k > 0 {
                assert(s[k - 1] == out@[k - 1]);
            }
            lemma_insert_desc(s, n as int, all, k as int);
        }
        out.insert(k, n);
        assert(crate::rank_order::as_ints(out@) =~= s.insert(k as int, n as int));
        n = n + 1;
    }
    out
}

/// Sorting by a number leaves larger numbers before smaller ones and equal ones in
/// their order, and keeps every index once.
pub proof fn law_desc_order(keys: Seq<nat>, n: int)
    requires
        0 <= n <= keys.len(),
    ensures
        desc_order(keys, n).len() == n,
        forall|a: int, b: int|
            0 <= a < b < n ==> {
                let x = #[trigger] desc_order(keys, n)[a];
                let y = #[trigger] desc_order(keys, n)[b];
                keys[x] > keys[y] || (keys[x] == keys[y] && x < y)
            },
        forall|i: int| 0 <= i < n ==> 0 <= #[trigger] desc_order(keys, n)[i] < n,
        forall|i: int| 0 <= i < n ==> #[trigger] desc_order(keys, n).contains(i),
    decreases n,
{
    if n > 0 {
        law_desc_order(keys, n - 1);
        let s = desc_order(keys, n - 1);
        let k = desc_place(s, n - 1, keys);
        lemma_desc_place(s, n - 1, keys);
        lemma_insert_desc(s, n - 1, keys, k);
        let t = s.insert(k, n - 1);
        assert(desc_order(keys, n) == t);
        assert forall|a: int, b: int| 0 <= a < b < n implies {
            let x = #[trigger] t[a];
            let y = #[trigger] t[b];
            keys[x] > keys[y] || (keys[x] == keys[y] && x < y)
        } by {
            let p = if a < k {
                a
            } else {
                a - 1
            };
            let q = if b < k {
                b
            } else {
                b - 1
            };
            if a == k {
                assert(t[b] == s[q]);
            } else if b == k {
                assert(t[a] == s[a]);
                if a < k - 1 {
                    assert(keys[s[a]] > keys[s[k - 1]] || (keys[s[a]] == keys[s[k - 1]] && s[a]
                        < s[k - 1]));
                }
            } else {
                assert(t[a] == s[p] && t[b] == s[q]);
            }
        }
        assert forall|i: int| 0 <= i < n implies 0 <= #[trigger] t[i] < n by {
            if i < k {
                assert(t[i] == s[i]);
            } else if i > k {
                assert(t[i] == s[i - 1]);
            }
        }
        assert forall|i: int| 0 <= i < n implies #[trigger] t.contains(i) by {
            if i == n - 1 {
                assert(t[k] == i);
            } else {
                assert(s.contains(i));
                let m = choose|m: int| 0 <= m < s.len() && s[m] == i;
                if m < k {
                    assert(t[m] == i);
                } else {
                    assert(t[m + 1] == i);
                }
            }
        }
    }
}

/// Behind how many items of `s` the index `x` belongs.
spec fn desc_place(s: Seq<int>, x: int, keys: Seq<nat>) -> int
    decreases s.len(),
{
    if s.len() == 0 || keys[s.last()] >= keys[x] {
        s.len() as int
    } else {
        desc_place(s.drop_last(), x, keys)
    }
}

proof fn lemma_desc_place(s: Seq<int>, x: int, keys: Seq<nat>)
    ensures
        0 <= desc_place(s, x, keys) <= s.len(),
        forall|i: int| desc_place(s, x, keys) <= i < s.len() ==> keys[#[trigger] s[i]] < keys[x],
        desc_place(s, x, keys) > 0 ==> keys[s[desc_place(s, x, keys) - 1]] >= keys[x],
    decreases s.len(),
{
    if s.len() > 0 && keys[s.last()] < keys[x] {
        lemma_desc_place(s.drop_last(), x, keys);
        let k = desc_place(s, x, keys);
        assert forall|i: int| k <= i < s.len() implies keys[#[trigger] s[i]] < keys[x] by {
            if i < s.len() - 1 {
                assert(s.drop_last()[i] == s[i]);
            }
        }
    }
}

pub proof fn lemma_push_contains<T>(s: Seq<T>, x: T, y: T)
    ensures
        s.push(x).contains(y) <==> s.contains(y) || x == y,
{
    let p = s.push(x);
    if s.contains(y) {
        let i = choose|i: int| 0 <= i < s.len() && s[i] == y;
        assert(p[i] == y);
    }
    if x == y {
        assert(p[s.len() as int] == y);
    }
}

pub proof fn lemma_filter_contains<T>(s: Seq<T>, keeps: spec_fn(T) -> bool, x: T)
    ensures
        s.filter(keeps).contains(x) <==> s.contains(x) && keeps(x),
    decreases s.len(),
{
    reveal(Seq::filter);
    if s.len() > 0 {
        let front = s.drop_last();
        lemma_filter_contains(front, keeps, x);
        assert(s =~= front.push(s.last()));
        lemma_push_contains(front, s.last(), x);
        lemma_push_contains(front.filter(keeps), s.last(), x);
    }
}

} // verus!
