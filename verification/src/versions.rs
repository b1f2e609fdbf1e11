//! How alike mods are, and which of two is newer.
use crate::dep_keys;
use crate::dep_keys::{find_runs, RunKind};
use crate::library;
use crate::library::{normalize_label, InstallTarget, ModEntry};
use crate::text;
use crate::text::{digit_char, eq_ignore_case, parse_u64, to_chars, trim};
use vstd::prelude::*;

verus! {

// ---------------------------------------------------------------------------
// Likeness
// ---------------------------------------------------------------------------

pub open spec fn least(a: nat, b: nat) -> nat {
    if a <= b {
        a
    } else {
        b
    }
}

/// How many bytes must be put in, taken out or changed to make one text the other.
pub open spec fn distance(a: Seq<u8>, b: Seq<u8>) -> nat
    decreases a.len() + b.len(),
{
    if a.len() == 0 {
        b.len()
    } else if b.len() == 0 {
        a.len()
    } else {
        let cost: nat = if a.last() == b.last() {
            0
        } else {
            1
        };
        least(
            least(distance(a.drop_last(), b) + 1, distance(a, b.drop_last()) + 1),
            distance(a.drop_last(), b.drop_last()) + cost,
        )
    }
}

proof fn lemma_distance_bound(a: Seq<u8>, b: Seq<u8>)
    ensures
        distance(a, b) <= a.len() + b.len(),
    decreases a.len() + b.len(),
{
    if a.len() > 0 && b.len() > 0 {
        lemma_distance_bound(a.drop_last(), b);
    }
}

/// The distance of two texts is the same both ways.
pub proof fn law_distance_symmetric(a: Seq<u8>, b: Seq<u8>)
    ensures
        distance(a, b) == distance(b, a),
    decreases a.len() + b.len(),
{
    if a.len() > 0 && b.len() > 0 {
        law_distance_symmetric(a.drop_last(), b);
        law_distance_symmetric(a, b.drop_last());
        law_distance_symmetric(a.drop_last(), b.drop_last());
    }
}

/// A text has no distance to itself.
pub proof fn law_distance_to_itself(a: Seq<u8>)
    ensures
        distance(a, a) == 0,
    decreases a.len(),
{
    if a.len() > 0 {
        law_distance_to_itself(a.drop_last());
    }
}

/// Only equal texts have no distance.
pub proof fn law_no_distance_is_equal(a: Seq<u8>, b: Seq<u8>)
    ensures
        distance(a, b) == 0 <==> a == b,
    decreases a.len() + b.len(),
{
    if a == b {
        law_distance_to_itself(a);
    }
    if distance(a, b) == 0 {
        if a.len() > 0 && b.len() > 0 {
            law_no_distance_is_equal(a.drop_last(), b.drop_last());
            assert(a =~= a.drop_last().push(a.last()));
            assert(b =~= b.drop_last().push(b.last()));
        } else {
            assert(a =~= b);
        }
    }
}

/// The distance of two texts is at most the length of the longer one.
pub proof fn law_distance_within_longer(a: Seq<u8>, b: Seq<u8>)
    ensures
        distance(a, b) <= most(a.len() as int, b.len() as int),
    decreases a.len() + b.len(),
{
    if a.len() > 0 && b.len() > 0 {
        law_distance_within_longer(a.drop_last(), b.drop_last());
    }
}

proof fn lemma_distance_of_lengths(a: Seq<u8>, b: Seq<u8>)
    ensures
        a.len() <= b.len() + distance(a, b),
        b.len() <= a.len() + distance(a, b),
    decreases a.len() + b.len(),
{
    if a.len() > 0 && b.len() > 0 {
        lemma_distance_of_lengths(a.drop_last(), b);
        lemma_distance_of_lengths(a, b.drop_last());
        lemma_distance_of_lengths(a.drop_last(), b.drop_last());
    }
}

/// A way round is no shorter.
pub proof fn law_distance_triangle(a: Seq<u8>, b: Seq<u8>, c: Seq<u8>)
    ensures
        distance(a, c) <= distance(a, b) + distance(b, c),
    decreases a.len() + b.len() + c.len(),
{
    lemma_distance_of_lengths(a, b);
    lemma_distance_of_lengths(b, c);
    lemma_distance_bound(a, c);
    if a.len() > 0 && b.len() > 0 && c.len() > 0 {
        let x = a.drop_last();
        let y = b.drop_last();
        let z = c.drop_last();
        law_distance_triangle(x, b, c);
        law_distance_triangle(a, y, c);
        law_distance_triangle(a, b, z);
        law_distance_triangle(a, y, z);
        law_distance_triangle(x, y, c);
        law_distance_triangle(x, y, z);
    }
}

// ---------------------------------------------------------------------------
// Edits
// ---------------------------------------------------------------------------

/// Whether a byte was put in at a place.
pub open spec fn is_put_in(a: Seq<u8>, b: Seq<u8>, i: int, x: u8) -> bool {
    0 <= i <= a.len() && b == a.insert(i, x)
}

/// Whether the byte at a place was taken out.
pub open spec fn is_taken_out(a: Seq<u8>, b: Seq<u8>, i: int) -> bool {
    0 <= i < a.len() && b == a.remove(i)
}

/// Whether the byte at a place was replaced.
pub open spec fn is_replaced(a: Seq<u8>, b: Seq<u8>, i: int, x: u8) -> bool {
    0 <= i < a.len() && b == a.update(i, x)
}

/// Whether a text becomes another by one change of a single byte.
pub open spec fn one_edit(a: Seq<u8>, b: Seq<u8>) -> bool {
    ||| exists|i: int, x: u8| is_put_in(a, b, i, x)
    ||| exists|i: int| is_taken_out(a, b, i)
    ||| exists|i: int, x: u8| is_replaced(a, b, i, x)
}

/// Whether a text becomes another by `n` such changes.
pub open spec fn edits(a: Seq<u8>, b: Seq<u8>, n: nat) -> bool
    decreases n,
{
    if n == 0 {
        a == b
    } else {
        exists|mid: Seq<u8>| #[trigger] one_edit(a, mid) && edits(mid, b, (n - 1) as nat)
    }
}

/// What two texts end in alike does not part them.
proof fn lemma_same_end(a: Seq<u8>, b: Seq<u8>, end: Seq<u8>)
    ensures
        distance(a + end, b + end) <= distance(a, b),
    decreases end.len(),
{
    if end.len() == 0 {
        assert(a + end =~= a);
        assert(b + end =~= b);
    } else {
        let rest = end.drop_last();
        lemma_same_end(a, b, rest);
        assert((a + end).drop_last() =~= a + rest);
        assert((b + end).drop_last() =~= b + rest);
        assert((a + end).last() == (b + end).last());
    }
}

proof fn lemma_one_edit(a: Seq<u8>, b: Seq<u8>)
    requires
        one_edit(a, b),
    ensures
        distance(a, b) <= 1,
{
    if exists|i: int, x: u8| is_put_in(a, b, i, x) {
        let (i, x) = choose|i: int, x: u8| is_put_in(a, b, i, x);
        let head = a.take(i);
        law_distance_to_itself(head);
        assert(head.push(x).drop_last() =~= head);
        lemma_same_end(head, head.push(x), a.skip(i));
        assert(head + a.skip(i) =~= a);
        assert(head.push(x) + a.skip(i) =~= b);
    } else if exists|i: int| is_taken_out(a, b, i) {
        let i = choose|i: int| is_taken_out(a, b, i);
        let head = a.take(i);
        law_distance_to_itself(head);
        assert(head.push(a[i]).drop_last() =~= head);
        lemma_same_end(head.push(a[i]), head, a.skip(i + 1));
        assert(head.push(a[i]) + a.skip(i + 1) =~= a);
        assert(head + a.skip(i + 1) =~= b);
    } else {
        let (i, x) = choose|i: int, x: u8| is_replaced(a, b, i, x);
        let head = a.take(i);
        law_distance_to_itself(head);
        assert(head.push(a[i]).drop_last() =~= head);
        assert(head.push(x).drop_last() =~= head);
        lemma_same_end(head.push(a[i]), head.push(x), a.skip(i + 1));
        assert(head.push(a[i]) + a.skip(i + 1) =~= a);
        assert(head.push(x) + a.skip(i + 1) =~= b);
    }
}

proof fn lemma_edit_last(a: Seq<u8>, b: Seq<u8>, x: u8)
    requires
        one_edit(a, b),
    ensures
        one_edit(a.push(x), b.push(x)),
{
    if exists|i: int, y: u8| is_put_in(a, b, i, y) {
        let (i, y) = choose|i: int, y: u8| is_put_in(a, b, i, y);
        assert(b.push(x) =~= a.push(x).insert(i, y));
        assert(is_put_in(a.push(x), b.push(x), i, y));
    } else if exists|i: int| is_taken_out(a, b, i) {
        let i = choose|i: int| is_taken_out(a, b, i);
        assert(b.push(x) =~= a.push(x).remove(i));
        assert(is_taken_out(a.push(x), b.push(x), i));
    } else {
        let (i, y) = choose|i: int, y: u8| is_replaced(a, b, i, y);
        assert(b.push(x) =~= a.push(x).update(i, y));
        assert(is_replaced(a.push(x), b.push(x), i, y));
    }
}

proof fn lemma_edits_last(a: Seq<u8>, b: Seq<u8>, n: nat, x: u8)
    requires
        edits(a, b, n),
    ensures
        edits(a.push(x), b.push(x), n),
    decreases n,
{
    if n > 0 {
        let mid = choose|mid: Seq<u8>| #[trigger]
            one_edit(a, mid) && edits(mid, b, (n - 1) as nat);
        lemma_edit_last(a, mid, x);
        lemma_edits_last(mid, b, (n - 1) as nat, x);
        assert(one_edit(a.push(x), mid.push(x)));
    }
}

proof fn lemma_edits_more(a: Seq<u8>, b: Seq<u8>, c: Seq<u8>, n: nat)
    requires
        edits(a, b, n),
        one_edit(b, c),
    ensures
        edits(a, c, n + 1),
    decreases n,
{
    if n == 0 {
        assert(edits(c, c, 0));
        assert(one_edit(a, c));
    } else {
        let mid = choose|mid: Seq<u8>| #[trigger]
            one_edit(a, mid) && edits(mid, b, (n - 1) as nat);
        lemma_edits_more(mid, b, c, (n - 1) as nat);
        assert(one_edit(a, mid));
    }
}

proof fn lemma_distance_is_reached(a: Seq<u8>, b: Seq<u8>)
    ensures
        edits(a, b, distance(a, b)),
    decreases a.len() + b.len(),
{
    let n = distance(a, b);
    if a.len() == 0 && b.len() == 0 {
        assert(a =~= b);
    } else if b.len() == 0 || (a.len() > 0 && n == distance(a.drop_last(), b) + 1) {
        let front = a.drop_last();
        lemma_distance_is_reached(front, b);
        if b.len() == 0 {
            assert(distance(front, b) == front.len());
        }
        assert(front =~= a.remove(a.len() - 1));
        assert(is_taken_out(a, front, a.len() - 1));
        assert(one_edit(a, front));
    } else if a.len() == 0 || n == distance(a, b.drop_last()) + 1 {
        let front = b.drop_last();
        lemma_distance_is_reached(a, front);
        assert(b =~= front.insert(front.len() as int, b.last()));
        assert(is_put_in(front, b, front.len() as int, b.last()));
        lemma_edits_more(a, front, b, distance(a, front));
    } else {
        let x = a.drop_last();
        let y = b.drop_last();
        lemma_distance_is_reached(x, y);
        lemma_edits_last(x, y, distance(x, y), b.last());
        assert(y.push(b.last()) =~= b);
        if a.last() == b.last() {
            assert(x.push(b.last()) =~= a);
        } else {
            let turned = x.push(b.last());
            assert(turned =~= a.update(a.len() - 1, b.last()));
            assert(is_replaced(a, turned, a.len() - 1, b.last()));
            assert(one_edit(a, turned));
        }
    }
}

/// The distance is the least number of changes of single bytes, put in, taken out or
/// replaced, that turn one text into the other.
pub proof fn law_distance_is_least(a: Seq<u8>, b: Seq<u8>, n: nat)
    ensures
        edits(a, b, distance(a, b)),
        edits(a, b, n) ==> distance(a, b) <= n,
    decreases n,
{
    lemma_distance_is_reached(a, b);
    if edits(a, b, n) {
        if n == 0 {
            law_distance_to_itself(a);
        } else {
            let mid = choose|mid: Seq<u8>| #[trigger]
                one_edit(a, mid) && edits(mid, b, (n - 1) as nat);
            lemma_one_edit(a, mid);
            law_distance_is_least(mid, b, (n - 1) as nat);
            law_distance_triangle(a, mid, b);
        }
    }
}

fn min_usize(a: usize, b: usize) -> (r: usize)
    ensures
        r == least(a as nat, b as nat),
{
    if a <= b {
        a
    } else {
        b
    }
}

/// The edit distance of two texts, in bytes. Their lengths together must fit a
/// machine word.
pub fn levenshtein(a: &[u8], b: &[u8]) -> (r: usize)
    requires
        a.len() + b.len() < usize::MAX,
    ensures
        r == distance(a@, b@),
{
    if a.len() == 0 {
        return b.len();
    }
    if b.len() == 0 {
        return a.len();
    }
    let mut prev: Vec<usize> = Vec::new();
    let mut k: usize = 0;
    while k <= b.len()
        invariant
            k <= b.len() + 1,
            b.len() < usize::MAX,
            prev.len() == k,
            forall|j: int|
                0 <= j < k ==> #[trigger] prev@[j] == distance(a@.take(0), b@.take(j)),
        decreases b.len() + 1 - k,
    {
        assert(a@.take(0).len() == 0);
        assert(b@.take(k as int).len() == k);
        prev.push(k);
        k = k + 1;
    }
    let mut i: usize = 0;
    while i < a.len()
        invariant
            i <= a.len(),
            a.len() + b.len() < usize::MAX,
            prev.len() == b.len() + 1,
            forall|j: int|
                0 <= j <= b.len() ==> #[trigger] prev@[j] == distance(
                    a@.take(i as int),
                    b@.take(j),
                ),
        decreases a.len() - i,
    {
        let mut curr: Vec<usize> = Vec::new();
        let ghost top = a@.take(i as int);
        let ghost low = a@.take(i + 1);
        assert(low.drop_last() =~= top);
        assert(b@.take(0).len() == 0);
        curr.push(i + 1);
        let mut j: usize = 0;
        while j < b.len()
            invariant
                j <= b.len(),
                i < a.len(),
                a.len() + b.len() < usize::MAX,
                top == a@.take(i as int),
                low == a@.take(i + 1),
                low.drop_last() == top,
                prev.len() == b.len() + 1,
                forall|q: int|
                    0 <= q <= b.len() ==> #[trigger] prev@[q] == distance(top, b@.take(q)),
                curr.len() == j + 1,
                forall|q: int| 0 <= q <= j ==> #[trigger] curr@[q] == distance(low, b@.take(q)),
            decreases b.len() - j,
        {
            let ghost right = b@.take(j + 1);
            proof {
                assert(right.drop_last() =~= b@.take(j as int));
                assert(low.last() == a@[i as int]);
                assert(right.last() == b@[j as int]);
                lemma_distance_bound(top, right);
                lemma_distance_bound(low, b@.take(j as int));
                lemma_distance_bound(top, b@.take(j as int));
                assert(prev@[j + 1] == distance(top, right));
                assert(curr@[j as int] == distance(low, b@.take(j as int)));
                assert(prev@[j as int] == distance(top, b@.take(j as int)));
            }
            let cost: usize = if a[i] == b[j] {
                0
            } else {
                1
            };
            let best = min_usize(
                min_usize(prev[j + 1] + 1, curr[j] + 1),
                prev[j] + cost,
            );
            curr.push(best);
            j = j + 1;
        }
        prev = curr;
        i = i + 1;
    }
    assert(a@.take(i as int) =~= a@);
    assert(b@.take(b.len() as int) =~= b@);
    prev[b.len()]
}

/// How alike two texts are, as the changes out of the length of the longer.
#[derive(Debug, Clone, Copy, PartialEq, Eq, Structural)]
pub struct Likeness {
    pub changes: usize,
    pub length: usize,
}

impl Likeness {
    /// Whether so few changes are needed that the texts may mean the same: at most
    /// twelve in a hundred.
    pub open spec fn is_close(self) -> bool {
        25 * self.changes <= 3 * self.length
    }

    /// Whether the texts are at least as alike as others.
    pub open spec fn at_least(self, other: Likeness) -> bool {
        self.changes * other.length <= other.changes * self.length
    }

    /// The likeness in hundredths, rounded; halves go to the even number.
    pub open spec fn percent(self) -> int {
        if self.length == 0 {
            100
        } else {
            let parts = 100 * (self.length - self.changes);
            let whole = parts / (self.length as int);
            let rest = parts % (self.length as int);
            if 2 * rest < self.length {
                whole
            } else if 2 * rest > self.length {
                whole + 1
            } else if whole % 2 == 0 {
                whole
            } else {
                whole + 1
            }
        }
    }

    pub fn similar_enough(&self) -> (r: bool)
        ensures
            r == self.is_close(),
    {
        25 * (self.changes as u128) <= 3 * (self.length as u128)
    }

    pub fn not_less(&self, other: &Likeness) -> (r: bool)
        ensures
            r == self.at_least(*other),
    {
        let a: u128 = self.changes as u128;
        let b: u128 = other.length as u128;
        let c: u128 = other.changes as u128;
        let d: u128 = self.length as u128;
        assert(a * b <= u128::MAX && c * d <= u128::MAX) by (nonlinear_arith)
            requires
                a <= u64::MAX,
                b <= u64::MAX,
                c <= u64::MAX,
                d <= u64::MAX,
        ;
        a * b <= c * d
    }

    pub fn in_percent(&self) -> (r: u64)
        requires
            self.changes <= self.length,
        ensures
            r == self.percent(),
    {
        if self.length == 0 {
            return 100;
        }
        let n: u128 = self.length as u128;
        let parts: u128 = 100 * ((self.length - self.changes) as u128);
        let whole: u128 = parts / n;
        let rest: u128 = parts % n;
        assert(whole <= 100) by (nonlinear_arith)
            requires
                whole == parts / n,
                parts <= 100 * n,
                n > 0,
        ;
        let r: u128 = if 2 * rest < n {
            whole
        } else if 2 * rest > n {
            whole + 1
        } else if whole % 2 == 0 {
            whole
        } else {
            whole + 1
        };
        r as u64
    }
}

pub open spec fn most(a: int, b: int) -> int {
    if a >= b {
        a
    } else {
        b
    }
}

/// How alike two texts are.
pub open spec fn likeness(a: Seq<char>, b: Seq<char>) -> (nat, nat) {
    let x = vstd::utf8::encode_utf8(a);
    let y = vstd::utf8::encode_utf8(b);
    (distance(x, y), most(x.len() as int, y.len() as int) as nat)
}

/// How alike two texts are; nothing is said of texts too long to be held together.
pub fn similarity_ratio(a: &str, b: &str) -> (r: Option<Likeness>)
    ensures
        match r {
            Some(l) => (l.changes as nat, l.length as nat) == likeness(a@, b@) && l.changes
                <= l.length && vstd::utf8::encode_utf8(a@).len() + vstd::utf8::encode_utf8(
                b@,
            ).len() < usize::MAX,
            None => vstd::utf8::encode_utf8(a@).len() + vstd::utf8::encode_utf8(b@).len()
                >= usize::MAX,
        },
{
    let x = a.as_bytes();
    let y = b.as_bytes();
    if x.len() >= usize::MAX - y.len() {
        return None;
    }
    let changes = levenshtein(x, y);
    proof {
        law_distance_within_longer(x@, y@);
    }
    let length: usize = if x.len() >= y.len() {
        x.len()
    } else {
        y.len()
    };
    Some(Likeness { changes, length })
}

// ---------------------------------------------------------------------------
// Stamps
// ---------------------------------------------------------------------------

/// The number of a run of eight digits or more.
pub open spec fn stamp_of(run: Seq<char>) -> Option<u64> {
    if run.len() >= 8 {
        text::u64_value(run)
    } else {
        None
    }
}

/// The last of the stamps among the first `n` runs.
pub open spec fn last_stamp(list: Seq<Seq<char>>, n: int) -> Option<u64>
    decreases n,
{
    if n <= 0 {
        None
    } else {
        match stamp_of(list[n - 1]) {
            Some(v) => Some(v),
            None => last_stamp(list, n - 1),
        }
    }
}

/// The stamp in a label: its last number of eight digits or more.
pub open spec fn timestamp(label: Seq<char>) -> Option<u64> {
    let found = dep_keys::runs(label, RunKind::Number);
    last_stamp(found, found.len() as int)
}

pub fn extract_timestamp(label: &str) -> (r: Option<u64>)
    ensures
        r == timestamp(label@),
{
    let found = find_runs(label, RunKind::Number);
    let ghost all = text::texts(found@);
    assert(all.len() == found.len());
    let mut n: usize = found.len();
    while n > 0
        invariant
            n <= found.len(),
            all == text::texts(found@),
            all == dep_keys::runs(label@, RunKind::Number),
            all.len() == found.len(),
            last_stamp(all, n as int) == last_stamp(all, found.len() as int),
        decreases n,
    {
        assert(all[n - 1] == found@[n - 1]@);
        if to_chars(found[n - 1].as_str()).len() >= 8 {
            if let Some(v) = parse_u64(found[n - 1].as_str()) {
                return Some(v);
            }
        }
        n = n - 1;
    }
    None
}

pub open spec fn capped(n: int) -> int {
    if n <= u64::MAX {
        n
    } else {
        u64::MAX as int
    }
}

/// A product, as far as a machine word holds it.
fn times(n: u64, k: u64) -> (r: u64)
    ensures
        r == capped(n * k),
{
    let a: u128 = n as u128;
    let b: u128 = k as u128;
    assert(a * b <= u128::MAX) by (nonlinear_arith)
        requires
            a <= u64::MAX,
            b <= u64::MAX,
    ;
    let product: u128 = a * b;
    if product <= 0xffff_ffff_ffff_ffff {
        product as u64
    } else {
        0xffff_ffff_ffff_ffff
    }
}

/// Where the digits that start at `i` end.
pub open spec fn digits_end(s: Seq<char>, i: int) -> int
    decreases s.len() - i,
{
    if i < 0 || i >= s.len() || !text::is_digit(s[i]) {
        i
    } else {
        digits_end(s, i + 1)
    }
}

proof fn lemma_digits_end(s: Seq<char>, i: int)
    requires
        0 <= i <= s.len(),
    ensures
        i <= digits_end(s, i) <= s.len(),
    decreases s.len() - i,
{
    if i < s.len() && text::is_digit(s[i]) {
        lemma_digits_end(s, i + 1);
    }
}

/// The number that starts at `i`, as far as a machine word holds it.
pub open spec fn number_at(s: Seq<char>, i: int) -> int {
    capped(text::digits_value(s.subrange(i, digits_end(s, i))) as int)
}

pub open spec fn starts_number(s: Seq<char>, i: int) -> bool {
    0 <= i < s.len() && text::is_digit(s[i])
}

pub open spec fn is_dot(s: Seq<char>, i: int) -> bool {
    0 <= i < s.len() && s[i] == '.'
}

/// The version whose first number starts at or after `i`: two to four numbers with
/// dots between them. A number and a dot without a number behind them end the
/// search.
pub open spec fn version_from(s: Seq<char>, i: int) -> Option<(int, int, int, int)>
    decreases s.len() - i,
{
    if i < 0 || i >= s.len() {
        None
    } else if !text::is_digit(s[i]) || !is_dot(s, digits_end(s, i)) {
        version_from(s, i + 1)
    } else {
        let a = digits_end(s, i) + 1;
        if !starts_number(s, a) {
            None
        } else {
            let b = digits_end(s, a) + 1;
            if !is_dot(s, b - 1) || !starts_number(s, b) {
                Some((number_at(s, i), number_at(s, a), 0, 0))
            } else {
                let c = digits_end(s, b) + 1;
                if !is_dot(s, c - 1) || !starts_number(s, c) {
                    Some((number_at(s, i), number_at(s, a), number_at(s, b), 0))
                } else {
                    Some((number_at(s, i), number_at(s, a), number_at(s, b), number_at(s, c)))
                }
            }
        }
    }
}

fn parse_number(v: &Vec<char>, at: usize) -> (r: Option<(u64, usize)>)
    ensures
        match r {
            Some((n, end)) => starts_number(v@, at as int) && n == number_at(v@, at as int) && end
                == digits_end(v@, at as int) && at < end <= v.len(),
            None => !starts_number(v@, at as int),
        },
{
    if at >= v.len() || !digit_char(v[at]) {
        return None;
    }
    let mut value: u64 = 0;
    let mut i: usize = at;
    proof {
        lemma_digits_end(v@, at as int);
    }
    while i < v.len() && digit_char(v[i])
        invariant
            at <= i <= v.len(),
            digits_end(v@, at as int) == digits_end(v@, i as int),
            value == capped(text::digits_value(v@.subrange(at as int, i as int)) as int),
        decreases v.len() - i,
    {
        let ghost now = v@.subrange(at as int, i + 1);
        let d: u64 = (v[i] as u64) - 48;
        proof {
            assert(now.drop_last() =~= v@.subrange(at as int, i as int));
            assert(now.last() == v@[i as int]);
        }
        value = times(value, 10).saturating_add(d);
        i = i + 1;
    }
    Some((value, i))
}

/// The version that a label names.
pub fn extract_semver(label: &str) -> (r: Option<(u64, u64, u64, u64)>)
    ensures
        match r {
            Some((a, b, c, d)) => version_from(label@, 0) == Some(
                (a as int, b as int, c as int, d as int),
            ),
            None => version_from(label@, 0) is None,
        },
{
    let v = to_chars(label);
    let mut i: usize = 0;
    while i < v.len()
        invariant
            i <= v.len(),
            v@ == label@,
            version_from(label@, i as int) == version_from(label@, 0),
        decreases v.len() - i,
    {
        if let Some((major, end)) = parse_number(&v, i) {
            if end < v.len() && v[end] == '.' {
                let (minor, end) = match parse_number(&v, end + 1) {
                    Some(found) => found,
                    None => {
                        return None;
                    },
                };
                if end < v.len() && v[end] == '.' {
                    if let Some((patch, end)) = parse_number(&v, end + 1) {
                        if end < v.len() && v[end] == '.' {
                            if let Some((build, _)) = parse_number(&v, end + 1) {
                                return Some((major, minor, patch, build));
                            }
                        }
                        return Some((major, minor, patch, 0));
                    }
                }
                return Some((major, minor, 0, 0));
            }
        }
        i = i + 1;
    }
    None
}

/// A version as one number.
pub open spec fn version_number(a: int, b: int, c: int, d: int) -> int {
    capped(
        capped(capped(capped(a * 1_000_000_000) + capped(b * 1_000_000)) + capped(c * 1_000)) + d,
    )
}

pub fn semver_stamp(major: u64, minor: u64, patch: u64, build: u64) -> (r: u64)
    ensures
        r == version_number(major as int, minor as int, patch as int, build as int),
{
    times(major, 1_000_000_000).saturating_add(times(minor, 1_000_000)).saturating_add(
        times(patch, 1_000),
    ).saturating_add(build)
}

/// What a mod says of where it comes from, else its name.
pub open spec fn origin(m: ModEntry) -> Seq<char> {
    match m.source_label {
        Some(l) => l@,
        None => m.name@,
    }
}

fn find_origin(m: &ModEntry) -> (r: &str)
    ensures
        r@ == origin(*m),
{
    match &m.source_label {
        Some(l) => l.as_str(),
        None => m.name.as_str(),
    }
}

/// The highest version among the first `n` targets.
pub open spec fn highest_version(targets: Seq<InstallTarget>, n: int) -> Option<u64>
    decreases n,
{
    if n <= 0 {
        None
    } else {
        let before = highest_version(targets, n - 1);
        match targets[n - 1] {
            InstallTarget::Pak { file, info } => if info.version > 0 {
                match before {
                    Some(v) => if v >= info.version {
                        Some(v)
                    } else {
                        Some(info.version)
                    },
                    None => Some(info.version),
                }
            } else {
                before
            },
            _ => before,
        }
    }
}

/// The version of a mod as a number: the one that its label names, else the highest
/// of its packages.
pub open spec fn version_stamp(m: ModEntry) -> Option<int> {
    match version_from(origin(m), 0) {
        Some((a, b, c, d)) => Some(version_number(a, b, c, d)),
        None => match highest_version(m.targets@, m.targets@.len() as int) {
            Some(v) => Some(v as int),
            None => None,
        },
    }
}

pub fn mod_version_stamp(m: &ModEntry) -> (r: Option<u64>)
    ensures
        match r {
            Some(v) => version_stamp(*m) == Some(v as int),
            None => version_stamp(*m) is None,
        },
{
    if let Some((a, b, c, d)) = extract_semver(find_origin(m)) {
        return Some(semver_stamp(a, b, c, d));
    }
    let mut best: Option<u64> = None;
    let mut i: usize = 0;
    while i < m.targets.len()
        invariant
            i <= m.targets.len(),
            best == highest_version(m.targets@, i as int),
        decreases m.targets.len() - i,
    {
        if let InstallTarget::Pak { file: _, info } = &m.targets[i] {
            if info.version > 0 {
                best = match best {
                    Some(v) => if v >= info.version {
                        Some(v)
                    } else {
                        Some(info.version)
                    },
                    None => Some(info.version),
                };
            }
        }
        i = i + 1;
    }
    best
}

/// A number as a signed one, as machines reinterpret it.
pub open spec fn signed(n: u64) -> int {
    if n <= i64::MAX {
        n as int
    } else {
        n - 0x1_0000_0000_0000_0000
    }
}

fn as_signed(n: u64) -> (r: i64)
    ensures
        r == signed(n),
{
    if n <= 0x7fff_ffff_ffff_ffff {
        n as i64
    } else {
        let below: u64 = 0xffff_ffff_ffff_ffff - n;
        -(below as i64) - 1
    }
}

/// When a mod was made: its stamp, else when it was made or changed.
pub open spec fn age_stamp(m: ModEntry) -> Option<int> {
    match timestamp(origin(m)) {
        Some(t) => Some(signed(t)),
        None => match (m.created_at, m.modified_at) {
            (Some(t), _) => Some(t as int),
            (None, Some(t)) => Some(t as int),
            (None, None) => None,
        },
    }
}

pub fn mod_stamp(m: &ModEntry) -> (r: Option<i64>)
    ensures
        match r {
            Some(t) => age_stamp(*m) == Some(t as int),
            None => age_stamp(*m) is None,
        },
{
    match extract_timestamp(find_origin(m)) {
        Some(t) => Some(as_signed(t)),
        None => match (m.created_at, m.modified_at) {
            (Some(t), _) => Some(t),
            (None, t) => t,
        },
    }
}

/// Whether a new mod should take the place of one that is there: by version, where
/// the versions differ, else by age, where both are known.
pub open spec fn default_overwrite(new_mod: ModEntry, existing: ModEntry) -> Option<bool> {
    match (version_stamp(new_mod), version_stamp(existing)) {
        (Some(a), Some(b)) => if a != b {
            Some(a > b)
        } else {
            newer(new_mod, existing)
        },
        _ => newer(new_mod, existing),
    }
}

pub open spec fn newer(new_mod: ModEntry, existing: ModEntry) -> Option<bool> {
    match (age_stamp(new_mod), age_stamp(existing)) {
        (Some(a), Some(b)) => Some(a > b),
        _ => None,
    }
}

pub fn duplicate_default_overwrite(new_mod: &ModEntry, existing: &ModEntry) -> (r: Option<bool>)
    ensures
        r == default_overwrite(*new_mod, *existing),
{
    if let (Some(a), Some(b)) = (mod_version_stamp(new_mod), mod_version_stamp(existing)) {
        if a != b {
            return Some(a > b);
        }
    }
    match (mod_stamp(new_mod), mod_stamp(existing)) {
        (Some(a), Some(b)) => Some(a > b),
        _ => None,
    }
}

// ---------------------------------------------------------------------------
// Mods that are there already
// ---------------------------------------------------------------------------

/// Whether a mod has the name, whatever the case and the space around it.
pub open spec fn has_name(m: ModEntry, name: Seq<char>) -> bool {
    text::same_ignoring_case(text::trimmed(m.name@), text::trimmed(name))
}

/// Whether `i` is the first mod with the name.
pub open spec fn is_first_with_name(mods: Seq<ModEntry>, name: Seq<char>, i: int) -> bool {
    &&& 0 <= i < mods.len()
    &&& has_name(mods[i], name)
    &&& forall|j: int| 0 <= j < i ==> !has_name(#[trigger] mods[j], name)
}

pub fn find_duplicate_by_name(mods: &[ModEntry], name: &str) -> (r: Option<usize>)
    ensures
        match r {
            Some(i) => is_first_with_name(mods@, name@, i as int),
            None => forall|j: int| 0 <= j < mods.len() ==> !has_name(#[trigger] mods@[j], name@),
        },
{
    let needle = trim(name);
    let mut i: usize = 0;
    while i < mods.len()
        invariant
            i <= mods.len(),
            needle@ == text::trimmed(name@),
            forall|j: int| 0 <= j < i ==> !has_name(#[trigger] mods@[j], name@),
        decreases mods.len() - i,
    {
        let own = trim(mods[i].name.as_str());
        if eq_ignore_case(own.as_str(), needle.as_str()) {
            return Some(i);
        }
        i = i + 1;
    }
    None
}

/// The key that likeness is measured by.
pub open spec fn origin_key(m: ModEntry) -> Seq<char> {
    library::label_key(origin(m))
}

pub open spec fn is_close(l: (nat, nat)) -> bool {
    25 * l.0 <= 3 * l.1
}

pub open spec fn fits_together(a: Seq<char>, b: Seq<char>) -> bool {
    vstd::utf8::encode_utf8(a).len() + vstd::utf8::encode_utf8(b).len() < usize::MAX
}

/// Whether the mod at `i` is like the new one.
pub open spec fn is_similar(mods: Seq<ModEntry>, new_mod: ModEntry, i: int) -> bool {
    let a = origin_key(new_mod);
    let b = origin_key(mods[i]);
    a.len() >= 6 && b.len() >= 6 && fits_together(a, b) && is_close(likeness(a, b))
}

/// The mod among the first `n` that is most like the new one, the first of several,
/// or -1.
pub open spec fn most_similar(mods: Seq<ModEntry>, new_mod: ModEntry, n: int) -> int
    decreases n,
{
    if n <= 0 {
        -1
    } else {
        let before = most_similar(mods, new_mod, n - 1);
        if !is_similar(mods, new_mod, n - 1) {
            before
        } else if before < 0 {
            n - 1
        } else {
            let x = likeness(origin_key(new_mod), origin_key(mods[before]));
            let y = likeness(origin_key(new_mod), origin_key(mods[n - 1]));
            if x.0 * y.1 <= y.0 * x.1 {
                before
            } else {
                n - 1
            }
        }
    }
}

/// A mod that is like one that is imported.
#[derive(Debug)]
pub struct SimilarMatch {
    pub existing_id: String,
    pub existing_label: String,
    pub new_label: String,
    pub new_stamp: Option<u64>,
    pub existing_stamp: Option<u64>,
    pub likeness: Likeness,
}

/// The mod that is most like one that is imported.
pub fn find_similar_by_label(mods: &[ModEntry], new_mod: &ModEntry) -> (r: Option<SimilarMatch>)
    ensures
        ({
            let at = most_similar(mods@, *new_mod, mods@.len() as int);
            match r {
                Some(s) => {
                    &&& 0 <= at < mods.len()
                    &&& s.existing_id == mods@[at].id
                    &&& s.existing_label@ == mods@[at].shown_name()
                    &&& s.new_label@ == new_mod.shown_name()
                    &&& s.new_stamp == timestamp(origin(*new_mod))
                    &&& s.existing_stamp == timestamp(origin(mods@[at]))
                    &&& (s.likeness.changes as nat, s.likeness.length as nat) == likeness(
                        origin_key(*new_mod),
                        origin_key(mods@[at]),
                    )
                    &&& s.likeness.changes <= s.likeness.length
                },
                None => at < 0,
            }
        }),
{
    let key = normalize_label(find_origin(new_mod));
    let long = to_chars(key.as_str()).len() >= 6;
    let mut best: Option<(usize, Likeness)> = None;
    let mut i: usize = 0;
    while i < mods.len()
        invariant
            i <= mods.len(),
            key@ == origin_key(*new_mod),
            long == (key@.len() >= 6),
            match best {
                Some((k, l)) => k < i && most_similar(mods@, *new_mod, i as int) == k && (
                    l.changes as nat,
                    l.length as nat,
                ) == likeness(key@, origin_key(mods@[k as int])) && l.changes <= l.length,
                None => most_similar(mods@, *new_mod, i as int) == -1,
            },
        decreases mods.len() - i,
    {
        let other = normalize_label(find_origin(&mods[i]));
        if long && to_chars(other.as_str()).len() >= 6 {
            if let Some(l) = similarity_ratio(key.as_str(), other.as_str()) {
                if l.similar_enough() {
                    let keep = match best {
                        Some((_, b)) => b.not_less(&l),
                        None => false,
                    };
                    if !keep {
                        best = Some((i, l));
                    }
                }
            }
        }
        i = i + 1;
    }
    match best {
        Some((k, likeness)) => {
            let m = &mods[k];
            Some(
                SimilarMatch {
                    existing_id: m.id.clone(),
                    existing_label: m.display_name(),
                    new_label: new_mod.display_name(),
                    new_stamp: extract_timestamp(find_origin(new_mod)),
                    existing_stamp: extract_timestamp(find_origin(m)),
                    likeness,
                },
            )
        },
        None => None,
    }
}

} // verus!
