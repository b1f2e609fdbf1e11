//! What holds of times, dates and versions.
use crate::calendar;
use crate::dep_keys;
use crate::dep_keys::RunKind;
use crate::library;
use crate::text;
use crate::versions;
use vstd::prelude::*;

verus! {

// ---------------------------------------------------------------------------
// Times
// ---------------------------------------------------------------------------

/// A stated time is the time of a mod's making, whatever its files say; the time of its
/// last change is that of its files, those of their making where no change is known, but
/// never before the stated time.
pub proof fn law_stated_time_wins(p: i64, created: Option<i64>, modified: Option<i64>)
    ensures
        ({
            let t = library::resolved_times(Some(p), created, modified);
            &&& t.0 == Some(p)
            &&& t.1 matches Some(m) && {
                &&& m >= p
                &&& modified matches Some(x) ==> m >= x && (m == x || m == p)
                &&& modified is None ==> (created matches Some(x) ==> m >= x && (m == x || m == p))
                &&& modified is None && created is None ==> m == p
            }
        }),
{
}

/// Without a stated time the two times of a file are put in order, and one that is not
/// known is taken to be the other: nothing but those two comes out.
pub proof fn law_file_times_in_order(created: Option<i64>, modified: Option<i64>)
    ensures
        ({
            let t = library::resolved_times(None, created, modified);
            &&& t.0 is Some <==> created is Some || modified is Some
            &&& t.1 is Some <==> created is Some || modified is Some
            &&& t.0 matches Some(a) ==> {
                &&& t.1 matches Some(b) && a <= b
                &&& created == Some(a) || modified == Some(a)
                &&& created matches Some(x) ==> a <= x && x <= t.1->0
                &&& modified matches Some(x) ==> a <= x && x <= t.1->0
            }
            &&& t.1 matches Some(b) ==> created == Some(b) || modified == Some(b)
        }),
        library::normalized_times(created, modified) == library::resolved_times(
            None,
            created,
            modified,
        ),
        library::normalized_times(created, modified) == library::normalized_times(
            modified,
            created,
        ),
{
}

// ---------------------------------------------------------------------------
// Dates
// ---------------------------------------------------------------------------

proof fn lemma_two_digits(n: nat)
    requires
        n < 100,
    ensures
        calendar::zeros(n, 2).len() == 2,
        text::digits_value(calendar::zeros(n, 2)) == n,
{
    let s = calendar::zeros(n, 2);
    reveal_with_fuel(text::decimal, 2);
    reveal_with_fuel(text::digits_value, 3);
    text::lemma_decimal(n);
    if n < 10 {
        assert(text::decimal(n).len() == 1);
        assert(s.len() == 2);
        assert(s[0] == '0');
        assert(s.drop_last() =~= seq!['0']);
        assert(seq!['0'].drop_last() =~= Seq::<char>::empty());
        assert(s.last() == text::decimal(n)[0]);
        assert(text::decimal(n).drop_last() =~= Seq::<char>::empty());
    } else {
        assert(text::decimal(n).len() == 2);
        assert(s =~= text::decimal(n));
    }
}

proof fn lemma_four_digits(n: nat)
    requires
        1000 <= n <= 9999,
    ensures
        calendar::zeros(n, 4).len() == 4,
        text::digits_value(calendar::zeros(n, 4)) == n,
{
    reveal_with_fuel(text::decimal, 4);
    text::lemma_decimal(n);
    assert(text::decimal(n).len() == 4);
    assert(calendar::zeros(n, 4) =~= text::decimal(n));
}

/// The numbers of a written date are those of the day: month, day and year where the
/// locale names the United States or the Philippines; year, month and day where it names
/// China, Japan, Korea, Taiwan or Hungary; else day, month and year.
pub proof fn law_date_is_readable(y: nat, m: nat, d: nat, locale: Seq<char>)
    requires
        1970 <= y <= 9999,
        1 <= m <= 12,
        1 <= d <= 31,
    ensures
        ({
            let s = calendar::written(y, m, d, locale);
            let us = text::contains_text(locale, "US"@) || text::contains_text(locale, "PH"@);
            let east = text::contains_text(locale, "CN"@) || text::contains_text(locale, "JP"@)
                || text::contains_text(locale, "KR"@) || text::contains_text(locale, "TW"@)
                || text::contains_text(locale, "HU"@);
            &&& s.len() == 10
            &&& us ==> text::digits_value(s.subrange(0, 2)) == m && text::digits_value(
                s.subrange(3, 5),
            ) == d && text::digits_value(s.subrange(6, 10)) == y && s[2] == '-' && s[5] == '-'
            &&& !us && east ==> text::digits_value(s.subrange(0, 4)) == y && text::digits_value(
                s.subrange(5, 7),
            ) == m && text::digits_value(s.subrange(8, 10)) == d && s[4] == '-' && s[7] == '-'
            &&& !us && !east ==> text::digits_value(s.subrange(0, 2)) == d && text::digits_value(
                s.subrange(3, 5),
            ) == m && text::digits_value(s.subrange(6, 10)) == y && s[2] == '-' && s[5] == '-'
        }),
{
    reveal_strlit("-");
    lemma_two_digits(m);
    lemma_two_digits(d);
    lemma_four_digits(y);
    let s = calendar::written(y, m, d, locale);
    let us = text::contains_text(locale, "US"@) || text::contains_text(locale, "PH"@);
    let a = calendar::zeros(m, 2);
    let b = calendar::zeros(d, 2);
    let c = calendar::zeros(y, 4);
    if us {
        assert(s.subrange(0, 2) =~= a);
        assert(s.subrange(3, 5) =~= b);
        assert(s.subrange(6, 10) =~= c);
    } else if calendar::year_first(locale) {
        assert(s.subrange(0, 4) =~= c);
        assert(s.subrange(5, 7) =~= a);
        assert(s.subrange(8, 10) =~= b);
    } else {
        assert(s.subrange(0, 2) =~= b);
        assert(s.subrange(3, 5) =~= a);
        assert(s.subrange(6, 10) =~= c);
    }
}

// ---------------------------------------------------------------------------
// Versions
// ---------------------------------------------------------------------------

proof fn lemma_number_ends(s: Seq<char>, i: int, end: int)
    requires
        0 <= i <= end <= s.len(),
        forall|j: int| i <= j < end ==> text::is_digit(#[trigger] s[j]),
        end < s.len() ==> !text::is_digit(s[end]),
    ensures
        versions::digits_end(s, i) == end,
    decreases end - i,
{
    if i < end {
        assert(text::is_digit(s[i]));
        lemma_number_ends(s, i + 1, end);
    }
}

proof fn lemma_no_version_before(s: Seq<char>, i: int, n: int)
    requires
        0 <= i <= n <= s.len(),
        forall|j: int| i <= j < n ==> !text::is_digit(#[trigger] s[j]),
    ensures
        versions::version_from(s, i) == versions::version_from(s, n),
    decreases n - i,
{
    if i < n {
        assert(!text::is_digit(s[i]));
        lemma_no_version_before(s, i + 1, n);
    }
}

/// Whether a text goes on neither with a digit nor with a dot.
pub open spec fn ends_number(tail: Seq<char>) -> bool {
    tail.len() == 0 || (!text::is_digit(tail[0]) && tail[0] != '.')
}

proof fn lemma_number_in(s: Seq<char>, before: Seq<char>, n: nat, tail: Seq<char>)
    requires
        s == before + text::decimal(n) + tail,
        n <= u64::MAX,
        tail.len() == 0 || !text::is_digit(tail[0]),
    ensures
        text::decimal(n).len() > 0,
        text::is_digit(s[before.len() as int]),
        versions::starts_number(s, before.len() as int),
        versions::digits_end(s, before.len() as int) == before.len() + text::decimal(n).len(),
        versions::number_at(s, before.len() as int) == n,
{
    let d = text::decimal(n);
    let at = before.len() as int;
    text::lemma_decimal(n);
    assert(d.len() > 0);
    assert forall|j: int| at <= j < at + d.len() implies text::is_digit(#[trigger] s[j]) by {
        assert(s[j] == d[j - at]);
    }
    if tail.len() > 0 {
        assert(s[at + d.len()] == tail[0]);
    }
    lemma_number_ends(s, at, at + d.len());
    assert(s.subrange(at, at + d.len()) =~= d);
}

/// A version that a label names is read: two numbers with a dot between them, wherever
/// they stand behind what has no digits.
pub proof fn law_version_is_read(head: Seq<char>, a: nat, b: nat, tail: Seq<char>)
    requires
        forall|j: int| 0 <= j < head.len() ==> !text::is_digit(#[trigger] head[j]),
        a <= u64::MAX,
        b <= u64::MAX,
        ends_number(tail),
    ensures
        versions::version_from(
            head + text::decimal(a) + "."@ + text::decimal(b) + tail,
            0,
        ) == Some((a as int, b as int, 0int, 0int)),
{
    reveal_strlit(".");
    let s = head + text::decimal(a) + "."@ + text::decimal(b) + tail;
    let x = head.len() as int;
    let first = "."@ + text::decimal(b) + tail;
    assert(s =~= head + text::decimal(a) + first);
    assert(first[0] == '.');
    lemma_number_in(s, head, a, first);
    let mid = head + text::decimal(a) + "."@;
    assert(s =~= mid + text::decimal(b) + tail);
    lemma_number_in(s, mid, b, tail);
    assert(s[x + text::decimal(a).len()] == '.');
    assert forall|j: int| 0 <= j < x implies !text::is_digit(#[trigger] s[j]) by {
        assert(s[j] == head[j]);
    }
    lemma_no_version_before(s, 0, x);
    let end = mid.len() + text::decimal(b).len();
    if tail.len() > 0 {
        assert(s[end as int] == tail[0]);
    }
}

/// So is one of three numbers.
pub proof fn law_longer_version_is_read(head: Seq<char>, a: nat, b: nat, c: nat, tail: Seq<char>)
    requires
        forall|j: int| 0 <= j < head.len() ==> !text::is_digit(#[trigger] head[j]),
        a <= u64::MAX,
        b <= u64::MAX,
        c <= u64::MAX,
        ends_number(tail),
    ensures
        versions::version_from(
            head + text::decimal(a) + "."@ + text::decimal(b) + "."@ + text::decimal(c) + tail,
            0,
        ) == Some((a as int, b as int, c as int, 0int)),
{
    reveal_strlit(".");
    let s = head + text::decimal(a) + "."@ + text::decimal(b) + "."@ + text::decimal(c) + tail;
    let x = head.len() as int;
    let first = "."@ + text::decimal(b) + "."@ + text::decimal(c) + tail;
    assert(s =~= head + text::decimal(a) + first);
    assert(first[0] == '.');
    lemma_number_in(s, head, a, first);
    let mid = head + text::decimal(a) + "."@;
    let second = "."@ + text::decimal(c) + tail;
    assert(s =~= mid + text::decimal(b) + second);
    assert(second[0] == '.');
    lemma_number_in(s, mid, b, second);
    let last = mid + text::decimal(b) + "."@;
    assert(s =~= last + text::decimal(c) + tail);
    lemma_number_in(s, last, c, tail);
    assert(s[x + text::decimal(a).len()] == '.');
    assert(s[(mid.len() + text::decimal(b).len()) as int] == '.');
    assert forall|j: int| 0 <= j < x implies !text::is_digit(#[trigger] s[j]) by {
        assert(s[j] == head[j]);
    }
    lemma_no_version_before(s, 0, x);
    let end = last.len() + text::decimal(c).len();
    if tail.len() > 0 {
        assert(s[end as int] == tail[0]);
    }
}

/// The stamp of a label is the last of its numbers that has eight digits or more and can be
/// held; a label without one has none.
pub proof fn law_last_long_number_is_the_stamp(label: Seq<char>)
    ensures
        ({
            let found = dep_keys::runs(label, RunKind::Number);
            match versions::timestamp(label) {
                Some(v) => exists|i: int|
                    0 <= i < found.len() && is_long(#[trigger] found[i]) && text::u64_value(
                        found[i],
                    ) == Some(v) && forall|j: int|
                        i < j < found.len() ==> !is_long(#[trigger] found[j]),
                None => forall|j: int| 0 <= j < found.len() ==> !is_long(#[trigger] found[j]),
            }
        }),
{
    let found = dep_keys::runs(label, RunKind::Number);
    lemma_last_stamp(found, found.len() as int);
}

/// Whether a number has eight digits or more and can be held.
pub open spec fn is_long(run: Seq<char>) -> bool {
    run.len() >= 8 && text::u64_value(run) is Some
}

proof fn lemma_last_stamp(list: Seq<Seq<char>>, n: int)
    requires
        0 <= n <= list.len(),
    ensures
        match versions::last_stamp(list, n) {
            Some(v) => exists|i: int|
                0 <= i < n && is_long(#[trigger] list[i]) && text::u64_value(list[i]) == Some(v)
                    && forall|j: int| i < j < n ==> !is_long(#[trigger] list[j]),
            None => forall|j: int| 0 <= j < n ==> !is_long(#[trigger] list[j]),
        },
    decreases n,
{
    if n > 0 {
        lemma_last_stamp(list, n - 1);
        if is_long(list[n - 1]) {
            assert(versions::stamp_of(list[n - 1]) == text::u64_value(list[n - 1]));
        } else {
            assert(versions::stamp_of(list[n - 1]) is None);
            if let Some(v) = versions::last_stamp(list, n - 1) {
                let i = choose|i: int|
                    0 <= i < n - 1 && is_long(#[trigger] list[i]) && text::u64_value(list[i])
                        == Some(v) && forall|j: int| i < j < n - 1 ==> !is_long(#[trigger] list[j]);
                assert(0 <= i < n && is_long(list[i]));
            }
        }
    }
}

} // verus!
