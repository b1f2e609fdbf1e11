//! What holds of cleaned labels and of the keys made of them.
use crate::library;
use crate::text;
use vstd::prelude::*;

verus! {

// ---------------------------------------------------------------------------
// Trimming
// ---------------------------------------------------------------------------

/// Whether a text starts and ends with something else than white space.
pub open spec fn is_trim(s: Seq<char>) -> bool {
    s.len() > 0 && !text::is_space(s.first()) && !text::is_space(s.last())
}

proof fn lemma_trim_start(s: Seq<char>)
    ensures
        text::trim_start(s).len() <= s.len(),
        text::trim_start(s) == s.skip(s.len() - text::trim_start(s).len()),
        text::trim_start(s).len() > 0 ==> !text::is_space(text::trim_start(s).first()),
    decreases s.len(),
{
    if s.len() > 0 && text::is_space(s.first()) {
        lemma_trim_start(s.drop_first());
        let t = text::trim_start(s);
        assert(s.drop_first().skip(s.len() - 1 - t.len()) =~= s.skip(s.len() - t.len()));
    } else {
        assert(s.skip(0) =~= s);
    }
}

proof fn lemma_trim_end(s: Seq<char>)
    ensures
        text::trim_end(s).len() <= s.len(),
        text::trim_end(s) == s.take(text::trim_end(s).len() as int),
        text::trim_end(s).len() > 0 ==> !text::is_space(text::trim_end(s).last()),
    decreases s.len(),
{
    if s.len() > 0 && text::is_space(s.last()) {
        lemma_trim_end(s.drop_last());
        let n = text::trim_end(s).len() as int;
        assert(s.drop_last().take(n) =~= s.take(n));
    } else {
        assert(s.take(s.len() as int) =~= s);
    }
}

/// What is left of a text starts and ends with something, and is a part of it.
proof fn lemma_trimmed(s: Seq<char>)
    ensures
        text::trimmed(s).len() > 0 ==> is_trim(text::trimmed(s)),
        forall|i: int| 0 <= i < text::trimmed(s).len() ==> s.contains(#[trigger] text::trimmed(s)[i]),
{
    let t = text::trim_start(s);
    lemma_trim_start(s);
    lemma_trim_end(t);
    let r = text::trimmed(s);
    assert forall|i: int| 0 <= i < r.len() implies s.contains(#[trigger] r[i]) by {
        assert(r[i] == t[i]);
        assert(t[i] == s[i + s.len() - t.len()]);
    }
}

proof fn lemma_trim_kept(s: Seq<char>)
    requires
        s.len() == 0 || is_trim(s),
    ensures
        text::trimmed(s) == s,
{
}

/// A blank at an end makes no difference.
proof fn lemma_trim_blank_behind(s: Seq<char>)
    requires
        is_trim(text::trimmed(s)),
    ensures
        text::trimmed(s.push(' ')) == text::trimmed(s),
    decreases s.len(),
{
    if s.len() > 0 && text::is_space(s.first()) {
        assert(s.push(' ').drop_first() =~= s.drop_first().push(' '));
        lemma_trim_blank_behind(s.drop_first());
    } else {
        assert(s.len() > 0);
        assert(text::trim_start(s.push(' ')) == s.push(' '));
        assert(s.push(' ').drop_last() =~= s);
    }
}

proof fn lemma_trim_blank_before(s: Seq<char>)
    ensures
        text::trimmed(seq![' '] + s) == text::trimmed(s),
{
    assert((seq![' '] + s).drop_first() =~= s);
}

// ---------------------------------------------------------------------------
// Words
// ---------------------------------------------------------------------------

/// A text with one blank in place of each run of white space, and none at its ends.
pub open spec fn squeezed(s: Seq<char>) -> Seq<char>
    decreases s.len(),
{
    if s.len() == 0 {
        Seq::empty()
    } else {
        let before = squeezed(s.drop_last());
        if text::is_space(s.last()) {
            before
        } else if before.len() > 0 && text::is_space(s[s.len() - 2]) {
            before.push(' ').push(s.last())
        } else {
            before.push(s.last())
        }
    }
}

proof fn lemma_join_push(parts: Seq<Seq<char>>, sep: Seq<char>, last: Seq<char>)
    requires
        parts.len() > 0,
    ensures
        text::join(parts.push(last), sep) == text::join(parts, sep) + sep + last,
{
    assert(parts.push(last).drop_last() =~= parts);
}

/// The words of a text, with blanks between them.
proof fn lemma_squeezed(s: Seq<char>)
    ensures
        text::join(text::words(s), " "@) == squeezed(s),
        text::words(s).len() == 0 <==> squeezed(s).len() == 0,
        s.len() > 0 && !text::is_space(s.last()) ==> text::words(s).len() > 0,
    decreases s.len(),
{
    reveal_strlit(" ");
    if s.len() > 0 {
        let rest = s.drop_last();
        lemma_squeezed(rest);
        let before = text::words(rest);
        let c = s.last();
        if text::is_space(c) {
        } else if s.len() == 1 || text::is_space(s[s.len() - 2]) {
            if before.len() > 0 {
                lemma_join_push(before, " "@, seq![c]);
                assert(text::join(before, " "@) + " "@ + seq![c] =~= squeezed(rest).push(' ').push(c));
            } else {
                let one = before.push(seq![c]);
                assert(one[0] == seq![c]);
                assert(squeezed(rest) =~= Seq::empty());
                assert(seq![c] =~= squeezed(rest).push(c));
            }
        } else {
            assert(rest.last() == s[s.len() - 2]);
            let head = before.drop_last();
            assert(head.push(before.last()) =~= before);
            if head.len() > 0 {
                lemma_join_push(head, " "@, before.last());
                lemma_join_push(head, " "@, before.last().push(c));
                assert(text::join(head, " "@) + " "@ + before.last().push(c) =~= (text::join(
                    head,
                    " "@,
                ) + " "@ + before.last()).push(c));
            } else {
                assert(head.push(before.last().push(c))[0] == before.last().push(c));
            }
            assert(squeezed(rest).len() > 0);
            assert(squeezed(s) == squeezed(rest).push(c));
        }
    }
}

/// Whether white space stands in a text as single blanks alone, and not at its start.
pub open spec fn is_tidy(s: Seq<char>) -> bool {
    &&& s.len() > 0 ==> !text::is_space(s.first())
    &&& forall|i: int| 0 <= i < s.len() && text::is_space(#[trigger] s[i]) ==> s[i] == ' '
    &&& forall|i: int|
        0 < i < s.len() && text::is_space(#[trigger] s[i]) ==> !text::is_space(s[i - 1])
}

/// A text whose white space was squeezed is tidy, and has its other characters alone.
proof fn lemma_squeezed_tidy(s: Seq<char>)
    ensures
        is_tidy(squeezed(s)),
        squeezed(s).len() > 0 ==> is_trim(squeezed(s)),
        forall|i: int|
            0 <= i < squeezed(s).len() ==> (#[trigger] squeezed(s)[i] == ' ' || s.contains(
                squeezed(s)[i],
            )),
        s.len() > 0 && !text::is_space(s.first()) ==> squeezed(s).len() > 0 && squeezed(s).first()
            == s.first(),
    decreases s.len(),
{
    if s.len() > 0 {
        let rest = s.drop_last();
        lemma_squeezed_tidy(rest);
        let a = squeezed(rest);
        let b = squeezed(s);
        assert forall|i: int| 0 <= i < b.len() implies (#[trigger] b[i] == ' ' || s.contains(
            b[i],
        )) by {
            if i < a.len() {
                assert(b[i] == a[i]);
                if a[i] != ' ' {
                    let k = choose|k: int| 0 <= k < rest.len() && rest[k] == a[i];
                    assert(s[k] == a[i]);
                }
            } else if b[i] != ' ' {
                assert(b[i] == s[s.len() - 1]);
            }
        }
        if s.len() > 1 {
            assert(rest.first() == s.first());
        }
    }
}

/// A tidy text stays as it is, but for a blank at its end.
proof fn lemma_squeeze_tidy(s: Seq<char>)
    requires
        is_tidy(s),
    ensures
        squeezed(s) == if s.len() > 0 && text::is_space(s.last()) {
            s.drop_last()
        } else {
            s
        },
    decreases s.len(),
{
    if s.len() > 0 {
        let rest = s.drop_last();
        assert forall|i: int| 0 < i < rest.len() && text::is_space(#[trigger] rest[i]) implies
            !text::is_space(rest[i - 1]) by {
            assert(text::is_space(s[i]));
        }
        assert forall|i: int| 0 <= i < rest.len() && text::is_space(#[trigger] rest[i]) implies
            rest[i] == ' ' by {
            assert(text::is_space(s[i]));
        }
        lemma_squeeze_tidy(rest);
        if text::is_space(s.last()) {
            assert(s.len() > 1);
            assert(text::is_space(s[s.len() - 1]));
        } else if rest.len() > 0 && text::is_space(rest.last()) {
            assert(text::is_space(s[s.len() - 2]));
            assert(rest.len() > 1);
            assert(rest.drop_last().push(' ').push(s.last()) =~= s);
        } else {
            if rest.len() > 0 {
                assert(s[s.len() - 2] == rest.last());
            }
            assert(rest.push(s.last()) =~= s);
        }
    }
}

/// Texts that meet without white space are squeezed one by one.
proof fn lemma_squeeze_close(a: Seq<char>, b: Seq<char>)
    requires
        is_trim(a),
        b.len() > 0,
        !text::is_space(b.first()),
    ensures
        squeezed(a + b) == squeezed(a) + squeezed(b),
    decreases b.len(),
{
    let s = a + b;
    let rest = b.drop_last();
    assert(s.drop_last() =~= a + rest);
    assert(s.last() == b.last());
    lemma_squeezed_tidy(a);
    if rest.len() == 0 {
        assert(a + rest =~= a);
        assert(s[s.len() - 2] == a.last());
        assert(squeezed(rest) =~= Seq::empty());
        assert(squeezed(b) =~= seq![b.last()]);
        assert(squeezed(s) =~= squeezed(a) + squeezed(b));
    } else {
        assert(rest.first() == b.first());
        lemma_squeeze_close(a, rest);
        lemma_squeezed_tidy(rest);
        assert(s[s.len() - 2] == b[b.len() - 2]);
        assert(squeezed(s) =~= squeezed(a) + squeezed(b));
    }
}

/// Texts with a blank between them are squeezed one by one.
proof fn lemma_squeeze_apart(a: Seq<char>, b: Seq<char>)
    requires
        is_trim(a),
        b.len() > 0,
        !text::is_space(b.first()),
    ensures
        squeezed(a + seq![' '] + b) == squeezed(a) + seq![' '] + squeezed(b),
    decreases b.len(),
{
    let s = a + seq![' '] + b;
    let rest = b.drop_last();
    assert(s.drop_last() =~= a + seq![' '] + rest);
    assert(s.last() == b.last());
    lemma_squeezed_tidy(a);
    if rest.len() == 0 {
        let mid = a + seq![' '];
        assert(a + seq![' '] + rest =~= mid);
        assert(mid.drop_last() =~= a);
        assert(squeezed(mid) == squeezed(a));
        assert(s[s.len() - 2] == ' ');
        assert(squeezed(rest) =~= Seq::empty());
        assert(squeezed(b) =~= seq![b.last()]);
        assert(squeezed(s) =~= squeezed(a) + seq![' '] + squeezed(b));
    } else {
        assert(rest.first() == b.first());
        lemma_squeeze_apart(a, rest);
        lemma_squeezed_tidy(rest);
        assert(s[s.len() - 2] == b[b.len() - 2]);
        assert(squeezed(s) =~= squeezed(a) + seq![' '] + squeezed(b));
    }
}

// ---------------------------------------------------------------------------
// Pieces
// ---------------------------------------------------------------------------

/// Whether a text can be a piece of a label: it starts and ends with something, and has
/// no hyphen and no underscore.
pub open spec fn is_piece(s: Seq<char>) -> bool {
    is_trim(s) && !s.contains('-') && !s.contains('_')
}

pub open spec fn are_pieces(parts: Seq<Seq<char>>) -> bool {
    forall|i: int| 0 <= i < parts.len() ==> is_piece(#[trigger] parts[i])
}

pub open spec fn is_joiner(sep: Seq<char>) -> bool {
    sep == "-"@ || sep == " - "@
}

pub open spec fn squeezed_each(parts: Seq<Seq<char>>) -> Seq<Seq<char>> {
    Seq::new(parts.len(), |i: int| squeezed(parts[i]))
}

proof fn lemma_joiner(sep: Seq<char>)
    requires
        is_joiner(sep),
    ensures
        "-"@ == seq!['-'],
        sep == seq!['-'] || sep == seq![' '] + seq!['-'] + seq![' '],
{
    reveal_strlit("-");
    reveal_strlit(" - ");
    assert("-"@ =~= seq!['-']);
    if sep != "-"@ {
        assert(sep =~= seq![' '] + seq!['-'] + seq![' ']);
    }
}

proof fn lemma_squeezed_piece(s: Seq<char>)
    requires
        is_piece(s),
    ensures
        is_piece(squeezed(s)),
        is_tidy(squeezed(s)),
        squeezed(squeezed(s)) == squeezed(s),
        text::all_digits(squeezed(s)) == text::all_digits(s),
        text::all_digits(s) ==> squeezed(s) == s,
{
    lemma_squeezed_tidy(s);
    let t = squeezed(s);
    lemma_squeeze_tidy(t);
    if t.contains('-') {
        let i = choose|i: int| 0 <= i < t.len() && t[i] == '-';
        assert(s.contains(t[i]));
    }
    if t.contains('_') {
        let i = choose|i: int| 0 <= i < t.len() && t[i] == '_';
        assert(s.contains(t[i]));
    }
    if text::all_digits(s) {
        assert(is_tidy(s)) by {
            assert forall|i: int| 0 <= i < s.len() implies !text::is_space(#[trigger] s[i]) by {
                assert(text::is_digit(s[i]));
            }
        }
        lemma_squeeze_tidy(s);
    }
    if text::all_digits(t) {
        lemma_digits_squeezed(s);
    }
}

/// Where only digits are left of a text that starts and ends with something, there was
/// nothing else.
proof fn lemma_digits_squeezed(s: Seq<char>)
    requires
        s.len() > 0,
        !text::is_space(s.first()),
        text::all_digits(squeezed(s)),
    ensures
        !text::is_space(s.last()) ==> text::all_digits(s),
    decreases s.len(),
{
    let rest = s.drop_last();
    let t = squeezed(s);
    let a = squeezed(rest);
    if !text::is_space(s.last()) {
        assert(t[t.len() - 1] == s.last());
        assert(text::is_digit(t[t.len() - 1]));
        if rest.len() > 0 {
            assert(rest.first() == s.first());
            lemma_squeezed_tidy(rest);
            assert forall|i: int| 0 <= i < a.len() implies text::is_digit(a[i]) by {
                assert(a[i] == t[i]);
                assert(text::is_digit(t[i]));
            }
            assert(s[s.len() - 2] == rest.last());
            if text::is_space(rest.last()) {
                assert(t[t.len() - 2] == ' ');
                assert(text::is_digit(t[t.len() - 2]));
            }
            lemma_digits_squeezed(rest);
            assert forall|i: int| 0 <= i < s.len() implies text::is_digit(s[i]) by {
                if i < rest.len() {
                    assert(rest[i] == s[i]);
                }
            }
        }
    }
}

proof fn lemma_squeezed_pieces(parts: Seq<Seq<char>>)
    requires
        are_pieces(parts),
    ensures
        are_pieces(squeezed_each(parts)),
        squeezed_each(squeezed_each(parts)) == squeezed_each(parts),
{
    let t = squeezed_each(parts);
    assert forall|i: int| 0 <= i < t.len() implies is_piece(#[trigger] t[i]) && squeezed(t[i])
        == t[i] by {
        lemma_squeezed_piece(parts[i]);
    }
    assert(squeezed_each(t) =~= t);
}

/// Pieces are squeezed one by one, and what is made of them starts and ends with something.
proof fn lemma_squeeze_join(parts: Seq<Seq<char>>, sep: Seq<char>)
    requires
        are_pieces(parts),
        parts.len() > 0,
        is_joiner(sep),
    ensures
        is_trim(text::join(parts, sep)),
        !text::join(parts, sep).contains('_'),
        squeezed(text::join(parts, sep)) == text::join(squeezed_each(parts), sep),
    decreases parts.len(),
{
    lemma_joiner(sep);
    let each = squeezed_each(parts);
    assert(is_piece(parts[parts.len() - 1]));
    if parts.len() == 1 {
        assert(each[0] == squeezed(parts[0]));
    } else {
        let head = parts.drop_last();
        let last = parts.last();
        assert forall|i: int| 0 <= i < head.len() implies is_piece(#[trigger] head[i]) by {
            assert(is_piece(parts[i]));
        }
        lemma_squeeze_join(head, sep);
        let a = text::join(head, sep);
        let hyphen = seq!['-'];
        assert(each.drop_last() =~= squeezed_each(head));
        assert(squeezed(hyphen) =~= hyphen) by {
            assert(hyphen.drop_last() =~= Seq::empty());
            assert(squeezed(hyphen.drop_last()) =~= Seq::empty());
        }
        let whole = a + sep + last;
        assert(whole.first() == a.first());
        assert(whole.last() == last.last());
        if sep == hyphen {
            lemma_squeeze_close(hyphen, last);
            lemma_squeeze_close(a, hyphen + last);
            assert(a + (hyphen + last) =~= whole);
            assert(squeezed(a) + (hyphen + squeezed(last)) =~= squeezed(a) + sep + squeezed(last));
        } else {
            let tail = hyphen + seq![' '] + last;
            lemma_squeeze_apart(hyphen, last);
            lemma_squeeze_apart(a, tail);
            assert(a + seq![' '] + tail =~= whole);
            assert(squeezed(a) + seq![' '] + (hyphen + seq![' '] + squeezed(last)) =~= squeezed(a)
                + sep + squeezed(last));
        }
        if whole.contains('_') {
            let k = choose|k: int| 0 <= k < whole.len() && whole[k] == '_';
            if k < a.len() {
                assert(a[k] == '_');
            } else if k >= a.len() + sep.len() {
                assert(last[k - a.len() - sep.len()] == '_');
            }
        }
    }
}

proof fn lemma_split_some(s: Seq<char>, seps: Seq<char>)
    ensures
        text::split_any(s, seps).len() > 0,
    decreases s.len(),
{
    if s.len() > 0 {
        lemma_split_some(s.drop_last(), seps);
    }
}

/// What has no separator goes to the last piece.
pub proof fn lemma_split_rest(s: Seq<char>, seps: Seq<char>, t: Seq<char>)
    requires
        forall|i: int| 0 <= i < t.len() ==> !seps.contains(#[trigger] t[i]),
    ensures
        text::split_any(s + t, seps) == text::split_any(s, seps).drop_last().push(
            text::split_any(s, seps).last() + t,
        ),
    decreases t.len(),
{
    let before = text::split_any(s, seps);
    lemma_split_some(s, seps);
    if t.len() == 0 {
        assert(s + t =~= s);
        assert(before.last() + t =~= before.last());
        assert(before.drop_last().push(before.last()) =~= before);
    } else {
        let rest = t.drop_last();
        assert forall|i: int| 0 <= i < rest.len() implies !seps.contains(#[trigger] rest[i]) by {
            assert(!seps.contains(t[i]));
        }
        lemma_split_rest(s, seps, rest);
        assert((s + t).drop_last() =~= s + rest);
        assert(!seps.contains(t[t.len() - 1]));
        let mid = text::split_any(s + rest, seps);
        assert(mid.drop_last() =~= before.drop_last());
        assert((before.last() + rest).push(t.last()) =~= before.last() + t);
    }
}

/// What is made of pieces is split into them again, but for blanks at their ends.
proof fn lemma_split_join(parts: Seq<Seq<char>>, sep: Seq<char>)
    requires
        are_pieces(parts),
        parts.len() > 0,
        is_joiner(sep),
    ensures
        text::split_any(text::join(parts, sep), "-"@).len() == parts.len(),
        text::trimmed_each(text::split_any(text::join(parts, sep), "-"@)) == parts,
    decreases parts.len(),
{
    lemma_joiner(sep);
    let seps = "-"@;
    let last = parts.last();
    assert(is_piece(parts[parts.len() - 1]));
    assert forall|i: int| 0 <= i < last.len() implies !seps.contains(#[trigger] last[i]) by {
        assert(last.contains(last[i]));
    }
    if parts.len() == 1 {
        lemma_split_rest(Seq::empty(), seps, last);
        assert(Seq::<char>::empty() + last =~= last);
        let got = text::split_any(last, seps);
        assert(got =~= seq![last]);
        lemma_trim_kept(last);
        assert(text::trimmed_each(got) =~= parts);
    } else {
        let head = parts.drop_last();
        assert forall|i: int| 0 <= i < head.len() implies is_piece(#[trigger] head[i]) by {
            assert(is_piece(parts[i]));
        }
        lemma_split_join(head, sep);
        let a = text::join(head, sep);
        let got = text::split_any(a, seps);
        let n = got.len() as int;
        assert(text::trimmed_each(got)[n - 1] == head[n - 1]);
        assert(is_piece(head[n - 1]));
        assert(seps.contains('-')) by {
            assert(seps[0] == '-');
        }
        let blank = seq![' '];
        let whole = text::join(parts, sep);
        if sep == seq!['-'] {
            let b = a.push('-');
            assert(b.drop_last() =~= a);
            let mid = text::split_any(b, seps);
            assert(mid == got.push(Seq::empty()));
            lemma_split_rest(b, seps, last);
            assert(whole =~= b + last);
            let all = text::split_any(whole, seps);
            assert(mid.drop_last() =~= got);
            assert(Seq::<char>::empty() + last =~= last);
            assert(all =~= got.push(last));
            lemma_trim_kept(last);
            assert forall|i: int| 0 <= i < parts.len() implies #[trigger] text::trimmed_each(all)[i]
                == parts[i] by {
                if i < n {
                    assert(text::trimmed_each(got)[i] == head[i]);
                }
            }
            assert(text::trimmed_each(all) =~= parts);
        } else {
            lemma_split_rest(a, seps, blank);
            let a2 = a + blank;
            let got2 = text::split_any(a2, seps);
            assert(got.last() + blank =~= got.last().push(' '));
            lemma_trim_blank_behind(got.last());
            let b = a2.push('-');
            assert(b.drop_last() =~= a2);
            let mid = text::split_any(b, seps);
            assert(mid == got2.push(Seq::empty()));
            let tail = blank + last;
            assert forall|i: int| 0 <= i < tail.len() implies !seps.contains(#[trigger] tail[i]) by {
                if i > 0 {
                    assert(tail[i] == last[i - 1]);
                }
            }
            lemma_split_rest(b, seps, tail);
            assert(whole =~= b + tail);
            let all = text::split_any(whole, seps);
            assert(mid.drop_last() =~= got2);
            assert(Seq::<char>::empty() + tail =~= tail);
            assert(all =~= got2.push(tail));
            lemma_trim_blank_before(last);
            lemma_trim_kept(last);
            assert forall|i: int| 0 <= i < parts.len() implies #[trigger] text::trimmed_each(all)[i]
                == parts[i] by {
                if i < n - 1 {
                    assert(all[i] == got[i]);
                    assert(text::trimmed_each(got)[i] == head[i]);
                } else if i == n - 1 {
                    assert(all[i] == got.last().push(' '));
                }
            }
            assert(text::trimmed_each(all) =~= parts);
        }
    }
}

/// Whether a character is one of a text that does not separate its pieces.
pub open spec fn is_inside(s: Seq<char>, seps: Seq<char>, c: char) -> bool {
    s.contains(c) && !seps.contains(c)
}

/// The pieces of a text hold what is in it, without the separators.
proof fn lemma_split_chars(s: Seq<char>, seps: Seq<char>)
    ensures
        forall|i: int, k: int|
            0 <= i < text::split_any(s, seps).len() && 0 <= k < text::split_any(s, seps)[i].len()
                ==> is_inside(s, seps, #[trigger] text::split_any(s, seps)[i][k]),
    decreases s.len(),
{
    if s.len() > 0 {
        let rest = s.drop_last();
        lemma_split_chars(rest, seps);
        lemma_split_some(rest, seps);
        let before = text::split_any(rest, seps);
        let now = text::split_any(s, seps);
        assert forall|i: int, k: int| 0 <= i < now.len() && 0 <= k < now[i].len() implies is_inside(
            s,
            seps,
            #[trigger] now[i][k],
        ) by {
            assert(s[s.len() - 1] == s.last());
            if i < before.len() && k < before[i].len() {
                let c = before[i][k];
                assert(now[i][k] == c);
                assert(is_inside(rest, seps, c));
                let m = choose|m: int| 0 <= m < rest.len() && rest[m] == c;
                assert(s[m] == c);
            }
        }
    }
}

proof fn lemma_non_empty(parts: Seq<Seq<char>>)
    ensures
        forall|i: int|
            0 <= i < text::non_empty(parts).len() ==> (#[trigger] text::non_empty(parts)[i]).len()
                > 0 && parts.contains(text::non_empty(parts)[i]),
        (forall|i: int| 0 <= i < parts.len() ==> (#[trigger] parts[i]).len() > 0)
            ==> text::non_empty(parts) == parts,
        parts.len() > 0 && parts.last().len() > 0 ==> text::non_empty(parts).len() > 0
            && text::non_empty(parts).last() == parts.last(),
    decreases parts.len(),
{
    if parts.len() > 0 {
        let rest = parts.drop_last();
        lemma_non_empty(rest);
        let a = text::non_empty(rest);
        let b = text::non_empty(parts);
        assert forall|i: int| 0 <= i < b.len() implies (#[trigger] b[i]).len() > 0
            && parts.contains(b[i]) by {
            if i < a.len() {
                assert(b[i] == a[i]);
                let k = choose|k: int| 0 <= k < rest.len() && rest[k] == a[i];
                assert(parts[k] == b[i]);
            } else {
                assert(b[i] == parts[parts.len() - 1]);
            }
        }
        if forall|i: int| 0 <= i < parts.len() ==> (#[trigger] parts[i]).len() > 0 {
            assert(parts[parts.len() - 1].len() > 0);
            assert forall|i: int| 0 <= i < rest.len() implies (#[trigger] rest[i]).len() > 0 by {
                assert(parts[i].len() > 0);
            }
            assert(rest.push(parts.last()) =~= parts);
        }
    } else {
        assert(text::non_empty(parts) =~= parts);
    }
}

/// The numbers at the end of pieces none of which is blank, the last one first.
pub open spec fn digit_tail(parts: Seq<Seq<char>>) -> Seq<Seq<char>>
    decreases parts.len(),
{
    if parts.len() > 0 && text::all_digits(parts.last()) {
        seq![parts.last()] + digit_tail(parts.drop_last())
    } else {
        Seq::empty()
    }
}

proof fn lemma_number_tail(parts: Seq<Seq<char>>)
    ensures
        library::number_tail(parts) == digit_tail(text::non_empty(text::trimmed_each(parts))),
    decreases parts.len(),
{
    let each = text::trimmed_each(parts);
    if parts.len() > 0 {
        lemma_number_tail(parts.drop_last());
        assert(each.drop_last() =~= text::trimmed_each(parts.drop_last()));
        let a = text::non_empty(each.drop_last());
        if each.last().len() > 0 {
            assert(text::non_empty(each).drop_last() =~= a);
        }
    }
}

proof fn lemma_digit_tail_squeezed(parts: Seq<Seq<char>>)
    requires
        are_pieces(parts),
    ensures
        digit_tail(squeezed_each(parts)) == digit_tail(parts),
    decreases parts.len(),
{
    if parts.len() > 0 {
        let rest = parts.drop_last();
        assert forall|i: int| 0 <= i < rest.len() implies is_piece(#[trigger] rest[i]) by {
            assert(is_piece(parts[i]));
        }
        lemma_digit_tail_squeezed(rest);
        assert(squeezed_each(parts).drop_last() =~= squeezed_each(rest));
        assert(is_piece(parts[parts.len() - 1]));
        lemma_squeezed_piece(parts.last());
    }
}

proof fn lemma_name_pieces(parts: Seq<Seq<char>>)
    ensures
        library::name_pieces(parts) <= parts.len(),
        library::name_pieces(parts) > 0 ==> !text::all_digits(
            text::trimmed(parts[library::name_pieces(parts) - 1]),
        ),
    decreases parts.len(),
{
    if parts.len() > 0 && text::all_digits(text::trimmed(parts.last())) {
        lemma_name_pieces(parts.drop_last());
    }
}

/// Of the pieces that are kept all are kept again.
proof fn lemma_kept_again(parts: Seq<Seq<char>>, again: Seq<Seq<char>>)
    requires
        ({
            let kept = text::non_empty(
                text::trimmed_each(parts.take(library::kept_pieces(parts) as int)),
            );
            are_pieces(kept) && kept.len() > 0 && text::trimmed_each(again) == squeezed_each(kept)
        }),
    ensures
        library::kept_pieces(again) == again.len(),
{
    let k = library::kept_pieces(parts) as int;
    let head = parts.take(k);
    let each = text::trimmed_each(head);
    let kept = text::non_empty(each);
    let n = squeezed_each(kept);
    lemma_name_pieces(parts);
    lemma_non_empty(each);
    lemma_squeezed_pieces(kept);
    lemma_non_empty(n);
    lemma_number_tail(again);
    lemma_digit_tail_squeezed(kept);
    assert(text::trimmed_each(again).len() == again.len());
    assert forall|i: int| 0 <= i < n.len() implies (#[trigger] n[i]).len() > 0 by {
        assert(is_piece(n[i]));
    }
    assert(library::number_tail(again) == digit_tail(kept));
    let numbers = library::number_tail(parts);
    if numbers.len() == 0 || numbers.len() >= 2 || numbers[0].len() >= 6 {
        if k == 0 {
            assert(each.len() == 0);
            assert(kept.len() == 0);
        }
        assert(head.last() == parts[k - 1]);
        assert(each.last() == text::trimmed(parts[k - 1]));
        assert(each.last().len() > 0);
        assert(kept.last() == each.last());
        assert(digit_tail(kept) == Seq::<Seq<char>>::empty());
        assert(text::trimmed_each(again)[again.len() - 1] == n[kept.len() - 1]);
        assert(is_piece(kept[kept.len() - 1]));
        lemma_squeezed_piece(kept.last());
        assert(!text::all_digits(text::trimmed(again.last())));
    } else {
        lemma_number_tail(parts);
        assert(head =~= parts);
    }
}

/// A hyphen between pieces has no blank before it, unless the joiner has one.
proof fn lemma_close_hyphens(parts: Seq<Seq<char>>)
    requires
        are_pieces(parts),
        parts.len() > 0,
    ensures
        forall|i: int|
            0 <= i < text::join(parts, "-"@).len() && #[trigger] text::join(parts, "-"@)[i] == '-'
                ==> i > 0 && !text::is_space(text::join(parts, "-"@)[i - 1]),
    decreases parts.len(),
{
    let sep = "-"@;
    lemma_joiner(sep);
    let last = parts.last();
    assert(is_piece(parts[parts.len() - 1]));
    let whole = text::join(parts, sep);
    if parts.len() == 1 {
        assert forall|i: int| 0 <= i < whole.len() && #[trigger] whole[i] == '-' implies i > 0
            && !text::is_space(whole[i - 1]) by {
            assert(last.contains(whole[i]));
        }
    } else {
        let head = parts.drop_last();
        assert forall|i: int| 0 <= i < head.len() implies is_piece(#[trigger] head[i]) by {
            assert(is_piece(parts[i]));
        }
        lemma_close_hyphens(head);
        lemma_squeeze_join(head, sep);
        let a = text::join(head, sep);
        assert forall|i: int| 0 <= i < whole.len() && #[trigger] whole[i] == '-' implies i > 0
            && !text::is_space(whole[i - 1]) by {
            if i < a.len() {
                assert(a[i] == '-');
                assert(whole[i - 1] == a[i - 1]);
            } else if i == a.len() {
                assert(whole[i - 1] == a.last());
            } else {
                assert(last.contains(last[i - a.len() - 1]));
            }
        }
    }
}

/// Which joiner made a text can be told from it.
proof fn lemma_joiner_told(parts: Seq<Seq<char>>, sep: Seq<char>)
    requires
        are_pieces(parts),
        parts.len() > 1,
        is_joiner(sep),
    ensures
        text::contains_text(text::join(parts, sep), " - "@) <==> sep == " - "@,
{
    let spaced = " - "@;
    lemma_joiner(spaced);
    lemma_joiner(sep);
    let whole = text::join(parts, sep);
    if sep == spaced {
        let a = text::join(parts.drop_last(), sep);
        assert(whole.subrange(a.len() as int, (a.len() + sep.len()) as int) =~= sep);
        assert(text::stands_at(whole, spaced, a.len() as int));
    } else {
        lemma_close_hyphens(parts);
        if text::contains_text(whole, spaced) {
            let i = choose|i: int| text::stands_at(whole, spaced, i);
            let part = whole.subrange(i, i + spaced.len());
            assert(part[0] == whole[i] && part[1] == whole[i + 1]);
            assert(spaced[0] == ' ' && spaced[1] == '-');
        }
    }
}

// ---------------------------------------------------------------------------
// Laws
// ---------------------------------------------------------------------------

/// The joiner for the pieces of a label.
pub open spec fn joiner_of(raw: Seq<char>) -> Seq<char> {
    if text::contains_text(raw, " - "@) {
        " - "@
    } else {
        "-"@
    }
}

/// The pieces of a label that are shown.
pub open spec fn kept_of(raw: Seq<char>) -> Seq<Seq<char>> {
    let parts = text::split_any(raw, "-"@);
    text::non_empty(text::trimmed_each(parts.take(library::kept_pieces(parts) as int)))
}

proof fn lemma_kept(raw: Seq<char>)
    requires
        !raw.contains('_'),
    ensures
        are_pieces(kept_of(raw)),
{
    let parts = text::split_any(raw, "-"@);
    let k = library::kept_pieces(parts) as int;
    let each = text::trimmed_each(parts.take(k));
    lemma_name_pieces(parts);
    lemma_non_empty(each);
    lemma_split_chars(raw, "-"@);
    lemma_joiner("-"@);
    let kept = kept_of(raw);
    assert forall|i: int| 0 <= i < kept.len() implies is_piece(#[trigger] kept[i]) by {
        assert(each.contains(kept[i]));
        let j = choose|j: int| 0 <= j < each.len() && each[j] == kept[i];
        assert(each[j] == text::trimmed(parts[j]));
        lemma_trimmed(parts[j]);
        let p = kept[i];
        assert forall|c: int| 0 <= c < p.len() implies is_inside(raw, "-"@, #[trigger] p[c]) by {
            assert(parts[j].contains(text::trimmed(parts[j])[c]));
            let m = choose|m: int| 0 <= m < parts[j].len() && parts[j][m] == p[c];
            assert(is_inside(raw, "-"@, text::split_any(raw, "-"@)[j][m]));
        }
        if p.contains('-') {
            let c = choose|c: int| 0 <= c < p.len() && p[c] == '-';
            assert(is_inside(raw, "-"@, p[c]));
            assert("-"@[0] == '-');
        }
        if p.contains('_') {
            let c = choose|c: int| 0 <= c < p.len() && p[c] == '_';
            assert(is_inside(raw, "-"@, p[c]));
        }
    }
}

/// What is shown of a label that has no underscore and no white space at its ends.
proof fn lemma_shown(raw: Seq<char>)
    requires
        !raw.contains('_'),
        raw.len() > 0,
    ensures
        ({
            let kept = kept_of(raw);
            let out = text::trimmed(
                text::join(text::words(text::join(kept, joiner_of(raw))), " "@),
            );
            &&& are_pieces(kept)
            &&& kept.len() == 0 ==> out == Seq::<char>::empty()
            &&& kept.len() > 0 ==> out == text::join(squeezed_each(kept), joiner_of(raw))
                && out == squeezed(text::join(kept, joiner_of(raw)))
        }),
{
    let kept = kept_of(raw);
    let sep = joiner_of(raw);
    lemma_kept(raw);
    let joined = text::join(kept, sep);
    lemma_squeezed(joined);
    if kept.len() > 0 {
        lemma_squeeze_join(kept, sep);
        lemma_squeezed_tidy(joined);
        lemma_trim_kept(squeezed(joined));
    } else {
        assert(squeezed(joined) =~= Seq::empty());
    }
}

proof fn lemma_raw(label: Seq<char>)
    ensures
        !text::swap_char(text::trimmed(label), '_', ' ').contains('_'),
{
}

/// Cleaning a label that was cleaned changes nothing. A cleaned label has no underscore
/// and no white space but single blanks, none of them at its start or end.
pub proof fn law_clean_label_once(label: Seq<char>)
    ensures
        library::cleaned_label(library::cleaned_label(label)) == library::cleaned_label(label),
        !library::cleaned_label(label).contains('_'),
        is_tidy(library::cleaned_label(label)),
        library::cleaned_label(label).len() > 0 ==> is_trim(library::cleaned_label(label)),
{
    let raw = text::swap_char(text::trimmed(label), '_', ' ');
    let out = library::cleaned_label(label);
    lemma_raw(label);
    if raw.len() > 0 {
        lemma_shown(raw);
        let kept = kept_of(raw);
        let sep = joiner_of(raw);
        if kept.len() > 0 {
            let n = squeezed_each(kept);
            lemma_squeezed_pieces(kept);
            lemma_squeeze_join(n, sep);
            lemma_squeezed_tidy(text::join(kept, sep));
            assert(out == text::join(n, sep));
            lemma_trim_kept(out);
            let again = text::swap_char(text::trimmed(out), '_', ' ');
            assert(again =~= out) by {
                assert forall|i: int| 0 <= i < out.len() implies out[i] != '_' by {
                    assert(out.contains(out[i]));
                }
            }
            lemma_split_join(n, sep);
            let parts = text::split_any(out, "-"@);
            lemma_kept_again(text::split_any(raw, "-"@), parts);
            assert(parts.take(parts.len() as int) =~= parts);
            lemma_non_empty(n);
            assert forall|i: int| 0 <= i < n.len() implies (#[trigger] n[i]).len() > 0 by {
                assert(is_piece(n[i]));
            }
            assert(kept_of(out) == n);
            lemma_shown(out);
            if n.len() > 1 {
                lemma_joiner_told(n, sep);
                assert(joiner_of(out) == sep);
            } else {
                assert(text::join(n, sep) == n[0]);
                assert(squeezed_each(n)[0] == n[0]);
            }
        }
    }
    if out.len() == 0 {
        assert(out =~= Seq::empty());
        assert(text::trimmed(out).len() == 0);
    }
}

// ---------------------------------------------------------------------------
// Upper case
// ---------------------------------------------------------------------------

pub open spec fn upper_each(parts: Seq<Seq<char>>) -> Seq<Seq<char>> {
    Seq::new(parts.len(), |i: int| text::ascii_upper(parts[i]))
}

proof fn lemma_upper_char(c: char)
    ensures
        text::is_space(text::upper(c)) == text::is_space(c),
        text::is_digit(text::upper(c)) == text::is_digit(c),
        text::is_alnum(text::upper(c)) == text::is_alnum(c),
        text::lower(text::upper(c)) == text::lower(c),
        text::upper(c) == '-' <==> c == '-',
        text::upper(c) == '_' <==> c == '_',
        text::upper(c) == ' ' <==> c == ' ',
{
}

proof fn lemma_upper_trim_start(s: Seq<char>)
    ensures
        text::trim_start(text::ascii_upper(s)) == text::ascii_upper(text::trim_start(s)),
    decreases s.len(),
{
    if s.len() > 0 {
        lemma_upper_char(s.first());
        assert(text::ascii_upper(s).drop_first() =~= text::ascii_upper(s.drop_first()));
        lemma_upper_trim_start(s.drop_first());
    }
}

proof fn lemma_upper_trim_end(s: Seq<char>)
    ensures
        text::trim_end(text::ascii_upper(s)) == text::ascii_upper(text::trim_end(s)),
    decreases s.len(),
{
    if s.len() > 0 {
        lemma_upper_char(s.last());
        assert(text::ascii_upper(s).drop_last() =~= text::ascii_upper(s.drop_last()));
        lemma_upper_trim_end(s.drop_last());
    }
}

proof fn lemma_upper_trimmed(s: Seq<char>)
    ensures
        text::trimmed(text::ascii_upper(s)) == text::ascii_upper(text::trimmed(s)),
{
    lemma_upper_trim_start(s);
    lemma_upper_trim_end(text::trim_start(s));
}

proof fn lemma_upper_split(s: Seq<char>)
    ensures
        text::split_any(text::ascii_upper(s), "-"@) == upper_each(text::split_any(s, "-"@)),
    decreases s.len(),
{
    lemma_joiner("-"@);
    let seps = "-"@;
    let big = text::ascii_upper(s);
    if s.len() == 0 {
        assert(big =~= Seq::empty());
        assert(upper_each(text::split_any(s, seps)) =~= seq![Seq::<char>::empty()]) by {
            assert(text::ascii_upper(Seq::empty()) =~= Seq::empty());
        }
    } else {
        let rest = s.drop_last();
        lemma_upper_split(rest);
        lemma_split_some(rest, seps);
        lemma_upper_char(s.last());
        assert(big.drop_last() =~= text::ascii_upper(rest));
        let before = text::split_any(rest, seps);
        assert(seps.contains('-')) by {
            assert(seps[0] == '-');
        }
        assert(seps.contains(s.last()) <==> s.last() == '-');
        assert(seps.contains(big.last()) <==> big.last() == '-');
        assert(text::ascii_upper(Seq::<char>::empty()) =~= Seq::<char>::empty());
        assert(text::ascii_upper(before.last().push(s.last())) =~= text::ascii_upper(
            before.last(),
        ).push(big.last()));
        assert(text::split_any(big, seps) =~= upper_each(text::split_any(s, seps)));
    }
}

proof fn lemma_upper_digits(s: Seq<char>)
    ensures
        text::all_digits(text::ascii_upper(s)) == text::all_digits(s),
{
    let big = text::ascii_upper(s);
    assert forall|i: int| 0 <= i < s.len() implies text::is_digit(big[i]) == text::is_digit(
        #[trigger] s[i],
    ) by {
        lemma_upper_char(s[i]);
    }
    if text::all_digits(big) {
        assert forall|i: int| 0 <= i < s.len() implies text::is_digit(s[i]) by {
            assert(text::is_digit(big[i]));
        }
    }
}

proof fn lemma_upper_kept_pieces(parts: Seq<Seq<char>>)
    ensures
        library::name_pieces(upper_each(parts)) == library::name_pieces(parts),
        library::number_tail(upper_each(parts)) == upper_each(library::number_tail(parts)),
        library::kept_pieces(upper_each(parts)) == library::kept_pieces(parts),
    decreases parts.len(),
{
    let big = upper_each(parts);
    if parts.len() > 0 {
        let rest = parts.drop_last();
        lemma_upper_kept_pieces(rest);
        assert(big.drop_last() =~= upper_each(rest));
        lemma_upper_trimmed(parts.last());
        lemma_upper_digits(text::trimmed(parts.last()));
        let piece = text::trimmed(parts.last());
        let tail = library::number_tail(rest);
        assert(upper_each(seq![piece] + tail) =~= seq![text::ascii_upper(piece)] + upper_each(
            tail,
        ));
        assert(upper_each(Seq::empty()) =~= Seq::empty());
    } else {
        assert(upper_each(library::number_tail(parts)) =~= Seq::empty());
    }
    let numbers = library::number_tail(parts);
    if numbers.len() > 0 {
        assert(upper_each(numbers)[0].len() == numbers[0].len());
    }
}

proof fn lemma_upper_non_empty(parts: Seq<Seq<char>>)
    ensures
        text::non_empty(upper_each(parts)) == upper_each(text::non_empty(parts)),
    decreases parts.len(),
{
    let big = upper_each(parts);
    if parts.len() > 0 {
        let rest = parts.drop_last();
        lemma_upper_non_empty(rest);
        assert(big.drop_last() =~= upper_each(rest));
        assert(upper_each(text::non_empty(rest).push(parts.last())) =~= upper_each(
            text::non_empty(rest),
        ).push(big.last()));
    } else {
        assert(upper_each(text::non_empty(parts)) =~= Seq::empty());
    }
}

proof fn lemma_upper_join(parts: Seq<Seq<char>>, sep: Seq<char>)
    requires
        is_joiner(sep),
    ensures
        text::join(upper_each(parts), sep) == text::ascii_upper(text::join(parts, sep)),
    decreases parts.len(),
{
    lemma_joiner(sep);
    let big = upper_each(parts);
    if parts.len() == 0 {
        assert(text::ascii_upper(text::join(parts, sep)) =~= Seq::empty());
    } else if parts.len() > 1 {
        let rest = parts.drop_last();
        lemma_upper_join(rest, sep);
        assert(big.drop_last() =~= upper_each(rest));
        assert(text::ascii_upper(sep) =~= sep);
        assert(text::ascii_upper(text::join(rest, sep) + sep + parts.last()) =~= text::ascii_upper(
            text::join(rest, sep),
        ) + text::ascii_upper(sep) + text::ascii_upper(parts.last()));
    }
}

proof fn lemma_upper_squeezed(s: Seq<char>)
    ensures
        squeezed(text::ascii_upper(s)) == text::ascii_upper(squeezed(s)),
    decreases s.len(),
{
    let big = text::ascii_upper(s);
    if s.len() == 0 {
        assert(text::ascii_upper(squeezed(s)) =~= Seq::empty());
    } else {
        lemma_upper_squeezed(s.drop_last());
        assert(big.drop_last() =~= text::ascii_upper(s.drop_last()));
        lemma_upper_char(s.last());
        if s.len() > 1 {
            lemma_upper_char(s[s.len() - 2]);
        }
        assert(squeezed(big) =~= text::ascii_upper(squeezed(s)));
    }
}

proof fn lemma_upper_spaced(s: Seq<char>)
    ensures
        text::contains_text(text::ascii_upper(s), " - "@) == text::contains_text(s, " - "@),
{
    let spaced = " - "@;
    reveal_strlit(" - ");
    let big = text::ascii_upper(s);
    assert forall|i: int| #[trigger] text::stands_at(big, spaced, i) == text::stands_at(
        s,
        spaced,
        i,
    ) by {
        if 0 <= i && i + 3 <= s.len() {
            let a = s.subrange(i, i + 3);
            let b = big.subrange(i, i + 3);
            lemma_upper_char(s[i]);
            lemma_upper_char(s[i + 1]);
            lemma_upper_char(s[i + 2]);
            assert(a[0] == s[i] && a[1] == s[i + 1] && a[2] == s[i + 2]);
            assert(b[0] == big[i] && b[1] == big[i + 1] && b[2] == big[i + 2]);
            assert(spaced[0] == ' ' && spaced[1] == '-' && spaced[2] == ' ');
            if a == spaced {
                assert(b =~= spaced);
            }
            if b == spaced {
                assert(a =~= spaced);
            }
        }
    }
    if text::contains_text(big, spaced) {
        let i = choose|i: int| text::stands_at(big, spaced, i);
        assert(text::stands_at(s, spaced, i));
    }
    if text::contains_text(s, spaced) {
        let i = choose|i: int| text::stands_at(s, spaced, i);
        assert(text::stands_at(big, spaced, i));
    }
}

/// The label in upper case is cleaned as the label is.
proof fn lemma_upper_cleaned(label: Seq<char>)
    ensures
        library::cleaned_label(text::ascii_upper(label)) == text::ascii_upper(
            library::cleaned_label(label),
        ),
{
    let big = text::ascii_upper(label);
    let raw = text::swap_char(text::trimmed(label), '_', ' ');
    let raw2 = text::swap_char(text::trimmed(big), '_', ' ');
    lemma_upper_trimmed(label);
    assert(raw2 =~= text::ascii_upper(raw)) by {
        let t = text::trimmed(label);
        assert forall|i: int| 0 <= i < t.len() implies raw2[i] == text::upper(raw[i]) by {
            lemma_upper_char(t[i]);
        }
    }
    if raw.len() > 0 {
        lemma_raw(label);
        lemma_raw(big);
        lemma_upper_spaced(raw);
        lemma_upper_split(raw);
        let parts = text::split_any(raw, "-"@);
        lemma_upper_kept_pieces(parts);
        lemma_name_pieces(parts);
        let k = library::kept_pieces(parts) as int;
        let head = parts.take(k);
        assert(upper_each(parts).take(k) =~= upper_each(head));
        assert(text::trimmed_each(upper_each(head)) =~= upper_each(text::trimmed_each(head))) by {
            assert forall|i: int| 0 <= i < head.len() implies text::trimmed(
                text::ascii_upper(#[trigger] head[i]),
            ) == text::ascii_upper(text::trimmed(head[i])) by {
                lemma_upper_trimmed(head[i]);
            }
        }
        lemma_upper_non_empty(text::trimmed_each(head));
        let kept = kept_of(raw);
        let sep = joiner_of(raw);
        lemma_upper_join(kept, sep);
        lemma_upper_squeezed(text::join(kept, sep));
        lemma_shown(raw);
        lemma_shown(raw2);
        assert(kept_of(raw2) == upper_each(kept));
    }
    assert(library::cleaned_label(big) =~= text::ascii_upper(library::cleaned_label(label)));
}

proof fn lemma_upper_key(s: Seq<char>)
    ensures
        text::alnum_key(text::ascii_upper(s)) == text::alnum_key(s),
    decreases s.len(),
{
    if s.len() > 0 {
        lemma_upper_key(s.drop_last());
        assert(text::ascii_upper(s).drop_last() =~= text::ascii_upper(s.drop_last()));
        lemma_upper_char(s.last());
    }
}

proof fn lemma_key_chars(s: Seq<char>)
    ensures
        forall|i: int|
            0 <= i < text::alnum_key(s).len() ==> text::is_digit(#[trigger] text::alnum_key(s)[i])
                || text::is_lower(text::alnum_key(s)[i]),
    decreases s.len(),
{
    if s.len() > 0 {
        lemma_key_chars(s.drop_last());
        let c = s.last();
        let before = text::alnum_key(s.drop_last());
        let key = text::alnum_key(s);
        assert forall|i: int| 0 <= i < key.len() implies text::is_digit(#[trigger] key[i])
            || text::is_lower(key[i]) by {
            if i < before.len() {
                assert(key[i] == before[i]);
            } else {
                assert(key[i] == text::lower(c));
            }
        }
    }
}

/// The key of a label has digits and lower case letters alone, and does not depend on the
/// case of the ASCII letters of the label.
pub proof fn law_label_key_ignores_case(label: Seq<char>)
    ensures
        library::label_key(text::ascii_upper(label)) == library::label_key(label),
        forall|i: int|
            0 <= i < library::label_key(label).len() ==> text::is_digit(
                #[trigger] library::label_key(label)[i],
            ) || text::is_lower(library::label_key(label)[i]),
{
    lemma_upper_cleaned(label);
    lemma_upper_key(library::cleaned_label(label));
    lemma_key_chars(library::cleaned_label(label));
}

} // verus!
