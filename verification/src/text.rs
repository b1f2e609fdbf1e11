//! Text: trimming, splitting, searching, case folding and ordering, each stated
//! over `Seq<char>`.
use vstd::prelude::*;
use vstd::string::*;

verus! {

/// `String::push` appends one character.
pub assume_specification[ String::push ](s: &mut String, c: char)
    ensures
        final(s)@ == old(s)@.push(c),
;

/// What `str::to_lowercase` returns for a text.
pub uninterp spec fn unicode_lowercase(s: Seq<char>) -> Seq<char>;

/// Calls `str::to_lowercase`: the result is a function of the text alone, and on
/// ASCII text it lowers each of the letters `A` to `Z` and keeps the rest.
#[verifier::external_body]
pub(crate) fn to_lowercase(s: &str) -> (out: String)
    ensures
        out@ == unicode_lowercase(s@),
        s.is_ascii() ==> out@ == ascii_lower(s@),
{
    s.to_lowercase()
}

// ---------------------------------------------------------------------------
// Sequences of texts
// ---------------------------------------------------------------------------

/// The texts held by a sequence of strings.
pub open spec fn texts(v: Seq<String>) -> Seq<Seq<char>> {
    Seq::new(v.len(), |i: int| v[i]@)
}

/// The text held by an optional string.
pub open spec fn text_opt(v: Option<String>) -> Option<Seq<char>> {
    match v {
        Some(s) => Some(s@),
        None => None,
    }
}

pub proof fn lemma_texts_push(v: Seq<String>, s: String)
    ensures
        texts(v.push(s)) == texts(v).push(s@),
{
    assert(texts(v.push(s)) =~= texts(v).push(s@));
}

/// One more line.
pub fn add_line(lines: &mut Vec<String>, line: String)
    ensures
        texts(final(lines)@) == texts(old(lines)@).push(line@),
{
    proof {
        lemma_texts_push(lines@, line);
    }
    lines.push(line);
}

/// The characters of a text.
pub fn to_chars(s: &str) -> (out: Vec<char>)
    ensures
        out@ == s@,
{
    let mut out: Vec<char> = Vec::new();
    for c in it: s.chars()
        invariant
            out@ == s@.take(it.index()),
            it.seq() == s@,
    {
        out.push(c);
    }
    out
}

/// The text made of characters.
pub fn from_chars(v: &Vec<char>) -> (out: String)
    ensures
        out@ == v@,
{
    let mut out = String::new();
    let mut i: usize = 0;
    while i < v.len()
        invariant
            i <= v.len(),
            out@ == v@.take(i as int),
        decreases v.len() - i,
    {
        out.push(v[i]);
        i = i + 1;
    }
    assert(v@.take(v@.len() as int) =~= v@);
    out
}

/// The text made of the characters from `from` up to `to`.
pub fn from_range(v: &Vec<char>, from: usize, to: usize) -> (out: String)
    requires
        from <= to <= v.len(),
    ensures
        out@ == v@.subrange(from as int, to as int),
{
    let mut out = String::new();
    let mut i: usize = from;
    while i < to
        invariant
            from <= i <= to <= v.len(),
            out@ == v@.subrange(from as int, i as int),
        decreases to - i,
    {
        out.push(v[i]);
        i = i + 1;
        assert(v@.subrange(from as int, i as int).drop_last() =~= v@.subrange(
            from as int,
            i - 1,
        ));
    }
    out
}

/// Whether two texts are the same.
pub fn same_text(a: &str, b: &str) -> (r: bool)
    ensures
        r == (a@ == b@),
{
    let mut left = a.chars();
    let mut right = b.chars();
    let ghost mut i: int = 0;
    loop
        invariant
            0 <= i <= a@.len(),
            i <= b@.len(),
            vstd::std_specs::iter::IteratorSpec::obeys_prophetic_iter_laws(&left),
            vstd::std_specs::iter::IteratorSpec::obeys_prophetic_iter_laws(&right),
            vstd::std_specs::iter::IteratorSpec::remaining(&left) == a@.skip(i),
            vstd::std_specs::iter::IteratorSpec::remaining(&right) == b@.skip(i),
            a@.take(i) == b@.take(i),
        decreases a@.len() - i,
    {
        let x = left.next();
        let y = right.next();
        match (x, y) {
            (Some(c), Some(d)) => {
                if c != d {
                    assert(a@[i] == c && b@[i] == d);
                    return false;
                }
                proof {
                    assert(a@[i] == c && b@[i] == d);
                    assert(a@.skip(i).drop_first() =~= a@.skip(i + 1));
                    assert(b@.skip(i).drop_first() =~= b@.skip(i + 1));
                    assert(a@.take(i + 1) =~= a@.take(i).push(c));
                    assert(b@.take(i + 1) =~= b@.take(i).push(d));
                    i = i + 1;
                }
            },
            (None, None) => {
                assert(a@.take(i) =~= a@);
                assert(b@.take(i) =~= b@);
                return true;
            },
            _ => {
                return false;
            },
        }
    }
}

/// Whether two optional texts are the same.
pub fn same_text_opt(a: &Option<String>, b: &Option<String>) -> (r: bool)
    ensures
        r == (text_opt(*a) == text_opt(*b)),
{
    match (a, b) {
        (Some(x), Some(y)) => same_text(x.as_str(), y.as_str()),
        (None, None) => true,
        _ => false,
    }
}

/// Appends `tail` to `s`.
pub fn push_text(s: &mut String, tail: &str)
    ensures
        final(s)@ == old(s)@ + tail@,
{
    s.append(tail);
}

/// `a` followed by `b`.
pub fn concat2(a: &str, b: &str) -> (out: String)
    ensures
        out@ == a@ + b@,
{
    let mut out = a.to_owned();
    out.append(b);
    out
}

/// `a`, `b` and `c`, one after the other.
pub fn concat3(a: &str, b: &str, c: &str) -> (out: String)
    ensures
        out@ == a@ + b@ + c@,
{
    let mut out = a.to_owned();
    out.append(b);
    out.append(c);
    out
}

// ---------------------------------------------------------------------------
// Character classes
// ---------------------------------------------------------------------------

/// The characters with the Unicode property `White_Space`.
pub open spec fn is_space(c: char) -> bool {
    ||| '\u{9}' <= c <= '\u{d}'
    ||| c == ' '
    ||| c == '\u{85}'
    ||| c == '\u{a0}'
    ||| c == '\u{1680}'
    ||| '\u{2000}' <= c <= '\u{200a}'
    ||| c == '\u{2028}'
    ||| c == '\u{2029}'
    ||| c == '\u{202f}'
    ||| c == '\u{205f}'
    ||| c == '\u{3000}'
}

pub open spec fn is_digit(c: char) -> bool {
    '0' <= c <= '9'
}

pub open spec fn is_upper(c: char) -> bool {
    'A' <= c <= 'Z'
}

pub open spec fn is_lower(c: char) -> bool {
    'a' <= c <= 'z'
}

/// An ASCII letter or digit.
pub open spec fn is_alnum(c: char) -> bool {
    is_digit(c) || is_upper(c) || is_lower(c)
}

pub open spec fn is_hex_digit(c: char) -> bool {
    is_digit(c) || 'a' <= c <= 'f' || 'A' <= c <= 'F'
}

/// The lower case form of an ASCII letter; any other character as it is.
pub open spec fn lower(c: char) -> char {
    if is_upper(c) {
        ((c as u32 + 32) as u32) as char
    } else {
        c
    }
}

pub fn space_char(c: char) -> (r: bool)
    ensures
        r == is_space(c),
{
    ('\u{9}' <= c && c <= '\u{d}') || c == ' ' || c == '\u{85}' || c == '\u{a0}' || c == '\u{1680}'
        || ('\u{2000}' <= c && c <= '\u{200a}') || c == '\u{2028}' || c == '\u{2029}' || c
        == '\u{202f}' || c == '\u{205f}' || c == '\u{3000}'
}

pub fn digit_char(c: char) -> (r: bool)
    ensures
        r == is_digit(c),
{
    '0' <= c && c <= '9'
}

pub fn alnum_char(c: char) -> (r: bool)
    ensures
        r == is_alnum(c),
{
    digit_char(c) || ('A' <= c && c <= 'Z') || ('a' <= c && c <= 'z')
}

pub fn hex_char(c: char) -> (r: bool)
    ensures
        r == is_hex_digit(c),
{
    digit_char(c) || ('a' <= c && c <= 'f') || ('A' <= c && c <= 'F')
}

pub fn lower_char(c: char) -> (r: char)
    ensures
        r == lower(c),
{
    if 'A' <= c && c <= 'Z' {
        let code: u8 = c as u8;
        let shifted: u8 = code + 32;
        shifted as char
    } else {
        c
    }
}

// ---------------------------------------------------------------------------
// Case folding and filtering
// ---------------------------------------------------------------------------

/// The text with each ASCII letter in lower case.
pub open spec fn ascii_lower(s: Seq<char>) -> Seq<char> {
    Seq::new(s.len(), |i: int| lower(s[i]))
}

/// Whether two texts differ at most in the case of ASCII letters.
pub open spec fn same_ignoring_case(a: Seq<char>, b: Seq<char>) -> bool {
    ascii_lower(a) == ascii_lower(b)
}

/// The ASCII letters and digits of a text, in lower case.
pub open spec fn alnum_key(s: Seq<char>) -> Seq<char>
    decreases s.len(),
{
    if s.len() == 0 {
        Seq::empty()
    } else if is_alnum(s.last()) {
        alnum_key(s.drop_last()).push(lower(s.last()))
    } else {
        alnum_key(s.drop_last())
    }
}

pub fn to_ascii_lower(s: &str) -> (out: String)
    ensures
        out@ == ascii_lower(s@),
{
    let chars = to_chars(s);
    let mut out = String::new();
    let mut i: usize = 0;
    while i < chars.len()
        invariant
            i <= chars.len(),
            chars@ == s@,
            out@ == ascii_lower(s@).take(i as int),
        decreases chars.len() - i,
    {
        out.push(lower_char(chars[i]));
        i = i + 1;
        assert(ascii_lower(s@).take(i as int).drop_last() =~= ascii_lower(s@).take(i - 1));
    }
    assert(ascii_lower(s@).take(i as int) =~= ascii_lower(s@));
    out
}

pub fn eq_ignore_case(a: &str, b: &str) -> (r: bool)
    ensures
        r == same_ignoring_case(a@, b@),
{
    let x = to_ascii_lower(a);
    let y = to_ascii_lower(b);
    same_text(x.as_str(), y.as_str())
}

pub fn to_alnum_key(s: &str) -> (out: String)
    ensures
        out@ == alnum_key(s@),
{
    let chars = to_chars(s);
    let mut out = String::new();
    let mut i: usize = 0;
    while i < chars.len()
        invariant
            i <= chars.len(),
            chars@ == s@,
            out@ == alnum_key(s@.take(i as int)),
        decreases chars.len() - i,
    {
        let c = chars[i];
        assert(s@.take(i + 1).drop_last() =~= s@.take(i as int));
        if alnum_char(c) {
            out.push(lower_char(c));
        }
        i = i + 1;
    }
    assert(s@.take(i as int) =~= s@);
    out
}

// ---------------------------------------------------------------------------
// Trimming
// ---------------------------------------------------------------------------

/// The text without the white space at its start.
pub open spec fn trim_start(s: Seq<char>) -> Seq<char>
    decreases s.len(),
{
    if s.len() > 0 && is_space(s.first()) {
        trim_start(s.drop_first())
    } else {
        s
    }
}

/// The text without the white space at its end.
pub open spec fn trim_end(s: Seq<char>) -> Seq<char>
    decreases s.len(),
{
    if s.len() > 0 && is_space(s.last()) {
        trim_end(s.drop_last())
    } else {
        s
    }
}

/// The text without the white space at its ends.
pub open spec fn trimmed(s: Seq<char>) -> Seq<char> {
    trim_end(trim_start(s))
}

proof fn lemma_trim_start(s: Seq<char>, n: int)
    requires
        0 <= n <= s.len(),
        forall|i: int| 0 <= i < n ==> is_space(s[i]),
        n < s.len() ==> !is_space(s[n]),
    ensures
        trim_start(s) == s.skip(n),
    decreases n,
{
    if n > 0 {
        let rest = s.drop_first();
        assert(forall|i: int| 0 <= i < n - 1 ==> rest[i] == s[i + 1]);
        lemma_trim_start(rest, n - 1);
        assert(rest.skip(n - 1) =~= s.skip(n));
    } else {
        assert(s.skip(0) =~= s);
    }
}

proof fn lemma_trim_end(s: Seq<char>, n: int)
    requires
        0 <= n <= s.len(),
        forall|i: int| n <= i < s.len() ==> is_space(s[i]),
        n > 0 ==> !is_space(s[n - 1]),
    ensures
        trim_end(s) == s.take(n),
    decreases s.len() - n,
{
    if n < s.len() {
        lemma_trim_end(s.drop_last(), n);
        assert(s.drop_last().take(n) =~= s.take(n));
    } else {
        assert(s.take(n) =~= s);
    }
}

/// Where the text without white space at its ends starts and stops.
fn trim_bounds(v: &Vec<char>) -> (r: (usize, usize))
    ensures
        r.0 <= r.1 <= v.len(),
        trimmed(v@) == v@.subrange(r.0 as int, r.1 as int),
{
    let mut start: usize = 0;
    while start < v.len() && space_char(v[start])
        invariant
            start <= v.len(),
            forall|i: int| 0 <= i < start ==> is_space(v@[i]),
        decreases v.len() - start,
    {
        start = start + 1;
    }
    let mut end: usize = v.len();
    while end > start && space_char(v[end - 1])
        invariant
            start <= end <= v.len(),
            forall|i: int| end <= i < v.len() ==> is_space(v@[i]),
        decreases end,
    {
        end = end - 1;
    }
    proof {
        lemma_trim_start(v@, start as int);
        let rest = v@.skip(start as int);
        assert(forall|i: int| end - start <= i < rest.len() ==> rest[i] == v@[i + start]);
        lemma_trim_end(rest, end - start);
        assert(rest.take(end - start) =~= v@.subrange(start as int, end as int));
    }
    (start, end)
}

pub fn trim(s: &str) -> (out: String)
    ensures
        out@ == trimmed(s@),
{
    let chars = to_chars(s);
    let bounds = trim_bounds(&chars);
    from_range(&chars, bounds.0, bounds.1)
}

/// Whether a text has nothing but white space.
pub fn is_blank(s: &str) -> (r: bool)
    ensures
        r == (trimmed(s@).len() == 0),
{
    let chars = to_chars(s);
    let bounds = trim_bounds(&chars);
    bounds.0 == bounds.1
}

// ---------------------------------------------------------------------------
// Splitting and joining
// ---------------------------------------------------------------------------

/// The pieces of a text between the characters of `seps`; one more piece than
/// there are such characters.
pub open spec fn split_any(s: Seq<char>, seps: Seq<char>) -> Seq<Seq<char>>
    decreases s.len(),
{
    if s.len() == 0 {
        seq![Seq::empty()]
    } else {
        let before = split_any(s.drop_last(), seps);
        if seps.contains(s.last()) {
            before.push(Seq::empty())
        } else {
            before.drop_last().push(before.last().push(s.last()))
        }
    }
}

/// The pieces that are not empty.
pub open spec fn non_empty(parts: Seq<Seq<char>>) -> Seq<Seq<char>>
    decreases parts.len(),
{
    if parts.len() == 0 {
        Seq::empty()
    } else if parts.last().len() > 0 {
        non_empty(parts.drop_last()).push(parts.last())
    } else {
        non_empty(parts.drop_last())
    }
}

/// Each piece without the white space at its ends.
pub open spec fn trimmed_each(parts: Seq<Seq<char>>) -> Seq<Seq<char>> {
    Seq::new(parts.len(), |i: int| trimmed(parts[i]))
}

/// The words of a text, that is what white space separates.
pub open spec fn words(s: Seq<char>) -> Seq<Seq<char>>
    decreases s.len(),
{
    if s.len() == 0 {
        Seq::empty()
    } else if is_space(s.last()) {
        words(s.drop_last())
    } else if s.len() == 1 || is_space(s[s.len() - 2]) {
        words(s.drop_last()).push(seq![s.last()])
    } else {
        let before = words(s.drop_last());
        before.drop_last().push(before.last().push(s.last()))
    }
}

/// The pieces in a row with `sep` between them.
pub open spec fn join(parts: Seq<Seq<char>>, sep: Seq<char>) -> Seq<char>
    decreases parts.len(),
{
    if parts.len() == 0 {
        Seq::empty()
    } else if parts.len() == 1 {
        parts[0]
    } else {
        join(parts.drop_last(), sep) + sep + parts.last()
    }
}

fn has_char(v: &Vec<char>, c: char) -> (r: bool)
    ensures
        r == v@.contains(c),
{
    let mut i: usize = 0;
    while i < v.len()
        invariant
            i <= v.len(),
            forall|j: int| 0 <= j < i ==> v@[j] != c,
        decreases v.len() - i,
    {
        if v[i] == c {
            return true;
        }
        i = i + 1;
    }
    false
}

/// The pieces of `s` between the characters of `seps`.
pub fn split(s: &str, seps: &str) -> (out: Vec<String>)
    ensures
        texts(out@) == split_any(s@, seps@),
        out.len() >= 1,
{
    let chars = to_chars(s);
    let marks = to_chars(seps);
    let mut out: Vec<String> = Vec::new();
    let mut current = String::new();
    let mut i: usize = 0;
    assert(texts(out@).push(current@) =~= split_any(s@.take(0), seps@));
    while i < chars.len()
        invariant
            i <= chars.len(),
            chars@ == s@,
            marks@ == seps@,
            texts(out@).push(current@) == split_any(s@.take(i as int), seps@),
        decreases chars.len() - i,
    {
        let c = chars[i];
        let ghost before = split_any(s@.take(i as int), seps@);
        assert(s@.take(i + 1).drop_last() =~= s@.take(i as int));
        assert(before.drop_last() =~= texts(out@));
        assert(before.last() == current@);
        if has_char(&marks, c) {
            let piece = current.clone();
            proof {
                lemma_texts_push(out@, piece);
            }
            out.push(piece);
            current = String::new();
        } else {
            current.push(c);
        }
        i = i + 1;
    }
    assert(s@.take(i as int) =~= s@);
    proof {
        lemma_texts_push(out@, current);
    }
    out.push(current);
    out
}

/// The words of `s`.
pub fn split_words(s: &str) -> (out: Vec<String>)
    ensures
        texts(out@) == words(s@),
{
    let chars = to_chars(s);
    let mut out: Vec<String> = Vec::new();
    let mut current = String::new();
    let mut i: usize = 0;
    assert(texts(out@) =~= words(s@.take(0)));
    while i < chars.len()
        invariant
            i <= chars.len(),
            chars@ == s@,
            current@.len() == 0 <==> (i == 0 || is_space(s@[i - 1])),
            current@.len() == 0 ==> texts(out@) == words(s@.take(i as int)),
            current@.len() > 0 ==> texts(out@).push(current@) == words(s@.take(i as int)),
        decreases chars.len() - i,
    {
        let c = chars[i];
        let ghost now = s@.take(i + 1);
        assert(now.drop_last() =~= s@.take(i as int));
        assert(now.last() == c);
        if space_char(c) {
            if current.as_str().is_empty() {
            } else {
                let word = current.clone();
                proof {
                    lemma_texts_push(out@, word);
                }
                out.push(word);
                current = String::new();
            }
        } else {
            proof {
                if current@.len() > 0 {
                    let before = words(s@.take(i as int));
                    assert(before.drop_last() =~= texts(out@));
                    assert(before.last() == current@);
                    assert(now[now.len() - 2] == s@[i - 1]);
                } else {
                    assert(current@.push(c) =~= seq![c]);
                    if i > 0 {
                        assert(now[now.len() - 2] == s@[i - 1]);
                    }
                }
            }
            current.push(c);
        }
        i = i + 1;
    }
    assert(s@.take(i as int) =~= s@);
    if current.as_str().is_empty() {
    } else {
        proof {
            lemma_texts_push(out@, current);
        }
        out.push(current);
    }
    out
}

/// The pieces of `parts` in a row with `sep` between them.
pub fn join_texts(parts: &Vec<String>, sep: &str) -> (out: String)
    ensures
        out@ == join(texts(parts@), sep@),
{
    let mut out = String::new();
    let mut i: usize = 0;
    while i < parts.len()
        invariant
            i <= parts.len(),
            out@ == join(texts(parts@).take(i as int), sep@),
        decreases parts.len() - i,
    {
        let ghost now = texts(parts@).take(i + 1);
        assert(now.drop_last() =~= texts(parts@).take(i as int));
        if i > 0 {
            out.append(sep);
        }
        out.append(parts[i].as_str());
        proof {
            if i == 0 {
                assert(out@ =~= parts@[0]@);
            }
        }
        i = i + 1;
    }
    assert(texts(parts@).take(i as int) =~= texts(parts@));
    out
}

/// Each piece trimmed, without those that are then empty.
pub fn trim_non_empty(parts: &Vec<String>) -> (out: Vec<String>)
    ensures
        texts(out@) == non_empty(trimmed_each(texts(parts@))),
{
    let mut out: Vec<String> = Vec::new();
    let ghost all = trimmed_each(texts(parts@));
    let mut i: usize = 0;
    assert(texts(out@) =~= non_empty(all.take(0)));
    while i < parts.len()
        invariant
            i <= parts.len(),
            all == trimmed_each(texts(parts@)),
            texts(out@) == non_empty(all.take(i as int)),
        decreases parts.len() - i,
    {
        let piece = trim(parts[i].as_str());
        assert(all.take(i + 1).drop_last() =~= all.take(i as int));
        assert(all.take(i + 1).last() == piece@);
        if piece.as_str().is_empty() {
        } else {
            proof {
                lemma_texts_push(out@, piece);
            }
            out.push(piece);
        }
        i = i + 1;
    }
    assert(all.take(i as int) =~= all);
    out
}

// ---------------------------------------------------------------------------
// Searching
// ---------------------------------------------------------------------------

/// Whether `needle` stands in `hay` from index `i` on.
pub open spec fn stands_at<T>(hay: Seq<T>, needle: Seq<T>, i: int) -> bool {
    0 <= i && i + needle.len() <= hay.len() && hay.subrange(i, i + needle.len()) == needle
}

/// Whether `needle` stands somewhere in `hay`.
pub open spec fn contains_text<T>(hay: Seq<T>, needle: Seq<T>) -> bool {
    exists|i: int| stands_at(hay, needle, i)
}

pub open spec fn starts_with(hay: Seq<char>, needle: Seq<char>) -> bool {
    stands_at(hay, needle, 0)
}

pub open spec fn ends_with(hay: Seq<char>, needle: Seq<char>) -> bool {
    stands_at(hay, needle, hay.len() - needle.len())
}

pub(crate) fn stands_here(hay: &Vec<char>, needle: &Vec<char>, at: usize) -> (r: bool)
    requires
        at + needle.len() <= hay.len(),
    ensures
        r == stands_at(hay@, needle@, at as int),
{
    let mut k: usize = 0;
    while k < needle.len()
        invariant
            k <= needle.len(),
            at + needle.len() <= hay.len(),
            forall|j: int| 0 <= j < k ==> hay@[at + j] == needle@[j],
        decreases needle.len() - k,
    {
        if hay[at + k] != needle[k] {
            assert(hay@.subrange(at as int, at + needle@.len())[k as int] != needle@[k as int]);
            return false;
        }
        k = k + 1;
    }
    assert(hay@.subrange(at as int, at + needle@.len()) =~= needle@);
    true
}

/// The first index at or after `from` at which `needle` stands in `hay`.
pub fn find_chars(hay: &Vec<char>, needle: &Vec<char>, from: usize) -> (r: Option<usize>)
    ensures
        match r {
            Some(i) => from <= i && stands_at(hay@, needle@, i as int) && forall|j: int|
                from <= j < i ==> !stands_at(hay@, needle@, j),
            None => forall|j: int| from <= j ==> !stands_at(hay@, needle@, j),
        },
{
    if hay.len() < needle.len() {
        return None;
    }
    let last: usize = hay.len() - needle.len();
    let mut i: usize = from;
    while i <= last
        invariant
            from <= i,
            last + needle.len() == hay.len(),
            forall|j: int| from <= j < i ==> !stands_at(hay@, needle@, j),
        decreases last + 1 - i,
    {
        if stands_here(hay, needle, i) {
            return Some(i);
        }
        if i == last {
            return None;
        }
        i = i + 1;
    }
    None
}

pub fn has_text(hay: &str, needle: &str) -> (r: bool)
    ensures
        r == contains_text(hay@, needle@),
{
    let h = to_chars(hay);
    let n = to_chars(needle);
    match find_chars(&h, &n, 0) {
        Some(i) => {
            assert(stands_at(hay@, needle@, i as int));
            true
        },
        None => false,
    }
}

pub fn has_prefix(hay: &str, needle: &str) -> (r: bool)
    ensures
        r == starts_with(hay@, needle@),
{
    let h = to_chars(hay);
    let n = to_chars(needle);
    n.len() <= h.len() && stands_here(&h, &n, 0)
}

pub fn has_suffix(hay: &str, needle: &str) -> (r: bool)
    ensures
        r == ends_with(hay@, needle@),
{
    let h = to_chars(hay);
    let n = to_chars(needle);
    n.len() <= h.len() && stands_here(&h, &n, h.len() - n.len())
}

/// Whether some character of `s` is `c`.
pub fn has_the_char(s: &str, c: char) -> (r: bool)
    ensures
        r == s@.contains(c),
{
    let v = to_chars(s);
    has_char(&v, c)
}

/// The text with each `from` turned into `to`.
pub open spec fn swap_char(s: Seq<char>, from: char, to: char) -> Seq<char> {
    Seq::new(s.len(), |i: int| if s[i] == from { to } else { s[i] })
}

pub fn replace_char(s: &str, from: char, to: char) -> (out: String)
    ensures
        out@ == swap_char(s@, from, to),
{
    let chars = to_chars(s);
    let mut out = String::new();
    let mut i: usize = 0;
    while i < chars.len()
        invariant
            i <= chars.len(),
            chars@ == s@,
            out@ == swap_char(s@, from, to).take(i as int),
        decreases chars.len() - i,
    {
        let c = chars[i];
        out.push(if c == from { to } else { c });
        i = i + 1;
        assert(swap_char(s@, from, to).take(i as int).drop_last() =~= swap_char(s@, from, to).take(
            i - 1,
        ));
    }
    assert(swap_char(s@, from, to).take(i as int) =~= swap_char(s@, from, to));
    out
}

/// The text of `hay` from index `at` on with each `needle` turned into `with`,
/// found from the left without overlap.
pub open spec fn replaced_from(
    hay: Seq<char>,
    needle: Seq<char>,
    with: Seq<char>,
    at: int,
) -> Seq<char>
    decreases hay.len() - at,
{
    if at < 0 || at >= hay.len() || needle.len() == 0 {
        Seq::empty()
    } else if stands_at(hay, needle, at) {
        with + replaced_from(hay, needle, with, at + needle.len())
    } else {
        seq![hay[at]] + replaced_from(hay, needle, with, at + 1)
    }
}

pub open spec fn replaced(hay: Seq<char>, needle: Seq<char>, with: Seq<char>) -> Seq<char> {
    replaced_from(hay, needle, with, 0)
}

pub fn replace_text(hay: &str, needle: &str, with: &str) -> (out: String)
    requires
        needle@.len() > 0,
    ensures
        out@ == replaced(hay@, needle@, with@),
{
    let h = to_chars(hay);
    let n = to_chars(needle);
    let mut out = String::new();
    let mut i: usize = 0;
    while i < h.len()
        invariant
            i <= h.len(),
            h@ == hay@,
            n@ == needle@,
            needle@.len() > 0,
            out@ + replaced_from(hay@, needle@, with@, i as int) == replaced(
                hay@,
                needle@,
                with@,
            ),
        decreases h.len() - i,
    {
        let ghost before = out@;
        if n.len() <= h.len() - i && stands_here(&h, &n, i) {
            out.append(with);
            proof {
                let rest = replaced_from(hay@, needle@, with@, i + n@.len());
                assert(before + (with@ + rest) =~= before + with@ + rest);
            }
            i = i + n.len();
        } else {
            out.push(h[i]);
            proof {
                let rest = replaced_from(hay@, needle@, with@, i + 1);
                assert(before + (seq![hay@[i as int]] + rest) =~= before.push(hay@[i as int])
                    + rest);
            }
            i = i + 1;
        }
    }
    assert(out@ + replaced_from(hay@, needle@, with@, i as int) =~= out@);
    out
}

// ---------------------------------------------------------------------------
// Numbers
// ---------------------------------------------------------------------------

/// The digit that stands for a number below ten.
pub open spec fn digit_of(n: nat) -> char {
    ((48 + n) as u32) as char
}

/// The decimal digits of a number.
pub open spec fn decimal(n: nat) -> Seq<char>
    decreases n,
{
    if n < 10 {
        seq![digit_of(n)]
    } else {
        decimal(n / 10).push(digit_of(n % 10))
    }
}

/// What a number is written with are digits, and has its value.
pub proof fn lemma_decimal(n: nat)
    ensures
        all_digits(decimal(n)),
        digits_value(decimal(n)) == n,
    decreases n,
{
    let s = decimal(n);
    if n < 10 {
        assert(s.drop_last() =~= Seq::empty());
        assert(digits_value(s.drop_last()) == 0);
    } else {
        lemma_decimal(n / 10);
        assert(s.drop_last() =~= decimal(n / 10));
        assert forall|i: int| 0 <= i < s.len() implies is_digit(s[i]) by {
            if i < s.len() - 1 {
                assert(s[i] == decimal(n / 10)[i]);
            }
        }
    }
}

pub fn show_u64(n: u64) -> (out: String)
    ensures
        out@ == decimal(n as nat),
    decreases n,
{
    let d: u8 = (n % 10) as u8;
    let code: u8 = 48 + d;
    let c = code as char;
    if n < 10 {
        let mut out = String::new();
        out.push(c);
        assert(out@ =~= decimal(n as nat));
        out
    } else {
        let mut out = show_u64(n / 10);
        out.push(c);
        out
    }
}

pub fn show_usize(n: usize) -> (out: String)
    ensures
        out@ == decimal(n as nat),
{
    show_u64(n as u64)
}

/// The number that a text of decimal digits stands for.
pub open spec fn digits_value(s: Seq<char>) -> nat
    decreases s.len(),
{
    if s.len() == 0 {
        0
    } else {
        10 * digits_value(s.drop_last()) + (s.last() as nat - 48) as nat
    }
}

pub open spec fn all_digits(s: Seq<char>) -> bool {
    forall|i: int| 0 <= i < s.len() ==> is_digit(s[i])
}

/// The value of a text as an unsigned 64 bit number: an optional `+`, then at
/// least one decimal digit and nothing else, in range.
pub open spec fn u64_value(s: Seq<char>) -> Option<u64> {
    let digits = if s.len() > 0 && s[0] == '+' {
        s.skip(1)
    } else {
        s
    };
    if digits.len() > 0 && all_digits(digits) && digits_value(digits) <= u64::MAX {
        Some(digits_value(digits) as u64)
    } else {
        None
    }
}

proof fn lemma_digits_value_grows(s: Seq<char>, n: int)
    requires
        0 <= n <= s.len(),
    ensures
        digits_value(s.take(n)) <= digits_value(s),
    decreases s.len() - n,
{
    if n < s.len() {
        lemma_digits_value_grows(s.drop_last(), n);
        assert(s.drop_last().take(n) =~= s.take(n));
    } else {
        assert(s.take(n) =~= s);
    }
}

/// The value of the digits of `v` from index `from` on.
pub fn digits_u64(v: &Vec<char>, from: usize) -> (r: Option<u64>)
    requires
        from <= v.len(),
    ensures
        r == ({
            let digits = v@.skip(from as int);
            if digits.len() > 0 && all_digits(digits) && digits_value(digits) <= u64::MAX {
                Some(digits_value(digits) as u64)
            } else {
                None
            }
        }),
{
    let ghost digits = v@.skip(from as int);
    if from == v.len() {
        return None;
    }
    let mut total: u64 = 0;
    let mut i: usize = from;
    while i < v.len()
        invariant
            from <= i <= v.len(),
            digits == v@.skip(from as int),
            forall|j: int| 0 <= j < i - from ==> is_digit(digits[j]),
            total == digits_value(digits.take(i - from)),
        decreases v.len() - i,
    {
        let c = v[i];
        assert(digits[i - from] == c);
        if !digit_char(c) {
            return None;
        }
        let d: u8 = c as u8 - 48;
        proof {
            assert(digits.take(i - from + 1).drop_last() =~= digits.take(i - from));
            assert(digits_value(digits.take(i - from + 1)) == 10 * total + d);
            lemma_digits_value_grows(digits, i - from + 1);
        }
        if total > (u64::MAX - d as u64) / 10 {
            return None;
        }
        total = total * 10 + d as u64;
        i = i + 1;
    }
    assert(digits.take(i - from) =~= digits);
    Some(total)
}

pub fn parse_u64(s: &str) -> (r: Option<u64>)
    ensures
        r == u64_value(s@),
{
    let v = to_chars(s);
    if v.len() > 0 && v[0] == '+' {
        digits_u64(&v, 1)
    } else {
        assert(v@.skip(0) =~= v@);
        digits_u64(&v, 0)
    }
}

// ---------------------------------------------------------------------------
// Ends and widths
// ---------------------------------------------------------------------------

/// What follows a beginning, if the text has it.
pub open spec fn after(s: Seq<char>, start: Seq<char>) -> Option<Seq<char>> {
    if starts_with(s, start) {
        Some(s.skip(start.len() as int))
    } else {
        None
    }
}

pub fn after_prefix(s: &str, start: &str) -> (r: Option<String>)
    ensures
        text_opt(r) == after(s@, start@),
{
    if !has_prefix(s, start) {
        return None;
    }
    let v = to_chars(s);
    let n = to_chars(start).len();
    let out = from_range(&v, n, v.len());
    assert(out@ =~= s@.skip(n as int));
    Some(out)
}

/// The text without a beginning, however often it has it.
pub open spec fn without_starts(s: Seq<char>, start: Seq<char>) -> Seq<char>
    decreases s.len(),
{
    if start.len() > 0 && starts_with(s, start) {
        without_starts(s.skip(start.len() as int), start)
    } else {
        s
    }
}

pub fn trim_starts(s: &str, start: &str) -> (r: String)
    ensures
        r@ == without_starts(s@, start@),
{
    let mut rest = s.to_owned();
    if start.is_empty() {
        return rest;
    }
    loop
        invariant
            start@.len() > 0,
            without_starts(rest@, start@) == without_starts(s@, start@),
        decreases rest@.len(),
    {
        match after_prefix(rest.as_str(), start) {
            Some(next) => {
                rest = next;
            },
            None => {
                return rest;
            },
        }
    }
}

pub open spec fn upper(c: char) -> char {
    if is_lower(c) {
        ((c as u32 - 32) as u32) as char
    } else {
        c
    }
}

pub open spec fn ascii_upper(s: Seq<char>) -> Seq<char> {
    Seq::new(s.len(), |i: int| upper(s[i]))
}

fn upper_char(c: char) -> (r: char)
    ensures
        r == upper(c),
{
    if 'a' <= c && c <= 'z' {
        let n: u8 = c as u8;
        let m: u8 = n - 32;
        m as char
    } else {
        c
    }
}

pub fn to_ascii_upper(s: &str) -> (out: String)
    ensures
        out@ == ascii_upper(s@),
{
    let v = to_chars(s);
    let mut out: Vec<char> = Vec::new();
    let mut i: usize = 0;
    while i < v.len()
        invariant
            i <= v.len(),
            v@ == s@,
            out@ == ascii_upper(s@).take(i as int),
        decreases v.len() - i,
    {
        out.push(upper_char(v[i]));
        i = i + 1;
        assert(ascii_upper(s@).take(i as int).drop_last() =~= ascii_upper(s@).take(i - 1));
    }
    assert(ascii_upper(s@).take(i as int) =~= ascii_upper(s@));
    from_chars(&out)
}

/// `n` times a character.
pub open spec fn repeated(c: char, n: nat) -> Seq<char> {
    Seq::new(n, |i: int| c)
}

pub open spec fn missing(s: Seq<char>, width: nat) -> nat {
    if s.len() < width {
        (width - s.len()) as nat
    } else {
        0
    }
}

/// The text at the right end of a field.
pub open spec fn right_in(s: Seq<char>, width: nat, fill: char) -> Seq<char> {
    repeated(fill, missing(s, width)) + s
}

/// The text at the left end of a field.
pub open spec fn left_in(s: Seq<char>, width: nat, fill: char) -> Seq<char> {
    s + repeated(fill, missing(s, width))
}

fn fill_up(s: &str, width: usize, fill: char) -> (r: String)
    ensures
        r@ == repeated(fill, missing(s@, width as nat)),
{
    let have = to_chars(s).len();
    let mut r = String::new();
    assert(r@ =~= repeated(fill, 0));
    let need: usize = if have < width {
        width - have
    } else {
        0
    };
    let mut i: usize = 0;
    while i < need
        invariant
            i <= need,
            r@ == repeated(fill, i as nat),
        decreases need - i,
    {
        r.push(fill);
        i = i + 1;
        assert(r@ =~= repeated(fill, i as nat));
    }
    r
}

pub fn pad_left(s: &str, width: usize, fill: char) -> (r: String)
    ensures
        r@ == right_in(s@, width as nat, fill),
{
    let gap = fill_up(s, width, fill);
    concat2(gap.as_str(), s)
}

pub fn pad_right(s: &str, width: usize, fill: char) -> (r: String)
    ensures
        r@ == left_in(s@, width as nat, fill),
{
    let gap = fill_up(s, width, fill);
    concat2(s, gap.as_str())
}

} // verus!
