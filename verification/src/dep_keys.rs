//! What dependencies are called, and which mods answer to the names.
use crate::library;
use crate::library::normalize_label;
use crate::lists;
use crate::metadata;
use crate::metadata::{is_base_dependency_label, is_base_dependency_uuid, is_uuid_like_str};
use crate::text;
use crate::text::{
    after_prefix, alnum_char, concat2, concat3, digit_char, find_chars, from_chars, from_range,
    has_prefix, hex_char, join_texts, replace_char, same_text, split_words, to_ascii_lower,
    to_chars, trim,
};
use vstd::prelude::*;

verus! {

// ---------------------------------------------------------------------------
// Runs of characters
// ---------------------------------------------------------------------------

/// Characters that a run is made of.
#[derive(Debug, Clone, Copy, PartialEq, Eq, Structural)]
pub enum RunKind {
    /// Letters and digits.
    Word,
    /// Hexadecimal digits and dashes.
    Id,
    /// Digits.
    Number,
}

pub open spec fn in_run(kind: RunKind, c: char) -> bool {
    match kind {
        RunKind::Word => text::is_alnum(c),
        RunKind::Id => text::is_hex_digit(c) || c == '-',
        RunKind::Number => text::is_digit(c),
    }
}

fn is_in_run(kind: RunKind, c: char) -> (r: bool)
    ensures
        r == in_run(kind, c),
{
    match kind {
        RunKind::Word => alnum_char(c),
        RunKind::Id => hex_char(c) || c == '-',
        RunKind::Number => digit_char(c),
    }
}

pub open spec fn if_any(run: Seq<char>) -> Seq<Seq<char>> {
    if run.len() > 0 {
        seq![run]
    } else {
        Seq::empty()
    }
}

/// The runs among the first `n` characters that are over, and the one that is not.
pub open spec fn runs_upto(s: Seq<char>, kind: RunKind, n: int) -> (Seq<Seq<char>>, Seq<char>)
    decreases n,
{
    if n <= 0 {
        (Seq::empty(), Seq::empty())
    } else {
        let (done, open) = runs_upto(s, kind, n - 1);
        if in_run(kind, s[n - 1]) {
            (done, open.push(s[n - 1]))
        } else {
            (done + if_any(open), Seq::empty())
        }
    }
}

/// The longest runs of such characters.
pub open spec fn runs(s: Seq<char>, kind: RunKind) -> Seq<Seq<char>> {
    let (done, open) = runs_upto(s, kind, s.len() as int);
    done + if_any(open)
}

fn close_run(out: &mut Vec<String>, open: &Vec<char>)
    ensures
        text::texts(final(out)@) == text::texts(old(out)@) + if_any(open@),
{
    if open.len() > 0 {
        let run = from_chars(open);
        proof {
            text::lemma_texts_push(out@, run);
        }
        out.push(run);
    }
    assert(text::texts(out@) =~= text::texts(old(out)@) + if_any(open@));
}

pub fn find_runs(s: &str, kind: RunKind) -> (out: Vec<String>)
    ensures
        text::texts(out@) == runs(s@, kind),
{
    let v = to_chars(s);
    let mut out: Vec<String> = Vec::new();
    let mut open: Vec<char> = Vec::new();
    let mut i: usize = 0;
    assert(text::texts(out@) =~= Seq::<Seq<char>>::empty());
    while i < v.len()
        invariant
            i <= v.len(),
            v@ == s@,
            (text::texts(out@), open@) == runs_upto(s@, kind, i as int),
        decreases v.len() - i,
    {
        if is_in_run(kind, v[i]) {
            open.push(v[i]);
        } else {
            close_run(&mut out, &open);
            open = Vec::new();
        }
        i = i + 1;
    }
    close_run(&mut out, &open);
    out
}

/// The module ids in a text.
pub open spec fn uuids_in(s: Seq<char>) -> Seq<Seq<char>> {
    runs(s, RunKind::Id).filter(|r: Seq<char>| metadata::is_uuid_text(r))
}

pub fn extract_uuid_candidates(value: &str) -> (out: Vec<String>)
    ensures
        text::texts(out@) == uuids_in(value@),
{
    let found = find_runs(value, RunKind::Id);
    let ghost all = text::texts(found@);
    let ghost keeps = |r: Seq<char>| metadata::is_uuid_text(r);
    let mut out: Vec<String> = Vec::new();
    let mut i: usize = 0;
    proof {
        lists::lemma_filter_whole(all, keeps);
        assert(text::texts(out@) =~= all.take(0).filter(keeps));
    }
    while i < found.len()
        invariant
            i <= found.len(),
            all == text::texts(found@),
            keeps == (|r: Seq<char>| metadata::is_uuid_text(r)),
            text::texts(out@) == all.take(i as int).filter(keeps),
        decreases found.len() - i,
    {
        proof {
            lists::lemma_keep_item(all, i as int, keeps);
            assert(all[i as int] == found@[i as int]@);
        }
        if is_uuid_like_str(found[i].as_str()) {
            let run = found[i].clone();
            proof {
                text::lemma_texts_push(out@, run);
            }
            out.push(run);
        }
        i = i + 1;
    }
    proof {
        lists::lemma_filter_whole(all, keeps);
    }
    out
}

/// The module id that a dependency names.
pub open spec fn uuid_of(value: Seq<char>) -> Option<Seq<char>> {
    if uuids_in(value).len() > 0 {
        Some(uuids_in(value)[0])
    } else {
        None
    }
}

pub fn dependency_uuid(value: &str) -> (r: Option<String>)
    ensures
        text::text_opt(r) == uuid_of(value@),
{
    let found = extract_uuid_candidates(value);
    assert(text::texts(found@).len() == found.len());
    if found.len() > 0 {
        assert(text::texts(found@)[0] == found@[0]@);
        Some(found[0].clone())
    } else {
        None
    }
}

// ---------------------------------------------------------------------------
// Labels
// ---------------------------------------------------------------------------

/// The text before the first place at which another stands in it.
pub open spec fn cut_at(s: Seq<char>, needle: Seq<char>, from: int) -> Seq<char>
    decreases s.len() + 1 - from,
{
    if from < 0 || from + needle.len() > s.len() {
        s
    } else if text::stands_at(s, needle, from) {
        s.take(from)
    } else {
        cut_at(s, needle, from + 1)
    }
}

proof fn lemma_cut_at(s: Seq<char>, needle: Seq<char>, from: int, at: int)
    requires
        0 <= from <= at,
        text::stands_at(s, needle, at),
        forall|j: int| from <= j < at ==> !text::stands_at(s, needle, j),
    ensures
        cut_at(s, needle, from) == s.take(at),
    decreases at - from,
{
    if from < at {
        lemma_cut_at(s, needle, from + 1, at);
    }
}

proof fn lemma_cut_nowhere(s: Seq<char>, needle: Seq<char>, from: int)
    requires
        0 <= from,
        forall|j: int| from <= j ==> !text::stands_at(s, needle, j),
    ensures
        cut_at(s, needle, from) == s,
    decreases s.len() + 1 - from,
{
    if from + needle.len() <= s.len() {
        lemma_cut_nowhere(s, needle, from + 1);
    }
}

fn cut(s: &str, needle: &str) -> (r: String)
    ensures
        r@ == cut_at(s@, needle@, 0),
{
    let v = to_chars(s);
    let n = to_chars(needle);
    match find_chars(&v, &n, 0) {
        Some(at) => {
            proof {
                lemma_cut_at(s@, needle@, 0, at as int);
            }
            let r = from_range(&v, 0, at);
            assert(r@ =~= s@.take(at as int));
            r
        },
        None => {
            proof {
                lemma_cut_nowhere(s@, needle@, 0);
            }
            s.to_owned()
        },
    }
}

/// The text without dots and underscores at its start.
pub open spec fn without_first_dots(s: Seq<char>) -> Seq<char>
    decreases s.len(),
{
    if s.len() > 0 && (s[0] == '.' || s[0] == '_') {
        without_first_dots(s.skip(1))
    } else {
        s
    }
}

/// The text without dots and underscores at its end.
pub open spec fn without_last_dots(s: Seq<char>) -> Seq<char>
    decreases s.len(),
{
    if s.len() > 0 && (s.last() == '.' || s.last() == '_') {
        without_last_dots(s.drop_last())
    } else {
        s
    }
}

fn strip_dots(s: &str) -> (r: String)
    ensures
        r@ == without_last_dots(without_first_dots(s@)),
{
    let v = to_chars(s);
    let mut from: usize = 0;
    assert(s@.skip(0) =~= s@);
    while from < v.len() && (v[from] == '.' || v[from] == '_')
        invariant
            from <= v.len(),
            v@ == s@,
            without_first_dots(s@.skip(from as int)) == without_first_dots(s@),
        decreases v.len() - from,
    {
        assert(s@.skip(from as int)[0] == v@[from as int]);
        assert(s@.skip(from as int).skip(1) =~= s@.skip(from + 1));
        from = from + 1;
    }
    let ghost rest = s@.skip(from as int);
    if from < v.len() {
        assert(rest[0] == v@[from as int]);
    }
    assert(without_first_dots(s@) == rest);
    let mut to: usize = v.len();
    assert(s@.subrange(from as int, to as int) =~= rest);
    while to > from && (v[to - 1] == '.' || v[to - 1] == '_')
        invariant
            from <= to <= v.len(),
            v@ == s@,
            without_last_dots(s@.subrange(from as int, to as int)) == without_last_dots(rest),
        decreases to,
    {
        let ghost now = s@.subrange(from as int, to as int);
        assert(now.last() == v@[to - 1]);
        assert(now.drop_last() =~= s@.subrange(from as int, to - 1));
        to = to - 1;
    }
    let ghost now = s@.subrange(from as int, to as int);
    if to > from {
        assert(now.last() == v@[to - 1]);
    }
    let r = from_range(&v, from, to);
    assert(r@ =~= now);
    r
}

/// What is left of a dependency's name without its id, tidied.
pub open spec fn tidy_label(value: Seq<char>) -> Seq<char> {
    let base = match uuid_of(value) {
        Some(u) => cut_at(value, u, 0),
        None => value,
    };
    let spaced = text::swap_char(text::swap_char(base, '_', ' '), '-', ' ');
    without_last_dots(without_first_dots(text::join(text::words(spaced), " "@)))
}

/// What a dependency is called.
pub open spec fn display_label(value: Seq<char>) -> Seq<char> {
    if tidy_label(value).len() == 0 {
        "Unknown dependency"@
    } else {
        tidy_label(value)
    }
}

pub fn dependency_display_label(value: &str) -> (r: String)
    ensures
        r@ == display_label(value@),
{
    let base = match dependency_uuid(value) {
        Some(u) => cut(value, u.as_str()),
        None => value.to_owned(),
    };
    let once = replace_char(base.as_str(), '_', ' ');
    let twice = replace_char(once.as_str(), '-', ' ');
    let words = split_words(twice.as_str());
    let joined = join_texts(&words, " ");
    let cleaned = strip_dots(joined.as_str());
    if cleaned.as_str().is_empty() {
        "Unknown dependency".to_owned()
    } else {
        cleaned
    }
}

/// By what dependencies are told apart: the id, else the label, else the name.
pub open spec fn signature(label: Seq<char>, uuid: Option<Seq<char>>, raw: Seq<char>) -> Seq<char> {
    match uuid {
        Some(u) => u,
        None => {
            let key = library::label_key(label);
            if key.len() > 0 && key != "unknowndependency"@ {
                key
            } else {
                library::label_key(raw)
            }
        },
    }
}

pub fn dependency_signature(display_label: &str, uuid: &Option<String>, raw: &str) -> (r: String)
    ensures
        r@ == signature(display_label@, text::text_opt(*uuid), raw@),
{
    match uuid {
        Some(u) => u.clone(),
        None => {
            let key = normalize_label(display_label);
            if !key.as_str().is_empty() && !same_text(key.as_str(), "unknowndependency") {
                key
            } else {
                normalize_label(raw)
            }
        },
    }
}

/// What is looked for on the web.
pub open spec fn search_words(label: Seq<char>, uuid: Option<Seq<char>>, raw: Seq<char>) -> Seq<
    char,
> {
    if label != "Unknown dependency"@ {
        label
    } else {
        "bg3 mod "@ + match uuid {
            Some(u) => u,
            None => raw,
        }
    }
}

pub fn dependency_search_label(display_label: &str, uuid: &Option<String>, raw: &str) -> (r:
    String)
    ensures
        r@ == search_words(display_label@, text::text_opt(*uuid), raw@),
{
    if !same_text(display_label, "Unknown dependency") {
        return display_label.to_owned();
    }
    match uuid {
        Some(u) => concat2("bg3 mod ", u.as_str()),
        None => concat2("bg3 mod ", raw),
    }
}

/// An upper-case hexadecimal digit.
pub open spec fn hex_digit(n: int) -> char {
    if n < 10 {
        (48 + n) as char
    } else {
        (55 + n) as char
    }
}

fn show_hex_digit(n: u8) -> (r: char)
    requires
        n < 16,
    ensures
        r == hex_digit(n as int),
{
    if n < 10 {
        (48 + n) as char
    } else {
        (55 + n) as char
    }
}

/// Bytes as they stand in an address.
pub open spec fn escaped(bytes: Seq<u8>) -> Seq<char>
    decreases bytes.len(),
{
    if bytes.len() == 0 {
        Seq::empty()
    } else {
        escaped(bytes.drop_last()) + seq![
            '%',
            hex_digit(bytes.last() as int / 16),
            hex_digit(bytes.last() as int % 16),
        ]
    }
}

/// A character as it stands in an address.
pub open spec fn encoded_char(c: char) -> Seq<char> {
    if text::is_alnum(c) || c == '-' || c == '_' {
        seq![c]
    } else if c == ' ' {
        seq!['+']
    } else {
        escaped(vstd::utf8::encode_utf8(seq![c]))
    }
}

pub open spec fn encoded(s: Seq<char>) -> Seq<char>
    decreases s.len(),
{
    if s.len() == 0 {
        Seq::empty()
    } else {
        encoded(s.drop_last()) + encoded_char(s.last())
    }
}

pub fn encode_query(value: &str) -> (r: String)
    ensures
        r@ == encoded(value@),
{
    let v = to_chars(value);
    let mut r = String::new();
    let mut i: usize = 0;
    assert(r@ =~= encoded(value@.take(0)));
    while i < v.len()
        invariant
            i <= v.len(),
            v@ == value@,
            r@ == encoded(value@.take(i as int)),
        decreases v.len() - i,
    {
        let c = v[i];
        let ghost before = r@;
        assert(value@.take(i + 1).drop_last() =~= value@.take(i as int));
        assert(value@.take(i + 1).last() == c);
        if alnum_char(c) || c == '-' || c == '_' {
            r.push(c);
            assert(r@ =~= before + seq![c]);
        } else if c == ' ' {
            r.push('+');
            assert(r@ =~= before + seq!['+']);
        } else {
            let mut one = String::new();
            one.push(c);
            assert(one@ =~= seq![c]);
            let bytes = one.as_str().as_bytes();
            let ghost all = bytes@;
            assert(all == vstd::utf8::encode_utf8(seq![c]));
            let mut j: usize = 0;
            assert(before + escaped(all.take(0)) =~= before);
            while j < bytes.len()
                invariant
                    j <= bytes.len(),
                    bytes@ == all,
                    r@ == before + escaped(all.take(j as int)),
                decreases bytes.len() - j,
            {
                let b = bytes[j];
                r.push('%');
                r.push(show_hex_digit(b / 16));
                r.push(show_hex_digit(b % 16));
                proof {
                    assert(all.take(j + 1).drop_last() =~= all.take(j as int));
                    assert(r@ =~= before + escaped(all.take(j + 1)));
                }
                j = j + 1;
            }
            assert(all.take(j as int) =~= all);
        }
        i = i + 1;
    }
    assert(value@.take(i as int) =~= value@);
    r
}

/// Where a dependency is looked for: ids by a search of the web, names on the site
/// for mods.
pub open spec fn search_link(query: Seq<char>) -> Option<Seq<char>> {
    let q = text::trimmed(query);
    if q.len() == 0 {
        None
    } else {
        match text::after(text::ascii_lower(q), "bg3 mod "@) {
            Some(rest) => if metadata::is_uuid_text(text::trimmed(rest)) {
                Some("https://duckduckgo.com/?q="@ + encoded(q))
            } else {
                Some(
                    "https://www.nexusmods.com/baldursgate3/search/?gsearch="@ + encoded(q)
                        + "&gsearchtype=mods"@,
                )
            },
            None => Some(
                "https://www.nexusmods.com/baldursgate3/search/?gsearch="@ + encoded(q)
                    + "&gsearchtype=mods"@,
            ),
        }
    }
}

pub fn dependency_search_link(query: &str) -> (r: Option<String>)
    ensures
        text::text_opt(r) == search_link(query@),
{
    let q = trim(query);
    if q.as_str().is_empty() {
        return None;
    }
    let e = encode_query(q.as_str());
    let lower = to_ascii_lower(q.as_str());
    if let Some(rest) = after_prefix(lower.as_str(), "bg3 mod ") {
        let id = trim(rest.as_str());
        if is_uuid_like_str(id.as_str()) {
            return Some(concat2("https://duckduckgo.com/?q=", e.as_str()));
        }
    }
    Some(
        concat3(
            "https://www.nexusmods.com/baldursgate3/search/?gsearch=",
            e.as_str(),
            "&gsearchtype=mods",
        ),
    )
}

/// Whether nothing is known of a dependency but an id.
pub open spec fn is_unverified(dep: Seq<char>) -> bool {
    text::starts_with(dep, "_"@) || (metadata::is_uuid_text(dep) && display_label(dep)
        == "Unknown dependency"@)
}

pub fn is_unverified_dependency(dep: &str) -> (r: bool)
    ensures
        r == is_unverified(dep@),
{
    if has_prefix(dep, "_") {
        return true;
    }
    is_uuid_like_str(dep) && same_text(
        dependency_display_label(dep).as_str(),
        "Unknown dependency",
    )
}

/// Whether a dependency is one of the game's own modules.
pub open spec fn is_own(dep: Seq<char>) -> bool {
    ||| metadata::base_uuid(dep)
    ||| metadata::base_label(dep)
    ||| (uuid_of(dep) matches Some(u) && metadata::base_uuid(u))
    ||| metadata::base_label(display_label(dep))
}

fn is_ignored_dependency(dep: &str) -> (r: bool)
    ensures
        r == is_own(dep@),
{
    if is_base_dependency_uuid(dep) || is_base_dependency_label(dep) {
        return true;
    }
    if let Some(u) = dependency_uuid(dep) {
        if is_base_dependency_uuid(u.as_str()) {
            return true;
        }
    }
    is_base_dependency_label(dependency_display_label(dep).as_str())
}

/// The dependencies without the game's own modules.
pub open spec fn foreign(deps: Seq<Seq<char>>) -> Seq<Seq<char>> {
    deps.filter(|d: Seq<char>| !is_own(d))
}

pub fn filter_ignored_dependencies(deps: &Vec<String>) -> (out: Vec<String>)
    ensures
        text::texts(out@) == foreign(text::texts(deps@)),
{
    let ghost all = text::texts(deps@);
    let ghost keeps = |d: Seq<char>| !is_own(d);
    let mut out: Vec<String> = Vec::new();
    let mut i: usize = 0;
    proof {
        lists::lemma_filter_whole(all, keeps);
        assert(text::texts(out@) =~= all.take(0).filter(keeps));
    }
    while i < deps.len()
        invariant
            i <= deps.len(),
            all == text::texts(deps@),
            keeps == (|d: Seq<char>| !is_own(d)),
            text::texts(out@) == all.take(i as int).filter(keeps),
        decreases deps.len() - i,
    {
        proof {
            lists::lemma_keep_item(all, i as int, keeps);
            assert(all[i as int] == deps@[i as int]@);
        }
        if !is_ignored_dependency(deps[i].as_str()) {
            let dep = deps[i].clone();
            proof {
                text::lemma_texts_push(out@, dep);
            }
            out.push(dep);
        }
        i = i + 1;
    }
    proof {
        lists::lemma_filter_whole(all, keeps);
    }
    out
}

} // verus!
