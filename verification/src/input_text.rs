//! What the user types: paths as they are pasted, answers, and errors in short.
use crate::paths;
use crate::paths::{file_name, join_path};
use crate::text;
use crate::text::{
    after_prefix, from_chars, from_range, has_text, has_the_char, same_text, split, stands_here,
    to_chars, to_lowercase, trim, trim_starts,
};
use vstd::prelude::*;

verus! {

// ---------------------------------------------------------------------------
// Quotes and escapes
// ---------------------------------------------------------------------------

/// A text without the quotes round it.
pub open spec fn unquoted(s: Seq<char>) -> Seq<char> {
    if s.len() >= 2 && ((s[0] == '"' && s.last() == '"') || (s[0] == '\'' && s.last() == '\'')) {
        s.subrange(1, s.len() - 1)
    } else {
        s
    }
}

pub fn strip_outer_quotes(value: &str) -> (r: String)
    ensures
        r@ == unquoted(value@),
{
    let v = to_chars(value);
    let n = v.len();
    if n >= 2 && ((v[0] == '"' && v[n - 1] == '"') || (v[0] == '\'' && v[n - 1] == '\'')) {
        from_range(&v, 1, n - 1)
    } else {
        value.to_owned()
    }
}

/// A text without its backslashes; what stands behind one is taken as it is.
pub open spec fn unescaped(s: Seq<char>, from: int) -> Seq<char>
    decreases s.len() - from,
{
    if from < 0 || from >= s.len() {
        Seq::empty()
    } else if s[from] == '\\' {
        if from + 1 < s.len() {
            seq![s[from + 1]] + unescaped(s, from + 2)
        } else {
            Seq::empty()
        }
    } else {
        seq![s[from]] + unescaped(s, from + 1)
    }
}

pub fn unescape_shell(value: &str) -> (r: String)
    ensures
        r@ == unescaped(value@, 0),
{
    let v = to_chars(value);
    let mut out: Vec<char> = Vec::new();
    let mut i: usize = 0;
    assert(out@ + unescaped(value@, 0) =~= unescaped(value@, 0));
    while i < v.len()
        invariant
            i <= v.len(),
            v@ == value@,
            out@ + unescaped(value@, i as int) == unescaped(value@, 0),
        decreases v.len() - i,
    {
        let ghost before = out@;
        if v[i] == '\\' {
            if i + 1 < v.len() {
                out.push(v[i + 1]);
                assert(out@ + unescaped(value@, i + 2) =~= before + unescaped(value@, i as int));
                i = i + 2;
            } else {
                i = i + 1;
                assert(out@ + unescaped(value@, i as int) =~= before + unescaped(value@, i - 1));
            }
        } else {
            out.push(v[i]);
            assert(out@ + unescaped(value@, i + 1) =~= before + unescaped(value@, i as int));
            i = i + 1;
        }
    }
    assert(out@ + unescaped(value@, i as int) =~= out@);
    from_chars(&out)
}

/// A text without backslashes stays as it is.
pub proof fn law_unescape_plain(s: Seq<char>, from: int)
    requires
        0 <= from <= s.len(),
        !s.contains('\\'),
    ensures
        unescaped(s, from) == s.skip(from),
    decreases s.len() - from,
{
    if from < s.len() {
        law_unescape_plain(s, from + 1);
        assert(s[from] != '\\');
        assert(s.skip(from) =~= seq![s[from]] + s.skip(from + 1));
    } else {
        assert(s.skip(from) =~= Seq::<char>::empty());
    }
}

// ---------------------------------------------------------------------------
// Percent signs
// ---------------------------------------------------------------------------

/// The value of a hexadecimal digit.
pub open spec fn hex_value(b: u8) -> Option<u8> {
    if 48 <= b <= 57 {
        Some((b - 48) as u8)
    } else if 97 <= b <= 102 {
        Some((b - 87) as u8)
    } else if 65 <= b <= 70 {
        Some((b - 55) as u8)
    } else {
        None
    }
}

pub fn from_hex(byte: u8) -> (r: Option<u8>)
    ensures
        r == hex_value(byte),
{
    if 48 <= byte && byte <= 57 {
        Some(byte - 48)
    } else if 97 <= byte && byte <= 102 {
        Some(byte - 87)
    } else if 65 <= byte && byte <= 70 {
        Some(byte - 55)
    } else {
        None
    }
}

/// The bytes of a text as characters, with those that are written as a percent sign
/// and two hexadecimal digits decoded.
pub open spec fn decoded(b: Seq<u8>, from: int) -> Seq<char>
    decreases b.len() - from,
{
    if from < 0 || from >= b.len() {
        Seq::empty()
    } else if b[from] != 37 {
        seq![b[from] as char] + decoded(b, from + 1)
    } else if from + 2 < b.len() {
        (match (hex_value(b[from + 1]), hex_value(b[from + 2])) {
            (Some(hi), Some(lo)) => seq![(hi * 16 + lo) as u8 as char],
            _ => seq!['%', b[from + 1] as char, b[from + 2] as char],
        }) + decoded(b, from + 3)
    } else if from + 1 < b.len() {
        seq!['%', b[from + 1] as char]
    } else {
        seq!['%']
    }
}

pub fn percent_decode(value: &str) -> (r: String)
    ensures
        r@ == decoded(vstd::utf8::encode_utf8(value@), 0),
{
    let b = value.as_bytes();
    let ghost all = b@;
    let mut out: Vec<char> = Vec::new();
    let mut i: usize = 0;
    assert(out@ + decoded(all, 0) =~= decoded(all, 0));
    while i < b.len()
        invariant
            i <= b.len(),
            b@ == all,
            out@ + decoded(all, i as int) == decoded(all, 0),
        decreases b.len() - i,
    {
        let ghost before = out@;
        let ghost rest = decoded(all, i as int);
        if b[i] != 37 {
            out.push(b[i] as char);
            i = i + 1;
            assert(out@ + decoded(all, i as int) =~= before + rest);
        } else if b.len() - i > 2 {
            let pair = (from_hex(b[i + 1]), from_hex(b[i + 2]));
            match pair {
                (Some(hi), Some(lo)) => {
                    let code: u8 = hi * 16 + lo;
                    out.push(code as char);
                },
                _ => {
                    out.push('%');
                    out.push(b[i + 1] as char);
                    out.push(b[i + 2] as char);
                },
            }
            i = i + 3;
            assert(out@ + decoded(all, i as int) =~= before + rest);
        } else if b.len() - i > 1 {
            out.push('%');
            out.push(b[i + 1] as char);
            i = i + 2;
            assert(out@ + decoded(all, i as int) =~= before + rest);
        } else {
            out.push('%');
            i = i + 1;
            assert(out@ + decoded(all, i as int) =~= before + rest);
        }
    }
    assert(out@ + decoded(all, i as int) =~= out@);
    from_chars(&out)
}

// ---------------------------------------------------------------------------
// Paths
// ---------------------------------------------------------------------------

/// The path that a text means, before the home directory is put in.
pub open spec fn meant(input: Seq<char>) -> Seq<char> {
    let plain = unquoted(text::trimmed(input));
    let local = match text::after(plain, "file://"@) {
        Some(rest) => text::without_starts(rest, "localhost/"@),
        None => plain,
    };
    let bare = if local.contains('\\') {
        unescaped(local, 0)
    } else {
        local
    };
    if bare.contains('%') {
        decoded(vstd::utf8::encode_utf8(bare), 0)
    } else {
        bare
    }
}

/// The path that a text means.
pub open spec fn expanded(input: Seq<char>, home: Option<Seq<char>>) -> Seq<char> {
    let path = meant(input);
    match (text::after(path, "~"@), home) {
        (Some(rest), Some(dir)) => paths::joined(dir, text::without_starts(rest, "/"@)),
        _ => path,
    }
}

pub fn expand_tilde(input: &str, home: &Option<String>) -> (r: String)
    ensures
        r@ == expanded(input@, text::text_opt(*home)),
{
    let plain = strip_outer_quotes(trim(input).as_str());
    let local = match after_prefix(plain.as_str(), "file://") {
        Some(rest) => trim_starts(rest.as_str(), "localhost/"),
        None => plain,
    };
    let bare = if has_the_char(local.as_str(), '\\') {
        unescape_shell(local.as_str())
    } else {
        local
    };
    let path = if has_the_char(bare.as_str(), '%') {
        percent_decode(bare.as_str())
    } else {
        bare
    };
    if let Some(rest) = after_prefix(path.as_str(), "~") {
        if let Some(dir) = home {
            let rest = trim_starts(rest.as_str(), "/");
            return join_path(dir.as_str(), rest.as_str());
        }
    }
    path
}

/// The name under which a path is shown: its last component, or all of it.
pub open spec fn shown_path(path: Seq<char>) -> Seq<char> {
    match paths::base_name(path) {
        Some(name) => name,
        None => path,
    }
}

pub fn display_path(path: &str) -> (r: String)
    ensures
        r@ == shown_path(path@),
{
    match file_name(path) {
        Some(name) => name,
        None => path.to_owned(),
    }
}

// ---------------------------------------------------------------------------
// Errors in short
// ---------------------------------------------------------------------------

/// What stands behind the last separator at or before `n`, or all.
pub open spec fn behind_last(s: Seq<char>, sep: Seq<char>, n: int) -> Seq<char>
    decreases n + 1,
{
    if n < 0 {
        s
    } else if text::stands_at(s, sep, n) {
        s.skip(n + sep.len())
    } else {
        behind_last(s, sep, n - 1)
    }
}

fn take_behind_last(s: &str, sep: &str) -> (r: String)
    requires
        sep@.len() > 0,
    ensures
        r@ == behind_last(s@, sep@, s@.len() as int),
{
    let v = to_chars(s);
    let w = to_chars(sep);
    let mut i = v.len();
    while i > 0
        invariant
            i <= v.len(),
            v@ == s@,
            w@ == sep@,
            behind_last(s@, sep@, i as int) == behind_last(s@, sep@, s@.len() as int),
        decreases i,
    {
        if w.len() <= v.len() - i && stands_here(&v, &w, i) {
            return from_range(&v, i + w.len(), v.len());
        }
        i = i - 1;
    }
    if w.len() <= v.len() && stands_here(&v, &w, 0) {
        return from_range(&v, w.len(), v.len());
    }
    assert(behind_last(s@, sep@, -1) == s@);
    s.to_owned()
}

/// What an error comes down to: the last part of its first line.
pub open spec fn error_core(error: Seq<char>) -> Seq<char> {
    let line = text::trimmed(text::split_any(error, "\n"@)[0]);
    text::trimmed(behind_last(line, ": "@, line.len() as int))
}

/// An error in short.
pub open spec fn summary(error: Seq<char>) -> Seq<char> {
    let core = error_core(error);
    let lower = text::unicode_lowercase(core);
    if text::contains_text(lower, "device or resource busy"@) || text::contains_text(
        lower,
        "text file busy"@,
    ) {
        "file in use"@
    } else if text::contains_text(lower, "permission denied"@) || text::contains_text(
        lower,
        "access is denied"@,
    ) {
        "permission denied"@
    } else if text::contains_text(lower, "no such file or directory"@) || text::contains_text(
        lower,
        "file not found"@,
    ) {
        "file not found"@
    } else if text::contains_text(lower, "is a directory"@) {
        "expected a file"@
    } else if text::contains_text(lower, "not a directory"@) {
        "expected a folder"@
    } else if text::contains_text(lower, "meta.lsx"@) {
        "mod metadata missing"@
    } else {
        core
    }
}

pub fn summarize_error(error: &str) -> (r: String)
    ensures
        r@ == summary(error@),
{
    proof {
        reveal_strlit(": ");
    }
    let lines = split(error, "\n");
    assert(text::texts(lines@)[0] == lines@[0]@);
    let line = trim(lines[0].as_str());
    let core = trim(take_behind_last(line.as_str(), ": ").as_str());
    let lower = to_lowercase(core.as_str());
    let lower = lower.as_str();
    if has_text(lower, "device or resource busy") || has_text(lower, "text file busy") {
        return "file in use".to_owned();
    }
    if has_text(lower, "permission denied") || has_text(lower, "access is denied") {
        return "permission denied".to_owned();
    }
    if has_text(lower, "no such file or directory") || has_text(lower, "file not found") {
        return "file not found".to_owned();
    }
    if has_text(lower, "is a directory") {
        return "expected a file".to_owned();
    }
    if has_text(lower, "not a directory") {
        return "expected a folder".to_owned();
    }
    if has_text(lower, "meta.lsx") {
        return "mod metadata missing".to_owned();
    }
    core
}

// ---------------------------------------------------------------------------
// Answers
// ---------------------------------------------------------------------------

/// What is to become of a mod that is there already.
#[derive(Debug, Clone, Copy, PartialEq, Eq, Structural)]
pub enum CliDuplicateAction {
    Overwrite,
    Skip,
    OverwriteAll,
    SkipAll,
}

/// What an answer means. Without one the default counts; where there is none, and
/// where the answer is none that is known, the mod is skipped.
pub open spec fn answer(input: Seq<char>, default_overwrite: Option<bool>) -> CliDuplicateAction {
    let choice = text::unicode_lowercase(text::trimmed(input));
    if choice.len() == 0 {
        if default_overwrite == Some(true) {
            CliDuplicateAction::Overwrite
        } else {
            CliDuplicateAction::Skip
        }
    } else if choice == "o"@ || choice == "y"@ || choice == "yes"@ {
        CliDuplicateAction::Overwrite
    } else if choice == "a"@ || choice == "all"@ {
        CliDuplicateAction::OverwriteAll
    } else if choice == "k"@ || choice == "skipall"@ || choice == "skip-all"@ {
        CliDuplicateAction::SkipAll
    } else {
        CliDuplicateAction::Skip
    }
}

pub fn parse_duplicate_answer(input: &str, default_overwrite: Option<bool>) -> (r:
    CliDuplicateAction)
    ensures
        r == answer(input@, default_overwrite),
{
    proof {
        reveal_strlit("o");
        reveal_strlit("y");
        reveal_strlit("a");
        reveal_strlit("k");
        reveal_strlit("yes");
        reveal_strlit("all");
        reveal_strlit("skipall");
        reveal_strlit("skip-all");
    }
    let choice = to_lowercase(trim(input).as_str());
    let choice = choice.as_str();
    if choice.is_empty() {
        return match default_overwrite {
            Some(true) => CliDuplicateAction::Overwrite,
            _ => CliDuplicateAction::Skip,
        };
    }
    if same_text(choice, "o") || same_text(choice, "y") || same_text(choice, "yes") {
        return CliDuplicateAction::Overwrite;
    }
    if same_text(choice, "a") || same_text(choice, "all") {
        return CliDuplicateAction::OverwriteAll;
    }
    if same_text(choice, "k") || same_text(choice, "skipall") || same_text(choice, "skip-all") {
        return CliDuplicateAction::SkipAll;
    }
    CliDuplicateAction::Skip
}

} // verus!
