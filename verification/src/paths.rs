//! Paths as text: components, file names, extensions, joining.
use crate::text;
use crate::text::{eq_ignore_case, from_range, same_text, split, to_chars};
use vstd::prelude::*;

verus! {

/// Whether a piece between slashes names something: it is neither empty nor a
/// single dot.
pub open spec fn is_part(piece: Seq<char>) -> bool {
    piece.len() > 0 && piece != "."@
}

/// The components of a path.
pub open spec fn parts(path: Seq<char>) -> Seq<Seq<char>> {
    text::split_any(path, "/"@).filter(|piece: Seq<char>| is_part(piece))
}

/// The name that the last component gives, if there is one.
pub open spec fn base_name(path: Seq<char>) -> Option<Seq<char>> {
    let p = parts(path);
    if p.len() == 0 || p.last() == ".."@ {
        None
    } else {
        Some(p.last())
    }
}

/// Whether some component is `name`, whatever the case of its letters.
pub open spec fn has_part(path: Seq<char>, name: Seq<char>) -> bool {
    exists|i: int|
        0 <= i < parts(path).len() && text::same_ignoring_case(#[trigger] parts(path)[i], name)
}

pub fn split_parts(path: &str) -> (out: Vec<String>)
    ensures
        text::texts(out@) == parts(path@),
{
    let pieces = split(path, "/");
    let ghost all = text::texts(pieces@);
    let ghost keep = |piece: Seq<char>| is_part(piece);
    let mut out: Vec<String> = Vec::new();
    let mut i: usize = 0;
    proof {
        crate::lists::lemma_filter_whole(all, keep);
    }
    assert(text::texts(out@) =~= all.take(0).filter(keep));
    while i < pieces.len()
        invariant
            i <= pieces.len(),
            all == text::texts(pieces@),
            keep == (|piece: Seq<char>| is_part(piece)),
            text::texts(out@) == all.take(i as int).filter(keep),
        decreases pieces.len() - i,
    {
        proof {
            crate::lists::lemma_keep_item(all, i as int, keep);
        }
        if !pieces[i].as_str().is_empty() && !same_text(pieces[i].as_str(), ".") {
            let piece = pieces[i].clone();
            proof {
                text::lemma_texts_push(out@, piece);
            }
            out.push(piece);
        }
        i = i + 1;
    }
    proof {
        crate::lists::lemma_filter_whole(all, keep);
    }
    out
}

pub fn file_name(path: &str) -> (r: Option<String>)
    ensures
        text::text_opt(r) == base_name(path@),
{
    let mut found = split_parts(path);
    let ghost all = text::texts(found@);
    match found.pop() {
        None => None,
        Some(last) => {
            assert(all.last() == last@);
            if same_text(last.as_str(), "..") {
                None
            } else {
                Some(last)
            }
        },
    }
}

pub fn has_component(path: &str, name: &str) -> (r: bool)
    ensures
        r == has_part(path@, name@),
{
    let found = split_parts(path);
    let mut i: usize = 0;
    while i < found.len()
        invariant
            i <= found.len(),
            text::texts(found@) == parts(path@),
            forall|j: int|
                0 <= j < i ==> !text::same_ignoring_case(#[trigger] parts(path@)[j], name@),
        decreases found.len() - i,
    {
        assert(parts(path@)[i as int] == found@[i as int]@);
        if eq_ignore_case(found[i].as_str(), name) {
            return true;
        }
        i = i + 1;
    }
    false
}

/// `child` inside `base`; an absolute `child` stands for itself.
pub open spec fn joined(base: Seq<char>, child: Seq<char>) -> Seq<char> {
    if child.len() > 0 && child[0] == '/' {
        child
    } else if base.len() == 0 || base.last() == '/' {
        base + child
    } else {
        base + "/"@ + child
    }
}

pub fn join_path(base: &str, child: &str) -> (out: String)
    ensures
        out@ == joined(base@, child@),
{
    let b = to_chars(base);
    let c = to_chars(child);
    if c.len() > 0 && c[0] == '/' {
        child.to_owned()
    } else if b.len() == 0 || b[b.len() - 1] == '/' {
        text::concat2(base, child)
    } else {
        text::concat3(base, "/", child)
    }
}

/// The index of the last dot of a name, if the name has one that is not at its
/// start.
pub open spec fn is_last_dot(name: Seq<char>, i: int) -> bool {
    &&& 0 < i < name.len()
    &&& name[i] == '.'
    &&& forall|j: int| i < j < name.len() ==> name[j] != '.'
}

/// What stands behind the last dot of a file name.
pub open spec fn extension_of(name: Seq<char>) -> Option<Seq<char>> {
    if name != ".."@ && exists|i: int| is_last_dot(name, i) {
        let i = choose|i: int| is_last_dot(name, i);
        Some(name.skip(i + 1))
    } else {
        None
    }
}

/// What stands before the last dot of a file name.
pub open spec fn stem_of(name: Seq<char>) -> Seq<char> {
    if name != ".."@ && exists|i: int| is_last_dot(name, i) {
        let i = choose|i: int| is_last_dot(name, i);
        name.take(i)
    } else {
        name
    }
}

fn last_dot(v: &Vec<char>) -> (r: Option<usize>)
    ensures
        match r {
            Some(i) => i < v.len() && is_last_dot(v@, i as int) && forall|k: int|
                is_last_dot(v@, k) ==> k == i,
            None => forall|k: int| !is_last_dot(v@, k),
        },
{
    let mut i: usize = v.len();
    while i > 1
        invariant
            i <= v.len(),
            forall|j: int| i <= j < v.len() ==> v@[j] != '.',
        decreases i,
    {
        i = i - 1;
        if v[i] == '.' {
            assert forall|k: int| is_last_dot(v@, k) implies k == i by {
                assert(v@[k] == '.');
                assert(v@[i as int] == '.');
            }
            return Some(i);
        }
    }
    None
}

pub fn extension(name: &str) -> (r: Option<String>)
    ensures
        text::text_opt(r) == extension_of(name@),
{
    if same_text(name, "..") {
        return None;
    }
    let v = to_chars(name);
    match last_dot(&v) {
        Some(i) => {
            assert(is_last_dot(name@, i as int));
            let out = from_range(&v, i + 1, v.len());
            assert(out@ =~= name@.skip(i + 1));
            Some(out)
        },
        None => None,
    }
}

pub fn stem(name: &str) -> (r: String)
    ensures
        r@ == stem_of(name@),
{
    if same_text(name, "..") {
        return name.to_owned();
    }
    let v = to_chars(name);
    match last_dot(&v) {
        Some(i) => {
            assert(is_last_dot(name@, i as int));
            let out = from_range(&v, 0, i);
            assert(out@ =~= name@.take(i as int));
            out
        },
        None => name.to_owned(),
    }
}

/// Whether a file name has the extension, whatever the case of its letters.
pub fn has_extension(name: &str, ext: &str) -> (r: bool)
    ensures
        r == (extension_of(name@) matches Some(e) && text::same_ignoring_case(e, ext@)),
{
    match extension(name) {
        Some(e) => eq_ignore_case(e.as_str(), ext),
        None => false,
    }
}

// ---------------------------------------------------------------------------
// Paths that are the same
// ---------------------------------------------------------------------------

/// The components of a path, a root or a leading dot among them.
pub open spec fn components(path: Seq<char>) -> Seq<Seq<char>> {
    if path.len() > 0 && path[0] == '/' {
        seq!["/"@] + parts(path)
    } else if path == "."@ || text::starts_with(path, "./"@) {
        seq!["."@] + parts(path)
    } else {
        parts(path)
    }
}

/// The text by which paths are told apart: doubled slashes, slashes at the end and
/// inner dots make no difference.
pub open spec fn path_key(path: Seq<char>) -> Seq<char> {
    text::join(components(path), "/"@)
}

/// Whether `path` is `dir` or lies in it.
pub open spec fn is_within(path: Seq<char>, dir: Seq<char>) -> bool {
    components(dir).is_prefix_of(components(path))
}

pub fn split_components(path: &str) -> (out: Vec<String>)
    ensures
        text::texts(out@) == components(path@),
{
    let mut rest = split_parts(path);
    let ghost tail = rest@;
    let v = to_chars(path);
    let mut out: Vec<String> = Vec::new();
    if v.len() > 0 && v[0] == '/' {
        out.push("/".to_owned());
    } else if same_text(path, ".") || text::has_prefix(path, "./") {
        out.push(".".to_owned());
    }
    let ghost first = out@;
    out.append(&mut rest);
    assert(text::texts(out@) =~= text::texts(first) + text::texts(tail));
    assert(text::texts(out@) =~= components(path@));
    out
}

pub fn key_of(path: &str) -> (r: String)
    ensures
        r@ == path_key(path@),
{
    let found = split_components(path);
    text::join_texts(&found, "/")
}

pub fn lies_within(path: &str, dir: &str) -> (r: bool)
    ensures
        r == is_within(path@, dir@),
{
    let inner = split_components(path);
    let outer = split_components(dir);
    let ghost a = text::texts(inner@);
    let ghost b = text::texts(outer@);
    if outer.len() > inner.len() {
        return false;
    }
    let mut i: usize = 0;
    while i < outer.len()
        invariant
            i <= outer.len() <= inner.len(),
            a == text::texts(inner@),
            b == text::texts(outer@),
            a == components(path@),
            b == components(dir@),
            b.take(i as int) == a.take(i as int),
        decreases outer.len() - i,
    {
        if !same_text(outer[i].as_str(), inner[i].as_str()) {
            assert(b[i as int] != a[i as int]);
            assert(b != a.subrange(0, b.len() as int)) by {
                assert(a.subrange(0, b.len() as int)[i as int] == a[i as int]);
            }
            return false;
        }
        assert(b.take(i + 1) =~= b.take(i as int).push(b[i as int]));
        assert(a.take(i + 1) =~= a.take(i as int).push(a[i as int]));
        i = i + 1;
    }
    assert(b.take(i as int) =~= b);
    assert(a.subrange(0, b.len() as int) =~= a.take(i as int));
    true
}

proof fn lemma_split_some(s: Seq<char>, seps: Seq<char>)
    ensures
        text::split_any(s, seps).len() > 0,
    decreases s.len(),
{
    if s.len() > 0 {
        lemma_split_some(s.drop_last(), seps);
    }
}

proof fn lemma_split_slash(a: Seq<char>, b: Seq<char>)
    ensures
        text::split_any(a + "/"@ + b, "/"@) == text::split_any(a, "/"@) + text::split_any(
            b,
            "/"@,
        ),
    decreases b.len(),
{
    reveal_strlit("/");
    let whole = a + "/"@ + b;
    let left = text::split_any(a, "/"@);
    if b.len() == 0 {
        assert(whole.drop_last() =~= a);
        assert(whole.last() == '/');
        assert("/"@.contains('/')) by {
            assert("/"@[0] == '/');
        }
        assert(text::split_any(whole, "/"@) =~= left + text::split_any(b, "/"@));
    } else {
        let front = b.drop_last();
        lemma_split_slash(a, front);
        lemma_split_some(front, "/"@);
        assert(whole.drop_last() =~= a + "/"@ + front);
        assert(whole.last() == b.last());
        let right = text::split_any(front, "/"@);
        assert((left + right).drop_last() =~= left + right.drop_last());
        assert((left + right).last() == right.last());
        assert(text::split_any(whole, "/"@) =~= left + text::split_any(b, "/"@));
    }
}

proof fn lemma_parts_slash(a: Seq<char>, b: Seq<char>)
    ensures
        parts(a + "/"@ + b) == parts(a) + parts(b),
{
    let keep = |piece: Seq<char>| is_part(piece);
    lemma_split_slash(a, b);
    Seq::filter_distributes_over_add(
        text::split_any(a, "/"@),
        text::split_any(b, "/"@),
        keep,
    );
}

proof fn lemma_parts_none()
    ensures
        parts(Seq::empty()) == Seq::<Seq<char>>::empty(),
{
    let keep = |piece: Seq<char>| is_part(piece);
    let one = seq![Seq::<char>::empty()];
    assert(text::split_any(Seq::empty(), "/"@) =~= one);
    crate::lists::lemma_keep_item(one, 0, keep);
    crate::lists::lemma_filter_whole(one, keep);
    assert(one.take(1) =~= one);
}

/// The components of a path below a directory are those of the directory and more.
pub proof fn lemma_parts_joined(base: Seq<char>, child: Seq<char>)
    requires
        child.len() == 0 || child[0] != '/',
    ensures
        parts(joined(base, child)) == parts(base) + parts(child),
{
    reveal_strlit("/");
    lemma_parts_none();
    if base.len() == 0 {
        assert(base =~= Seq::empty());
        assert(joined(base, child) =~= child);
        assert(parts(base) + parts(child) =~= parts(child));
    } else if base.last() == '/' {
        let a = base.drop_last();
        assert(base =~= a + "/"@ + Seq::<char>::empty());
        lemma_parts_slash(a, Seq::empty());
        assert(joined(base, child) =~= a + "/"@ + child);
        lemma_parts_slash(a, child);
        assert(parts(a) + Seq::<Seq<char>>::empty() =~= parts(a));
    } else {
        lemma_parts_slash(base, child);
    }
}

proof fn lemma_dot_slash(s: Seq<char>)
    ensures
        text::starts_with(s, "./"@) == (s.len() >= 2 && s[0] == '.' && s[1] == '/'),
{
    reveal_strlit("./");
    if s.len() >= 2 {
        let head = s.subrange(0, 2);
        if s[0] == '.' && s[1] == '/' {
            assert(head =~= "./"@);
        } else if head == "./"@ {
            assert(head[0] == '.' && head[1] == '/');
        }
    }
}

/// A path below a directory lies in it.
pub proof fn law_joined_is_within(base: Seq<char>, child: Seq<char>)
    requires
        child.len() == 0 || child[0] != '/',
    ensures
        is_within(joined(base, child), base),
{
    let whole = joined(base, child);
    lemma_parts_joined(base, child);
    lemma_parts_none();
    reveal_strlit("/");
    reveal_strlit(".");
    reveal_strlit("./");
    if base.len() == 0 {
        assert(base =~= Seq::empty());
        assert(components(base) =~= Seq::empty());
    } else {
        assert(whole[0] == base[0]);
        if base[0] != '/' {
            lemma_dot_slash(base);
            lemma_dot_slash(whole);
            if base.len() == 1 {
                assert((base[0] == '.') == (base == "."@)) by {
                    if base[0] == '.' {
                        assert(base =~= "."@);
                    }
                }
                assert(whole[1] == '/');
            } else {
                assert(whole[1] == base[1]);
            }
            assert(whole.len() >= 2);
            assert((whole == "."@ || text::starts_with(whole, "./"@)) == (base == "."@
                || text::starts_with(base, "./"@)));
        }
    }
    assert(components(base) =~= components(whole).subrange(0, components(base).len() as int));
}

proof fn lemma_split_clean(s: Seq<char>, i: int)
    requires
        0 <= i < text::split_any(s, "/"@).len(),
    ensures
        !text::split_any(s, "/"@)[i].contains('/'),
    decreases s.len(),
{
    reveal_strlit("/");
    assert("/"@[0] == '/');
    if s.len() > 0 {
        let before = text::split_any(s.drop_last(), "/"@);
        lemma_split_some(s.drop_last(), "/"@);
        if i < before.len() - 1 || (i < before.len() && "/"@.contains(s.last())) {
            lemma_split_clean(s.drop_last(), i);
        } else if !"/"@.contains(s.last()) {
            lemma_split_clean(s.drop_last(), before.len() - 1);
            crate::lists::lemma_push_contains(before.last(), s.last(), '/');
            assert("/"@.contains('/'));
        }
    }
}

/// Each name in a path is one: it is neither empty nor a dot, and holds no slash.
pub proof fn law_parts_are_names(path: Seq<char>, i: int)
    requires
        0 <= i < parts(path).len(),
    ensures
        parts(path)[i].len() > 0,
        parts(path)[i] != "."@,
        !parts(path)[i].contains('/'),
{
    let keep = |piece: Seq<char>| is_part(piece);
    let all = text::split_any(path, "/"@);
    let piece = parts(path)[i];
    assert(parts(path).contains(piece));
    crate::lists::lemma_filter_contains(all, keep, piece);
    let k = choose|k: int| 0 <= k < all.len() && all[k] == piece;
    lemma_split_clean(path, k);
}

proof fn lemma_split_piece(x: Seq<char>)
    requires
        !x.contains('/'),
    ensures
        text::split_any(x, "/"@) == seq![x],
    decreases x.len(),
{
    reveal_strlit("/");
    if x.len() > 0 {
        let front = x.drop_last();
        assert(!front.contains('/')) by {
            if front.contains('/') {
                let k = choose|k: int| 0 <= k < front.len() && front[k] == '/';
                assert(x[k] == '/');
            }
        }
        lemma_split_piece(front);
        assert(x.last() == x[x.len() - 1]);
        assert(!"/"@.contains(x.last())) by {
            if "/"@.contains(x.last()) {
                let k = choose|k: int| 0 <= k < "/"@.len() && "/"@[k] == x.last();
                assert(x.contains('/'));
            }
        }
        assert(front.push(x.last()) =~= x);
        assert(text::split_any(x, "/"@) =~= seq![x]);
    } else {
        assert(x =~= Seq::empty());
    }
}

/// A name alone has one part, itself, and a root or a dot has none.
pub proof fn lemma_parts_piece(x: Seq<char>)
    ensures
        !x.contains('/') && is_part(x) ==> parts(x) == seq![x],
        x == "/"@ || x == "."@ ==> parts(x) == Seq::<Seq<char>>::empty(),
{
    let keep = |piece: Seq<char>| is_part(piece);
    reveal_strlit("/");
    reveal_strlit(".");
    if !x.contains('/') {
        lemma_split_piece(x);
        let one = seq![x];
        crate::lists::lemma_keep_item(one, 0, keep);
        crate::lists::lemma_filter_whole(one, keep);
        assert(one.take(1) =~= one);
        assert(Seq::<Seq<char>>::empty().push(x) =~= one);
    }
    if x == "/"@ {
        assert(x =~= Seq::<char>::empty() + "/"@ + Seq::<char>::empty());
        lemma_parts_slash(Seq::empty(), Seq::empty());
        lemma_parts_none();
        assert(Seq::<Seq<char>>::empty() + Seq::<Seq<char>>::empty() =~= Seq::<
            Seq<char>,
        >::empty());
    }
    if x == "."@ {
        assert(!x.contains('/'));
    }
}

/// What stands at the start of names that are joined.
proof fn lemma_join_front(list: Seq<Seq<char>>)
    requires
        list.len() > 0,
    ensures
        ({
            let whole = text::join(list, "/"@);
            &&& whole.len() >= list[0].len()
            &&& whole.take(list[0].len() as int) == list[0]
            &&& list.len() == 1 ==> whole.len() == list[0].len()
            &&& list.len() > 1 ==> whole.len() > list[0].len() && whole[list[0].len() as int] == '/'
        }),
    decreases list.len(),
{
    reveal_strlit("/");
    let whole = text::join(list, "/"@);
    let first = list[0];
    if list.len() == 1 {
        assert(whole.take(first.len() as int) =~= first);
    } else {
        let front = list.drop_last();
        let before = text::join(front, "/"@);
        lemma_join_front(front);
        assert(front[0] == first);
        assert(whole == before + "/"@ + list.last());
        assert(whole.take(first.len() as int) =~= before.take(first.len() as int));
        if front.len() == 1 {
            assert(whole[first.len() as int] == "/"@[0]);
        } else {
            assert(whole[first.len() as int] == before[first.len() as int]);
        }
    }
}

proof fn lemma_parts_join(head: Seq<Seq<char>>, names: Seq<Seq<char>>)
    requires
        head.len() == 0 || head == seq!["/"@] || head == seq!["."@],
        forall|i: int|
            0 <= i < names.len() ==> is_part(#[trigger] names[i]) && !names[i].contains('/'),
    ensures
        parts(text::join(head + names, "/"@)) == names,
    decreases names.len(),
{
    reveal_strlit("/");
    reveal_strlit(".");
    lemma_parts_none();
    let list = head + names;
    if names.len() == 0 {
        assert(list =~= head);
        assert(names =~= Seq::<Seq<char>>::empty());
        if head.len() > 0 {
            lemma_parts_piece(head[0]);
        }
    } else {
        let front = names.drop_last();
        let last = names.last();
        assert(last == names[names.len() - 1]);
        lemma_parts_join(head, front);
        lemma_parts_piece(last);
        assert(list.drop_last() =~= head + front);
        assert(list.last() == last);
        assert(front + seq![last] =~= names);
        if list.len() == 1 {
            assert(list[0] == last);
            assert(front =~= Seq::<Seq<char>>::empty());
        } else {
            lemma_parts_slash(text::join(head + front, "/"@), last);
        }
    }
}

/// A path and the text by which it is told apart have the same components.
pub proof fn law_key_keeps_components(path: Seq<char>)
    ensures
        components(path_key(path)) == components(path),
{
    reveal_strlit("/");
    reveal_strlit(".");
    reveal_strlit("./");
    let all = components(path);
    let names = parts(path);
    let whole = path_key(path);
    let head = if path.len() > 0 && path[0] == '/' {
        seq!["/"@]
    } else if path == "."@ || text::starts_with(path, "./"@) {
        seq!["."@]
    } else {
        Seq::<Seq<char>>::empty()
    };
    assert(all =~= head + names);
    assert forall|i: int| 0 <= i < names.len() implies is_part(#[trigger] names[i])
        && !names[i].contains('/') by {
        law_parts_are_names(path, i);
    }
    lemma_parts_join(head, names);
    lemma_dot_slash(whole);
    if all.len() > 0 {
        let first = all[0];
        lemma_join_front(all);
        assert(first.len() > 0);
        assert(whole[0] == whole.take(first.len() as int)[0]);
        assert(whole[0] == first[0]);
        if head.len() > 0 {
            if whole.len() == 1 {
                assert(whole =~= first);
            }
        } else {
            law_parts_are_names(path, 0);
            assert(first == names[0]);
            assert(first[0] != '/');
            if whole == "."@ {
                assert(first =~= "."@);
            }
            if text::starts_with(whole, "./"@) {
                if first.len() == 1 {
                    assert(first =~= "."@);
                } else {
                    assert(whole[1] == whole.take(first.len() as int)[1]);
                    assert(first[1] == '/');
                    assert(first.contains('/'));
                }
            }
        }
    }
}

/// Two paths have the same key exactly where they have the same components: doubled
/// slashes, slashes at the end and inner dots make no difference, and all else does.
pub proof fn law_key_tells_apart(a: Seq<char>, b: Seq<char>)
    ensures
        path_key(a) == path_key(b) <==> components(a) == components(b),
{
    law_key_keeps_components(a);
    law_key_keeps_components(b);
}

} // verus!
