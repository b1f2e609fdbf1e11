//! Why mods are ranked as they are, in words.
use crate::library;
use crate::library::{display_mod_name, ModEntry, ProfileEntry};
use crate::lists;
use crate::lists::order_desc;
use crate::rank_items::ConflictPathInfo;
use crate::rank_order;
use crate::rank_order::{RankGroup, RankItem};
use crate::text;
use crate::text::{join_texts, push_text, show_usize};
use vstd::hash_map::StringHashMap;
use vstd::prelude::*;

verus! {

#[derive(Debug)]
pub struct SmartRankExplain {
    pub lines: Vec<SmartRankExplainLine>,
}

#[derive(Debug)]
pub struct SmartRankExplainLine {
    pub kind: ExplainLineKind,
    pub text: String,
}

#[derive(Debug, Clone, Copy, PartialEq, Eq, Structural)]
pub enum ExplainLineKind {
    Header,
    Item,
    Muted,
}

/// Lines as kinds and texts.
pub open spec fn line_views(lines: Seq<SmartRankExplainLine>) -> Seq<(ExplainLineKind, Seq<char>)> {
    Seq::new(lines.len(), |i: int| (lines[i].kind, lines[i].text@))
}

fn push_line(lines: &mut Vec<SmartRankExplainLine>, kind: ExplainLineKind, line: String)
    ensures
        line_views(final(lines)@) == line_views(old(lines)@).push((kind, line@)),
{
    lines.push(SmartRankExplainLine { kind, text: line });
    assert(line_views(lines@) =~= line_views(old(lines)@).push((kind, line@)));
}

/// At most the first six.
pub open spec fn first_six<T>(s: Seq<T>) -> Seq<T> {
    if s.len() <= 6 {
        s
    } else {
        s.take(6)
    }
}

/// Texts as item lines; the muted line where there are none.
pub open spec fn section(
    header: Seq<char>,
    texts: Seq<Seq<char>>,
    muted: Seq<char>,
) -> Seq<(ExplainLineKind, Seq<char>)> {
    let body = if texts.len() == 0 {
        seq![(ExplainLineKind::Muted, muted)]
    } else {
        Seq::new(texts.len(), |i: int| (ExplainLineKind::Item, texts[i]))
    };
    seq![(ExplainLineKind::Header, header)] + body
}

/// Writes a section.
fn push_section(
    lines: &mut Vec<SmartRankExplainLine>,
    header: &str,
    texts: &Vec<String>,
    muted: &str,
)
    ensures
        line_views(final(lines)@) == line_views(old(lines)@) + section(
            header@,
            text::texts(texts@),
            muted@,
        ),
{
    let ghost start = line_views(lines@);
    let ghost whole = section(header@, text::texts(texts@), muted@);
    push_line(lines, ExplainLineKind::Header, header.to_owned());
    if texts.len() == 0 {
        push_line(lines, ExplainLineKind::Muted, muted.to_owned());
        assert(line_views(lines@) =~= start + whole);
        return;
    }
    let mut i: usize = 0;
    assert(line_views(lines@) =~= start + whole.take(1));
    while i < texts.len()
        invariant
            i <= texts.len(),
            texts.len() > 0,
            whole == section(header@, text::texts(texts@), muted@),
            line_views(lines@) == start + whole.take(i + 1),
        decreases texts.len() - i,
    {
        assert(whole[i + 1] == (ExplainLineKind::Item, texts@[i as int]@));
        assert((start + whole.take(i + 1)).push(whole[i + 1]) =~= start + whole.take(i + 2));
        push_line(lines, ExplainLineKind::Item, texts[i].clone());
        i = i + 1;
    }
    assert(whole.take(i + 1) =~= whole);
}

// ---------------------------------------------------------------------------
// The items with the largest numbers
// ---------------------------------------------------------------------------

/// Which of the first `n` numbers are positive.
pub open spec fn positives(keys: Seq<nat>, n: int) -> Seq<int>
    decreases n,
{
    if n <= 0 {
        Seq::empty()
    } else if keys[n - 1] > 0 {
        positives(keys, n - 1).push(n - 1)
    } else {
        positives(keys, n - 1)
    }
}

/// The indices of the six largest positive numbers, or fewer, the largest first;
/// equal numbers keep their order.
pub open spec fn leaders(keys: Seq<nat>) -> Seq<int> {
    let pos = positives(keys, keys.len() as int);
    let chosen = Seq::new(pos.len(), |i: int| keys[pos[i]]);
    let order = lists::desc_order(chosen, pos.len() as int);
    first_six(Seq::new(order.len(), |i: int| pos[order[i]]))
}

fn find_leaders(keys: &Vec<usize>) -> (out: Vec<usize>)
    ensures
        rank_order::as_ints(out@) == leaders(lists::nats(keys@)),
        forall|i: int| 0 <= i < out.len() ==> (#[trigger] out@[i]) < keys.len(),
{
    let ghost all = lists::nats(keys@);
    let mut pos: Vec<usize> = Vec::new();
    let mut chosen: Vec<usize> = Vec::new();
    let mut n: usize = 0;
    assert(rank_order::as_ints(pos@) =~= Seq::empty());
    while n < keys.len()
        invariant
            n <= keys.len(),
            all == lists::nats(keys@),
            rank_order::as_ints(pos@) == positives(all, n as int),
            chosen.len() == pos.len(),
            forall|i: int|
                0 <= i < pos.len() ==> (#[trigger] pos@[i]) < n && chosen@[i]
                    == keys@[pos@[i] as int],
        decreases keys.len() - n,
    {
        if keys[n] > 0 {
            proof {
                rank_order::lemma_as_ints_push(pos@, n);
            }
            pos.push(n);
            chosen.push(keys[n]);
        }
        n = n + 1;
    }
    let ghost p = positives(all, keys@.len() as int);
    proof {
        assert forall|i: int| 0 <= i < pos.len() implies p[i] == #[trigger] pos@[i] by {}
        assert(lists::nats(chosen@) =~= Seq::new(p.len(), |i: int| all[p[i]]));
    }
    let order = order_desc(&chosen);
    let ghost o = lists::desc_order(lists::nats(chosen@), p.len() as int);
    let mut out: Vec<usize> = Vec::new();
    let mut k: usize = 0;
    while k < order.len() && k < 6
        invariant
            k <= order.len(),
            k <= 6,
            out.len() == k,
            o == rank_order::as_ints(order@),
            p == rank_order::as_ints(pos@),
            order.len() == pos.len(),
            forall|i: int| 0 <= i < order.len() ==> (#[trigger] order@[i]) < pos.len(),
            forall|i: int| 0 <= i < pos.len() ==> (#[trigger] pos@[i]) < keys.len(),
            forall|i: int|
                0 <= i < k ==> (#[trigger] out@[i]) as int == p[o[i]] && out@[i] < keys.len(),
        decreases order.len() - k,
    {
        assert(o[k as int] == order@[k as int]);
        out.push(pos[order[k]]);
        k = k + 1;
    }
    assert(rank_order::as_ints(out@) =~= leaders(all));
    out
}

// ---------------------------------------------------------------------------
// The sections
// ---------------------------------------------------------------------------

pub open spec fn conflict_keys(items: Seq<RankItem>) -> Seq<nat> {
    Seq::new(items.len(), |i: int| items[i].conflict_files as nat)
}

pub open spec fn patch_keys(items: Seq<RankItem>) -> Seq<nat> {
    Seq::new(items.len(), |i: int| items[i].patch_score as nat)
}

pub open spec fn conflict_text(item: RankItem, mods: Seq<ModEntry>) -> Seq<char> {
    library::mod_name(mods, item.id@) + " — "@ + text::decimal(item.conflict_files as nat)
        + " files, "@ + text::decimal(item.conflict_partners as nat) + " mods"@
}

pub open spec fn conflict_texts(items: Seq<RankItem>, mods: Seq<ModEntry>) -> Seq<Seq<char>> {
    let who = leaders(conflict_keys(items));
    Seq::new(who.len(), |i: int| conflict_text(items[who[i]], mods))
}

pub open spec fn patch_text(item: RankItem, mods: Seq<ModEntry>) -> Seq<char> {
    library::mod_name(mods, item.id@) + " — score "@ + text::decimal(item.patch_score as nat)
        + if item.patch_reasons@.len() == 0 {
        Seq::empty()
    } else {
        " ("@ + text::join(text::texts(item.patch_reasons@), ", "@) + ")"@
    }
}

pub open spec fn patch_texts(items: Seq<RankItem>, mods: Seq<ModEntry>) -> Seq<Seq<char>> {
    let who = leaders(patch_keys(items));
    Seq::new(who.len(), |i: int| patch_text(items[who[i]], mods))
}

/// The place of a mod in the load order, the first where it has none.
pub open spec fn place_of(order: Seq<ProfileEntry>, id: Seq<char>) -> nat
    decreases order.len(),
{
    if order.len() == 0 {
        0
    } else if order.last().id@ == id {
        (order.len() - 1) as nat
    } else {
        place_of(order.drop_last(), id)
    }
}

/// Where no mod has two entries, each stands at its place.
pub proof fn lemma_place_of(order: Seq<ProfileEntry>, i: int)
    requires
        0 <= i < order.len(),
        forall|j: int| i < j < order.len() ==> (#[trigger] order[j]).id@ != order[i].id@,
    ensures
        place_of(order, order[i].id@) == i,
    decreases order.len(),
{
    if i < order.len() - 1 {
        assert(order[order.len() - 1].id@ != order[i].id@);
        assert forall|j: int| i < j < order.drop_last().len() implies (
        #[trigger] order.drop_last()[j]).id@ != order[i].id@ by {
            assert(order[j].id@ != order[i].id@);
        }
        lemma_place_of(order.drop_last(), i);
    }
}

pub proof fn lemma_place_inside(order: Seq<ProfileEntry>, id: Seq<char>)
    ensures
        order.len() > 0 ==> place_of(order, id) < order.len(),
    decreases order.len(),
{
    reveal_with_fuel(place_of, 2);
    if order.len() > 0 && order.last().id@ != id {
        lemma_place_inside(order.drop_last(), id);
    }
}

/// The mod that comes last in the load order.
pub open spec fn winner(ids: Seq<Seq<char>>, order: Seq<ProfileEntry>) -> Option<Seq<char>>
    decreases ids.len(),
{
    if ids.len() == 0 {
        None
    } else {
        match winner(ids.drop_last(), order) {
            Some(w) => if place_of(order, ids.last()) >= place_of(order, w) {
                Some(ids.last())
            } else {
                Some(w)
            },
            None => Some(ids.last()),
        }
    }
}

pub open spec fn group_label(group: RankGroup) -> Seq<char> {
    match group {
        RankGroup::Loose => "Loose"@,
        RankGroup::Pak => "Pak"@,
    }
}

/// The names of mods.
pub open spec fn mod_names(ids: Seq<Seq<char>>, mods: Seq<ModEntry>) -> Seq<Seq<char>> {
    Seq::new(ids.len(), |i: int| library::mod_name(mods, ids[i]))
}

pub open spec fn path_text(
    info: ConflictPathInfo,
    mods: Seq<ModEntry>,
    order: Seq<ProfileEntry>,
) -> Seq<char> {
    let ids = text::texts(info.mods@);
    let best = match winner(ids, order) {
        Some(w) => library::mod_name(mods, w),
        None => "Unknown"@,
    };
    "["@ + group_label(info.group) + "] "@ + info.path@ + " — "@ + text::join(
        mod_names(ids, mods),
        ", "@,
    ) + " (winner: "@ + best + ")"@
}

pub open spec fn path_texts(
    paths: Seq<ConflictPathInfo>,
    mods: Seq<ModEntry>,
    order: Seq<ProfileEntry>,
) -> Seq<Seq<char>> {
    first_six(Seq::new(paths.len(), |i: int| path_text(paths[i], mods, order)))
}

/// The dependencies of the first `n` items, and of the next one its first `d`.
pub open spec fn dependency_texts(
    items: Seq<RankItem>,
    mods: Seq<ModEntry>,
    n: int,
    d: int,
) -> Seq<Seq<char>>
    decreases n, d,
{
    if n < 0 || d < 0 || (n == 0 && d == 0) {
        Seq::empty()
    } else if d == 0 {
        dependency_texts(items, mods, n - 1, items[n - 1].dependencies@.len() as int)
    } else {
        dependency_texts(items, mods, n, d - 1).push(
            library::mod_name(mods, items[n].id@) + " → "@ + library::mod_name(
                mods,
                items[n].dependencies@[d - 1]@,
            ),
        )
    }
}

/// Why mods are ranked as they are.
pub open spec fn explanation(
    items: Seq<RankItem>,
    paths: Seq<ConflictPathInfo>,
    mods: Seq<ModEntry>,
    order: Seq<ProfileEntry>,
) -> Seq<(ExplainLineKind, Seq<char>)> {
    section(
        "Top conflicts"@,
        conflict_texts(items, mods),
        "No overlapping files detected."@,
    ) + section(
        "Top conflict paths"@,
        path_texts(paths, mods, order),
        "No conflict paths recorded."@,
    ) + section(
        "Dependencies"@,
        first_six(dependency_texts(items, mods, items.len() as int, 0)),
        "No dependencies detected."@,
    ) + section(
        "Patch heuristic"@,
        patch_texts(items, mods),
        "No patch/compat hints found."@,
    )
}

fn show_conflict(item: &RankItem, mods: &[ModEntry], index: &StringHashMap<usize>) -> (r: String)
    requires
        library::indexes(index@, mods@),
    ensures
        r@ == conflict_text(*item, mods@),
{
    let mut r = display_mod_name(item.id.as_str(), mods, index);
    let files = show_usize(item.conflict_files);
    let partners = show_usize(item.conflict_partners);
    push_text(&mut r, " — ");
    push_text(&mut r, files.as_str());
    push_text(&mut r, " files, ");
    push_text(&mut r, partners.as_str());
    push_text(&mut r, " mods");
    r
}

fn show_patch(item: &RankItem, mods: &[ModEntry], index: &StringHashMap<usize>) -> (r: String)
    requires
        library::indexes(index@, mods@),
    ensures
        r@ == patch_text(*item, mods@),
{
    let mut r = display_mod_name(item.id.as_str(), mods, index);
    let score = show_usize(item.patch_score as usize);
    push_text(&mut r, " — score ");
    push_text(&mut r, score.as_str());
    if item.patch_reasons.len() > 0 {
        let reasons = join_texts(&item.patch_reasons, ", ");
        let ghost before = r@;
        push_text(&mut r, " (");
        push_text(&mut r, reasons.as_str());
        push_text(&mut r, ")");
        assert(r@ =~= before + (" ("@ + reasons@ + ")"@));
    } else {
        assert(r@ + Seq::<char>::empty() =~= r@);
    }
    r
}

fn find_winner(ids: &Vec<String>, places: &StringHashMap<usize>, Ghost(order): Ghost<
    Seq<ProfileEntry>,
>) -> (r: Option<usize>)
    requires
        forall|id: Seq<char>|
            (#[trigger] places@.contains_key(id) ==> places@[id] == place_of(order, id)) && (
            !places@.contains_key(id) ==> place_of(order, id) == 0),
    ensures
        match r {
            Some(k) => k < ids.len() && winner(text::texts(ids@), order) == Some(
                ids@[k as int]@,
            ),
            None => winner(text::texts(ids@), order) is None,
        },
{
    let ghost all = text::texts(ids@);
    let mut best: Option<(usize, usize)> = None;
    let mut i: usize = 0;
    assert(all.take(0) =~= Seq::empty());
    while i < ids.len()
        invariant
            i <= ids.len(),
            all == text::texts(ids@),
            forall|id: Seq<char>|
                (#[trigger] places@.contains_key(id) ==> places@[id] == place_of(order, id)) && (
                !places@.contains_key(id) ==> place_of(order, id) == 0),
            match best {
                Some((k, at)) => k < i && winner(all.take(i as int), order) == Some(
                    ids@[k as int]@,
                ) && at == place_of(order, ids@[k as int]@),
                None => winner(all.take(i as int), order) is None,
            },
        decreases ids.len() - i,
    {
        let at: usize = match places.get(ids[i].as_str()) {
            Some(p) => *p,
            None => 0,
        };
        proof {
            assert(all.take(i + 1).drop_last() =~= all.take(i as int));
            assert(all.take(i + 1).last() == ids@[i as int]@);
            assert(at == place_of(order, ids@[i as int]@));
        }
        match best {
            Some((_, known)) => {
                if at >= known {
                    best = Some((i, at));
                }
            },
            None => {
                best = Some((i, at));
            },
        }
        i = i + 1;
    }
    assert(all.take(i as int) =~= all);
    match best {
        Some((k, _)) => Some(k),
        None => None,
    }
}

/// Where each mod stands in the load order.
pub(crate) fn index_places(order: &Vec<ProfileEntry>) -> (r: StringHashMap<usize>)
    ensures
        forall|id: Seq<char>|
            (#[trigger] r@.contains_key(id) ==> r@[id] == place_of(order@, id)) && (
            !r@.contains_key(id) ==> place_of(order@, id) == 0),
{
    let mut r: StringHashMap<usize> = StringHashMap::new();
    let mut i: usize = 0;
    while i < order.len()
        invariant
            i <= order.len(),
            forall|id: Seq<char>|
                (#[trigger] r@.contains_key(id) ==> r@[id] == place_of(
                    order@.take(i as int),
                    id,
                )) && (!r@.contains_key(id) ==> place_of(order@.take(i as int), id) == 0),
        decreases order.len() - i,
    {
        let ghost before = r@;
        assert(order@.take(i + 1).drop_last() =~= order@.take(i as int));
        r.insert(order[i].id.clone(), i);
        proof {
            assert forall|id: Seq<char>|
                (#[trigger] r@.contains_key(id) ==> r@[id] == place_of(order@.take(i + 1), id))
                    && (!r@.contains_key(id) ==> place_of(order@.take(i + 1), id) == 0) by {
                assert(before.contains_key(id) || !before.contains_key(id));
            }
        }
        i = i + 1;
    }
    assert(order@.take(i as int) =~= order@);
    r
}

fn show_path(
    info: &ConflictPathInfo,
    mods: &[ModEntry],
    index: &StringHashMap<usize>,
    places: &StringHashMap<usize>,
    Ghost(order): Ghost<Seq<ProfileEntry>>,
) -> (r: String)
    requires
        library::indexes(index@, mods@),
        forall|id: Seq<char>|
            (#[trigger] places@.contains_key(id) ==> places@[id] == place_of(order, id)) && (
            !places@.contains_key(id) ==> place_of(order, id) == 0),
    ensures
        r@ == path_text(*info, mods@, order),
{
    let ghost ids = text::texts(info.mods@);
    let best = match find_winner(&info.mods, places, Ghost(order)) {
        Some(k) => display_mod_name(info.mods[k].as_str(), mods, index),
        None => "Unknown".to_owned(),
    };
    let mut names: Vec<String> = Vec::new();
    let mut i: usize = 0;
    while i < info.mods.len()
        invariant
            i <= info.mods.len(),
            library::indexes(index@, mods@),
            ids == text::texts(info.mods@),
            text::texts(names@) == mod_names(ids, mods@).take(i as int),
        decreases info.mods.len() - i,
    {
        let name = display_mod_name(info.mods[i].as_str(), mods, index);
        proof {
            text::lemma_texts_push(names@, name);
            assert(mod_names(ids, mods@).take(i + 1) =~= mod_names(ids, mods@).take(i as int).push(
                name@,
            ));
        }
        names.push(name);
        i = i + 1;
    }
    assert(mod_names(ids, mods@).take(i as int) =~= mod_names(ids, mods@));
    let label = join_texts(&names, ", ");
    let mut r = "[".to_owned();
    push_text(
        &mut r,
        match info.group {
            RankGroup::Loose => "Loose",
            RankGroup::Pak => "Pak",
        },
    );
    push_text(&mut r, "] ");
    push_text(&mut r, info.path.as_str());
    push_text(&mut r, " — ");
    push_text(&mut r, label.as_str());
    push_text(&mut r, " (winner: ");
    push_text(&mut r, best.as_str());
    push_text(&mut r, ")");
    r
}

fn list_dependencies(
    items: &Vec<RankItem>,
    mods: &[ModEntry],
    index: &StringHashMap<usize>,
) -> (out: Vec<String>)
    requires
        library::indexes(index@, mods@),
    ensures
        text::texts(out@) == dependency_texts(items@, mods@, items@.len() as int, 0),
{
    let mut out: Vec<String> = Vec::new();
    let mut n: usize = 0;
    assert(text::texts(out@) =~= dependency_texts(items@, mods@, 0, 0));
    while n < items.len()
        invariant
            n <= items.len(),
            library::indexes(index@, mods@),
            text::texts(out@) == dependency_texts(items@, mods@, n as int, 0),
        decreases items.len() - n,
    {
        let mut d: usize = 0;
        while d < items[n as usize].dependencies.len()
            invariant
                n < items.len(),
                d <= items@[n as int].dependencies.len(),
                library::indexes(index@, mods@),
                text::texts(out@) == dependency_texts(items@, mods@, n as int, d as int),
            decreases items@[n as int].dependencies.len() - d,
        {
            let mut line = display_mod_name(items[n].id.as_str(), mods, index);
            let dep = display_mod_name(items[n].dependencies[d].as_str(), mods, index);
            push_text(&mut line, " → ");
            push_text(&mut line, dep.as_str());
            proof {
                text::lemma_texts_push(out@, line);
            }
            out.push(line);
            d = d + 1;
        }
        n = n + 1;
    }
    out
}

/// At most the first six of the texts.
fn keep_six(list: &Vec<String>) -> (out: Vec<String>)
    ensures
        text::texts(out@) == first_six(text::texts(list@)),
{
    let mut out: Vec<String> = Vec::new();
    let mut i: usize = 0;
    while i < list.len() && i < 6
        invariant
            i <= list.len(),
            i <= 6,
            text::texts(out@) == text::texts(list@).take(i as int),
        decreases list.len() - i,
    {
        let line = list[i].clone();
        proof {
            text::lemma_texts_push(out@, line);
            assert(text::texts(list@).take(i + 1) =~= text::texts(list@).take(i as int).push(
                line@,
            ));
        }
        out.push(line);
        i = i + 1;
    }
    assert(text::texts(out@) =~= first_six(text::texts(list@)));
    out
}

/// Says why mods are ranked as they are: what they share most, what they depend
/// on, and what makes them look like patches.
pub fn build_explain_lines(
    items: &Vec<RankItem>,
    paths: &Vec<ConflictPathInfo>,
    mods: &[ModEntry],
    index: &StringHashMap<usize>,
    order: &Vec<ProfileEntry>,
) -> (r: SmartRankExplain)
    requires
        library::indexes(index@, mods@),
    ensures
        line_views(r.lines@) == explanation(items@, paths@, mods@, order@),
{
    let mut lines: Vec<SmartRankExplainLine> = Vec::new();
    let places = index_places(order);
    let mut files: Vec<usize> = Vec::new();
    let mut scores: Vec<usize> = Vec::new();
    let mut i: usize = 0;
    while i < items.len()
        invariant
            i <= items.len(),
            files.len() == i,
            scores.len() == i,
            forall|k: int|
                0 <= k < i ==> (#[trigger] files@[k]) == items@[k].conflict_files,
            forall|k: int| 0 <= k < i ==> (#[trigger] scores@[k]) == items@[k].patch_score,
        decreases items.len() - i,
    {
        files.push(items[i].conflict_files);
        scores.push(items[i].patch_score as usize);
        i = i + 1;
    }
    assert(lists::nats(files@) =~= conflict_keys(items@));
    assert(lists::nats(scores@) =~= patch_keys(items@));
    let most_shared = find_leaders(&files);
    let most_patch = find_leaders(&scores);
    let ghost who = leaders(conflict_keys(items@));
    let ghost patches = leaders(patch_keys(items@));
    let mut conflicts: Vec<String> = Vec::new();
    let mut a: usize = 0;
    while a < most_shared.len()
        invariant
            a <= most_shared.len(),
            library::indexes(index@, mods@),
            who == rank_order::as_ints(most_shared@),
            forall|k: int| 0 <= k < most_shared.len() ==> (#[trigger] most_shared@[k]) < items.len(),
            conflicts.len() == a,
            forall|k: int|
                0 <= k < a ==> (#[trigger] conflicts@[k])@ == conflict_text(items@[who[k]], mods@),
        decreases most_shared.len() - a,
    {
        conflicts.push(show_conflict(&items[most_shared[a]], mods, index));
        a = a + 1;
    }
    assert(text::texts(conflicts@) =~= conflict_texts(items@, mods@));
    let mut patch_lines: Vec<String> = Vec::new();
    let mut b: usize = 0;
    while b < most_patch.len()
        invariant
            b <= most_patch.len(),
            library::indexes(index@, mods@),
            patches == rank_order::as_ints(most_patch@),
            forall|k: int| 0 <= k < most_patch.len() ==> (#[trigger] most_patch@[k]) < items.len(),
            patch_lines.len() == b,
            forall|k: int|
                0 <= k < b ==> (#[trigger] patch_lines@[k])@ == patch_text(
                    items@[patches[k]],
                    mods@,
                ),
        decreases most_patch.len() - b,
    {
        patch_lines.push(show_patch(&items[most_patch[b]], mods, index));
        b = b + 1;
    }
    assert(text::texts(patch_lines@) =~= patch_texts(items@, mods@));
    let mut path_lines: Vec<String> = Vec::new();
    let mut c: usize = 0;
    while c < paths.len() && c < 6
        invariant
            c <= paths.len(),
            c <= 6,
            library::indexes(index@, mods@),
            forall|id: Seq<char>|
                (#[trigger] places@.contains_key(id) ==> places@[id] == place_of(order@, id)) && (
                !places@.contains_key(id) ==> place_of(order@, id) == 0),
            path_lines.len() == c,
            forall|k: int|
                0 <= k < c ==> (#[trigger] path_lines@[k])@ == path_text(paths@[k], mods@, order@),
        decreases paths.len() - c,
    {
        path_lines.push(show_path(&paths[c], mods, index, &places, Ghost(order@)));
        c = c + 1;
    }
    assert(text::texts(path_lines@) =~= path_texts(paths@, mods@, order@));
    let all_deps = list_dependencies(items, mods, index);
    let deps = keep_six(&all_deps);
    push_section(&mut lines, "Top conflicts", &conflicts, "No overlapping files detected.");
    push_section(&mut lines, "Top conflict paths", &path_lines, "No conflict paths recorded.");
    push_section(&mut lines, "Dependencies", &deps, "No dependencies detected.");
    push_section(&mut lines, "Patch heuristic", &patch_lines, "No patch/compat hints found.");
    assert(line_views(lines@) =~= explanation(items@, paths@, mods@, order@));
    SmartRankExplain { lines }
}

} // verus!
