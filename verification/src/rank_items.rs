//! What is known of the mods that are to be ranked: their group, their files,
//! what they depend on, and which files they share.
use crate::library::{InstallTarget, ModEntry, ProfileEntry};
use crate::pak_index::FileEntry;
use crate::rank_order;
use crate::rank_order::{RankGroup, RankItem};
use crate::sorting;
use crate::sorting::insert_sorted;
use crate::text;
use crate::text::{has_text, to_ascii_lower};
use vstd::hash_map::StringHashMap;
use vstd::prelude::*;

verus! {

/// What was read of a mod: its files or why they could not be read, and what its
/// packages say of it.
#[derive(Debug)]
pub struct ModScan {
    pub files: Result<Vec<FileEntry>, String>,
    pub dependencies: Vec<String>,
    pub tags: Vec<String>,
    pub created_at: Option<i64>,
}

// ---------------------------------------------------------------------------
// Patches
// ---------------------------------------------------------------------------

/// Words that mark a mod as a patch for others, with their weights.
pub open spec fn keywords() -> Seq<(Seq<char>, u8)> {
    seq![
        ("patch"@, 2u8),
        ("hotfix"@, 2u8),
        ("fix"@, 1u8),
        ("compat"@, 2u8),
        ("compatibility"@, 2u8),
        ("override"@, 1u8),
        ("addon"@, 1u8),
        ("add-on"@, 1u8),
        ("addon"@, 1u8),
    ]
}

pub open spec fn capped_sum(a: u8, b: u8) -> u8 {
    if a + b <= 255 {
        (a + b) as u8
    } else {
        255
    }
}

/// A score and the reasons for it.
pub struct PatchNotes {
    pub score: u8,
    pub reasons: Seq<Seq<char>>,
}

/// What the first `n` words make of a label.
pub open spec fn label_notes(label: Seq<char>, n: int) -> PatchNotes
    decreases n,
{
    if n <= 0 {
        PatchNotes { score: 0, reasons: Seq::empty() }
    } else {
        let before = label_notes(label, n - 1);
        let word = keywords()[n - 1];
        if text::contains_text(label, word.0) {
            PatchNotes {
                score: capped_sum(before.score, word.1),
                reasons: before.reasons.push("name:"@ + word.0),
            }
        } else {
            before
        }
    }
}

/// The weight of the first word, from the `n`th on, that a tag holds.
pub open spec fn tag_weight(tag: Seq<char>, n: int) -> Option<u8>
    decreases keywords().len() - n,
{
    if n < 0 || n >= keywords().len() {
        None
    } else if text::contains_text(text::ascii_lower(tag), keywords()[n].0) {
        Some(keywords()[n].1)
    } else {
        tag_weight(tag, n + 1)
    }
}

/// What tags add to what a label has yielded.
pub open spec fn tag_notes(first: PatchNotes, tags: Seq<Seq<char>>) -> PatchNotes
    decreases tags.len(),
{
    if tags.len() == 0 {
        first
    } else {
        let before = tag_notes(first, tags.drop_last());
        match tag_weight(tags.last(), 0) {
            Some(w) => PatchNotes {
                score: capped_sum(before.score, w),
                reasons: before.reasons.push("tag:"@ + tags.last()),
            },
            None => before,
        }
    }
}

/// How much a mod looks like a patch, and why.
pub open spec fn patch_notes(m: ModEntry, tags: Seq<Seq<char>>) -> PatchNotes {
    tag_notes(label_notes(text::ascii_lower(m.shown_name()), keywords().len() as int), tags)
}

pub fn patch_keywords() -> (out: Vec<(&'static str, u8)>)
    ensures
        out.len() == keywords().len(),
        forall|i: int|
            0 <= i < out.len() ==> (#[trigger] out@[i]).0@ == keywords()[i].0 && out@[i].1
                == keywords()[i].1,
{
    let mut out: Vec<(&'static str, u8)> = Vec::new();
    out.push(("patch", 2));
    out.push(("hotfix", 2));
    out.push(("fix", 1));
    out.push(("compat", 2));
    out.push(("compatibility", 2));
    out.push(("override", 1));
    out.push(("addon", 1));
    out.push(("add-on", 1));
    out.push(("addon", 1));
    out
}

fn add_capped(a: u8, b: u8) -> (r: u8)
    ensures
        r == capped_sum(a, b),
{
    if a <= 255 - b {
        a + b
    } else {
        255
    }
}

pub fn patch_score(mod_entry: &ModEntry, tags: &Vec<String>) -> (r: (u8, Vec<String>))
    ensures
        r.0 == patch_notes(*mod_entry, text::texts(tags@)).score,
        text::texts(r.1@) == patch_notes(*mod_entry, text::texts(tags@)).reasons,
{
    let shown = mod_entry.display_name();
    let label = to_ascii_lower(shown.as_str());
    let words = patch_keywords();
    let mut score: u8 = 0;
    let mut reasons: Vec<String> = Vec::new();
    let mut k: usize = 0;
    assert(text::texts(reasons@) =~= Seq::empty());
    while k < words.len()
        invariant
            k <= words.len(),
            words.len() == keywords().len(),
            forall|i: int|
                0 <= i < words.len() ==> (#[trigger] words@[i]).0@ == keywords()[i].0 && words@[i].1
                    == keywords()[i].1,
            score == label_notes(label@, k as int).score,
            text::texts(reasons@) == label_notes(label@, k as int).reasons,
        decreases words.len() - k,
    {
        if has_text(label.as_str(), words[k].0) {
            score = add_capped(score, words[k].1);
            let line = text::concat2("name:", words[k].0);
            proof {
                text::lemma_texts_push(reasons@, line);
            }
            reasons.push(line);
        }
        k = k + 1;
    }
    let ghost first = label_notes(label@, keywords().len() as int);
    let ghost all = text::texts(tags@);
    let mut t: usize = 0;
    assert(all.take(0) =~= Seq::empty());
    while t < tags.len()
        invariant
            t <= tags.len(),
            all == text::texts(tags@),
            words.len() == keywords().len(),
            forall|i: int|
                0 <= i < words.len() ==> (#[trigger] words@[i]).0@ == keywords()[i].0 && words@[i].1
                    == keywords()[i].1,
            score == tag_notes(first, all.take(t as int)).score,
            text::texts(reasons@) == tag_notes(first, all.take(t as int)).reasons,
        decreases tags.len() - t,
    {
        let lower = to_ascii_lower(tags[t].as_str());
        let mut weight: Option<u8> = None;
        let mut j: usize = 0;
        assert(all.take(t + 1).drop_last() =~= all.take(t as int));
        assert(all.take(t + 1).last() == tags@[t as int]@);
        while j < words.len() && weight.is_none()
            invariant
                j <= words.len(),
                t < tags.len(),
                lower@ == text::ascii_lower(tags@[t as int]@),
                words.len() == keywords().len(),
                forall|i: int|
                    0 <= i < words.len() ==> (#[trigger] words@[i]).0@ == keywords()[i].0
                        && words@[i].1 == keywords()[i].1,
                weight is None ==> tag_weight(tags@[t as int]@, j as int) == tag_weight(
                    tags@[t as int]@,
                    0,
                ),
                weight is Some ==> weight == tag_weight(tags@[t as int]@, 0),
            decreases words.len() - j,
        {
            if has_text(lower.as_str(), words[j].0) {
                weight = Some(words[j].1);
            }
            j = j + 1;
        }
        if let Some(w) = weight {
            score = add_capped(score, w);
            let line = text::concat2("tag:", tags[t].as_str());
            proof {
                text::lemma_texts_push(reasons@, line);
            }
            reasons.push(line);
        }
        t = t + 1;
    }
    assert(all.take(t as int) =~= all);
    (score, reasons)
}

// ---------------------------------------------------------------------------
// Items
// ---------------------------------------------------------------------------

/// The group of a mod: loose as soon as one target is not a package.
pub open spec fn group_of(m: ModEntry) -> RankGroup {
    if exists|i: int| 0 <= i < m.targets@.len() && !(#[trigger] m.targets@[i] is Pak) {
        RankGroup::Loose
    } else {
        RankGroup::Pak
    }
}

pub fn find_group(m: &ModEntry) -> (r: RankGroup)
    ensures
        r == group_of(*m),
{
    let mut i: usize = 0;
    while i < m.targets.len()
        invariant
            i <= m.targets.len(),
            forall|j: int| 0 <= j < i ==> #[trigger] m.targets@[j] is Pak,
        decreases m.targets.len() - i,
    {
        match &m.targets[i] {
            InstallTarget::Pak { .. } => {},
            _ => {
                assert(!(m.targets@[i as int] is Pak));
                return RankGroup::Loose;
            },
        }
        i = i + 1;
    }
    RankGroup::Pak
}

/// The keys of files.
pub open spec fn file_keys(files: Seq<FileEntry>) -> Seq<Seq<char>> {
    Seq::new(files.len(), |i: int| files[i].key@)
}

/// The sizes of files added up, as far as a 64 bit number reaches.
pub open spec fn total_size(files: Seq<FileEntry>) -> u64
    decreases files.len(),
{
    if files.len() == 0 {
        0
    } else {
        let before = total_size(files.drop_last());
        if before + files.last().size <= u64::MAX {
            (before + files.last().size) as u64
        } else {
            u64::MAX
        }
    }
}

/// The files that count for a mod: none unless it is enabled and they could be
/// read.
pub open spec fn counted_files(enabled: bool, scan: ModScan) -> Seq<FileEntry> {
    match scan.files {
        Ok(files) => if enabled {
            files@
        } else {
            Seq::empty()
        },
        Err(_) => Seq::empty(),
    }
}

/// When a mod was made, as far as is known.
pub open spec fn date_of(m: ModEntry, stated: Option<i64>) -> i64 {
    match (m.created_at, stated, m.modified_at) {
        (Some(c), _, _) => c,
        (None, Some(s), _) => s,
        (None, None, Some(t)) => t,
        (None, None, None) => m.added_at,
    }
}

/// Whether `item` holds what is known of a mod at place `place` of a load order,
/// before any conflicts are counted.
pub open spec fn is_item(
    item: RankItem,
    entry: ProfileEntry,
    place: int,
    m: ModEntry,
    scan: ModScan,
) -> bool {
    let files = counted_files(entry.enabled, scan);
    let described = entry.enabled && group_of(m) == RankGroup::Pak;
    let tags = if described {
        text::texts(scan.tags@)
    } else {
        Seq::empty()
    };
    &&& item.id == entry.id
    &&& item.enabled == entry.enabled
    &&& item.group == group_of(m)
    &&& item.original_index == place
    &&& sorting::sorted_set_of(text::texts(item.file_paths@), file_keys(files))
    &&& item.file_count == item.file_paths@.len()
    &&& item.total_bytes == total_size(files)
    &&& item.has_data == (files.len() > 0)
    &&& item.dependencies@ == if described {
        scan.dependencies@
    } else {
        Seq::empty()
    }
    &&& item.patch_score == patch_notes(m, tags).score
    &&& text::texts(item.patch_reasons@) == patch_notes(m, tags).reasons
    &&& item.date_hint == date_of(
        m,
        if described {
            scan.created_at
        } else {
            None
        },
    )
}

/// Puts together what is known of a mod.
pub fn make_item(entry: &ProfileEntry, place: usize, m: &ModEntry, scan: &ModScan) -> (r: RankItem)
    ensures
        is_item(r, *entry, place as int, *m, *scan),
        r.conflict_files == 0,
        r.conflict_partners == 0,
{
    let group = find_group(m);
    let mut file_paths: Vec<String> = Vec::new();
    let mut total_bytes: u64 = 0;
    let ghost files = counted_files(entry.enabled, *scan);
    if entry.enabled {
        if let Ok(list) = &scan.files {
            let mut i: usize = 0;
            assert(list@.take(0) =~= Seq::empty());
            while i < list.len()
                invariant
                    i <= list.len(),
                    sorting::ascending(text::texts(file_paths@)),
                    forall|t: Seq<char>| #[trigger]
                        text::texts(file_paths@).contains(t) <==> file_keys(
                            list@.take(i as int),
                        ).contains(t),
                    total_bytes == total_size(list@.take(i as int)),
                decreases list.len() - i,
            {
                proof {
                    let now = list@.take(i as int);
                    let next = list@.take(i + 1);
                    assert(next.drop_last() =~= now);
                    assert(file_keys(next) =~= file_keys(now).push(list@[i as int].key@));
                    assert forall|t: Seq<char>| #[trigger]
                        file_keys(next).contains(t) <==> file_keys(now).contains(t) || t
                            == list@[i as int].key@ by {
                        crate::lists::lemma_push_contains(
                            file_keys(now),
                            list@[i as int].key@,
                            t,
                        );
                    }
                }
                if total_bytes <= u64::MAX - list[i].size {
                    total_bytes = total_bytes + list[i].size;
                } else {
                    total_bytes = u64::MAX;
                }
                insert_sorted(&mut file_paths, list[i].key.clone());
                i = i + 1;
            }
            assert(list@.take(i as int) =~= list@);
            assert(files == list@);
        }
    }
    let described = entry.enabled && group == RankGroup::Pak;
    let notes = if described {
        patch_score(m, &scan.tags)
    } else {
        let none: Vec<String> = Vec::new();
        assert(text::texts(none@) =~= Seq::empty());
        patch_score(m, &none)
    };
    let stated: Option<i64> = if described {
        scan.created_at
    } else {
        None
    };
    let date_hint = match (m.created_at, stated, m.modified_at) {
        (Some(c), _, _) => c,
        (None, Some(s), _) => s,
        (None, None, Some(t)) => t,
        (None, None, None) => m.added_at,
    };
    let dependencies = if described {
        crate::lists::copy_strings(scan.dependencies.as_slice())
    } else {
        Vec::new()
    };
    proof {
        assert(file_paths@.len() > 0 <==> files.len() > 0) by {
            if files.len() > 0 {
                assert(file_keys(files)[0] == files[0].key@);
                assert(file_keys(files).contains(files[0].key@));
                assert(text::texts(file_paths@).contains(files[0].key@));
            }
            if file_paths@.len() > 0 {
                assert(text::texts(file_paths@)[0] == file_paths@[0]@);
                assert(text::texts(file_paths@).contains(file_paths@[0]@));
                assert(file_keys(files).contains(file_paths@[0]@));
            }
        }
        assert(dependencies@ =~= if described {
            scan.dependencies@
        } else {
            Seq::empty()
        });
    }
    RankItem {
        id: entry.id.clone(),
        enabled: entry.enabled,
        group,
        file_count: file_paths.len(),
        has_data: file_paths.len() > 0,
        file_paths,
        total_bytes,
        conflict_files: 0,
        conflict_partners: 0,
        original_index: place,
        patch_score: notes.0,
        patch_reasons: notes.1,
        dependencies,
        date_hint,
    }
}

// ---------------------------------------------------------------------------
// Shared files
// ---------------------------------------------------------------------------

/// The keys of the files of an item.
pub open spec fn paths_of(items: Seq<RankItem>, i: int) -> Seq<Seq<char>> {
    text::texts(items[i].file_paths@)
}

/// Whether the files of an item count in its group.
pub open spec fn counts(items: Seq<RankItem>, group: RankGroup, i: int) -> bool {
    rank_order::in_group(items, group, i) && items[i].enabled && items[i].has_data
}

/// Which of the first `n` items bring the file.
pub open spec fn users(
    items: Seq<RankItem>,
    group: RankGroup,
    path: Seq<char>,
    n: int,
) -> Seq<int>
    decreases n,
{
    if n <= 0 {
        Seq::empty()
    } else if counts(items, group, n - 1) && paths_of(items, n - 1).contains(path) {
        users(items, group, path, n - 1).push(n - 1)
    } else {
        users(items, group, path, n - 1)
    }
}

/// Whether more than one item brings the file.
pub open spec fn is_shared(items: Seq<RankItem>, group: RankGroup, path: Seq<char>) -> bool {
    users(items, group, path, items.len() as int).len() > 1
}

/// `list` with those of `paths` that it lacks behind it.
pub open spec fn with_new(list: Seq<Seq<char>>, paths: Seq<Seq<char>>) -> Seq<Seq<char>>
    decreases paths.len(),
{
    if paths.len() == 0 {
        list
    } else {
        let before = with_new(list, paths.drop_last());
        if before.contains(paths.last()) {
            before
        } else {
            before.push(paths.last())
        }
    }
}

/// The files that the first `n` items bring, each once.
pub open spec fn all_paths(items: Seq<RankItem>, group: RankGroup, n: int) -> Seq<Seq<char>>
    decreases n,
{
    if n <= 0 {
        Seq::empty()
    } else if counts(items, group, n - 1) {
        with_new(all_paths(items, group, n - 1), paths_of(items, n - 1))
    } else {
        all_paths(items, group, n - 1)
    }
}

/// The files that more than one item brings, each once.
pub open spec fn shared_paths(items: Seq<RankItem>, group: RankGroup) -> Seq<Seq<char>> {
    all_paths(items, group, items.len() as int).filter(|p: Seq<char>| is_shared(items, group, p))
}

/// Whether two items bring a file in common.
pub open spec fn overlap(items: Seq<RankItem>, group: RankGroup, i: int, j: int) -> bool {
    &&& i != j
    &&& counts(items, group, i)
    &&& counts(items, group, j)
    &&& exists|p: Seq<char>| #[trigger]
        paths_of(items, i).contains(p) && paths_of(items, j).contains(p)
}

/// Whether the item at `j` brings a file in common with the one at `i`, is of another mod,
/// and none before it is of the same mod and does so too.
pub open spec fn is_new_partner(items: Seq<RankItem>, group: RankGroup, i: int, j: int) -> bool {
    &&& overlap(items, group, i, j)
    &&& items[j].id@ != items[i].id@
    &&& forall|m: int|
        0 <= m < j && #[trigger] overlap(items, group, i, m) ==> items[m].id@ != items[j].id@
}

/// How many other mods among the first `n` items bring a file in common with the one at
/// `i`, each counted once.
pub open spec fn partner_count(items: Seq<RankItem>, group: RankGroup, i: int, n: int) -> nat
    decreases n,
{
    if n <= 0 {
        0
    } else {
        partner_count(items, group, i, n - 1) + if is_new_partner(items, group, i, n - 1) {
            1nat
        } else {
            0nat
        }
    }
}

/// How many files the item at `i` has in common with others.
pub open spec fn shared_count(items: Seq<RankItem>, group: RankGroup, i: int) -> nat {
    if counts(items, group, i) {
        paths_of(items, i).filter(|p: Seq<char>| is_shared(items, group, p)).len()
    } else {
        0
    }
}

/// Whether two lists of items agree in all but the counts of conflicts.
pub open spec fn same_but_conflicts(a: Seq<RankItem>, b: Seq<RankItem>) -> bool {
    &&& a.len() == b.len()
    &&& forall|i: int| 0 <= i < a.len() ==> same_item(#[trigger] a[i], b[i])
}

pub open spec fn same_item(a: RankItem, b: RankItem) -> bool {
    b == (RankItem {
        conflict_files: b.conflict_files,
        conflict_partners: b.conflict_partners,
        ..a
    })
}

/// The files that the items of a group bring, and for each which items do.
pub struct SharedFiles {
    pub paths: Vec<String>,
    pub users: Vec<Vec<usize>>,
    pub slots: StringHashMap<usize>,
}

impl SharedFiles {
    /// Whether this is what the first `n` items bring.
    pub open spec fn lists(self, items: Seq<RankItem>, group: RankGroup, n: int) -> bool {
        &&& text::texts(self.paths@) == all_paths(items, group, n)
        &&& self.users@.len() == self.paths@.len()
        &&& text::texts(self.paths@).no_duplicates()
        &&& forall|k: int|
            0 <= k < self.users@.len() ==> rank_order::as_ints((#[trigger] self.users@[k])@)
                == users(items, group, self.paths@[k]@, n)
        &&& forall|p: Seq<char>| #[trigger]
            self.slots@.contains_key(p) <==> all_paths(items, group, n).contains(p)
        &&& forall|p: Seq<char>| #[trigger]
            self.slots@.contains_key(p) ==> self.slots@[p] < self.paths@.len()
                && self.paths@[self.slots@[p] as int]@ == p
    }
}

proof fn lemma_users_absent(items: Seq<RankItem>, group: RankGroup, p: Seq<char>, n: int)
    requires
        !all_paths(items, group, n).contains(p),
    ensures
        users(items, group, p, n) == Seq::<int>::empty(),
    decreases n,
{
    if n > 0 {
        if counts(items, group, n - 1) {
            let before = all_paths(items, group, n - 1);
            lemma_with_new(before, paths_of(items, n - 1));
            assert(!before.contains(p));
            assert(!paths_of(items, n - 1).contains(p));
        }
        lemma_users_absent(items, group, p, n - 1);
    }
}

proof fn lemma_with_new(list: Seq<Seq<char>>, paths: Seq<Seq<char>>)
    ensures
        forall|t: Seq<char>| #[trigger]
            with_new(list, paths).contains(t) <==> list.contains(t) || paths.contains(t),
        list.no_duplicates() ==> with_new(list, paths).no_duplicates(),
    decreases paths.len(),
{
    if paths.len() > 0 {
        let head = paths.drop_last();
        let before = with_new(list, head);
        lemma_with_new(list, head);
        assert(paths =~= head.push(paths.last()));
        assert forall|t: Seq<char>| #[trigger] with_new(list, paths).contains(t) <==> list.contains(
            t,
        ) || paths.contains(t) by {
            crate::lists::lemma_push_contains(head, paths.last(), t);
            crate::lists::lemma_push_contains(before, paths.last(), t);
            assert(before.contains(t) <==> list.contains(t) || head.contains(t));
        }
    }
}

/// Collects the files that the items of a group bring.
fn collect_shared(items: &Vec<RankItem>, group: RankGroup) -> (r: SharedFiles)
    requires
        forall|i: int| 0 <= i < items@.len() ==> sorting::ascending(#[trigger] paths_of(items@, i)),
    ensures
        r.lists(items@, group, items@.len() as int),
{
    let mut paths: Vec<String> = Vec::new();
    let mut lists: Vec<Vec<usize>> = Vec::new();
    let mut slots: StringHashMap<usize> = StringHashMap::new();
    let n = items.len();
    let mut i: usize = 0;
    assert(text::texts(paths@) =~= Seq::empty());
    while i < n
        invariant
            i <= n,
            n == items.len(),
            forall|k: int|
                0 <= k < items@.len() ==> sorting::ascending(#[trigger] paths_of(items@, k)),
            (SharedFiles { paths, users: lists, slots }).lists(items@, group, i as int),
        decreases n - i,
    {
        let item = &items[i];
        if item.group == group && item.enabled && item.has_data {
            let ghost mine = paths_of(items@, i as int);
            let ghost before = all_paths(items@, group, i as int);
            assert(counts(items@, group, i as int));
            assert(mine.take(0) =~= Seq::empty());
            let mut f: usize = 0;
            proof {
                assert forall|k: int| 0 <= k < lists@.len() implies rank_order::as_ints(
                    (#[trigger] lists@[k])@,
                ) == users_so_far(items@, group, paths@[k]@, i as int, mine.take(0)) by {
                    assert(!mine.take(0).contains(paths@[k]@));
                }
                let known = SharedFiles { paths, users: lists, slots };
                assert forall|p: Seq<char>| #[trigger] slots@.contains_key(p) <==> text::texts(
                    paths@,
                ).contains(p) by {
                    assert(known.slots@.contains_key(p) <==> before.contains(p));
                }
                assert forall|p: Seq<char>| #[trigger] slots@.contains_key(p) implies slots@[p]
                    < paths@.len() && paths@[slots@[p] as int]@ == p by {
                    assert(known.slots@.contains_key(p));
                }
            }
            while f < item.file_paths.len()
                invariant
                    f <= item.file_paths.len(),
                    i < n,
                    n == items.len(),
                    *item == items@[i as int],
                    mine == paths_of(items@, i as int),
                    sorting::ascending(mine),
                    counts(items@, group, i as int),
                    before == all_paths(items@, group, i as int),
                    text::texts(paths@) == with_new(before, mine.take(f as int)),
                    lists@.len() == paths@.len(),
                    text::texts(paths@).no_duplicates(),
                    forall|k: int|
                        0 <= k < lists@.len() ==> rank_order::as_ints((#[trigger] lists@[k])@)
                            == users_so_far(
                            items@,
                            group,
                            paths@[k]@,
                            i as int,
                            mine.take(f as int),
                        ),
                    forall|p: Seq<char>| #[trigger]
                        slots@.contains_key(p) <==> text::texts(paths@).contains(p),
                    forall|p: Seq<char>| #[trigger]
                        slots@.contains_key(p) ==> slots@[p] < paths@.len()
                            && paths@[slots@[p] as int]@ == p,
                decreases item.file_paths.len() - f,
            {
                let path = item.file_paths[f].as_str();
                let ghost now = mine.take(f as int);
                let ghost next = mine.take(f + 1);
                proof {
                    assert(next.drop_last() =~= now);
                    assert(next =~= now.push(path@));
                    assert(mine[f as int] == path@);
                    if now.contains(path@) {
                        let k = choose|k: int| 0 <= k < now.len() && now[k] == path@;
                        assert(mine[k] == path@);
                        sorting::lemma_text_before_irreflexive(path@);
                    }
                }
                let known: Option<usize> = match slots.get(path) {
                    Some(k) => Some(*k),
                    None => None,
                };
                let ghost old_paths = paths@;
                let ghost old_lists = lists@;
                match known {
                    Some(k) => {
                        lists[k].push(i);
                        proof {
                            rank_order::lemma_as_ints_push(old_lists[k as int]@, i);
                            assert forall|m: int| 0 <= m < lists@.len() implies
                                rank_order::as_ints((#[trigger] lists@[m])@) == users_so_far(
                                items@,
                                group,
                                paths@[m]@,
                                i as int,
                                next,
                            ) by {
                                crate::lists::lemma_push_contains(now, path@, paths@[m]@);
                                assert(rank_order::as_ints(old_lists[m]@) == users_so_far(
                                    items@,
                                    group,
                                    paths@[m]@,
                                    i as int,
                                    now,
                                ));
                                if m != k {
                                    assert(lists@[m] == old_lists[m]);
                                    assert(text::texts(paths@)[m] != text::texts(paths@)[k as int]);
                                }
                            }
                        }
                    },
                    None => {
                        let slot = paths.len();
                        let mut first: Vec<usize> = Vec::new();
                        first.push(i);
                        let ghost added = first@;
                        let copy = item.file_paths[f].clone();
                        proof {
                            text::lemma_texts_push(paths@, copy);
                        }
                        paths.push(copy);
                        lists.push(first);
                        slots.insert(item.file_paths[f].clone(), slot);
                        proof {
                            let olds = text::texts(old_paths);
                            lemma_with_new(before, now);
                            assert(!before.contains(path@));
                            lemma_users_absent(items@, group, path@, i as int);
                            assert(rank_order::as_ints(added) =~= seq![i as int]);
                            assert(users(items@, group, path@, i as int).push(i as int) =~= seq![
                                i as int,
                            ]);
                            assert forall|m: int| 0 <= m < lists@.len() implies
                                rank_order::as_ints((#[trigger] lists@[m])@) == users_so_far(
                                items@,
                                group,
                                paths@[m]@,
                                i as int,
                                next,
                            ) by {
                                crate::lists::lemma_push_contains(now, path@, paths@[m]@);
                                if m < old_lists.len() {
                                    assert(lists@[m] == old_lists[m]);
                                    assert(paths@[m] == old_paths[m]);
                                    assert(rank_order::as_ints(old_lists[m]@) == users_so_far(
                                        items@,
                                        group,
                                        old_paths[m]@,
                                        i as int,
                                        now,
                                    ));
                                    assert(olds[m] == old_paths[m]@);
                                    assert(olds.contains(olds[m]));
                                    assert(old_paths[m]@ != path@);
                                }
                            }
                            assert forall|p: Seq<char>| #[trigger]
                                slots@.contains_key(p) <==> text::texts(paths@).contains(p) by {
                                crate::lists::lemma_push_contains(olds, path@, p);
                            }
                            assert forall|p: Seq<char>| #[trigger]
                                slots@.contains_key(p) implies slots@[p] < paths@.len()
                                && paths@[slots@[p] as int]@ == p by {
                                if p != path@ {
                                    assert(olds.contains(p));
                                }
                            }
                            assert(text::texts(paths@).no_duplicates()) by {
                                let t = text::texts(paths@);
                                assert forall|a: int, b: int|
                                    0 <= a < b < t.len() implies t[a] != t[b] by {
                                    if b == olds.len() {
                                        assert(t[a] == olds[a]);
                                        assert(olds.contains(olds[a]));
                                    } else {
                                        assert(t[a] == olds[a] && t[b] == olds[b]);
                                    }
                                }
                            }
                        }
                    },
                }
                f = f + 1;
            }
            proof {
                assert(mine.take(f as int) =~= mine);
                assert forall|k: int| 0 <= k < lists@.len() implies rank_order::as_ints(
                    (#[trigger] lists@[k])@,
                ) == users(items@, group, paths@[k]@, i + 1) by {}
            }
        } else {
            assert(!counts(items@, group, i as int));
        }
        i = i + 1;
    }
    SharedFiles { paths, users: lists, slots }
}

/// Which items bring the file, the one at `i` among them if the file is one of
/// `seen`.
pub open spec fn users_so_far(
    items: Seq<RankItem>,
    group: RankGroup,
    path: Seq<char>,
    i: int,
    seen: Seq<Seq<char>>,
) -> Seq<int> {
    if seen.contains(path) {
        users(items, group, path, i).push(i)
    } else {
        users(items, group, path, i)
    }
}

pub proof fn lemma_users(items: Seq<RankItem>, group: RankGroup, p: Seq<char>, n: int)
    ensures
        forall|j: int| #[trigger]
            users(items, group, p, n).contains(j) <==> 0 <= j < n && counts(items, group, j)
                && paths_of(items, j).contains(p),
    decreases n,
{
    if n > 0 {
        lemma_users(items, group, p, n - 1);
        let before = users(items, group, p, n - 1);
        assert forall|j: int| #[trigger] users(items, group, p, n).contains(j) <==> 0 <= j < n
            && counts(items, group, j) && paths_of(items, j).contains(p) by {
            crate::lists::lemma_push_contains(before, n - 1, j);
            assert(before.contains(j) <==> 0 <= j < n - 1 && counts(items, group, j) && paths_of(
                items,
                j,
            ).contains(p));
        }
    }
}

/// A file of an item is among those that the group brings.
proof fn lemma_in_all_paths(
    items: Seq<RankItem>,
    group: RankGroup,
    i: int,
    p: Seq<char>,
    n: int,
)
    requires
        0 <= i < n,
        counts(items, group, i),
        paths_of(items, i).contains(p),
    ensures
        all_paths(items, group, n).contains(p),
    decreases n,
{
    if counts(items, group, n - 1) {
        lemma_with_new(all_paths(items, group, n - 1), paths_of(items, n - 1));
    }
    if i < n - 1 {
        lemma_in_all_paths(items, group, i, p, n - 1);
    }
}

/// How many files each item has in common with others, and with how many others.
fn count_shared(items: &Vec<RankItem>, group: RankGroup, shared: &SharedFiles) -> (out: Vec<
    (usize, usize),
>)
    requires
        shared.lists(items@, group, items@.len() as int),
    ensures
        out.len() == items.len(),
        forall|i: int|
            0 <= i < out.len() ==> (#[trigger] out@[i]).0 == shared_count(items@, group, i)
                && (counts(items@, group, i) ==> out@[i].1 == partner_count(
                items@,
                group,
                i,
                items@.len() as int,
            )) && (!counts(items@, group, i) ==> out@[i].1 == 0),
{
    let n = items.len();
    let mut out: Vec<(usize, usize)> = Vec::new();
    let mut i: usize = 0;
    let ghost test = |p: Seq<char>| is_shared(items@, group, p);
    while i < n
        invariant
            i <= n,
            n == items.len(),
            shared.lists(items@, group, n as int),
            test == (|p: Seq<char>| is_shared(items@, group, p)),
            out.len() == i,
            forall|k: int|
                0 <= k < i ==> (#[trigger] out@[k]).0 == shared_count(items@, group, k) && (counts(
                    items@,
                    group,
                    k,
                ) ==> out@[k].1 == partner_count(items@, group, k, n as int)) && (!counts(
                    items@,
                    group,
                    k,
                ) ==> out@[k].1 == 0),
        decreases n - i,
    {
        let item = &items[i];
        if !(item.group == group && item.enabled && item.has_data) {
            out.push((0, 0));
            i = i + 1;
            continue;
        }
        assert(counts(items@, group, i as int));
        let ghost mine = paths_of(items@, i as int);
        let mut marks: Vec<bool> = Vec::new();
        let mut m: usize = 0;
        while m < n
            invariant
                m <= n,
                marks.len() == m,
                forall|k: int| 0 <= k < m ==> !(#[trigger] marks@[k]),
            decreases n - m,
        {
            marks.push(false);
            m = m + 1;
        }
        let mut files: usize = 0;
        let mut f: usize = 0;
        proof {
            crate::lists::lemma_filter_whole(mine, test);
        }
        while f < item.file_paths.len()
            invariant
                f <= item.file_paths.len(),
                files <= f,
                i < n,
                n == items.len(),
                n == marks.len(),
                *item == items@[i as int],
                counts(items@, group, i as int),
                shared.lists(items@, group, n as int),
                mine == paths_of(items@, i as int),
                test == (|p: Seq<char>| is_shared(items@, group, p)),
                files == mine.take(f as int).filter(test).len(),
                forall|j: int|
                    0 <= j < n ==> (#[trigger] marks@[j] <==> j != i && counts(items@, group, j)
                        && exists|p: Seq<char>| #[trigger]
                        mine.take(f as int).contains(p) && paths_of(items@, j).contains(p)),
            decreases item.file_paths.len() - f,
        {
            let path = item.file_paths[f].as_str();
            let ghost now = mine.take(f as int);
            let ghost next = mine.take(f + 1);
            let ghost old_marks = marks@;
            proof {
                assert(next =~= now.push(path@));
                assert(mine[f as int] == path@);
                assert(mine.contains(path@));
                crate::lists::lemma_keep_item(mine, f as int, test);
                lemma_in_all_paths(items@, group, i as int, path@, n as int);
                lemma_users(items@, group, path@, n as int);
                assert(shared.slots@.contains_key(path@));
            }
            let slot: usize = match shared.slots.get(path) {
                Some(k) => *k,
                None => 0,
            };
            let list = &shared.users[slot];
            let ghost all = users(items@, group, path@, n as int);
            assert(shared.users@[slot as int] == *list);
            assert(rank_order::as_ints(list@) == all);
            assert(all.len() == list@.len());
            assert forall|k: int| 0 <= k < all.len() implies 0 <= #[trigger] all[k] < n by {
                assert(all.contains(all[k]));
            }
            if list.len() > 1 {
                assert(is_shared(items@, group, path@));
                files = files + 1;
                let mut u: usize = 0;
                while u < list.len()
                    invariant
                        u <= list.len(),
                        i < n,
                        n == marks.len(),
                        n == old_marks.len(),
                        all == rank_order::as_ints(list@),
                        forall|k: int| 0 <= k < all.len() ==> 0 <= #[trigger] all[k] < n,
                        forall|j: int|
                            0 <= j < n ==> (#[trigger] marks@[j] <==> old_marks[j] || (j != i
                                && all.take(u as int).contains(j))),
                    decreases list.len() - u,
                {
                    let who = list[u];
                    assert(all[u as int] == who);
                    let ghost before = marks@;
                    if who != i {
                        marks.set(who, true);
                    }
                    proof {
                        assert(all.take(u + 1) =~= all.take(u as int).push(who as int));
                        assert forall|j: int| 0 <= j < n implies (#[trigger] marks@[j]
                            <==> old_marks[j] || (j != i && all.take(u + 1).contains(j))) by {
                            crate::lists::lemma_push_contains(
                                all.take(u as int),
                                who as int,
                                j,
                            );
                            assert(before[j] <==> old_marks[j] || (j != i && all.take(
                                u as int,
                            ).contains(j)));
                        }
                    }
                    u = u + 1;
                }
                assert(all.take(u as int) =~= all);
            } else {
                assert(!is_shared(items@, group, path@));
            }
            proof {
                assert forall|j: int| 0 <= j < n implies (#[trigger] marks@[j] <==> j != i
                    && counts(items@, group, j) && exists|p: Seq<char>| #[trigger]
                    next.contains(p) && paths_of(items@, j).contains(p)) by {
                    assert(old_marks[j] <==> j != i && counts(items@, group, j) && exists|
                        p: Seq<char>,
                    | #[trigger]
                        now.contains(p) && paths_of(items@, j).contains(p));
                    assert(all.contains(i as int));
                    if old_marks[j] {
                        let p = choose|p: Seq<char>| #[trigger]
                            now.contains(p) && paths_of(items@, j).contains(p);
                        crate::lists::lemma_push_contains(now, path@, p);
                        assert(next.contains(p));
                    } else if marks@[j] {
                        assert(all.contains(j));
                        crate::lists::lemma_push_contains(now, path@, path@);
                        assert(next.contains(path@) && paths_of(items@, j).contains(path@));
                    }
                    if j != i && counts(items@, group, j) && exists|p: Seq<char>| #[trigger]
                        next.contains(p) && paths_of(items@, j).contains(p) {
                        let p = choose|p: Seq<char>| #[trigger]
                            next.contains(p) && paths_of(items@, j).contains(p);
                        crate::lists::lemma_push_contains(now, path@, p);
                        if !now.contains(p) {
                            assert(all.contains(j));
                            let a = choose|a: int| 0 <= a < all.len() && all[a] == i;
                            let b = choose|b: int| 0 <= b < all.len() && all[b] == j;
                            assert(a != b);
                            assert(list@.len() > 1);
                        }
                    }
                }
            }
            f = f + 1;
        }
        proof {
            assert(mine.take(f as int) =~= mine);
        }
        let mut partners: usize = 0;
        let mut seen: StringHashMap<usize> = StringHashMap::new();
        let mut c: usize = 0;
        while c < n
            invariant
                c <= n,
                i < n,
                partners <= c,
                n == marks.len(),
                n == items.len(),
                counts(items@, group, i as int),
                forall|id: Seq<char>| #[trigger]
                    seen@.contains_key(id) <==> exists|m: int|
                        0 <= m < c && #[trigger] overlap(items@, group, i as int, m)
                            && items@[m].id@ == id,
                mine == paths_of(items@, i as int),
                forall|j: int|
                    0 <= j < n ==> (#[trigger] marks@[j] <==> j != i && counts(items@, group, j)
                        && exists|p: Seq<char>| #[trigger]
                        mine.contains(p) && paths_of(items@, j).contains(p)),
                partners == partner_count(items@, group, i as int, c as int),
            decreases n - c,
        {
            assert(marks@[c as int] <==> overlap(items@, group, i as int, c as int));
            let ghost before = seen@;
            if marks[c] {
                let id = items[c].id.as_str();
                let known = seen.contains_key(id);
                assert(known <==> before.contains_key(id@));
                if !text::same_text(id, items[i].id.as_str()) && !known {
                    assert(is_new_partner(items@, group, i as int, c as int));
                    partners = partners + 1;
                } else {
                    assert(!is_new_partner(items@, group, i as int, c as int));
                }
                seen.insert(items[c].id.clone(), c);
            }
            proof {
                assert forall|id: Seq<char>| #[trigger] seen@.contains_key(id) <==> exists|m: int|
                    0 <= m < c + 1 && #[trigger] overlap(items@, group, i as int, m)
                        && items@[m].id@ == id by {
                    if seen@.contains_key(id) && before.contains_key(id) {
                        let m = choose|m: int|
                            0 <= m < c && #[trigger] overlap(items@, group, i as int, m)
                                && items@[m].id@ == id;
                        assert(overlap(items@, group, i as int, m));
                    }
                    if exists|m: int|
                        0 <= m < c + 1 && #[trigger] overlap(items@, group, i as int, m)
                            && items@[m].id@ == id {
                        let m = choose|m: int|
                            0 <= m < c + 1 && #[trigger] overlap(items@, group, i as int, m)
                                && items@[m].id@ == id;
                        if m < c {
                            assert(before.contains_key(id));
                        }
                    }
                }
            }
            c = c + 1;
        }
        out.push((files, partners));
        i = i + 1;
    }
    out
}

/// A file that several mods bring.
#[derive(Debug)]
pub struct ConflictPathInfo {
    pub group: RankGroup,
    pub path: String,
    pub mods: Vec<String>,
}

/// The ids of the items that bring the file.
pub open spec fn user_ids(
    items: Seq<RankItem>,
    group: RankGroup,
    path: Seq<char>,
) -> Seq<Seq<char>> {
    let who = users(items, group, path, items.len() as int);
    Seq::new(who.len(), |k: int| items[who[k]].id@)
}

/// For each shared file how many items bring it.
pub open spec fn user_counts(items: Seq<RankItem>, group: RankGroup) -> Seq<nat> {
    let shared = shared_paths(items, group);
    Seq::new(
        shared.len(),
        |k: int| users(items, group, shared[k], items.len() as int).len(),
    )
}

/// The four files, or fewer, that the most items bring.
pub open spec fn top_paths(items: Seq<RankItem>, group: RankGroup) -> Seq<Seq<char>> {
    let shared = shared_paths(items, group);
    let order = crate::lists::desc_order(user_counts(items, group), shared.len() as int);
    Seq::new(
        if order.len() <= 4 {
            order.len()
        } else {
            4
        },
        |k: int| shared[order[k]],
    )
}

/// Whether the entry tells of the file.
pub open spec fn tells_of(
    info: ConflictPathInfo,
    items: Seq<RankItem>,
    group: RankGroup,
    path: Seq<char>,
) -> bool {
    info.group == group && info.path@ == path && text::texts(info.mods@) == user_ids(
        items,
        group,
        path,
    )
}

fn collect_user_ids(items: &Vec<RankItem>, list: &Vec<usize>) -> (out: Vec<String>)
    requires
        forall|k: int| 0 <= k < list.len() ==> (#[trigger] list@[k]) < items.len(),
    ensures
        text::texts(out@) == Seq::new(list@.len(), |k: int| items@[list@[k] as int].id@),
{
    let mut out: Vec<String> = Vec::new();
    let mut k: usize = 0;
    while k < list.len()
        invariant
            k <= list.len(),
            out.len() == k,
            forall|j: int| 0 <= j < list.len() ==> (#[trigger] list@[j]) < items.len(),
            forall|j: int| 0 <= j < k ==> (#[trigger] out@[j])@ == items@[list@[j] as int].id@,
        decreases list.len() - k,
    {
        out.push(items[list[k]].id.clone());
        k = k + 1;
    }
    assert(text::texts(out@) =~= Seq::new(list@.len(), |k: int| items@[list@[k] as int].id@));
    out
}

/// How many files the items of a group share, and those that most of them bring.
fn summarize_shared(
    items: &Vec<RankItem>,
    group: RankGroup,
    shared: &SharedFiles,
    top: &mut Vec<ConflictPathInfo>,
) -> (count: usize)
    requires
        shared.lists(items@, group, items@.len() as int),
    ensures
        count == shared_paths(items@, group).len(),
        final(top)@.len() == old(top)@.len() + top_paths(items@, group).len(),
        final(top)@.take(old(top)@.len() as int) == old(top)@,
        forall|k: int|
            0 <= k < top_paths(items@, group).len() ==> tells_of(
                #[trigger] final(top)@[old(top)@.len() + k],
                items@,
                group,
                top_paths(items@, group)[k],
            ),
{
    let ghost n = items@.len() as int;
    let ghost all = all_paths(items@, group, n);
    let ghost test = |p: Seq<char>| is_shared(items@, group, p);
    let mut places: Vec<usize> = Vec::new();
    let mut keys: Vec<usize> = Vec::new();
    let mut i: usize = 0;
    proof {
        crate::lists::lemma_filter_whole(all, test);
    }
    while i < shared.paths.len()
        invariant
            i <= shared.paths.len(),
            shared.lists(items@, group, n),
            n == items@.len(),
            all == all_paths(items@, group, n),
            test == (|p: Seq<char>| is_shared(items@, group, p)),
            places.len() == keys.len(),
            places.len() == all.take(i as int).filter(test).len(),
            forall|k: int|
                0 <= k < places.len() ==> (#[trigger] places@[k]) < i && shared.paths@[places@[k] as int]@
                    == all.take(i as int).filter(test)[k],
            forall|k: int|
                0 <= k < keys.len() ==> (#[trigger] keys@[k]) == users(
                    items@,
                    group,
                    all.take(i as int).filter(test)[k],
                    n,
                ).len(),
        decreases shared.paths.len() - i,
    {
        proof {
            crate::lists::lemma_keep_item(all, i as int, test);
            assert(all[i as int] == shared.paths@[i as int]@);
            assert(rank_order::as_ints(shared.users@[i as int]@) == users(
                items@,
                group,
                shared.paths@[i as int]@,
                n,
            ));
        }
        if shared.users[i].len() > 1 {
            places.push(i);
            keys.push(shared.users[i].len());
        }
        i = i + 1;
    }
    proof {
        crate::lists::lemma_filter_whole(all, test);
        assert(crate::lists::nats(keys@) =~= user_counts(items@, group));
    }
    let order = crate::lists::order_desc(&keys);
    let ghost sorted = crate::lists::desc_order(user_counts(items@, group), keys@.len() as int);
    let mut k: usize = 0;
    let ghost start = top@;
    assert(top@.take(start.len() as int) =~= start);
    while k < order.len() && k < 4
        invariant
            k <= order.len(),
            k <= 4,
            order.len() == keys.len(),
            places.len() == keys.len(),
            n == items@.len(),
            shared.lists(items@, group, n),
            sorted == rank_order::as_ints(order@),
            sorted == crate::lists::desc_order(user_counts(items@, group), keys@.len() as int),
            places.len() == shared_paths(items@, group).len(),
            forall|j: int| 0 <= j < order.len() ==> (#[trigger] order@[j]) < keys.len(),
            forall|j: int|
                0 <= j < places.len() ==> (#[trigger] places@[j]) < shared.paths.len()
                    && shared.paths@[places@[j] as int]@ == shared_paths(items@, group)[j],
            top@.len() == start.len() + k,
            top@.take(start.len() as int) == start,
            forall|j: int|
                0 <= j < k ==> tells_of(
                    #[trigger] top@[start.len() + j],
                    items@,
                    group,
                    top_paths(items@, group)[j],
                ),
        decreases order.len() - k,
    {
        let at = places[order[k]];
        let ghost path = shared.paths@[at as int]@;
        proof {
            assert(sorted[k as int] == order@[k as int]);
            assert(top_paths(items@, group)[k as int] == path);
            lemma_users(items@, group, path, n);
            let who = users(items@, group, path, n);
            assert(rank_order::as_ints(shared.users@[at as int]@) == who);
            assert forall|j: int| 0 <= j < shared.users@[at as int]@.len() implies (
            #[trigger] shared.users@[at as int]@[j]) < items.len() by {
                assert(who[j] == shared.users@[at as int]@[j]);
                assert(who.contains(who[j]));
            }
        }
        let mods = collect_user_ids(items, &shared.users[at]);
        assert(text::texts(mods@) =~= user_ids(items@, group, path));
        let ghost before = top@;
        top.push(ConflictPathInfo { group, path: shared.paths[at].clone(), mods });
        proof {
            assert(top@.take(start.len() as int) =~= before.take(start.len() as int));
            assert forall|j: int| 0 <= j < k + 1 implies tells_of(
                #[trigger] top@[start.len() + j],
                items@,
                group,
                top_paths(items@, group)[j],
            ) by {
                if j < k {
                    assert(top@[start.len() + j] == before[start.len() + j]);
                }
            }
        }
        k = k + 1;
    }
    places.len()
}

/// Whether `after` is `before` with what each item shares with others of its group
/// counted.
pub open spec fn with_conflicts(before: Seq<RankItem>, after: Seq<RankItem>) -> bool {
    &&& same_but_conflicts(before, after)
    &&& forall|i: int|
        0 <= i < after.len() ==> (#[trigger] after[i]).conflict_files == shared_count(
            before,
            before[i].group,
            i,
        ) && after[i].conflict_partners == if counts(before, before[i].group, i) {
            partner_count(before, before[i].group, i, before.len() as int)
        } else {
            0
        }
}

/// How many files the mods of each group share.
pub struct ConflictCounts {
    pub loose: usize,
    pub pak: usize,
}

/// Counts what each item shares with others of its group, and lists the files that
/// most items bring.
pub fn count_conflicts(items: &mut Vec<RankItem>, top: &mut Vec<ConflictPathInfo>) -> (r:
    ConflictCounts)
    requires
        forall|i: int|
            0 <= i < old(items)@.len() ==> sorting::ascending(
                #[trigger] paths_of(old(items)@, i),
            ),
        old(top)@.len() == 0,
    ensures
        with_conflicts(old(items)@, final(items)@),
        r.loose == shared_paths(old(items)@, RankGroup::Loose).len(),
        r.pak == shared_paths(old(items)@, RankGroup::Pak).len(),
        lists_top(final(top)@, old(items)@),
{
    let ghost before = items@;
    let loose_files = collect_shared(items, RankGroup::Loose);
    let pak_files = collect_shared(items, RankGroup::Pak);
    let loose = summarize_shared(items, RankGroup::Loose, &loose_files, top);
    let ghost first = top@;
    let pak = summarize_shared(items, RankGroup::Pak, &pak_files, top);
    proof {
        let a = top_paths(before, RankGroup::Loose);
        assert forall|k: int| 0 <= k < a.len() implies tells_of(
            #[trigger] top@[k],
            before,
            RankGroup::Loose,
            a[k],
        ) by {
            assert(top@.take(first.len() as int)[k] == first[k]);
            assert(first[0 + k] == first[k]);
        }
        let b = top_paths(before, RankGroup::Pak);
        assert forall|k: int| 0 <= k < b.len() implies tells_of(
            #[trigger] top@[a.len() + k],
            before,
            RankGroup::Pak,
            b[k],
        ) by {
            assert(first.len() == a.len());
        }
    }
    let loose_numbers = count_shared(items, RankGroup::Loose, &loose_files);
    let pak_numbers = count_shared(items, RankGroup::Pak, &pak_files);
    let mut i: usize = 0;
    while i < items.len()
        invariant
            i <= items.len(),
            items@.len() == before.len(),
            loose_numbers.len() == before.len(),
            pak_numbers.len() == before.len(),
            forall|k: int|
                0 <= k < before.len() ==> (#[trigger] loose_numbers@[k]).0 == shared_count(
                    before,
                    RankGroup::Loose,
                    k,
                ) && (counts(before, RankGroup::Loose, k) ==> loose_numbers@[k].1 == partner_count(
                    before,
                    RankGroup::Loose,
                    k,
                    before.len() as int,
                )) && (!counts(before, RankGroup::Loose, k) ==> loose_numbers@[k].1 == 0),
            forall|k: int|
                0 <= k < before.len() ==> (#[trigger] pak_numbers@[k]).0 == shared_count(
                    before,
                    RankGroup::Pak,
                    k,
                ) && (counts(before, RankGroup::Pak, k) ==> pak_numbers@[k].1 == partner_count(
                    before,
                    RankGroup::Pak,
                    k,
                    before.len() as int,
                )) && (!counts(before, RankGroup::Pak, k) ==> pak_numbers@[k].1 == 0),
            forall|k: int| i <= k < before.len() ==> #[trigger] items@[k] == before[k],
            forall|k: int|
                0 <= k < i ==> same_item(before[k], #[trigger] items@[k])
                    && items@[k].conflict_files == shared_count(before, before[k].group, k)
                    && items@[k].conflict_partners == if counts(before, before[k].group, k) {
                    partner_count(before, before[k].group, k, before.len() as int)
                } else {
                    0
                },
        decreases items.len() - i,
    {
        assert(items@[i as int] == before[i as int]);
        let (files, partners) = match items[i].group {
            RankGroup::Loose => (loose_numbers[i].0, loose_numbers[i].1),
            RankGroup::Pak => (pak_numbers[i].0, pak_numbers[i].1),
        };
        proof {
            match before[i as int].group {
                RankGroup::Loose => {
                    assert(loose_numbers@[i as int].0 == files);
                },
                RankGroup::Pak => {
                    assert(pak_numbers@[i as int].0 == files);
                },
            }
        }
        items[i].conflict_files = files;
        items[i].conflict_partners = partners;
        i = i + 1;
    }
    ConflictCounts { loose, pak }
}

/// Whether the list tells of the files that the most loose mods bring and then of
/// those that the most packages do.
pub open spec fn lists_top(top: Seq<ConflictPathInfo>, items: Seq<RankItem>) -> bool {
    let a = top_paths(items, RankGroup::Loose);
    let b = top_paths(items, RankGroup::Pak);
    &&& top.len() == a.len() + b.len()
    &&& forall|k: int|
        0 <= k < a.len() ==> tells_of(#[trigger] top[k], items, RankGroup::Loose, a[k])
    &&& forall|k: int|
        0 <= k < b.len() ==> tells_of(#[trigger] top[a.len() + k], items, RankGroup::Pak, b[k])
}

} // verus!
