//! Loose files that mods bring, where they go, and who wins each.
use crate::deploy;
use crate::deploy::{ConflictCandidate, ConflictEntry, Listing, LooseSource, SourceView};
use crate::library::{FileOverride, ModEntry, TargetKind};
use crate::paths;
use crate::paths::{join_path, key_of};
use crate::rank_order;
use crate::sorting;
use crate::sorting::{is_text_before, sort, Ranked};
use crate::text;
use crate::text::same_text;
use vstd::hash_map::StringHashMap;
use vstd::prelude::*;

verus! {

// ---------------------------------------------------------------------------
// Candidates
// ---------------------------------------------------------------------------

/// A loose file that a mod brings.
#[derive(Debug)]
pub struct LooseFileCandidate {
    pub source: String,
    pub dest: String,
    pub dest_root: String,
    pub mod_id: String,
    pub mod_name: String,
    pub order: usize,
    pub kind: TargetKind,
    pub relative_path: String,
}

#[verifier::ext_equal]
pub struct CandidateView {
    pub source: Seq<char>,
    pub dest: Seq<char>,
    pub dest_root: Seq<char>,
    pub mod_id: Seq<char>,
    pub mod_name: Seq<char>,
    pub order: int,
    pub kind: TargetKind,
    pub relative_path: Seq<char>,
}

impl LooseFileCandidate {
    pub open spec fn shown(self) -> CandidateView {
        CandidateView {
            source: self.source@,
            dest: self.dest@,
            dest_root: self.dest_root@,
            mod_id: self.mod_id@,
            mod_name: self.mod_name@,
            order: self.order as int,
            kind: self.kind,
            relative_path: self.relative_path@,
        }
    }
}

pub open spec fn candidate_views(list: Seq<LooseFileCandidate>) -> Seq<CandidateView> {
    Seq::new(list.len(), |i: int| list[i].shown())
}

/// A file of a directory, as a candidate.
pub open spec fn candidate(source: SourceView, m: ModEntry, file: Seq<char>) -> CandidateView {
    CandidateView {
        source: paths::joined(source.source_root, file),
        dest: paths::joined(source.dest_root, file),
        dest_root: source.dest_root,
        mod_id: m.id@,
        mod_name: m.name@,
        order: source.order,
        kind: source.kind,
        relative_path: file,
    }
}

pub open spec fn candidates_of(
    source: SourceView,
    m: ModEntry,
    files: Seq<Seq<char>>,
) -> Seq<CandidateView> {
    Seq::new(files.len(), |i: int| candidate(source, m, files[i]))
}

/// What is found of the directory at `i`; one that nothing is said of is not there.
pub open spec fn listing_at(listings: Seq<Listing>, i: int) -> Listing {
    if 0 <= i < listings.len() {
        listings[i]
    } else {
        Listing::Missing
    }
}

/// The files of the first `n` directories.
pub open spec fn candidates(
    sources: Seq<SourceView>,
    mods: Seq<ModEntry>,
    listings: Seq<Listing>,
    n: int,
) -> Seq<CandidateView>
    decreases n,
{
    if n <= 0 {
        Seq::empty()
    } else {
        let source = sources[n - 1];
        candidates(sources, mods, listings, n - 1) + candidates_of(
            source,
            mods[source.place],
            deploy::files_in(source, listing_at(listings, n - 1)),
        )
    }
}

pub fn collect_candidates(
    sources: &Vec<LooseSource>,
    mods: &Vec<ModEntry>,
    listings: &Vec<Listing>,
) -> (out: Vec<LooseFileCandidate>)
    requires
        forall|i: int| 0 <= i < sources.len() ==> (#[trigger] sources@[i]).place < mods.len(),
    ensures
        candidate_views(out@) == candidates(
            deploy::source_views(sources@),
            mods@,
            listings@,
            sources.len() as int,
        ),
{
    let ghost all = deploy::source_views(sources@);
    let missing = Listing::Missing;
    let mut out: Vec<LooseFileCandidate> = Vec::new();
    let mut i: usize = 0;
    assert(candidate_views(out@) =~= candidates(all, mods@, listings@, 0));
    while i < sources.len()
        invariant
            i <= sources.len(),
            all == deploy::source_views(sources@),
            missing == Listing::Missing,
            forall|k: int| 0 <= k < sources.len() ==> (#[trigger] sources@[k]).place < mods.len(),
            candidate_views(out@) == candidates(all, mods@, listings@, i as int),
        decreases sources.len() - i,
    {
        let source = &sources[i];
        assert(all[i as int] == source.shown());
        let m = &mods[source.place];
        let listing = if i < listings.len() {
            &listings[i]
        } else {
            &missing
        };
        assert(*listing == listing_at(listings@, i as int));
        let files = deploy::find_files(source, listing);
        let ghost found = text::texts(files@);
        let ghost more = candidates_of(source.shown(), *m, found);
        let ghost head = candidate_views(out@);
        let mut j: usize = 0;
        assert(head + more.take(0) =~= head);
        while j < files.len()
            invariant
                j <= files.len(),
                found == text::texts(files@),
                more == candidates_of(source.shown(), *m, found),
                candidate_views(out@) == head + more.take(j as int),
            decreases files.len() - j,
        {
            let file = files[j].as_str();
            let item = LooseFileCandidate {
                source: join_path(source.source_root.as_str(), file),
                dest: join_path(source.dest_root.as_str(), file),
                dest_root: source.dest_root.clone(),
                mod_id: m.id.clone(),
                mod_name: m.name.clone(),
                order: source.order,
                kind: source.kind,
                relative_path: file.to_owned(),
            };
            let ghost before = candidate_views(out@);
            out.push(item);
            proof {
                assert(candidate_views(out@) =~= before.push(item.shown()));
                assert(more[j as int] == item.shown());
                assert(more.take(j + 1) =~= more.take(j as int).push(more[j as int]));
                assert(candidate_views(out@) =~= head + more.take(j + 1));
            }
            j = j + 1;
        }
        assert(more.take(j as int) =~= more);
        i = i + 1;
    }
    out
}

// ---------------------------------------------------------------------------
// Groups by destination
// ---------------------------------------------------------------------------

pub open spec fn key(c: CandidateView) -> Seq<char> {
    paths::path_key(c.dest)
}

/// The destinations, in the order in which they first come up.
pub open spec fn first_keys(c: Seq<CandidateView>) -> Seq<Seq<char>>
    decreases c.len(),
{
    if c.len() == 0 {
        Seq::empty()
    } else {
        let before = first_keys(c.drop_last());
        if before.contains(key(c.last())) {
            before
        } else {
            before.push(key(c.last()))
        }
    }
}

/// Where the candidates for a destination stand.
pub open spec fn places_of(c: Seq<CandidateView>, k: Seq<char>) -> Seq<int>
    decreases c.len(),
{
    if c.len() == 0 {
        Seq::empty()
    } else {
        let before = places_of(c.drop_last(), k);
        if key(c.last()) == k {
            before.push(c.len() - 1)
        } else {
            before
        }
    }
}

proof fn lemma_places_of(c: Seq<CandidateView>, k: Seq<char>)
    ensures
        forall|i: int|
            0 <= i < places_of(c, k).len() ==> 0 <= #[trigger] places_of(c, k)[i] < c.len(),
        first_keys(c).contains(k) <==> places_of(c, k).len() > 0,
        first_keys(c).no_duplicates(),
        first_keys(c).len() <= c.len(),
    decreases c.len(),
{
    if c.len() > 0 {
        lemma_places_of(c.drop_last(), k);
        crate::lists::lemma_push_contains(first_keys(c.drop_last()), key(c.last()), k);
    }
}

/// Puts the candidates into groups: the destinations, and for each where its
/// candidates stand.
fn group_candidates(list: &Vec<LooseFileCandidate>) -> (r: (Vec<String>, Vec<Vec<usize>>))
    ensures
        text::texts(r.0@) == first_keys(candidate_views(list@)),
        r.1.len() == r.0.len(),
        forall|g: int|
            0 <= g < r.1.len() ==> rank_order::as_ints((#[trigger] r.1@[g])@) == places_of(
                candidate_views(list@),
                r.0@[g]@,
            ),
{
    let ghost all = candidate_views(list@);
    let mut keys: Vec<String> = Vec::new();
    let mut groups: Vec<Vec<usize>> = Vec::new();
    let mut known: StringHashMap<usize> = StringHashMap::new();
    let mut i: usize = 0;
    assert(text::texts(keys@) =~= first_keys(all.take(0)));
    while i < list.len()
        invariant
            i <= list.len(),
            all == candidate_views(list@),
            text::texts(keys@) == first_keys(all.take(i as int)),
            groups.len() == keys.len(),
            forall|g: int|
                0 <= g < groups.len() ==> rank_order::as_ints((#[trigger] groups@[g])@)
                    == places_of(all.take(i as int), keys@[g]@),
            forall|k: Seq<char>| #[trigger]
                known@.contains_key(k) ==> known@[k] < keys.len() && keys@[known@[k] as int]@ == k,
            forall|g: int| 0 <= g < keys.len() ==> known@.contains_key((#[trigger] keys@[g])@),
        decreases list.len() - i,
    {
        let k = key_of(list[i].dest.as_str());
        let ghost before = all.take(i as int);
        let ghost after = all.take(i + 1);
        let ghost old_keys = keys@;
        proof {
            assert(after.drop_last() =~= before);
            assert(after.last() == list@[i as int].shown());
            assert(key(after.last()) == k@);
            lemma_places_of(before, k@);
        }
        match known.get(k.as_str()) {
            Some(at) => {
                let g = *at;
                proof {
                    assert(text::texts(keys@)[g as int] == k@);
                    assert(first_keys(before).contains(k@));
                    rank_order::lemma_as_ints_push(groups@[g as int]@, i);
                    assert forall|h: int| 0 <= h < keys.len() && h != g implies (
                    #[trigger] keys@[h])@ != k@ by {
                        assert(text::texts(keys@)[h] == keys@[h]@);
                    }
                }
                let ghost was = groups@;
                groups[g].push(i);
                assert(groups@[g as int]@ =~= was[g as int]@.push(i));
                assert forall|h: int| 0 <= h < groups.len() implies rank_order::as_ints(
                    (#[trigger] groups@[h])@,
                ) == places_of(after, keys@[h]@) by {
                    if h != g {
                        assert(groups@[h] == was[h]);
                    }
                }
            },
            None => {
                let mut group: Vec<usize> = Vec::new();
                group.push(i);
                proof {
                    if first_keys(before).contains(k@) {
                        let h = choose|h: int|
                            0 <= h < first_keys(before).len() && first_keys(before)[h] == k@;
                        assert(keys@[h]@ == k@);
                    }
                    text::lemma_texts_push(keys@, k);
                    assert(places_of(before, k@) =~= Seq::empty());
                    assert(rank_order::as_ints(group@) =~= places_of(after, k@));
                }
                let ghost was = groups@;
                known.insert(k.clone(), keys.len());
                keys.push(k);
                groups.push(group);
                assert forall|h: int| 0 <= h < groups.len() implies rank_order::as_ints(
                    (#[trigger] groups@[h])@,
                ) == places_of(after, keys@[h]@) by {
                    if h < was.len() {
                        assert(groups@[h] == was[h]);
                        assert(keys@[h] == old_keys[h]);
                        assert(text::texts(old_keys)[h] == old_keys[h]@);
                        assert(first_keys(before).contains(old_keys[h]@));
                    }
                }
                assert forall|q: Seq<char>| #[trigger] known@.contains_key(q) implies known@[q]
                    < keys.len() && keys@[known@[q] as int]@ == q by {}
                assert forall|g: int| 0 <= g < keys.len() implies known@.contains_key(
                    (#[trigger] keys@[g])@,
                ) by {
                    if g < old_keys.len() {
                        assert(keys@[g] == old_keys[g]);
                    }
                }
            },
        }
        i = i + 1;
    }
    assert(all.take(i as int) =~= all);
    (keys, groups)
}

// ---------------------------------------------------------------------------
// Winners
// ---------------------------------------------------------------------------

/// The mod that a file is given to: the last choice for the file decides.
pub open spec fn override_for(
    choices: Seq<FileOverride>,
    kind: TargetKind,
    path: Seq<char>,
) -> Option<Seq<char>>
    decreases choices.len(),
{
    if choices.len() == 0 {
        None
    } else if choices.last().kind == kind && paths::path_key(choices.last().relative_path@)
        == paths::path_key(path) {
        Some(choices.last().mod_id@)
    } else {
        override_for(choices.drop_last(), kind, path)
    }
}

fn find_override<'a>(
    choices: &'a Vec<FileOverride>,
    kind: TargetKind,
    path: &str,
) -> (r: Option<&'a String>)
    ensures
        match r {
            Some(id) => override_for(choices@, kind, path@) == Some(id@),
            None => override_for(choices@, kind, path@) is None,
        },
{
    let k = key_of(path);
    let mut n: usize = choices.len();
    assert(choices@.take(n as int) =~= choices@);
    while n > 0
        invariant
            n <= choices.len(),
            k@ == paths::path_key(path@),
            override_for(choices@.take(n as int), kind, path@) == override_for(
                choices@,
                kind,
                path@,
            ),
        decreases n,
    {
        let choice = &choices[n - 1];
        assert(choices@.take(n as int).last() == *choice);
        assert(choices@.take(n as int).drop_last() =~= choices@.take(n - 1));
        if choice.kind == kind && same_text(
            key_of(choice.relative_path.as_str()).as_str(),
            k.as_str(),
        ) {
            return Some(&choice.mod_id);
        }
        n = n - 1;
    }
    None
}

/// The first of the places at which the mod has a candidate, from `from` on, or -1.
pub open spec fn first_of(
    c: Seq<CandidateView>,
    places: Seq<int>,
    id: Seq<char>,
    from: int,
) -> int
    decreases places.len() - from,
{
    if from < 0 || from >= places.len() {
        -1
    } else if c[places[from]].mod_id == id {
        places[from]
    } else {
        first_of(c, places, id, from + 1)
    }
}

/// Which candidate wins: the one that was chosen, if it is there, else the last.
pub open spec fn winner(c: Seq<CandidateView>, places: Seq<int>, choices: Seq<FileOverride>) -> int {
    let last = places.last();
    match override_for(choices, c[last].kind, c[last].relative_path) {
        Some(id) => if first_of(c, places, id, 0) >= 0 {
            first_of(c, places, id, 0)
        } else {
            last
        },
        None => last,
    }
}

proof fn lemma_winner(c: Seq<CandidateView>, places: Seq<int>, id: Seq<char>, from: int)
    requires
        0 <= from,
        forall|i: int| 0 <= i < places.len() ==> 0 <= #[trigger] places[i] < c.len(),
    ensures
        first_of(c, places, id, from) < c.len(),
        first_of(c, places, id, from) >= 0 ==> places.contains(first_of(c, places, id, from))
            && c[first_of(c, places, id, from)].mod_id == id,
    decreases places.len() - from,
{
    if from < places.len() {
        assert(0 <= places[from] < c.len());
        if c[places[from]].mod_id != id {
            lemma_winner(c, places, id, from + 1);
        }
    }
}

fn find_winner(
    list: &Vec<LooseFileCandidate>,
    group: &Vec<usize>,
    choices: &Vec<FileOverride>,
) -> (r: usize)
    requires
        group.len() > 0,
        forall|i: int|
            0 <= i < group.len() ==> 0 <= #[trigger] rank_order::as_ints(group@)[i] < list.len(),
    ensures
        r == winner(candidate_views(list@), rank_order::as_ints(group@), choices@),
        r < list.len(),
{
    let ghost all = candidate_views(list@);
    let ghost places = rank_order::as_ints(group@);
    let last = group[group.len() - 1];
    assert(places[group.len() - 1] == last);
    assert(all[last as int] == list@[last as int].shown());
    let default = &list[last];
    match find_override(choices, default.kind, default.relative_path.as_str()) {
        Some(id) => {
            let mut i: usize = 0;
            while i < group.len()
                invariant
                    i <= group.len(),
                    all == candidate_views(list@),
                    places == rank_order::as_ints(group@),
                    last < list.len(),
                    last == places.last(),
                    forall|k: int| 0 <= k < group.len() ==> 0 <= #[trigger] places[k] < list.len(),
                    first_of(all, places, id@, 0) == first_of(all, places, id@, i as int),
                    override_for(choices@, all[last as int].kind, all[last as int].relative_path)
                        == Some(id@),
                decreases group.len() - i,
            {
                let at = group[i];
                assert(places[i as int] == at);
                assert(all[at as int] == list@[at as int].shown());
                if same_text(list[at].mod_id.as_str(), id.as_str()) {
                    return at;
                }
                i = i + 1;
            }
            last
        },
        None => last,
    }
}

// ---------------------------------------------------------------------------
// The plan
// ---------------------------------------------------------------------------

/// A loose file that is deployed.
#[derive(Debug)]
pub struct LooseFilePlan {
    pub source: String,
    pub dest: String,
    pub dest_root: String,
    pub mod_id: String,
    pub mod_name: String,
    pub kind: TargetKind,
    pub order: usize,
}

#[verifier::ext_equal]
pub struct PlanView {
    pub source: Seq<char>,
    pub dest: Seq<char>,
    pub dest_root: Seq<char>,
    pub mod_id: Seq<char>,
    pub mod_name: Seq<char>,
    pub kind: TargetKind,
    pub order: int,
}

impl LooseFilePlan {
    pub open spec fn shown(self) -> PlanView {
        PlanView {
            source: self.source@,
            dest: self.dest@,
            dest_root: self.dest_root@,
            mod_id: self.mod_id@,
            mod_name: self.mod_name@,
            kind: self.kind,
            order: self.order as int,
        }
    }
}

pub open spec fn plan_view() -> spec_fn(LooseFilePlan) -> PlanView {
    |p: LooseFilePlan| p.shown()
}

/// The deployed file for a destination.
pub open spec fn plan_for(
    c: Seq<CandidateView>,
    choices: Seq<FileOverride>,
    k: Seq<char>,
) -> PlanView {
    let places = places_of(c, k);
    let won = c[winner(c, places, choices)];
    PlanView {
        source: won.source,
        dest: c[places[0]].dest,
        dest_root: won.dest_root,
        mod_id: won.mod_id,
        mod_name: won.mod_name,
        kind: won.kind,
        order: won.order,
    }
}

/// Earlier mods first, and by destination within a mod.
pub open spec fn plan_before() -> spec_fn(PlanView, PlanView) -> bool {
    |a: PlanView, b: PlanView|
        a.order < b.order || (a.order == b.order && sorting::text_before(a.dest, b.dest))
}

impl Ranked for LooseFilePlan {
    open spec fn before(self, other: Self) -> bool {
        plan_before()(self.shown(), other.shown())
    }

    proof fn before_asymmetric(a: Self, b: Self) {
        if sorting::text_before(a.dest@, b.dest@) {
            sorting::lemma_text_before_asymmetric(a.dest@, b.dest@);
        }
    }

    proof fn before_splits(a: Self, b: Self, c: Self) {
        if sorting::text_before(a.dest@, b.dest@) {
            sorting::lemma_text_before_splits(a.dest@, b.dest@, c.dest@);
        }
    }

    fn is_before(&self, other: &Self) -> (r: bool) {
        self.order < other.order || (self.order == other.order && is_text_before(
            self.dest.as_str(),
            other.dest.as_str(),
        ))
    }
}

/// The deployed files, in order.
pub open spec fn plans(c: Seq<CandidateView>, choices: Seq<FileOverride>) -> Seq<PlanView> {
    sorting::ranking_by(
        first_keys(c).map_values(|k: Seq<char>| plan_for(c, choices, k)),
        plan_before(),
    )
}

#[verifier::ext_equal]
pub struct ConflictView {
    pub target: TargetKind,
    pub relative_path: Seq<char>,
    pub candidates: Seq<(Seq<char>, Seq<char>)>,
    pub winner_id: Seq<char>,
    pub winner_name: Seq<char>,
    pub default_winner_id: Seq<char>,
    pub overridden: bool,
}

pub open spec fn rivals(list: Seq<ConflictCandidate>) -> Seq<(Seq<char>, Seq<char>)> {
    Seq::new(list.len(), |i: int| (list[i].mod_id@, list[i].mod_name@))
}

impl ConflictEntry {
    pub open spec fn shown(self) -> ConflictView {
        ConflictView {
            target: self.target,
            relative_path: self.relative_path@,
            candidates: rivals(self.candidates@),
            winner_id: self.winner_id@,
            winner_name: self.winner_name@,
            default_winner_id: self.default_winner_id@,
            overridden: self.overridden,
        }
    }
}

pub open spec fn conflict_view() -> spec_fn(ConflictEntry) -> ConflictView {
    |e: ConflictEntry| e.shown()
}

/// The conflict over a destination.
pub open spec fn conflict_for(
    c: Seq<CandidateView>,
    choices: Seq<FileOverride>,
    k: Seq<char>,
) -> ConflictView {
    let places = places_of(c, k);
    let won = c[winner(c, places, choices)];
    ConflictView {
        target: won.kind,
        relative_path: won.relative_path,
        candidates: Seq::new(
            places.len(),
            |i: int| (c[places[i]].mod_id, c[places[i]].mod_name),
        ),
        winner_id: won.mod_id,
        winner_name: won.mod_name,
        default_winner_id: c[places.last()].mod_id,
        overridden: won.mod_id != c[places.last()].mod_id,
    }
}

pub open spec fn conflict_before() -> spec_fn(ConflictView, ConflictView) -> bool {
    |a: ConflictView, b: ConflictView| sorting::text_before(a.relative_path, b.relative_path)
}

impl Ranked for ConflictEntry {
    open spec fn before(self, other: Self) -> bool {
        conflict_before()(self.shown(), other.shown())
    }

    proof fn before_asymmetric(a: Self, b: Self) {
        sorting::lemma_text_before_asymmetric(a.relative_path@, b.relative_path@);
    }

    proof fn before_splits(a: Self, b: Self, c: Self) {
        sorting::lemma_text_before_splits(a.relative_path@, b.relative_path@, c.relative_path@);
    }

    fn is_before(&self, other: &Self) -> (r: bool) {
        is_text_before(self.relative_path.as_str(), other.relative_path.as_str())
    }
}

/// The conflicts over the first `n` destinations that several mods bring.
pub open spec fn conflicts_among(
    c: Seq<CandidateView>,
    choices: Seq<FileOverride>,
    n: int,
) -> Seq<ConflictView>
    decreases n,
{
    if n <= 0 {
        Seq::empty()
    } else {
        let k = first_keys(c)[n - 1];
        if places_of(c, k).len() > 1 {
            conflicts_among(c, choices, n - 1).push(conflict_for(c, choices, k))
        } else {
            conflicts_among(c, choices, n - 1)
        }
    }
}

/// The conflicts, by path.
pub open spec fn conflicts(c: Seq<CandidateView>, choices: Seq<FileOverride>) -> Seq<ConflictView> {
    sorting::ranking_by(
        conflicts_among(c, choices, first_keys(c).len() as int),
        conflict_before(),
    )
}

fn list_rivals(list: &Vec<LooseFileCandidate>, group: &Vec<usize>) -> (out: Vec<ConflictCandidate>)
    requires
        forall|i: int|
            0 <= i < group.len() ==> 0 <= #[trigger] rank_order::as_ints(group@)[i] < list.len(),
    ensures
        rivals(out@) == Seq::new(
            group@.len(),
            |i: int|
                (
                    candidate_views(list@)[group@[i] as int].mod_id,
                    candidate_views(list@)[group@[i] as int].mod_name,
                ),
        ),
{
    let mut out: Vec<ConflictCandidate> = Vec::new();
    let mut i: usize = 0;
    while i < group.len()
        invariant
            i <= group.len(),
            i == out.len(),
            forall|k: int|
                0 <= k < group.len() ==> 0 <= #[trigger] rank_order::as_ints(group@)[k]
                    < list.len(),
            forall|k: int|
                0 <= k < i ==> (#[trigger] out@[k]).mod_id@ == list@[group@[k] as int].mod_id@
                    && out@[k].mod_name@ == list@[group@[k] as int].mod_name@,
        decreases group.len() - i,
    {
        assert(rank_order::as_ints(group@)[i as int] == group@[i as int]);
        let at = group[i];
        out.push(
            ConflictCandidate {
                mod_id: list[at].mod_id.clone(),
                mod_name: list[at].mod_name.clone(),
            },
        );
        i = i + 1;
    }
    assert forall|k: int| 0 <= k < group.len() implies 0 <= #[trigger] group@[k] < list.len() by {
        assert(rank_order::as_ints(group@)[k] == group@[k]);
    }
    out
}

/// Decides, for each destination, which mod's file is deployed; also what the
/// conflicts are, and how many files lose.
pub fn build_loose_plan(
    list: &Vec<LooseFileCandidate>,
    choices: &Vec<FileOverride>,
) -> (r: (Vec<LooseFilePlan>, Vec<ConflictEntry>, usize))
    ensures
        r.0@.map_values(plan_view()) == plans(candidate_views(list@), choices@),
        r.1@.map_values(conflict_view()) == conflicts(candidate_views(list@), choices@),
        r.2 == list.len() - first_keys(candidate_views(list@)).len(),
{
    let ghost all = candidate_views(list@);
    let (keys, groups) = group_candidates(list);
    let ghost ks = first_keys(all);
    let ghost make = |k: Seq<char>| plan_for(all, choices@, k);
    let mut found: Vec<LooseFilePlan> = Vec::new();
    let mut rows: Vec<ConflictEntry> = Vec::new();
    let mut g: usize = 0;
    assert(found@.map_values(plan_view()) =~= ks.take(0).map_values(make));
    assert(rows@.map_values(conflict_view()) =~= conflicts_among(all, choices@, 0));
    while g < keys.len()
        invariant
            g <= keys.len(),
            keys.len() == groups.len(),
            all == candidate_views(list@),
            ks == first_keys(all),
            ks == text::texts(keys@),
            make == (|k: Seq<char>| plan_for(all, choices@, k)),
            forall|h: int|
                0 <= h < groups.len() ==> rank_order::as_ints((#[trigger] groups@[h])@)
                    == places_of(all, keys@[h]@),
            found@.map_values(plan_view()) == ks.take(g as int).map_values(make),
            rows@.map_values(conflict_view()) == conflicts_among(all, choices@, g as int),
        decreases keys.len() - g,
    {
        let group = &groups[g];
        let ghost k = ks[g as int];
        let ghost places = places_of(all, k);
        proof {
            assert(k == keys@[g as int]@);
            lemma_places_of(all, k);
            assert(ks.contains(k));
            assert(rank_order::as_ints(group@) == places);
            assert(places[0] == group@[0]);
            assert(places.last() == group@[group@.len() - 1]);
        }
        let won = find_winner(list, group, choices);
        let w = &list[won];
        let first = group[0];
        let last = group[group.len() - 1];
        proof {
            assert(0 <= places[0] < list.len());
            assert(0 <= places[places.len() - 1] < list.len());
            assert(all[won as int] == w.shown());
            assert(all[first as int] == list@[first as int].shown());
            assert(all[last as int] == list@[last as int].shown());
        }
        if group.len() > 1 {
            let same = same_text(w.mod_id.as_str(), list[last].mod_id.as_str());
            let row = ConflictEntry {
                target: w.kind,
                relative_path: w.relative_path.clone(),
                candidates: list_rivals(list, group),
                winner_id: w.mod_id.clone(),
                winner_name: w.mod_name.clone(),
                default_winner_id: list[last].mod_id.clone(),
                overridden: !same,
            };
            let ghost before = rows@.map_values(conflict_view());
            proof {
                let wanted = conflict_for(all, choices@, k);
                assert forall|i: int| 0 <= i < group@.len() implies places[i] == #[trigger] group@[i]
                    by {}
                assert(rivals(row.candidates@) =~= wanted.candidates);
                assert(row.shown() =~= wanted);
            }
            rows.push(row);
            assert(rows@.map_values(conflict_view()) =~= before.push(row.shown()));
        }
        let plan = LooseFilePlan {
            source: w.source.clone(),
            dest: list[first].dest.clone(),
            dest_root: w.dest_root.clone(),
            mod_id: w.mod_id.clone(),
            mod_name: w.mod_name.clone(),
            kind: w.kind,
            order: w.order,
        };
        let ghost before = found@.map_values(plan_view());
        found.push(plan);
        proof {
            assert(found@.map_values(plan_view()) =~= before.push(plan.shown()));
            assert(plan.shown() == make(k));
            assert(ks.take(g + 1) =~= ks.take(g as int).push(k));
            assert(ks.take(g + 1).map_values(make) =~= ks.take(g as int).map_values(make).push(
                make(k),
            ));
        }
        g = g + 1;
    }
    proof {
        assert(ks.take(g as int) =~= ks);
        lemma_places_of(all, Seq::empty());
        let before_p = sorting::order_of::<LooseFilePlan>();
        assert forall|x: LooseFilePlan, y: LooseFilePlan| #[trigger]
            before_p(x, y) == plan_before()(plan_view()(x), plan_view()(y)) by {}
        sorting::lemma_ranking_map(found@, plan_view(), before_p, plan_before());
        let before_c = sorting::order_of::<ConflictEntry>();
        assert forall|x: ConflictEntry, y: ConflictEntry| #[trigger]
            before_c(x, y) == conflict_before()(conflict_view()(x), conflict_view()(y)) by {}
        sorting::lemma_ranking_map(rows@, conflict_view(), before_c, conflict_before());
    }
    let lost: usize = list.len() - keys.len();
    (sort(found), sort(rows), lost)
}

// ---------------------------------------------------------------------------
// Laws
// ---------------------------------------------------------------------------

pub proof fn lemma_place_range(c: Seq<CandidateView>, k: Seq<char>, i: int)
    ensures
        places_of(c, k).contains(i) <==> 0 <= i < c.len() && key(c[i]) == k,
        forall|a: int, b: int|
            0 <= a < b < places_of(c, k).len() ==> #[trigger] places_of(c, k)[a]
                < #[trigger] places_of(c, k)[b],
        forall|a: int|
            0 <= a < places_of(c, k).len() ==> 0 <= #[trigger] places_of(c, k)[a] < c.len(),
    decreases c.len(),
{
    if c.len() > 0 {
        let front = c.drop_last();
        lemma_place_range(front, k, i);
        crate::lists::lemma_push_contains(places_of(front, k), c.len() - 1, i);
        if 0 <= i < front.len() {
            assert(front[i] == c[i]);
        }
        assert(c.last() == c[c.len() - 1]);
    }
}

/// Where nobody chose otherwise, the last mod in the load order that brings a file
/// wins it.
pub proof fn law_last_wins(
    c: Seq<CandidateView>,
    choices: Seq<FileOverride>,
    k: Seq<char>,
    i: int,
)
    requires
        0 <= i < c.len(),
        key(c[i]) == k,
        override_for(
            choices,
            c[places_of(c, k).last()].kind,
            c[places_of(c, k).last()].relative_path,
        ) is None,
    ensures
        i <= winner(c, places_of(c, k), choices) < c.len(),
        key(c[winner(c, places_of(c, k), choices)]) == k,
{
    let places = places_of(c, k);
    lemma_place_range(c, k, i);
    let a = places.index_of(i);
    assert(places.contains(i));
    assert(places[a] == i);
    assert(a == places.len() - 1 || places[a] < places[places.len() - 1]);
    lemma_place_range(c, k, places.last());
    assert(places.contains(places[places.len() - 1]));
}

/// Whoever wins a destination brings a file for it, and so does the first to do so.
pub proof fn lemma_winner_key(c: Seq<CandidateView>, choices: Seq<FileOverride>, k: Seq<char>)
    requires
        first_keys(c).contains(k),
    ensures
        places_of(c, k).len() > 0,
        0 <= places_of(c, k)[0] < c.len(),
        key(c[places_of(c, k)[0]]) == k,
        0 <= winner(c, places_of(c, k), choices) < c.len(),
        key(c[winner(c, places_of(c, k), choices)]) == k,
{
    let places = places_of(c, k);
    lemma_places_of(c, k);
    assert(places.contains(places[0]));
    lemma_place_range(c, k, places[0]);
    let last = places.last();
    assert(places.contains(places[places.len() - 1]));
    lemma_place_range(c, k, last);
    match override_for(choices, c[last].kind, c[last].relative_path) {
        Some(id) => {
            lemma_winner(c, places, id, 0);
            let f = first_of(c, places, id, 0);
            if f >= 0 {
                lemma_place_range(c, k, f);
            }
        },
        None => {},
    }
}

/// A mod that is chosen for a file wins it if it brings the file.
pub proof fn law_choice_wins(
    c: Seq<CandidateView>,
    choices: Seq<FileOverride>,
    k: Seq<char>,
    i: int,
)
    requires
        0 <= i < c.len(),
        key(c[i]) == k,
        override_for(
            choices,
            c[places_of(c, k).last()].kind,
            c[places_of(c, k).last()].relative_path,
        ) == Some(c[i].mod_id),
    ensures
        plan_for(c, choices, k).mod_id == c[i].mod_id,
{
    let places = places_of(c, k);
    lemma_place_range(c, k, i);
    assert(places.contains(i));
    let a = places.index_of(i);
    lemma_first_found(c, places, c[i].mod_id, 0, a);
    lemma_winner(c, places, c[i].mod_id, 0);
}

proof fn lemma_first_found(
    c: Seq<CandidateView>,
    places: Seq<int>,
    id: Seq<char>,
    from: int,
    a: int,
)
    requires
        0 <= from <= a < places.len(),
        c[places[a]].mod_id == id,
        forall|i: int| 0 <= i < places.len() ==> 0 <= #[trigger] places[i] < c.len(),
    ensures
        first_of(c, places, id, from) >= 0,
    decreases places.len() - from,
{
    if c[places[from]].mod_id != id {
        lemma_first_found(c, places, id, from + 1, a);
    }
}

/// Every destination is deployed once, and nothing else is.
pub proof fn law_each_destination_once(c: Seq<CandidateView>, choices: Seq<FileOverride>, k: Seq<char>)
    ensures
        plans(c, choices).len() == first_keys(c).len(),
        first_keys(c).no_duplicates(),
        first_keys(c).contains(k) <==> exists|i: int|
            0 <= i < c.len() && key(#[trigger] c[i]) == k,
{
    lemma_places_of(c, k);
    sorting::law_ranking_permutes(
        first_keys(c).map_values(|k: Seq<char>| plan_for(c, choices, k)),
        plan_before(),
    );
    if first_keys(c).contains(k) {
        lemma_place_range(c, k, places_of(c, k)[0]);
        assert(places_of(c, k).contains(places_of(c, k)[0]));
        assert(key(c[places_of(c, k)[0]]) == k);
    }
    if exists|i: int| 0 <= i < c.len() && key(#[trigger] c[i]) == k {
        let i = choose|i: int| 0 <= i < c.len() && key(#[trigger] c[i]) == k;
        lemma_place_range(c, k, i);
        assert(places_of(c, k).contains(i));
    }
}

} // verus!
