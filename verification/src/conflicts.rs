//! Files that several mods bring, and which mod wins them.
use crate::actions;
use crate::actions::{also, log, no_actions, say, Action, ActionView, LogLevel};
use crate::dep_desk;
use crate::deploy::{ConflictCandidate, ConflictEntry};
use crate::library;
use crate::library::{find_profile, FileOverride, Library, TargetKind};
use crate::lists;
use crate::mod_changes;
use crate::text;
use crate::text::{concat2, concat3, same_text, show_usize};
use vstd::prelude::*;

verus! {

/// Another winner that is waiting to be set. Times are in milliseconds.
#[derive(Debug)]
pub struct PendingOverride {
    pub conflict_index: usize,
    pub winner_id: String,
    pub from: String,
    pub to: String,
    pub last_input: u64,
}

/// The winner before and after the last change.
#[derive(Debug)]
pub struct OverrideSwap {
    pub from: String,
    pub to: String,
}

/// What is shown of a change of winners.
#[derive(Debug)]
pub struct OverrideSwapInfo {
    pub from: String,
    pub to: String,
}

/// The files that several mods bring.
pub struct ConflictDesk {
    pub conflicts: Vec<ConflictEntry>,
    pub selected: usize,
    pub pending: Option<PendingOverride>,
    pub swap: Option<OverrideSwap>,
    /// Whether such files are being looked for, and whether they are to be.
    pub active: bool,
    pub scan_pending: bool,
}

/// How long a choice waits for another, in milliseconds.
pub const OVERRIDE_DELAY_MS: u64 = 250;

// ---------------------------------------------------------------------------
// Choosing
// ---------------------------------------------------------------------------

/// Where the first candidate with an id stands, or -1.
pub open spec fn candidate_place(list: Seq<ConflictCandidate>, id: Seq<char>) -> int
    decreases list.len(),
{
    if list.len() == 0 {
        -1
    } else {
        let before = candidate_place(list.drop_last(), id);
        if before >= 0 {
            before
        } else if list.last().mod_id@ == id {
            list.len() - 1
        } else {
            -1
        }
    }
}

/// The name of the candidate with an id; the id where there is none.
pub open spec fn candidate_name(list: Seq<ConflictCandidate>, id: Seq<char>) -> Seq<char> {
    let k = candidate_place(list, id);
    if k >= 0 {
        list[k].mod_name@
    } else {
        id
    }
}

proof fn lemma_place_kept(list: Seq<ConflictCandidate>, id: Seq<char>, n: int)
    requires
        0 <= n <= list.len(),
        candidate_place(list.take(n), id) >= 0,
    ensures
        candidate_place(list, id) == candidate_place(list.take(n), id),
    decreases list.len() - n,
{
    if n < list.len() {
        assert(list.take(n + 1).drop_last() =~= list.take(n));
        lemma_place_kept(list, id, n + 1);
    } else {
        assert(list.take(n) =~= list);
    }
}

fn find_candidate(list: &Vec<ConflictCandidate>, id: &str) -> (r: Option<usize>)
    ensures
        match r {
            Some(i) => i < list@.len() && candidate_place(list@, id@) == i,
            None => candidate_place(list@, id@) < 0,
        },
{
    let mut i: usize = 0;
    while i < list.len()
        invariant
            i <= list.len(),
            candidate_place(list@.take(i as int), id@) < 0,
        decreases list.len() - i,
    {
        assert(list@.take(i + 1).drop_last() =~= list@.take(i as int));
        if same_text(list[i].mod_id.as_str(), id) {
            proof {
                assert(candidate_place(list@.take(i + 1), id@) == i);
                lemma_place_kept(list@, id@, i + 1);
            }
            return Some(i);
        }
        i = i + 1;
    }
    assert(list@.take(i as int) =~= list@);
    None
}

fn find_candidate_name(list: &Vec<ConflictCandidate>, id: &str) -> (r: String)
    ensures
        r@ == candidate_name(list@, id@),
{
    match find_candidate(list, id) {
        Some(i) => list[i].mod_name.clone(),
        None => id.to_owned(),
    }
}

/// Whether a choice of another winner waits after `id` was chosen: not where it wins
/// already.
pub open spec fn waits_for(
    after: Option<PendingOverride>,
    c: ConflictEntry,
    at: usize,
    id: Seq<char>,
    now: u64,
) -> bool {
    if id == c.winner_id@ {
        after is None
    } else {
        &&& after matches Some(p)
        &&& p.conflict_index == at
        &&& p.winner_id@ == id
        &&& p.from@ == c.winner_name@
        &&& p.to@ == candidate_name(c.candidates@, id)
        &&& p.last_input == now
    }
}

/// The candidate that comes `delta` places behind the winner, going round.
pub open spec fn next_candidate(c: ConflictEntry, delta: int) -> int {
    let k = candidate_place(c.candidates@, c.winner_id@);
    let from = if k >= 0 {
        k
    } else {
        0
    };
    (from + delta) % (c.candidates@.len() as int)
}

impl ConflictDesk {
    pub fn new() -> (r: Self)
        ensures
            r.conflicts@.len() == 0,
            r.selected == 0,
            r.pending is None,
            r.swap is None,
            !r.active,
            !r.scan_pending,
    {
        ConflictDesk {
            conflicts: Vec::new(),
            selected: 0,
            pending: None,
            swap: None,
            active: false,
            scan_pending: false,
        }
    }

    pub fn conflict_move_up(&mut self)
        ensures
            *final(self) == if old(self).selected == 0 {
                *old(self)
            } else {
                ConflictDesk {
                    selected: (old(self).selected - 1) as usize,
                    pending: None,
                    ..*old(self)
                }
            },
    {
        if self.selected == 0 {
            return;
        }
        self.selected = self.selected - 1;
        self.pending = None;
    }

    pub fn conflict_move_down(&mut self)
        ensures
            *final(self) == if old(self).selected + 1 >= old(self).conflicts@.len() {
                *old(self)
            } else {
                ConflictDesk {
                    selected: (old(self).selected + 1) as usize,
                    pending: None,
                    ..*old(self)
                }
            },
    {
        let len = self.conflicts.len();
        if self.selected >= len || len - self.selected <= 1 {
            return;
        }
        self.selected = self.selected + 1;
        self.pending = None;
    }

    fn schedule_conflict_winner(&mut self, winner_id: String, now: u64)
        requires
            old(self).selected < old(self).conflicts@.len(),
        ensures
            *final(self) == (ConflictDesk { pending: final(self).pending, ..*old(self) }),
            waits_for(
                final(self).pending,
                old(self).conflicts@[old(self).selected as int],
                old(self).selected,
                winner_id@,
                now,
            ),
    {
        let c = &self.conflicts[self.selected];
        if same_text(winner_id.as_str(), c.winner_id.as_str()) {
            self.pending = None;
            return;
        }
        let to = find_candidate_name(&c.candidates, winner_id.as_str());
        let from = c.winner_name.clone();
        self.pending = Some(
            PendingOverride {
                conflict_index: self.selected,
                winner_id,
                from,
                to,
                last_input: now,
            },
        );
    }

    /// Chooses another of the mods that bring the selected file, `delta` places on.
    pub fn cycle_conflict_winner(&mut self, delta: i32, now: u64)
        ensures
            *final(self) == (ConflictDesk { pending: final(self).pending, ..*old(self) }),
            ({
                let c = old(self).conflicts@[old(self).selected as int];
                if old(self).selected < old(self).conflicts@.len() && c.candidates@.len() > 0 {
                    waits_for(
                        final(self).pending,
                        c,
                        old(self).selected,
                        c.candidates@[next_candidate(c, delta as int)].mod_id@,
                        now,
                    )
                } else {
                    final(self).pending == old(self).pending
                }
            }),
    {
        if self.selected >= self.conflicts.len() {
            return;
        }
        let c = &self.conflicts[self.selected];
        let len = c.candidates.len();
        if len == 0 {
            return;
        }
        let from: usize = match find_candidate(&c.candidates, c.winner_id.as_str()) {
            Some(i) => i,
            None => 0,
        };
        let n: i128 = len as i128;
        let moved: i128 = from as i128 + delta as i128;
        let rest: i128 = moved % n;
        let next: i128 = if rest < 0 {
            rest + n
        } else {
            rest
        };
        proof {
            lemma_round(moved as int, n as int, rest as int, next as int);
        }
        let id = c.candidates[next as usize].mod_id.clone();
        self.schedule_conflict_winner(id, now);
    }

    /// Chooses the mod that wins the selected file by itself.
    pub fn clear_conflict_override(&mut self, now: u64)
        ensures
            *final(self) == (ConflictDesk { pending: final(self).pending, ..*old(self) }),
            ({
                let c = old(self).conflicts@[old(self).selected as int];
                if old(self).selected < old(self).conflicts@.len() {
                    waits_for(
                        final(self).pending,
                        c,
                        old(self).selected,
                        c.default_winner_id@,
                        now,
                    )
                } else {
                    final(self).pending == old(self).pending
                }
            }),
    {
        if self.selected >= self.conflicts.len() {
            return;
        }
        let id = self.conflicts[self.selected].default_winner_id.clone();
        self.schedule_conflict_winner(id, now);
    }

    /// The change of winners that is shown while the files are in view: the one that
    /// waits, or the last.
    pub fn override_swap_info(&self, in_view: bool) -> (r: Option<OverrideSwapInfo>)
        ensures
            match r {
                Some(i) => in_view && match self.pending {
                    Some(p) => i.from@ == p.from@ && i.to@ == p.to@,
                    None => self.swap matches Some(s) && i.from@ == s.from@ && i.to@ == s.to@,
                },
                None => !in_view || (self.pending is None && self.swap is None),
            },
    {
        if !in_view {
            return None;
        }
        if let Some(p) = &self.pending {
            return Some(OverrideSwapInfo { from: p.from.clone(), to: p.to.clone() });
        }
        match &self.swap {
            Some(s) => Some(OverrideSwapInfo { from: s.from.clone(), to: s.to.clone() }),
            None => None,
        }
    }
}

proof fn lemma_round(moved: int, n: int, rest: int, next: int)
    requires
        n > 0,
        rest == if moved >= 0 {
            moved % n
        } else {
            -((-moved) % n)
        },
        next == if rest < 0 {
            rest + n
        } else {
            rest
        },
    ensures
        next == moved % n,
        0 <= next < n,
{
    vstd::arithmetic::div_mod::lemma_mod_bound(moved, n);
    if moved < 0 {
        vstd::arithmetic::div_mod::lemma_mod_bound(-moved, n);
        vstd::arithmetic::div_mod::lemma_fundamental_div_mod(-moved, n);
        let q = (-moved) / n;
        let r = (-moved) % n;
        if r == 0 {
            assert(moved == n * (-q)) by (nonlinear_arith)
                requires
                    -moved == n * q + r,
                    r == 0,
            ;
            vstd::arithmetic::div_mod::lemma_fundamental_div_mod_converse(moved, n, -q, 0);
        } else {
            assert(moved == n * (-q - 1) + (n - r)) by (nonlinear_arith)
                requires
                    -moved == n * q + r,
            ;
            vstd::arithmetic::div_mod::lemma_fundamental_div_mod_converse(moved, n, -q - 1, n - r);
        }
    }
}

// ---------------------------------------------------------------------------
// Setting a winner
// ---------------------------------------------------------------------------

/// A choice: the kind of target, the file, and the id of the mod that wins it.
pub struct ChoiceView {
    pub kind: TargetKind,
    pub path: Seq<char>,
    pub id: Seq<char>,
}

pub open spec fn choice_views(list: Seq<FileOverride>) -> Seq<ChoiceView> {
    Seq::new(
        list.len(),
        |i: int|
            ChoiceView { kind: list[i].kind, path: list[i].relative_path@, id: list[i].mod_id@ },
    )
}

pub open spec fn is_choice_for(c: ChoiceView, kind: TargetKind, path: Seq<char>) -> bool {
    c.kind == kind && c.path == path
}

pub open spec fn other_files(kind: TargetKind, path: Seq<char>) -> spec_fn(ChoiceView) -> bool {
    |c: ChoiceView| !is_choice_for(c, kind, path)
}

/// Where the first choice for a file stands at or behind `from`, or -1.
pub open spec fn choice_place(
    list: Seq<ChoiceView>,
    kind: TargetKind,
    path: Seq<char>,
    from: int,
) -> int
    decreases list.len() - from,
{
    if from < 0 || from >= list.len() {
        -1
    } else if is_choice_for(list[from], kind, path) {
        from
    } else {
        choice_place(list, kind, path, from + 1)
    }
}

/// The choices after one for a file. The mod that wins it by itself needs none.
pub open spec fn with_choice(
    list: Seq<ChoiceView>,
    kind: TargetKind,
    path: Seq<char>,
    id: Seq<char>,
    default: Seq<char>,
) -> Seq<ChoiceView> {
    let at = choice_place(list, kind, path, 0);
    if id == default {
        list.filter(other_files(kind, path))
    } else if at >= 0 {
        list.update(at, ChoiceView { id, ..list[at] })
    } else {
        list.push(ChoiceView { kind, path, id })
    }
}

fn check_choice(o: &FileOverride, kind: TargetKind, path: &str) -> (r: bool)
    ensures
        r == (o.kind == kind && o.relative_path@ == path@),
{
    o.kind == kind && same_text(o.relative_path.as_str(), path)
}

fn drop_choice(list: &mut Vec<FileOverride>, kind: TargetKind, path: &str)
    ensures
        choice_views(final(list)@) == choice_views(old(list)@).filter(other_files(kind, path@)),
{
    let ghost all = choice_views(list@);
    let ghost keeps = other_files(kind, path@);
    let mut kept: Vec<FileOverride> = Vec::new();
    let mut i: usize = 0;
    proof {
        lists::lemma_filter_whole(all, keeps);
        assert(choice_views(kept@) =~= all.take(0).filter(keeps));
    }
    while i < list.len()
        invariant
            i <= list.len(),
            all == choice_views(list@),
            keeps == other_files(kind, path@),
            choice_views(kept@) == all.take(i as int).filter(keeps),
        decreases list.len() - i,
    {
        proof {
            lists::lemma_keep_item(all, i as int, keeps);
        }
        if !check_choice(&list[i], kind, path) {
            let ghost before = kept@;
            kept.push(list[i].clone());
            assert(choice_views(kept@) =~= choice_views(before).push(all[i as int]));
        }
        i = i + 1;
    }
    proof {
        lists::lemma_filter_whole(all, keeps);
    }
    *list = kept;
}

fn set_choice(list: &mut Vec<FileOverride>, kind: TargetKind, path: &str, id: &str, default: &str)
    ensures
        choice_views(final(list)@) == with_choice(
            choice_views(old(list)@),
            kind,
            path@,
            id@,
            default@,
        ),
{
    if same_text(id, default) {
        drop_choice(list, kind, path);
        return;
    }
    let ghost all = choice_views(list@);
    let mut i: usize = 0;
    while i < list.len()
        invariant
            i <= list.len(),
            all == choice_views(list@),
            *list == *old(list),
            choice_place(all, kind, path@, 0) == choice_place(all, kind, path@, i as int),
            id@ != default@,
        decreases list.len() - i,
    {
        if check_choice(&list[i], kind, path) {
            list[i].mod_id = id.to_owned();
            assert(choice_views(list@) =~= with_choice(all, kind, path@, id@, default@));
            return;
        }
        i = i + 1;
    }
    list.push(
        FileOverride { kind, relative_path: path.to_owned(), mod_id: id.to_owned() },
    );
    assert(choice_views(list@) =~= with_choice(all, kind, path@, id@, default@));
}

/// A choice that was set is found first, and none is left once the mod that wins by
/// itself was chosen.
pub proof fn law_choice_is_found(
    list: Seq<ChoiceView>,
    kind: TargetKind,
    path: Seq<char>,
    id: Seq<char>,
    default: Seq<char>,
)
    ensures
        ({
            let after = with_choice(list, kind, path, id, default);
            let at = choice_place(after, kind, path, 0);
            if id == default {
                at == -1
            } else {
                0 <= at < after.len() && after[at].id == id
            }
        }),
{
    let after = with_choice(list, kind, path, id, default);
    let at = choice_place(list, kind, path, 0);
    lemma_choice_place(list, kind, path, 0);
    if id == default {
        let keeps = other_files(kind, path);
        assert forall|i: int| 0 <= i < after.len() implies !is_choice_for(
            #[trigger] after[i],
            kind,
            path,
        ) by {
            assert(after.contains(after[i]));
            lists::lemma_filter_contains(list, keeps, after[i]);
        }
        lemma_choice_place(after, kind, path, 0);
    } else if at >= 0 {
        assert(is_choice_for(after[at], kind, path));
        assert forall|j: int| 0 <= j < at implies !is_choice_for(#[trigger] after[j], kind, path) by {
            assert(after[j] == list[j]);
        }
        lemma_choice_place(after, kind, path, 0);
    } else {
        let k = list.len() as int;
        assert(is_choice_for(after[k], kind, path));
        assert forall|j: int| 0 <= j < k implies !is_choice_for(#[trigger] after[j], kind, path) by {
            assert(after[j] == list[j]);
        }
        lemma_choice_place(after, kind, path, 0);
    }
}

pub proof fn lemma_choice_place(list: Seq<ChoiceView>, kind: TargetKind, path: Seq<char>, from: int)
    requires
        0 <= from <= list.len(),
    ensures
        ({
            let at = choice_place(list, kind, path, from);
            &&& at >= 0 ==> from <= at < list.len() && is_choice_for(list[at], kind, path)
                && forall|j: int| from <= j < at ==> !is_choice_for(#[trigger] list[j], kind, path)
            &&& at < 0 ==> at == -1 && forall|j: int|
                from <= j < list.len() ==> !is_choice_for(#[trigger] list[j], kind, path)
        }),
    decreases list.len() - from,
{
    if from < list.len() && !is_choice_for(list[from], kind, path) {
        lemma_choice_place(list, kind, path, from + 1);
    }
}

/// Whether a file that several mods bring is another with another winner.
pub open spec fn with_winner(after: ConflictEntry, before: ConflictEntry, id: Seq<char>) -> bool {
    &&& after == (ConflictEntry {
        winner_id: after.winner_id,
        winner_name: after.winner_name,
        overridden: id != before.default_winner_id@,
        ..before
    })
    &&& after.winner_id@ == id
    &&& after.winner_name@ == candidate_name(before.candidates@, id)
}

/// Whether the choices of the active profile are others.
pub open spec fn choices_set(after: Library, before: Library, c: ConflictEntry, id: Seq<char>) -> bool {
    let at = mod_changes::active_place(before);
    let old = before.profiles@[at];
    let new = after.profiles@[at];
    &&& after == (Library { profiles: after.profiles, ..before })
    &&& after.profiles@.len() == before.profiles@.len()
    &&& new.name == old.name
    &&& new.order == old.order
    &&& choice_views(new.file_overrides@) == with_choice(
        choice_views(old.file_overrides@),
        c.target,
        c.relative_path@,
        id,
        c.default_winner_id@,
    )
    &&& forall|i: int|
        0 <= i < before.profiles@.len() && i != at ==> #[trigger] after.profiles@[i]
            == before.profiles@[i]
}

/// What setting a winner does to the desk.
pub open spec fn winner_set(after: ConflictDesk, before: ConflictDesk, at: int, id: Seq<char>) -> bool {
    let c = before.conflicts@[at];
    let name = candidate_name(c.candidates@, id);
    &&& after == (ConflictDesk { conflicts: after.conflicts, swap: after.swap, ..before })
    &&& after.conflicts@.len() == before.conflicts@.len()
    &&& with_winner(after.conflicts@[at], c, id)
    &&& forall|i: int|
        0 <= i < before.conflicts@.len() && i != at ==> #[trigger] after.conflicts@[i]
            == before.conflicts@[i]
    &&& if c.winner_name@ != name {
        after.swap matches Some(s) && s.from@ == c.winner_name@ && s.to@ == name
    } else {
        after.swap is None
    }
}

pub open spec fn winner_says() -> Seq<ActionView> {
    seq![
        ActionView::SaveLibrary,
        ActionView::Status("Override updated"@),
        ActionView::Log(LogLevel::Info, "Override updated"@),
        ActionView::Deploy("conflict override"@),
    ]
}

impl ConflictDesk {
    /// Sets the winner of a file in the active profile.
    pub fn set_conflict_winner(&mut self, library: &mut Library, index: usize, winner_id: &str) -> (
    out: Vec<Action>)
        ensures
            if index < old(self).conflicts@.len() && mod_changes::active_place(*old(library)) >= 0 {
                &&& winner_set(*final(self), *old(self), index as int, winner_id@)
                &&& choices_set(
                    *final(library),
                    *old(library),
                    old(self).conflicts@[index as int],
                    winner_id@,
                )
                &&& actions::action_views(out@) == winner_says()
            } else {
                &&& *final(self) == *old(self)
                &&& *final(library) == *old(library)
                &&& out@.len() == 0
            },
    {
        let mut out = no_actions();
        if index >= self.conflicts.len() {
            return out;
        }
        proof {
            library::lemma_profile_index(library.profiles@, library.active_profile@);
        }
        let at = match find_profile(&library.profiles, library.active_profile.as_str()) {
            Some(at) => at,
            None => return out,
        };
        let c = &self.conflicts[index];
        set_choice(
            &mut library.profiles[at].file_overrides,
            c.target,
            c.relative_path.as_str(),
            winner_id,
            c.default_winner_id.as_str(),
        );
        let name = find_candidate_name(&c.candidates, winner_id);
        let previous = c.winner_name.clone();
        let overridden = !same_text(winner_id, c.default_winner_id.as_str());
        self.conflicts[index].winner_id = winner_id.to_owned();
        self.conflicts[index].winner_name = name.clone();
        self.conflicts[index].overridden = overridden;
        self.swap = if same_text(previous.as_str(), name.as_str()) {
            None
        } else {
            Some(OverrideSwap { from: previous, to: name })
        };
        also(&mut out, Action::SaveLibrary);
        say(&mut out, "Override updated");
        log(&mut out, LogLevel::Info, "Override updated");
        also(&mut out, Action::Deploy("conflict override".to_owned()));
        assert(actions::action_views(out@) =~= winner_says());
        out
    }

    /// Whether a choice has waited long enough.
    pub open spec fn is_due(self, now: u64) -> bool {
        self.pending matches Some(p) && now - p.last_input >= OVERRIDE_DELAY_MS
    }

    /// Sets the winner that was chosen, once it has waited long enough.
    pub fn tick(&mut self, library: &mut Library, now: u64) -> (out: Vec<Action>)
        ensures
            if !old(self).is_due(now) {
                &&& *final(self) == *old(self)
                &&& *final(library) == *old(library)
                &&& out@.len() == 0
            } else {
                let p = old(self).pending->Some_0;
                let mid = ConflictDesk { pending: None, ..*old(self) };
                if p.conflict_index < mid.conflicts@.len() && mod_changes::active_place(
                    *old(library),
                ) >= 0 {
                    &&& winner_set(*final(self), mid, p.conflict_index as int, p.winner_id@)
                    &&& choices_set(
                        *final(library),
                        *old(library),
                        mid.conflicts@[p.conflict_index as int],
                        p.winner_id@,
                    )
                    &&& actions::action_views(out@) == winner_says()
                } else {
                    *final(self) == mid && *final(library) == *old(library) && out@.len() == 0
                }
            },
    {
        let due = match &self.pending {
            Some(p) => now >= p.last_input && now - p.last_input >= OVERRIDE_DELAY_MS,
            None => false,
        };
        if !due {
            return no_actions();
        }
        match self.pending.take() {
            Some(p) => self.set_conflict_winner(library, p.conflict_index, p.winner_id.as_str()),
            None => no_actions(),
        }
    }

    /// Asks for a search; without the game's paths there is nothing to be found.
    pub fn queue_conflict_scan(&mut self, paths_ready: bool)
        ensures
            if paths_ready {
                *final(self) == (ConflictDesk { scan_pending: true, ..*old(self) })
            } else if old(self).conflicts@.len() > 0 {
                &&& *final(self) == (ConflictDesk {
                    conflicts: final(self).conflicts,
                    selected: 0,
                    ..*old(self)
                })
                &&& final(self).conflicts@.len() == 0
            } else {
                *final(self) == *old(self)
            },
    {
        if paths_ready {
            self.scan_pending = true;
        } else if self.conflicts.len() > 0 {
            self.conflicts = Vec::new();
            self.selected = 0;
        }
    }

    /// Whether a search starts now: not while an import or a deployment runs.
    pub fn maybe_start_conflict_scan(&mut self, importing: bool, deploying: bool) -> (starts: bool)
        ensures
            starts == (old(self).scan_pending && !old(self).active && !importing && !deploying),
            *final(self) == if starts {
                ConflictDesk { scan_pending: false, active: true, ..*old(self) }
            } else {
                *old(self)
            },
    {
        if !self.scan_pending || self.active || importing || deploying {
            return false;
        }
        self.scan_pending = false;
        self.active = true;
        true
    }

    /// Takes in what a search found.
    pub fn scan_completed(&mut self, conflicts: Vec<ConflictEntry>) -> (out: Vec<Action>)
        ensures
            *final(self) == (ConflictDesk {
                active: false,
                pending: None,
                conflicts,
                selected: if old(self).selected >= conflicts@.len() {
                    0
                } else {
                    old(self).selected
                },
                ..*old(self)
            }),
            actions::action_views(out@) == seq![
                ActionView::Log(
                    LogLevel::Info,
                    "Override scan complete: "@ + text::decimal(conflicts@.len()) + " override(s)"@,
                ),
            ],
    {
        let mut out = no_actions();
        self.active = false;
        self.pending = None;
        let count = conflicts.len();
        if self.selected >= count {
            self.selected = 0;
        }
        self.conflicts = conflicts;
        log(
            &mut out,
            LogLevel::Info,
            concat3("Override scan complete: ", show_usize(count).as_str(), " override(s)").as_str(),
        );
        out
    }

    /// Takes in that a search failed.
    pub fn scan_failed(&mut self, error: &str) -> (out: Vec<Action>)
        ensures
            *final(self) == (ConflictDesk { active: false, pending: None, ..*old(self) }),
            actions::action_views(out@) == seq![
                ActionView::Status("Override scan failed: "@ + error@),
                ActionView::Log(LogLevel::Error, "Override scan failed: "@ + error@),
            ],
    {
        let mut out = no_actions();
        self.active = false;
        self.pending = None;
        let line = concat2("Override scan failed: ", error);
        say(&mut out, line.as_str());
        log(&mut out, LogLevel::Error, line.as_str());
        assert(actions::action_views(out@) =~= seq![
            ActionView::Status(line@),
            ActionView::Log(LogLevel::Error, line@),
        ]);
        out
    }

    pub fn clamp(&mut self)
        ensures
            *final(self) == (ConflictDesk {
                selected: dep_desk::clamped(
                    old(self).selected as int,
                    old(self).conflicts@.len() as int,
                ) as usize,
                ..*old(self)
            }),
    {
        let len = self.conflicts.len();
        if len == 0 {
            self.selected = 0;
        } else if self.selected >= len {
            self.selected = len - 1;
        }
    }
}

} // verus!
