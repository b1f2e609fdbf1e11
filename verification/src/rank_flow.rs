//! Trying rankings out on smaller libraries: what they are made of, and what was read.
use crate::library;
use crate::library::{find_profile, Library, ModEntry, Profile, ProfileEntry};
use crate::lists;
use crate::mod_changes;
use crate::mod_view;
use crate::mod_view::swap_entries;
use crate::paths;
use crate::paths::{extension, file_name};
use crate::rank_scenario;
use crate::rank_scenario::show_mode;
use crate::rank_state::SmartRankRefreshMode;
use crate::sorting;
use crate::sorting::{has_string, sort_texts};
use crate::text;
use crate::text::{add_line, concat2, concat3, same_text, show_usize};
use vstd::prelude::*;

verus! {

// ---------------------------------------------------------------------------
// A smaller library
// ---------------------------------------------------------------------------

/// How many mods a smaller library keeps.
pub const KEPT_MODS: usize = 8;

/// The ids of the first mods of a library.
pub open spec fn first_ids(mods: Seq<ModEntry>) -> Seq<Seq<char>> {
    library::mod_ids(
        mods.take(
            if mods.len() < KEPT_MODS {
                mods.len() as int
            } else {
                KEPT_MODS as int
            },
        ),
    )
}

pub open spec fn kept_mods(ids: Seq<Seq<char>>) -> spec_fn(ModEntry) -> bool {
    |m: ModEntry| ids.contains(m.id@)
}

pub open spec fn kept_entries(ids: Seq<Seq<char>>) -> spec_fn(ProfileEntry) -> bool {
    |e: ProfileEntry| ids.contains(e.id@)
}

/// The order with its first mod switched on.
pub open spec fn first_on(order: Seq<ProfileEntry>) -> Seq<ProfileEntry> {
    if order.len() > 0 {
        order.update(0, ProfileEntry { id: order[0].id, enabled: true })
    } else {
        order
    }
}

/// Whether a library is another with its first mods only, the first of which is on in the
/// active profile.
pub open spec fn is_trimmed(after: Library, before: Library) -> bool {
    let ids = first_ids(before.mods@);
    let at = mod_changes::active_place(before);
    &&& after == (Library { mods: after.mods, profiles: after.profiles, ..before })
    &&& after.mods@ == before.mods@.filter(kept_mods(ids))
    &&& after.profiles@.len() == before.profiles@.len()
    &&& forall|i: int|
        0 <= i < before.profiles@.len() ==> {
            let order = before.profiles@[i].order@.filter(kept_entries(ids));
            &&& (#[trigger] after.profiles@[i]) == (Profile {
                order: after.profiles@[i].order,
                ..before.profiles@[i]
            })
            &&& after.profiles@[i].order@ == if i == at {
                first_on(order)
            } else {
                order
            }
        }
}

fn keep_mods(list: &mut Vec<ModEntry>, ids: &Vec<String>)
    ensures
        final(list)@ == old(list)@.filter(kept_mods(text::texts(ids@))),
{
    let ghost all = list@;
    let ghost keeps = kept_mods(text::texts(ids@));
    let mut left: Vec<ModEntry> = Vec::new();
    std::mem::swap(&mut left, list);
    let mut kept: Vec<ModEntry> = Vec::new();
    proof {
        lists::lemma_filter_whole(all, keeps);
        assert(left@ =~= all.skip(0));
    }
    while left.len() > 0
        invariant
            left.len() <= all.len(),
            keeps == kept_mods(text::texts(ids@)),
            left@ == all.skip(all.len() - left.len()),
            kept@ == all.take(all.len() - left.len()).filter(keeps),
        decreases left.len(),
    {
        let ghost at = all.len() - left.len();
        assert(left@[0] == all[at]);
        proof {
            lists::lemma_keep_item(all, at, keeps);
        }
        let m = left.remove(0);
        if has_string(ids, m.id.as_str()) {
            kept.push(m);
        }
        assert(left@ =~= all.skip(at + 1));
    }
    proof {
        lists::lemma_filter_whole(all, keeps);
    }
    *list = kept;
}

fn keep_entries(list: &mut Vec<ProfileEntry>, ids: &Vec<String>)
    ensures
        final(list)@ == old(list)@.filter(kept_entries(text::texts(ids@))),
{
    let ghost all = list@;
    let ghost keeps = kept_entries(text::texts(ids@));
    let mut kept: Vec<ProfileEntry> = Vec::new();
    let mut i: usize = 0;
    proof {
        lists::lemma_filter_whole(all, keeps);
    }
    while i < list.len()
        invariant
            i <= list.len(),
            list@ == all,
            keeps == kept_entries(text::texts(ids@)),
            kept@ == all.take(i as int).filter(keeps),
        decreases list.len() - i,
    {
        proof {
            lists::lemma_keep_item(all, i as int, keeps);
        }
        if has_string(ids, list[i].id.as_str()) {
            kept.push(list[i].clone());
        }
        i = i + 1;
    }
    proof {
        lists::lemma_filter_whole(all, keeps);
    }
    *list = kept;
}

/// Keeps the first mods of a library only.
pub fn trim_library(library: &mut Library)
    ensures
        is_trimmed(*final(library), *old(library)),
{
    let ghost start = *library;
    let mut ids: Vec<String> = Vec::new();
    let mut k: usize = 0;
    assert(text::texts(ids@) =~= library::mod_ids(start.mods@.take(0)));
    while k < library.mods.len() && k < KEPT_MODS
        invariant
            k <= library.mods.len(),
            k <= KEPT_MODS,
            *library == start,
            text::texts(ids@) == library::mod_ids(start.mods@.take(k as int)),
        decreases library.mods.len() - k,
    {
        add_line(&mut ids, library.mods[k].id.clone());
        k = k + 1;
        assert(text::texts(ids@) =~= library::mod_ids(start.mods@.take(k as int)));
    }
    let ghost kept = first_ids(start.mods@);
    assert(text::texts(ids@) == kept);
    proof {
        library::lemma_profile_index(library.profiles@, library.active_profile@);
    }
    let active = find_profile(&library.profiles, library.active_profile.as_str());
    keep_mods(&mut library.mods, &ids);
    let mut i: usize = 0;
    while i < library.profiles.len()
        invariant
            i <= library.profiles.len(),
            text::texts(ids@) == kept,
            *library == (Library { mods: library.mods, profiles: library.profiles, ..start }),
            library.mods@ == start.mods@.filter(kept_mods(kept)),
            library.profiles@.len() == start.profiles@.len(),
            match active {
                Some(at) => at == mod_changes::active_place(start),
                None => mod_changes::active_place(start) < 0,
            },
            forall|j: int|
                0 <= j < i ==> {
                    let order = start.profiles@[j].order@.filter(kept_entries(kept));
                    &&& (#[trigger] library.profiles@[j]) == (Profile {
                        order: library.profiles@[j].order,
                        ..start.profiles@[j]
                    })
                    &&& library.profiles@[j].order@ == if j == mod_changes::active_place(start) {
                        first_on(order)
                    } else {
                        order
                    }
                },
            forall|j: int|
                i <= j < start.profiles@.len() ==> #[trigger] library.profiles@[j]
                    == start.profiles@[j],
        decreases library.profiles.len() - i,
    {
        keep_entries(&mut library.profiles[i].order, &ids);
        let ghost order = library.profiles@[i as int].order@;
        let here = match active {
            Some(at) => at == i,
            None => false,
        };
        if here && library.profiles[i].order.len() > 0 {
            let on = ProfileEntry {
                id: library.profiles[i].order[0].id.clone(),
                enabled: true,
            };
            library.profiles[i].order[0] = on;
        }
        assert(library.profiles@[i as int].order@ =~= if here {
            first_on(order)
        } else {
            order
        });
        i = i + 1;
    }
}

// ---------------------------------------------------------------------------
// Changes to try
// ---------------------------------------------------------------------------

/// How many mods are switched for a trial.
pub const TRIED_MODS: usize = 3;

pub open spec fn tried_len(len: nat) -> nat {
    if len < TRIED_MODS {
        len
    } else {
        TRIED_MODS as nat
    }
}

/// The order with its first mods switched, and its ends exchanged.
pub open spec fn tried_order(order: Seq<ProfileEntry>) -> Seq<ProfileEntry> {
    let switched = Seq::new(
        order.len(),
        |i: int|
            if i < tried_len(order.len()) {
                ProfileEntry { id: order[i].id, enabled: !order[i].enabled }
            } else {
                order[i]
            },
    );
    if order.len() > 1 {
        mod_view::swapped(switched, 0, order.len() - 1)
    } else {
        switched
    }
}

/// Switches the first mods of the active profile and exchanges its ends, to see what a
/// ranking makes of it. The result is the lines of the trial.
pub fn try_changes(library: &mut Library) -> (lines: Vec<String>)
    ensures
        ({
            let at = mod_changes::active_place(*old(library));
            let order = mod_view::active_order(*old(library));
            let title = "Smart rank cache simulate (dry run)"@;
            if at < 0 {
                &&& *final(library) == *old(library)
                &&& text::texts(lines@) == seq![title, "No active profile"@]
            } else {
                &&& mod_changes::with_active_order(
                    *final(library),
                    *old(library),
                    tried_order(order),
                    old(library).modsettings_sync_enabled,
                )
                &&& text::texts(lines@) == seq![
                    title,
                    "Base profile: "@ + old(library).profiles@[at].name@,
                    "Toggled mods: "@ + text::decimal(tried_len(order.len())),
                ] + if order.len() > 0 {
                    seq!["First toggled: "@ + order[0].id@]
                } else {
                    Seq::empty()
                }
            }
        }),
{
    let ghost start = *library;
    let mut lines: Vec<String> = Vec::new();
    assert(text::texts(lines@) =~= Seq::<Seq<char>>::empty());
    add_line(&mut lines, "Smart rank cache simulate (dry run)".to_owned());
    proof {
        library::lemma_profile_index(library.profiles@, library.active_profile@);
    }
    let at = match find_profile(&library.profiles, library.active_profile.as_str()) {
        Some(at) => at,
        None => {
            add_line(&mut lines, "No active profile".to_owned());
            assert(text::texts(lines@) =~= seq![
                "Smart rank cache simulate (dry run)"@,
                "No active profile"@,
            ]);
            return lines;
        },
    };
    let len = library.profiles[at].order.len();
    let n: usize = if len < TRIED_MODS {
        len
    } else {
        TRIED_MODS
    };
    add_line(&mut lines, concat2("Base profile: ", library.profiles[at].name.as_str()));
    add_line(&mut lines, concat2("Toggled mods: ", show_usize(n).as_str()));
    if len > 0 {
        add_line(&mut lines, concat2("First toggled: ", library.profiles[at].order[0].id.as_str()));
    }
    let ghost said = text::texts(lines@);
    let ghost order = start.profiles@[at as int].order@;
    let mut i: usize = 0;
    while i < n
        invariant
            i <= n <= len,
            at < start.profiles@.len(),
            order == start.profiles@[at as int].order@,
            len == order.len(),
            *library == (Library { profiles: library.profiles, ..start }),
            library.profiles@.len() == start.profiles@.len(),
            library.profiles@[at as int] == (Profile {
                order: library.profiles@[at as int].order,
                ..start.profiles@[at as int]
            }),
            library.profiles@[at as int].order@.len() == len,
            forall|j: int|
                0 <= j < i ==> #[trigger] library.profiles@[at as int].order@[j] == (ProfileEntry {
                    id: order[j].id,
                    enabled: !order[j].enabled,
                }),
            forall|j: int|
                i <= j < len ==> #[trigger] library.profiles@[at as int].order@[j] == order[j],
            forall|j: int|
                0 <= j < start.profiles@.len() && j != at ==> #[trigger] library.profiles@[j]
                    == start.profiles@[j],
        decreases n - i,
    {
        let turned = ProfileEntry {
            id: library.profiles[at].order[i].id.clone(),
            enabled: !library.profiles[at].order[i].enabled,
        };
        library.profiles[at].order[i] = turned;
        i = i + 1;
    }
    if len > 1 {
        swap_entries(&mut library.profiles[at].order, 0, len - 1);
    }
    proof {
        assert(library.profiles@[at as int].order@ =~= tried_order(order));
        assert(said =~= seq![
            "Smart rank cache simulate (dry run)"@,
            "Base profile: "@ + start.profiles@[at as int].name@,
            "Toggled mods: "@ + text::decimal(tried_len(order.len())),
        ] + if order.len() > 0 {
            seq!["First toggled: "@ + order[0].id@]
        } else {
            Seq::empty()
        });
    }
    lines
}

// ---------------------------------------------------------------------------
// What was read
// ---------------------------------------------------------------------------

/// The rankings that were seen.
pub struct ScanLog {
    pub events: Vec<String>,
    /// How many of them read all mods.
    pub full_rebuilds: usize,
    pub last_scan_id: Option<u64>,
}

pub open spec fn event_line(kind: SmartRankRefreshMode) -> Seq<char> {
    "scan kind="@ + rank_scenario::mode_word(kind)
}

/// What seeing a ranking does: it is noted once.
pub open spec fn saw(
    after: ScanLog,
    before: ScanLog,
    scan: Option<u64>,
    kind: Option<SmartRankRefreshMode>,
) -> bool {
    if scan is None || scan == before.last_scan_id {
        after == before
    } else {
        &&& after.last_scan_id == scan
        &&& text::texts(after.events@) == match kind {
            Some(k) => text::texts(before.events@).push(event_line(k)),
            None => text::texts(before.events@),
        }
        &&& after.full_rebuilds == if kind == Some(SmartRankRefreshMode::Full) {
            before.full_rebuilds + 1
        } else {
            before.full_rebuilds as int
        }
    }
}

impl ScanLog {
    pub fn new() -> (r: Self)
        ensures
            r.events@.len() == 0,
            r.full_rebuilds == 0,
            r.last_scan_id is None,
    {
        ScanLog { events: Vec::new(), full_rebuilds: 0, last_scan_id: None }
    }

    /// Notes a ranking that is under way, unless it was noted.
    pub fn see(&mut self, scan: Option<u64>, kind: Option<SmartRankRefreshMode>)
        requires
            old(self).full_rebuilds < usize::MAX,
        ensures
            saw(*final(self), *old(self), scan, kind),
    {
        if let Some(id) = scan {
            let seen = match self.last_scan_id {
                Some(last) => last == id,
                None => false,
            };
            if !seen {
                if let Some(k) = kind {
                    add_line(&mut self.events, concat2("scan kind=", show_mode(k)));
                    if matches!(k, SmartRankRefreshMode::Full) {
                        self.full_rebuilds = self.full_rebuilds + 1;
                    }
                }
                self.last_scan_id = Some(id);
            }
        }
    }

    /// The lines on what was seen; `label` says after what.
    pub open spec fn lines(self, label: Seq<char>) -> Seq<Seq<char>> {
        seq![label + "refresh events: "@ + text::decimal(self.events@.len())] + text::texts(
            self.events@,
        ) + seq![label + "full rebuilds: "@ + text::decimal(self.full_rebuilds as nat)]
    }

    pub fn add_to(&self, lines: &mut Vec<String>, label: &str)
        ensures
            text::texts(final(lines)@) == text::texts(old(lines)@) + self.lines(label@),
    {
        let ghost start = text::texts(lines@);
        let ghost goal = text::texts(self.events@);
        let ghost head = seq![label@ + "refresh events: "@ + text::decimal(self.events@.len())];
        add_line(
            lines,
            concat3(label, "refresh events: ", show_usize(self.events.len()).as_str()),
        );
        let mut i: usize = 0;
        assert(text::texts(lines@) =~= start + (head + goal.take(0)));
        while i < self.events.len()
            invariant
                i <= self.events.len(),
                goal == text::texts(self.events@),
                text::texts(lines@) == start + (head + goal.take(i as int)),
            decreases self.events.len() - i,
        {
            add_line(lines, self.events[i].clone());
            i = i + 1;
            assert(goal.take(i as int) =~= goal.take(i - 1).push(goal[i - 1]));
            assert(text::texts(lines@) =~= start + (head + goal.take(i as int)));
        }
        add_line(
            lines,
            concat3(label, "full rebuilds: ", show_usize(self.full_rebuilds).as_str()),
        );
        assert(goal.take(i as int) =~= goal);
        assert(text::texts(lines@) =~= start + self.lines(label@));
    }
}

// ---------------------------------------------------------------------------
// Archives to try
// ---------------------------------------------------------------------------

/// How many archives are tried.
pub const TRIED_ARCHIVES: usize = 2;

/// Whether a path is that of an archive of mods: by its ending, all small or all capital.
pub open spec fn is_archive(path: Seq<char>) -> bool {
    match paths::base_name(path) {
        Some(name) => match paths::extension_of(name) {
            Some(ext) => ext == "zip"@ || ext == "ZIP"@ || ext == "7z"@ || ext == "7Z"@ || ext
                == "rar"@ || ext == "RAR"@,
            None => false,
        },
        None => false,
    }
}

pub open spec fn archives_only() -> spec_fn(Seq<char>) -> bool {
    |p: Seq<char>| is_archive(p)
}

fn check_archive(path: &str) -> (r: bool)
    ensures
        r == is_archive(path@),
{
    match file_name(path) {
        Some(name) => match extension(name.as_str()) {
            Some(ext) => {
                let e = ext.as_str();
                same_text(e, "zip") || same_text(e, "ZIP") || same_text(e, "7z") || same_text(
                    e,
                    "7Z",
                ) || same_text(e, "rar") || same_text(e, "RAR")
            },
            None => false,
        },
        None => false,
    }
}

/// The first archives among some paths, in order.
pub fn pick_archives(found: &Vec<String>) -> (out: Vec<String>)
    ensures
        ({
            let all = sorting::sorted_texts(text::texts(found@).filter(archives_only()));
            text::texts(out@) == all.take(
                if all.len() < TRIED_ARCHIVES {
                    all.len() as int
                } else {
                    TRIED_ARCHIVES as int
                },
            )
        }),
{
    let ghost all = text::texts(found@);
    let ghost keeps = archives_only();
    let mut list: Vec<String> = Vec::new();
    let mut i: usize = 0;
    proof {
        lists::lemma_filter_whole(all, keeps);
        assert(text::texts(list@) =~= Seq::<Seq<char>>::empty());
    }
    while i < found.len()
        invariant
            i <= found.len(),
            all == text::texts(found@),
            keeps == archives_only(),
            text::texts(list@) == all.take(i as int).filter(keeps),
        decreases found.len() - i,
    {
        proof {
            lists::lemma_keep_item(all, i as int, keeps);
            assert(all[i as int] == found@[i as int]@);
        }
        if check_archive(found[i].as_str()) {
            add_line(&mut list, found[i].clone());
        }
        i = i + 1;
    }
    proof {
        lists::lemma_filter_whole(all, keeps);
    }
    let mut sorted = sort_texts(list);
    let ghost whole = text::texts(sorted@);
    while sorted.len() > TRIED_ARCHIVES
        invariant
            sorted.len() <= whole.len(),
            text::texts(sorted@) == whole.take(sorted.len() as int),
            whole.len() >= TRIED_ARCHIVES ==> sorted.len() >= TRIED_ARCHIVES,
            whole.len() < TRIED_ARCHIVES ==> sorted.len() == whole.len(),
        decreases sorted.len(),
    {
        let ghost before = sorted@;
        sorted.pop();
        assert(sorted@ =~= before.drop_last());
        assert(text::texts(sorted@) =~= whole.take(sorted.len() as int));
    }
    sorted
}

} // verus!
