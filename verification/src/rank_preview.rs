//! What a ranking would change, and taking it over.
use crate::actions;
use crate::actions::{log, no_actions, say, Action, ActionView, LogLevel};
use crate::cli_lists;
use crate::cli_lists::index_entries;
use crate::library;
use crate::library::{display_mod_name, find_profile, Library, ModEntry, ProfileEntry};
use crate::mod_changes;
use crate::rank_explain::SmartRankExplain;
use crate::smart_rank::{SmartRankReport, SmartRankResult};
use crate::text;
use crate::text::{concat2, push_text, show_u64, show_usize};
use vstd::hash_map::StringHashMap;
use vstd::prelude::*;

verus! {

/// A mod that would stand elsewhere.
#[derive(Debug)]
pub struct SmartRankMove {
    pub name: String,
    pub from: usize,
    pub to: usize,
    pub created_at: Option<i64>,
    pub added_at: i64,
}

/// What is shown of a ranking.
#[derive(Debug, Clone, Copy, PartialEq, Eq, Structural)]
pub enum SmartRankView {
    Changes,
    Explain,
}

/// A ranking that can be taken over.
#[derive(Debug)]
pub struct SmartRankPreview {
    pub proposed: Vec<ProfileEntry>,
    pub report: SmartRankReport,
    pub moves: Vec<SmartRankMove>,
    pub warnings: Vec<String>,
    pub explain: SmartRankExplain,
}

pub struct MoveView {
    pub name: Seq<char>,
    pub from: int,
    pub to: int,
    pub created_at: Option<i64>,
    pub added_at: i64,
}

pub open spec fn move_views(list: Seq<SmartRankMove>) -> Seq<MoveView> {
    Seq::new(
        list.len(),
        |i: int|
            MoveView {
                name: list[i].name@,
                from: list[i].from as int,
                to: list[i].to as int,
                created_at: list[i].created_at,
                added_at: list[i].added_at,
            },
    )
}

// ---------------------------------------------------------------------------
// What moves
// ---------------------------------------------------------------------------

/// The move of the mod with an id.
pub open spec fn move_of(mods: Seq<ModEntry>, id: Seq<char>, from: int, to: int) -> MoveView {
    let k = library::last_index(mods, id);
    MoveView {
        name: library::mod_name(mods, id),
        from,
        to,
        created_at: if k >= 0 {
            mods[k].created_at
        } else {
            None
        },
        added_at: if k >= 0 {
            mods[k].added_at
        } else {
            0
        },
    }
}

/// The moves of the mods of the first `n` entries. Where a mod stands twice, its last
/// entry counts.
pub open spec fn moves(
    order: Seq<ProfileEntry>,
    proposed: Seq<ProfileEntry>,
    mods: Seq<ModEntry>,
    n: int,
) -> Seq<MoveView>
    decreases n,
{
    if n <= 0 {
        Seq::empty()
    } else {
        let before = moves(order, proposed, mods, n - 1);
        let id = order[n - 1].id@;
        let to = cli_lists::last_entry(proposed, id);
        if cli_lists::last_entry(order, id) == n - 1 && to >= 0 && to != n - 1 {
            before.push(move_of(mods, id, n - 1, to))
        } else {
            before
        }
    }
}

fn find_moves(
    order: &Vec<ProfileEntry>,
    proposed: &Vec<ProfileEntry>,
    mods: &Vec<ModEntry>,
    index: &StringHashMap<usize>,
) -> (out: Vec<SmartRankMove>)
    requires
        library::indexes(index@, mods@),
    ensures
        move_views(out@) == moves(order@, proposed@, mods@, order@.len() as int),
{
    let here = index_entries(order);
    let there = index_entries(proposed);
    let mut out: Vec<SmartRankMove> = Vec::new();
    let mut i: usize = 0;
    assert(move_views(out@) =~= Seq::<MoveView>::empty());
    while i < order.len()
        invariant
            i <= order.len(),
            library::indexes(index@, mods@),
            cli_lists::finds_entries(here@, order@),
            cli_lists::finds_entries(there@, proposed@),
            move_views(out@) == moves(order@, proposed@, mods@, i as int),
        decreases order.len() - i,
    {
        let id = order[i].id.as_str();
        let ghost before = out@;
        proof {
            assert(here@.contains_key(id@) || !here@.contains_key(id@));
            assert(there@.contains_key(id@) || !there@.contains_key(id@));
            library::lemma_last_index(mods@, id@);
            assert(index@.contains_key(id@) || !index@.contains_key(id@));
        }
        if let (Some(from), Some(to)) = (here.get(id), there.get(id)) {
            if *from == i && *to != i {
                let name = display_mod_name(id, mods, index);
                let (created_at, added_at) = match index.get(id) {
                    Some(k) => (mods[*k].created_at, mods[*k].added_at),
                    None => (None, 0),
                };
                out.push(SmartRankMove { name, from: i, to: *to, created_at, added_at });
                assert(move_views(out@) =~= move_views(before).push(
                    move_of(mods@, id@, i as int, *to as int),
                ));
            }
        }
        i = i + 1;
    }
    out
}

// ---------------------------------------------------------------------------
// Showing a ranking
// ---------------------------------------------------------------------------

pub open spec fn pair(a: usize, b: usize) -> Seq<char> {
    text::decimal(a as nat) + "/"@ + text::decimal(b as nat)
}

/// The log line of a ranking.
pub open spec fn scan_line(r: SmartRankReport) -> Seq<char> {
    "Smart rank scan: loose "@ + pair(r.scanned_loose, r.enabled_loose) + " pak "@ + pair(
        r.scanned_pak,
        r.enabled_pak,
    ) + " in "@ + text::decimal(r.elapsed_ms as nat) + "ms (missing loose "@ + text::decimal(
        r.missing_loose as nat,
    ) + ", pak "@ + text::decimal(r.missing_pak as nat) + ")"@
}

pub(crate) fn show_pair(a: usize, b: usize) -> (r: String)
    ensures
        r@ == pair(a, b),
{
    let mut r = concat2(show_usize(a).as_str(), "/");
    push_text(&mut r, show_usize(b).as_str());
    r
}

fn show_scan(report: &SmartRankReport) -> (r: String)
    ensures
        r@ == scan_line(*report),
{
    let mut r = concat2(
        "Smart rank scan: loose ",
        show_pair(report.scanned_loose, report.enabled_loose).as_str(),
    );
    push_text(&mut r, " pak ");
    push_text(&mut r, show_pair(report.scanned_pak, report.enabled_pak).as_str());
    push_text(&mut r, " in ");
    push_text(&mut r, show_u64(report.elapsed_ms).as_str());
    push_text(&mut r, "ms (missing loose ");
    push_text(&mut r, show_usize(report.missing_loose).as_str());
    push_text(&mut r, ", pak ");
    push_text(&mut r, show_usize(report.missing_pak).as_str());
    push_text(&mut r, ")");
    r
}

/// What is said of a ranking, besides its log line.
pub open spec fn preview_says(library: Library, result: SmartRankResult) -> Seq<ActionView> {
    let at = mod_changes::active_place(library);
    let order = library.profiles@[at].order@;
    let all = moves(order, result.order@, library.mods@, order.len() as int);
    if at < 0 {
        seq![ActionView::Status("Smart ranking skipped: no profile"@)]
    } else if result.order@.len() != order.len() {
        seq![
            ActionView::Status("Smart ranking skipped: incomplete order"@),
            ActionView::Log(LogLevel::Warn, "Smart ranking skipped: incomplete order"@),
        ]
    } else if all.len() == 0 && result.report.missing == 0 && result.warnings@.len() == 0 {
        seq![ActionView::Status("Smart ranking: no changes"@)]
    } else {
        seq![ActionView::Status("Smart ranking preview ready"@)]
    }
}

/// Whether there is something to be shown of a ranking.
pub open spec fn shows_ranking(library: Library, result: SmartRankResult) -> bool {
    let at = mod_changes::active_place(library);
    let order = library.profiles@[at].order@;
    let all = moves(order, result.order@, library.mods@, order.len() as int);
    at >= 0 && result.order@.len() == order.len() && (all.len() > 0 || result.report.missing > 0
        || result.warnings@.len() > 0)
}

/// Shows a ranking, where it is one of the active load order and changes anything.
pub fn finalize_smart_rank_preview(library: &Library, result: SmartRankResult) -> (r: (
    Option<SmartRankPreview>,
    Vec<Action>,
))
    ensures
        actions::action_views(r.1@) == seq![
            ActionView::Log(LogLevel::Info, scan_line(result.report)),
        ] + preview_says(*library, result),
        match r.0 {
            Some(p) => {
                let order = library.profiles@[mod_changes::active_place(*library)].order@;
                &&& shows_ranking(*library, result)
                &&& p.proposed == result.order
                &&& p.report == result.report
                &&& p.warnings == result.warnings
                &&& p.explain == result.explain
                &&& move_views(p.moves@) == moves(
                    order,
                    result.order@,
                    library.mods@,
                    order.len() as int,
                )
            },
            None => !shows_ranking(*library, result),
        },
{
    let mut out = no_actions();
    log(&mut out, LogLevel::Info, show_scan(&result.report).as_str());
    let ghost line = actions::action_views(out@);
    proof {
        library::lemma_profile_index(library.profiles@, library.active_profile@);
    }
    let at = match find_profile(&library.profiles, library.active_profile.as_str()) {
        Some(at) => at,
        None => {
            say(&mut out, "Smart ranking skipped: no profile");
            assert(actions::action_views(out@) =~= line + preview_says(*library, result));
            return (None, out);
        },
    };
    let order = &library.profiles[at].order;
    if result.order.len() != order.len() {
        say(&mut out, "Smart ranking skipped: incomplete order");
        log(&mut out, LogLevel::Warn, "Smart ranking skipped: incomplete order");
        assert(actions::action_views(out@) =~= line + preview_says(*library, result));
        return (None, out);
    }
    let index = library.index_by_id();
    let all = find_moves(order, &result.order, &library.mods, &index);
    assert(move_views(all@).len() == all@.len());
    if all.is_empty() && result.report.missing == 0 && result.warnings.is_empty() {
        say(&mut out, "Smart ranking: no changes");
        assert(actions::action_views(out@) =~= line + preview_says(*library, result));
        return (None, out);
    }
    say(&mut out, "Smart ranking preview ready");
    assert(actions::action_views(out@) =~= line + preview_says(*library, result));
    let SmartRankResult { order: proposed, report, warnings, explain } = result;
    (Some(SmartRankPreview { proposed, report, moves: all, warnings, explain }), out)
}

// ---------------------------------------------------------------------------
// Taking a ranking over
// ---------------------------------------------------------------------------

/// The warnings as log entries.
pub open spec fn warning_logs(warnings: Seq<String>) -> Seq<ActionView> {
    Seq::new(warnings.len(), |i: int| ActionView::Log(LogLevel::Warn, warnings[i]@))
}

pub open spec fn applied_status(r: SmartRankReport) -> Seq<char> {
    "Smart ranking applied: "@ + pair(r.moved, r.total) + if r.missing > 0 {
        " (missing "@ + text::decimal(r.missing as nat) + ")"@
    } else {
        " mod(s)"@
    }
}

/// What is said and done once a ranking was taken over.
pub open spec fn applied_says(p: SmartRankPreview) -> Seq<ActionView> {
    seq![ActionView::SaveLibrary, ActionView::Status(applied_status(p.report))] + (
    if p.report.conflicts > 0 {
        seq![
            ActionView::Log(
                LogLevel::Info,
                "Smart ranking analyzed "@ + text::decimal(p.report.conflicts as nat)
                    + " conflict set(s)"@,
            ),
        ]
    } else {
        Seq::empty()
    }) + warning_logs(p.warnings@) + seq![ActionView::Deploy("smart ranking"@)]
}

/// What taking a ranking over into the active load order comes to.
pub open spec fn preview_applied(
    after: Library,
    before: Library,
    preview: SmartRankPreview,
    says: Seq<ActionView>,
) -> bool {
    let at = mod_changes::active_place(before);
    if at < 0 {
        &&& after == before
        &&& says == seq![ActionView::Status("Smart ranking skipped: no profile"@)]
    } else if preview.proposed@.len() != before.profiles@[at].order@.len() {
        &&& after == before
        &&& says == seq![ActionView::Status("Smart ranking skipped: incomplete order"@)]
    } else {
        &&& mod_changes::with_active_order(
            after,
            before,
            preview.proposed@,
            before.modsettings_sync_enabled,
        )
        &&& says == applied_says(preview)
    }
}

impl Library {
    /// Takes a ranking over into the active load order, where it is as long.
    pub fn apply_smart_rank_preview(&mut self, preview: SmartRankPreview) -> (out: Vec<Action>)
        ensures
            preview_applied(*final(self), *old(self), preview, actions::action_views(out@)),
    {
        let mut out = no_actions();
        proof {
            library::lemma_profile_index(self.profiles@, self.active_profile@);
        }
        let at = match find_profile(&self.profiles, self.active_profile.as_str()) {
            Some(at) => at,
            None => {
                say(&mut out, "Smart ranking skipped: no profile");
                return out;
            },
        };
        if preview.proposed.len() != self.profiles[at].order.len() {
            say(&mut out, "Smart ranking skipped: incomplete order");
            return out;
        }
        let SmartRankPreview { proposed, report, moves: _, warnings, explain: _ } = preview;
        self.profiles[at].order = proposed;
        actions::also(&mut out, Action::SaveLibrary);
        let mut status = concat2(
            "Smart ranking applied: ",
            show_pair(report.moved, report.total).as_str(),
        );
        if report.missing > 0 {
            let mut tail = concat2(" (missing ", show_usize(report.missing).as_str());
            push_text(&mut tail, ")");
            push_text(&mut status, tail.as_str());
        } else {
            push_text(&mut status, " mod(s)");
        }
        say(&mut out, status.as_str());
        let ghost first = actions::action_views(out@);
        assert(first =~= seq![
            ActionView::SaveLibrary,
            ActionView::Status(applied_status(report)),
        ]);
        if report.conflicts > 0 {
            let mut line = concat2("Smart ranking analyzed ", show_usize(report.conflicts).as_str());
            push_text(&mut line, " conflict set(s)");
            log(&mut out, LogLevel::Info, line.as_str());
        }
        let ghost second = actions::action_views(out@);
        let mut i: usize = 0;
        assert(second =~= second + warning_logs(warnings@).take(0));
        while i < warnings.len()
            invariant
                i <= warnings.len(),
                actions::action_views(out@) == second + warning_logs(warnings@).take(i as int),
            decreases warnings.len() - i,
        {
            log(&mut out, LogLevel::Warn, warnings[i].as_str());
            i = i + 1;
            assert(actions::action_views(out@) =~= second + warning_logs(warnings@).take(i as int));
        }
        assert(warning_logs(warnings@).take(i as int) =~= warning_logs(warnings@));
        actions::also(&mut out, Action::Deploy("smart ranking".to_owned()));
        assert(actions::action_views(out@) =~= applied_says(preview));
        out
    }
}

} // verus!
