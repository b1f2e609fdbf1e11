//! Imports from the command line.
use crate::actions;
use crate::actions::{also, no_actions, Action, ActionView};
use crate::cli::CliVerbosity;
use crate::dialogs;
use crate::dialogs::show_failure;
use crate::duplicates;
use crate::duplicates::{find_decision, DuplicateDecision, DuplicateKind};
use crate::importer::{ImportFailure, ImportSource, ImportStage};
use crate::input_text;
use crate::input_text::{summarize_error, CliDuplicateAction};
use crate::library::{Library, ModEntry};
use crate::mod_removal;
use crate::text;
use crate::text::{concat2, concat3, same_text, show_u64, show_usize};
use vstd::prelude::*;

verus! {

/// A line to be printed.
#[derive(Debug)]
pub enum CliLine {
    Out(String),
    /// One for the error output.
    Warn(String),
}

pub enum LineView {
    Out(Seq<char>),
    Warn(Seq<char>),
}

impl CliLine {
    pub open spec fn shown(self) -> LineView {
        match self {
            CliLine::Out(t) => LineView::Out(t@),
            CliLine::Warn(t) => LineView::Warn(t@),
        }
    }
}

pub open spec fn line_views(list: Seq<CliLine>) -> Seq<LineView> {
    Seq::new(list.len(), |i: int| list[i].shown())
}

fn print(out: &mut Vec<CliLine>, line: CliLine)
    ensures
        line_views(final(out)@) == line_views(old(out)@).push(line.shown()),
{
    let ghost before = out@;
    out.push(line);
    assert(line_views(out@) =~= line_views(before).push(line.shown()));
}

fn no_lines() -> (out: Vec<CliLine>)
    ensures
        line_views(out@) == Seq::<LineView>::empty(),
        out@.len() == 0,
{
    let out: Vec<CliLine> = Vec::new();
    assert(line_views(out@) =~= Seq::<LineView>::empty());
    out
}

/// A line that is no error, unless errors alone are to be printed.
pub open spec fn unless_quiet(v: CliVerbosity, line: LineView) -> Seq<LineView> {
    if v == CliVerbosity::Quiet {
        Seq::empty()
    } else {
        seq![line]
    }
}

fn print_unless_quiet(v: CliVerbosity, line: CliLine) -> (out: Vec<CliLine>)
    ensures
        line_views(out@) == unless_quiet(v, line.shown()),
{
    let mut out = no_lines();
    if !matches!(v, CliVerbosity::Quiet) {
        print(&mut out, line);
    }
    out
}

/// An error, which is printed in any case.
fn print_error(line: String) -> (out: Vec<CliLine>)
    ensures
        line_views(out@) == seq![LineView::Warn(line@)],
{
    let mut out = no_lines();
    print(&mut out, CliLine::Warn(line));
    assert(line_views(out@) =~= seq![LineView::Warn(line@)]);
    out
}

/// Whether the failures of parts are told one by one: a plain run tells them at its end.
pub open spec fn tells_parts(v: CliVerbosity) -> bool {
    v != CliVerbosity::Normal
}

/// Whether details are told.
pub open spec fn tells_more(v: CliVerbosity) -> bool {
    v == CliVerbosity::Verbose || v == CliVerbosity::Debug
}

// ---------------------------------------------------------------------------
// Decisions
// ---------------------------------------------------------------------------

/// What becomes of a mod.
pub enum CliNext {
    Approve(ModEntry),
    Decided { decision: DuplicateDecision, overwrite: bool },
    Ask(DuplicateDecision),
}

/// What becomes of a mod: it is taken in where it clashes with none; else what was
/// decided for all counts, or the user is asked.
pub fn next_mod(mods: &Vec<ModEntry>, m: ModEntry, apply_all: Option<bool>) -> (r: CliNext)
    ensures
        match r {
            CliNext::Approve(free) => free == m && duplicates::clash(mods@, m) is Free,
            CliNext::Decided { decision, overwrite } => duplicates::clash(mods@, m) !is Free
                && duplicates::is_decision(decision, mods@, m) && apply_all == Some(overwrite),
            CliNext::Ask(decision) => duplicates::clash(mods@, m) !is Free
                && duplicates::is_decision(decision, mods@, m) && apply_all is None,
        },
{
    match find_decision(mods, m) {
        Ok(free) => CliNext::Approve(free),
        Err(decision) => match apply_all {
            Some(overwrite) => CliNext::Decided { decision, overwrite },
            None => CliNext::Ask(decision),
        },
    }
}

/// What an answer decides, and what is decided for all from then on.
pub open spec fn decided(answer: CliDuplicateAction, before: Option<bool>) -> (bool, Option<bool>) {
    match answer {
        CliDuplicateAction::Overwrite => (true, before),
        CliDuplicateAction::Skip => (false, before),
        CliDuplicateAction::OverwriteAll => (true, Some(true)),
        CliDuplicateAction::SkipAll => (false, Some(false)),
    }
}

pub fn take_answer(answer: CliDuplicateAction, apply_all: Option<bool>) -> (r: (bool, Option<bool>))
    ensures
        r == decided(answer, apply_all),
{
    match answer {
        CliDuplicateAction::Overwrite => (true, apply_all),
        CliDuplicateAction::Skip => (false, apply_all),
        CliDuplicateAction::OverwriteAll => (true, Some(true)),
        CliDuplicateAction::SkipAll => (false, Some(false)),
    }
}

/// What a decision does.
pub open spec fn cli_decision_says(mods: Seq<ModEntry>, d: DuplicateDecision, overwrite: bool) -> Seq<
    ActionView,
> {
    if !overwrite {
        seq![ActionView::RemoveModRoot(d.mod_entry.id@)]
    } else if d.existing_id@ != d.mod_entry.id@ {
        mod_removal::removal_says(mods, d.existing_id@, false)
    } else {
        Seq::empty()
    }
}

/// Carries a decision out. The result is the mod, where it is taken in, and what is to
/// be done.
pub fn apply_cli_decision(library: &mut Library, decision: DuplicateDecision, overwrite: bool) -> (
r: (Option<ModEntry>, Vec<Action>))
    ensures
        mod_removal::after_decision(*final(library), *old(library), decision, overwrite),
        r.0 == if overwrite {
            Some(decision.mod_entry)
        } else {
            None
        },
        actions::action_views(r.1@) == cli_decision_says(old(library).mods@, decision, overwrite),
{
    if !overwrite {
        let mut out = no_actions();
        also(&mut out, Action::RemoveModRoot(decision.mod_entry.id.clone()));
        return (None, out);
    }
    if same_text(decision.existing_id.as_str(), decision.mod_entry.id.as_str()) {
        return (Some(decision.mod_entry), no_actions());
    }
    let (_, out) = library.remove_mod_by_id_with_options(decision.existing_id.as_str(), false);
    (Some(decision.mod_entry), out)
}

/// What is printed before the user is asked.
pub open spec fn question(d: DuplicateDecision) -> Seq<Seq<char>> {
    seq![
        Seq::empty(),
        "Duplicate mod detected:"@,
        "  New: "@ + d.mod_entry.shown_name(),
        "  Existing: "@ + d.existing_label@,
    ] + (match d.kind {
        DuplicateKind::Exact => Seq::empty(),
        DuplicateKind::Similar { likeness, .. } => seq![
            "  Similarity: "@ + text::decimal(likeness.percent() as nat) + "%"@,
        ],
    }) + (match d.default_overwrite {
        Some(true) => seq!["  Default: overwrite (newer)"@],
        Some(false) => seq!["  Default: skip (existing newer)"@],
        None => Seq::empty(),
    })
}

fn add_line(out: &mut Vec<String>, line: String)
    ensures
        text::texts(final(out)@) == text::texts(old(out)@).push(line@),
{
    proof {
        text::lemma_texts_push(out@, line);
    }
    out.push(line);
}

pub fn duplicate_question(d: &DuplicateDecision) -> (out: Vec<String>)
    requires
        duplicates::can_show(*d),
    ensures
        text::texts(out@) == question(*d),
{
    let mut out: Vec<String> = Vec::new();
    assert(text::texts(out@) =~= Seq::<Seq<char>>::empty());
    let empty = String::new();
    assert(empty@ =~= Seq::<char>::empty());
    add_line(&mut out, empty);
    add_line(&mut out, "Duplicate mod detected:".to_owned());
    add_line(&mut out, concat2("  New: ", d.mod_entry.display_name().as_str()));
    add_line(&mut out, concat2("  Existing: ", d.existing_label.as_str()));
    if let DuplicateKind::Similar { likeness, .. } = &d.kind {
        add_line(
            &mut out,
            concat3("  Similarity: ", show_u64(likeness.in_percent()).as_str(), "%"),
        );
    }
    match d.default_overwrite {
        Some(true) => add_line(&mut out, "  Default: overwrite (newer)".to_owned()),
        Some(false) => add_line(&mut out, "  Default: skip (existing newer)".to_owned()),
        None => {},
    }
    assert(text::texts(out@) =~= question(*d));
    out
}

// ---------------------------------------------------------------------------
// A run
// ---------------------------------------------------------------------------

/// What an import from the command line came to so far.
pub struct CliImportRun {
    pub verbosity: CliVerbosity,
    pub total_imported: usize,
    /// How many mods came from the path at hand.
    pub path_imported: usize,
    pub failures: Vec<ImportFailure>,
}

pub open spec fn sum(a: usize, b: usize) -> usize {
    if a + b > usize::MAX {
        usize::MAX
    } else {
        (a + b) as usize
    }
}

/// Whether failures are others and one more.
pub open spec fn one_failure_more(
    after: Seq<ImportFailure>,
    before: Seq<ImportFailure>,
    label: Seq<char>,
    error: Seq<char>,
) -> bool {
    &&& after.len() == before.len() + 1
    &&& after.drop_last() == before
    &&& after.last().source.label@ == label
    &&& after.last().error@ == error
}

impl CliImportRun {
    pub fn new(verbosity: CliVerbosity) -> (r: Self)
        ensures
            r.verbosity == verbosity,
            r.total_imported == 0,
            r.path_imported == 0,
            r.failures@.len() == 0,
    {
        CliImportRun { verbosity, total_imported: 0, path_imported: 0, failures: Vec::new() }
    }

    fn fail(&mut self, label: &str, error: &str)
        ensures
            *final(self) == (CliImportRun { failures: final(self).failures, ..*old(self) }),
            one_failure_more(final(self).failures@, old(self).failures@, label@, error@),
    {
        self.failures.push(
            ImportFailure {
                source: ImportSource { label: label.to_owned() },
                error: error.to_owned(),
            },
        );
        assert(self.failures@.drop_last() =~= old(self).failures@);
    }

    /// Takes in that there is nothing at a path.
    pub fn path_missing(&mut self, path: &str) -> (out: Vec<CliLine>)
        ensures
            *final(self) == (CliImportRun { failures: final(self).failures, ..*old(self) }),
            one_failure_more(
                final(self).failures@,
                old(self).failures@,
                path@,
                "path not found"@,
            ),
            line_views(out@) == seq![LineView::Warn("Import path not found: "@ + path@)],
    {
        self.fail(path, "path not found");
        print_error(concat2("Import path not found: ", path))
    }

    /// Begins with a path.
    pub fn path_begun(&mut self, path: &str) -> (out: Vec<CliLine>)
        ensures
            *final(self) == (CliImportRun { path_imported: 0, ..*old(self) }),
            line_views(out@) == unless_quiet(
                old(self).verbosity,
                LineView::Out("Importing: "@ + path@),
            ),
    {
        self.path_imported = 0;
        print_unless_quiet(self.verbosity, CliLine::Out(concat2("Importing: ", path)))
    }

    /// Takes in that the import of a path failed.
    pub fn path_failed(&mut self, path: &str, error: &str) -> (out: Vec<CliLine>)
        ensures
            *final(self) == (CliImportRun { failures: final(self).failures, ..*old(self) }),
            one_failure_more(final(self).failures@, old(self).failures@, path@, error@),
            line_views(out@) == seq![
                LineView::Warn(
                    "Import failed: "@ + path@ + " ("@ + input_text::summary(error@) + ")"@,
                ),
            ],
    {
        self.fail(path, error);
        let mut line = concat3("Import failed: ", path, " (");
        line.append(summarize_error(error).as_str());
        line.append(")");
        print_error(line)
    }

    /// Takes in that nothing at a path is known to be a mod.
    pub fn path_unrecognized(&mut self, path: &str) -> (out: Vec<CliLine>)
        ensures
            *final(self) == (CliImportRun { failures: final(self).failures, ..*old(self) }),
            one_failure_more(
                final(self).failures@,
                old(self).failures@,
                path@,
                "unrecognized layout"@,
            ),
            line_views(out@) == seq![
                LineView::Warn("Unrecognized mod layout for "@ + path@ + " (skipped)"@),
            ],
    {
        self.fail(path, "unrecognized layout");
        print_error(concat3("Unrecognized mod layout for ", path, " (skipped)"))
    }

    /// Takes in that parts of a path failed.
    pub fn parts_failed(&mut self, failures: Vec<ImportFailure>) -> (out: Vec<CliLine>)
        ensures
            *final(self) == (CliImportRun { failures: final(self).failures, ..*old(self) }),
            final(self).failures@ == old(self).failures@ + failures@,
            line_views(out@) == if tells_parts(old(self).verbosity) {
                part_lines(failures@)
            } else {
                Seq::empty()
            },
    {
        let mut out = no_lines();
        if !matches!(self.verbosity, CliVerbosity::Normal) {
            let mut i: usize = 0;
            assert(line_views(out@) =~= part_lines(failures@).take(0));
            while i < failures.len()
                invariant
                    i <= failures.len(),
                    line_views(out@) == part_lines(failures@).take(i as int),
                decreases failures.len() - i,
            {
                let mut line = concat3("Import failed: ", failures[i].source.label.as_str(), " (");
                line.append(summarize_error(failures[i].error.as_str()).as_str());
                line.append(")");
                print(&mut out, CliLine::Warn(line));
                i = i + 1;
                assert(line_views(out@) =~= part_lines(failures@).take(i as int));
            }
            assert(part_lines(failures@).take(i as int) =~= part_lines(failures@));
        }
        let mut more = failures;
        self.failures.append(&mut more);
        out
    }

    /// Begins with the mods of one source.
    pub fn batch_begun(&self, label: &str) -> (out: Vec<CliLine>)
        ensures
            line_views(out@) == if tells_more(self.verbosity) {
                seq![LineView::Out("  Source: "@ + label@)]
            } else {
                Seq::empty()
            },
    {
        let mut out = no_lines();
        if matches!(self.verbosity, CliVerbosity::Verbose) || matches!(
            self.verbosity,
            CliVerbosity::Debug
        ) {
            print(&mut out, CliLine::Out(concat2("  Source: ", label)));
        }
        out
    }

    /// Takes in that mods are in the library.
    pub fn batch_applied(&mut self, count: usize)
        ensures
            *final(self) == (CliImportRun {
                path_imported: sum(old(self).path_imported, count),
                ..*old(self)
            }),
    {
        self.path_imported = self.path_imported.saturating_add(count);
    }

    /// Takes in that mods could not be taken into the library.
    pub fn batch_failed(&mut self, label: &str, error: &str) -> (out: Vec<CliLine>)
        ensures
            *final(self) == (CliImportRun { failures: final(self).failures, ..*old(self) }),
            one_failure_more(final(self).failures@, old(self).failures@, label@, error@),
            line_views(out@) == seq![
                LineView::Warn(
                    "Import apply failed: "@ + label@ + " ("@ + input_text::summary(error@) + ")"@,
                ),
            ],
    {
        self.fail(label, error);
        let mut line = concat3("Import apply failed: ", label, " (");
        line.append(summarize_error(error).as_str());
        line.append(")");
        print_error(line)
    }

    /// Is done with a path.
    pub fn path_done(&mut self, path: &str, millis: u64) -> (out: Vec<CliLine>)
        ensures
            *final(self) == (CliImportRun {
                total_imported: sum(old(self).total_imported, old(self).path_imported),
                ..*old(self)
            }),
            line_views(out@) == unless_quiet(
                old(self).verbosity,
                LineView::Out(
                    "Imported "@ + text::decimal(old(self).path_imported as nat) + " mod(s) from "@
                        + path@ + " in "@ + text::decimal(millis as nat) + "ms"@,
                ),
            ),
    {
        self.total_imported = self.total_imported.saturating_add(self.path_imported);
        let mut line = concat3("Imported ", show_usize(self.path_imported).as_str(), " mod(s) from ");
        line.append(path);
        line.append(" in ");
        line.append(show_u64(millis).as_str());
        line.append("ms");
        print_unless_quiet(self.verbosity, CliLine::Out(line))
    }

    /// What the run came to.
    pub fn summary(&self) -> (out: Vec<CliLine>)
        ensures
            line_views(out@) == if self.verbosity == CliVerbosity::Quiet {
                Seq::empty()
            } else {
                summary_lines(self.total_imported, self.failures@)
            },
    {
        let mut out = no_lines();
        if matches!(self.verbosity, CliVerbosity::Quiet) {
            return out;
        }
        let mut head = concat3(
            "Import complete: ",
            show_usize(self.total_imported).as_str(),
            " mod(s) imported",
        );
        if self.failures.len() == 0 {
            print(&mut out, CliLine::Out(head));
            assert(line_views(out@) =~= summary_lines(self.total_imported, self.failures@));
            return out;
        }
        head.append(", ");
        head.append(show_usize(self.failures.len()).as_str());
        head.append(" failure(s)");
        print(&mut out, CliLine::Out(head));
        let ghost first = line_views(out@);
        let ghost shown = failure_views(self.failures@);
        let mut i: usize = 0;
        assert(line_views(out@) =~= first + shown.take(0));
        while i < self.failures.len() && i < 8
            invariant
                i <= self.failures.len(),
                i <= 8,
                shown == failure_views(self.failures@),
                line_views(out@) == first + shown.take(i as int),
            decreases self.failures.len() - i,
        {
            print(&mut out, CliLine::Out(show_failure("  - ", &self.failures[i])));
            i = i + 1;
            assert(line_views(out@) =~= first + shown.take(i as int));
        }
        if self.failures.len() > 8 {
            let line = concat3(
                "  ...and ",
                show_usize(self.failures.len() - 8).as_str(),
                " more (see log)",
            );
            print(&mut out, CliLine::Out(line));
        }
        assert(line_views(out@) =~= summary_lines(self.total_imported, self.failures@));
        out
    }
}

pub open spec fn part_lines(failures: Seq<ImportFailure>) -> Seq<LineView> {
    Seq::new(
        failures.len(),
        |i: int|
            LineView::Warn(
                "Import failed: "@ + failures[i].source.label@ + " ("@ + input_text::summary(
                    failures[i].error@,
                ) + ")"@,
            ),
    )
}

pub open spec fn failure_views(failures: Seq<ImportFailure>) -> Seq<LineView> {
    Seq::new(failures.len(), |i: int| LineView::Out(dialogs::failure_line("  - "@, failures[i])))
}

/// What a run came to, in lines: no more than eight failures by name.
pub open spec fn summary_lines(total: usize, failures: Seq<ImportFailure>) -> Seq<LineView> {
    let head = "Import complete: "@ + text::decimal(total as nat) + " mod(s) imported"@;
    if failures.len() == 0 {
        seq![LineView::Out(head)]
    } else {
        seq![
            LineView::Out(head + ", "@ + text::decimal(failures.len()) + " failure(s)"@),
        ] + failure_views(failures).take(
            if failures.len() > 8 {
                8
            } else {
                failures.len() as int
            },
        ) + (if failures.len() > 8 {
            seq![
                LineView::Out(
                    "  ...and "@ + text::decimal((failures.len() - 8) as nat) + " more (see log)"@,
                ),
            ]
        } else {
            Seq::empty()
        })
    }
}

// ---------------------------------------------------------------------------
// Bringing the mods into the game
// ---------------------------------------------------------------------------

/// Whether the mods are brought into the game after an import, and what is printed
/// before.
pub open spec fn deploys(deploy: bool, paths_ready: bool, imported: usize) -> bool {
    deploy && paths_ready && imported > 0
}

pub fn plan_cli_deploy(deploy: bool, paths_ready: bool, imported: usize, verbosity: CliVerbosity) -> (
r: (bool, Vec<CliLine>))
    ensures
        r.0 == deploys(deploy, paths_ready, imported),
        line_views(r.1@) == if !deploy {
            Seq::empty()
        } else if !paths_ready {
            seq![LineView::Warn("Deploy skipped: game paths not set"@)]
        } else if imported == 0 {
            unless_quiet(verbosity, LineView::Out("No imports to deploy"@))
        } else {
            unless_quiet(verbosity, LineView::Out("Deploying imported mods..."@))
        },
{
    if !deploy {
        return (false, no_lines());
    }
    if !paths_ready {
        return (
            false,
            print_error("Deploy skipped: game paths not set".to_owned()),
        );
    }
    if imported == 0 {
        return (
            false,
            print_unless_quiet(verbosity, CliLine::Out("No imports to deploy".to_owned())),
        );
    }
    (
        true,
        print_unless_quiet(verbosity, CliLine::Out("Deploying imported mods...".to_owned())),
    )
}

/// What is printed once the mods are in the game.
pub fn show_cli_deployed(verbosity: CliVerbosity, paks: usize, loose: usize, files: usize) -> (out: Vec<
    CliLine,
>)
    ensures
        line_views(out@) == unless_quiet(
            verbosity,
            LineView::Out(
                "Deploy complete: "@ + text::decimal(paks as nat) + " pak, "@ + text::decimal(
                    loose as nat,
                ) + " loose ("@ + text::decimal(files as nat) + " files)"@,
            ),
        ),
{
    let mut line = concat3("Deploy complete: ", show_usize(paks).as_str(), " pak, ");
    line.append(show_usize(loose).as_str());
    line.append(" loose (");
    line.append(show_usize(files).as_str());
    line.append(" files)");
    print_unless_quiet(verbosity, CliLine::Out(line))
}

/// What is printed where the mods could not be brought into the game.
pub fn show_cli_deploy_failed(error: &str) -> (out: Vec<CliLine>)
    ensures
        line_views(out@) == seq![LineView::Warn("Deploy failed: "@ + input_text::summary(error@))],
{
    let line = concat2("Deploy failed: ", summarize_error(error).as_str());
    print_error(line)
}

// ---------------------------------------------------------------------------
// Progress
// ---------------------------------------------------------------------------

/// How far an import is.
#[derive(Debug)]
pub struct ProgressNote {
    pub label: String,
    pub unit_index: usize,
    pub unit_count: usize,
    pub stage: ImportStage,
    pub stage_current: usize,
    pub stage_total: usize,
    pub detail: Option<String>,
}

/// Prints how far an import is. Times are in milliseconds.
pub struct CliProgressPrinter {
    pub verbosity: CliVerbosity,
    pub last_label: Option<String>,
    pub last_stage: Option<ImportStage>,
    pub last_tick: u64,
}

pub open spec fn unit_line(p: ProgressNote) -> Seq<char> {
    "  -> "@ + p.label@ + " ("@ + text::decimal(p.unit_index as nat) + "/"@ + text::decimal(
        p.unit_count as nat,
    ) + ")"@
}

pub open spec fn stage_line(p: ProgressNote) -> Seq<char> {
    "     "@ + p.stage.name() + (if p.stage_total > 1 {
        " ("@ + text::decimal(p.stage_current as nat) + "/"@ + text::decimal(p.stage_total as nat)
            + ")"@
    } else {
        Seq::empty()
    }) + (match p.detail {
        Some(d) => " - "@ + d@,
        None => Seq::empty(),
    })
}

fn show_unit(p: &ProgressNote) -> (r: String)
    ensures
        r@ == unit_line(*p),
{
    let mut r = concat3("  -> ", p.label.as_str(), " (");
    r.append(show_usize(p.unit_index).as_str());
    r.append("/");
    r.append(show_usize(p.unit_count).as_str());
    r.append(")");
    r
}

fn show_stage(p: &ProgressNote) -> (r: String)
    ensures
        r@ == stage_line(*p),
{
    let mut r = concat2("     ", p.stage.label());
    if p.stage_total > 1 {
        let mut part = concat3(" (", show_usize(p.stage_current).as_str(), "/");
        part.append(show_usize(p.stage_total).as_str());
        part.append(")");
        r.append(part.as_str());
    }
    assert(r@ =~= "     "@ + p.stage.name() + (if p.stage_total > 1 {
        " ("@ + text::decimal(p.stage_current as nat) + "/"@ + text::decimal(p.stage_total as nat)
            + ")"@
    } else {
        Seq::empty()
    }));
    if let Some(d) = &p.detail {
        let part = concat2(" - ", d.as_str());
        r.append(part.as_str());
    }
    assert(r@ =~= stage_line(*p));
    r
}

impl CliProgressPrinter {
    pub fn new(verbosity: CliVerbosity, now: u64) -> (r: Self)
        ensures
            r == (CliProgressPrinter {
                verbosity,
                last_label: None,
                last_stage: None,
                last_tick: now,
            }),
    {
        CliProgressPrinter { verbosity, last_label: None, last_stage: None, last_tick: now }
    }

    pub open spec fn is_new_unit(self, p: ProgressNote) -> bool {
        text::text_opt(self.last_label) != Some(p.label@)
    }

    /// Whether the stage is told: when it is another, and every so often where all is
    /// told.
    pub open spec fn tells_stage(self, p: ProgressNote, now: u64) -> bool {
        ||| self.is_new_unit(p)
        ||| self.last_stage != Some(p.stage)
        ||| (self.verbosity == CliVerbosity::Debug && now - self.last_tick >= 250)
    }

    /// What is printed of the progress.
    pub fn handle(&mut self, p: &ProgressNote, now: u64) -> (out: Vec<CliLine>)
        ensures
            if !tells_more(old(self).verbosity) {
                *final(self) == *old(self) && out@.len() == 0
            } else {
                &&& *final(self) == (CliProgressPrinter {
                    last_label: final(self).last_label,
                    last_stage: Some(p.stage),
                    last_tick: if old(self).tells_stage(*p, now) {
                        now
                    } else {
                        old(self).last_tick
                    },
                    ..*old(self)
                })
                &&& text::text_opt(final(self).last_label) == Some(p.label@)
                &&& line_views(out@) == (if old(self).is_new_unit(*p) {
                    seq![LineView::Out(unit_line(*p))]
                } else {
                    Seq::empty()
                }) + (if old(self).tells_stage(*p, now) {
                    seq![LineView::Out(stage_line(*p))]
                } else {
                    Seq::empty()
                })
            },
    {
        let mut out = no_lines();
        if matches!(self.verbosity, CliVerbosity::Quiet) || matches!(
            self.verbosity,
            CliVerbosity::Normal
        ) {
            return out;
        }
        let known = match &self.last_label {
            Some(l) => same_text(l.as_str(), p.label.as_str()),
            None => false,
        };
        if !known {
            print(&mut out, CliLine::Out(show_unit(p)));
            self.last_label = Some(p.label.clone());
            self.last_stage = None;
        }
        let ghost first = line_views(out@);
        assert(first =~= if old(self).is_new_unit(*p) {
            seq![LineView::Out(unit_line(*p))]
        } else {
            Seq::empty()
        });
        let same_stage = match self.last_stage {
            Some(s) => s == p.stage,
            None => false,
        };
        let ticks = now >= self.last_tick && now - self.last_tick >= 250;
        if !same_stage || (matches!(self.verbosity, CliVerbosity::Debug) && ticks) {
            print(&mut out, CliLine::Out(show_stage(p)));
            self.last_stage = Some(p.stage);
            self.last_tick = now;
        }
        assert(line_views(out@) =~= first + (if old(self).tells_stage(*p, now) {
            seq![LineView::Out(stage_line(*p))]
        } else {
            Seq::empty()
        }));
        out
    }
}

} // verus!
