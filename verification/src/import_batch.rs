//! How an import is taken apart, and what becomes of the parts together.
use crate::import_scan;
use crate::import_scan::{
    is_7z_file, is_pak_file, is_zip_file, source_label_for_archive, CandidateKind,
    ImportCandidate,
};
use crate::importer;
use crate::importer::{
    earliest_of, DirImportResult, ImportBatch, ImportFailure, ImportMod, ImportResult,
    ImportSource,
};
use crate::lists::copy_opt;
use crate::metadata::JsonModInfo;
use crate::payload;
use crate::payload::{display_path_label, PayloadScan};
use crate::text;
use crate::text::{concat2, concat3, show_usize};
use vstd::prelude::*;

verus! {

// ---------------------------------------------------------------------------
// What is imported
// ---------------------------------------------------------------------------

/// How a path is imported.
#[derive(Debug, Clone, Copy, PartialEq, Eq, Structural)]
pub enum ImportRoute {
    Missing,
    Directory,
    Pak,
    Zip,
    SevenZip,
    Unknown,
}

pub open spec fn route(path: Seq<char>, exists_there: bool, is_dir: bool) -> ImportRoute {
    if !exists_there {
        ImportRoute::Missing
    } else if is_dir {
        ImportRoute::Directory
    } else if import_scan::is_pak(path) {
        ImportRoute::Pak
    } else if import_scan::is_zip(path) {
        ImportRoute::Zip
    } else if import_scan::is_7z(path) {
        ImportRoute::SevenZip
    } else {
        ImportRoute::Unknown
    }
}

/// How a path is imported: a directory as it is, a file by its extension.
pub fn import_route(path: &str, exists_there: bool, is_dir: bool) -> (r: ImportRoute)
    ensures
        r == route(path@, exists_there, is_dir),
{
    if !exists_there {
        ImportRoute::Missing
    } else if is_dir {
        ImportRoute::Directory
    } else if is_pak_file(path) {
        ImportRoute::Pak
    } else if is_zip_file(path) {
        ImportRoute::Zip
    } else if is_7z_file(path) {
        ImportRoute::SevenZip
    } else {
        ImportRoute::Unknown
    }
}

/// What an archive or package is called: its source label, else its name.
pub open spec fn shown_label(path: Seq<char>, label: Option<String>) -> Seq<char> {
    match label {
        Some(l) => l@,
        None => payload::entry_name(path),
    }
}

pub fn import_label(path: &str, source_label: &Option<String>) -> (r: String)
    ensures
        r@ == shown_label(path@, *source_label),
{
    match source_label {
        Some(l) => l.clone(),
        None => display_path_label(path),
    }
}

/// The result of an import that found nothing to do.
pub fn empty_result(unrecognized: bool) -> (r: ImportResult)
    ensures
        r.batches@.len() == 0,
        r.failures@.len() == 0,
        r.unrecognized == unrecognized,
{
    ImportResult { batches: Vec::new(), unrecognized, failures: Vec::new() }
}

/// One thing that is imported.
#[derive(Debug)]
pub struct ImportUnit {
    pub path: String,
    pub kind: CandidateKind,
    /// What it is called where it is shown.
    pub label: String,
    /// What the mods in it are said to come from.
    pub source_label: Option<String>,
}

/// Whether the unit is that of a candidate, one of several or alone.
pub open spec fn is_unit(
    u: ImportUnit,
    c: import_scan::UnitView,
    source_label: Option<String>,
    several: bool,
) -> bool {
    &&& u.path@ == c.path
    &&& u.kind == c.kind
    &&& u.label@ == match source_label {
        Some(l) => if several {
            l@ + " -> "@ + c.label
        } else {
            l@
        },
        None => c.label,
    }
    &&& text::text_opt(u.source_label) == if several {
        Some(c.label)
    } else {
        text::text_opt(source_label)
    }
}

/// The candidates, or the whole directory where there are none.
pub open spec fn or_whole(
    candidates: Seq<import_scan::UnitView>,
    path: Seq<char>,
) -> Seq<import_scan::UnitView> {
    if candidates.len() == 0 {
        seq![
            import_scan::UnitView {
                path,
                label: payload::entry_name(path),
                kind: CandidateKind::Directory,
            },
        ]
    } else {
        candidates
    }
}

/// Takes a directory apart.
pub fn plan_units(
    candidates: Vec<ImportCandidate>,
    path: &str,
    source_label: &Option<String>,
) -> (out: Vec<ImportUnit>)
    ensures
        out.len() > 0,
        ({
            let all = or_whole(candidates@.map_values(import_scan::unit_view()), path@);
            &&& out@.len() == all.len()
            &&& forall|i: int|
                0 <= i < all.len() ==> is_unit(
                    #[trigger] out@[i],
                    all[i],
                    *source_label,
                    all.len() > 1,
                )
        }),
{
    let mut list = candidates;
    let ghost all = or_whole(candidates@.map_values(import_scan::unit_view()), path@);
    if list.is_empty() {
        list.push(
            ImportCandidate {
                path: path.to_owned(),
                label: display_path_label(path),
                kind: CandidateKind::Directory,
            },
        );
    }
    assert(list@.map_values(import_scan::unit_view()) =~= all);
    let several = list.len() > 1;
    let mut out: Vec<ImportUnit> = Vec::new();
    let mut i: usize = 0;
    while i < list.len()
        invariant
            i <= list.len(),
            i == out.len(),
            list@.map_values(import_scan::unit_view()) == all,
            several == (list.len() > 1),
            forall|k: int|
                0 <= k < i ==> is_unit(#[trigger] out@[k], all[k], *source_label, several),
        decreases list.len() - i,
    {
        let c = &list[i];
        assert(all[i as int] == c.shown());
        let label = match source_label {
            Some(l) => if several {
                concat3(l.as_str(), " -> ", c.label.as_str())
            } else {
                l.clone()
            },
            None => c.label.clone(),
        };
        let source = if several {
            Some(c.label.clone())
        } else {
            copy_opt(source_label)
        };
        out.push(ImportUnit { path: c.path.clone(), kind: c.kind, label, source_label: source });
        i = i + 1;
    }
    assert(all.len() == list.len());
    out
}

// ---------------------------------------------------------------------------
// What becomes of the parts
// ---------------------------------------------------------------------------

/// What became of a unit.
#[derive(Debug)]
pub enum UnitOutcome {
    Pak(Result<Vec<ImportMod>, String>),
    Archive(Result<ImportResult, String>),
    Directory(Result<DirImportResult, String>),
}

/// The outcome of an import, in mathematical values.
#[verifier::ext_equal]
pub struct Totals {
    pub batches: Seq<(Seq<char>, Seq<ImportMod>)>,
    pub failures: Seq<(Seq<char>, Seq<char>)>,
    pub unrecognized: bool,
}

pub open spec fn batch_views(list: Seq<ImportBatch>) -> Seq<(Seq<char>, Seq<ImportMod>)> {
    Seq::new(list.len(), |i: int| (list[i].source.label@, list[i].mods@))
}

pub open spec fn failure_views(list: Seq<ImportFailure>) -> Seq<(Seq<char>, Seq<char>)> {
    Seq::new(list.len(), |i: int| (list[i].source.label@, list[i].error@))
}

impl ImportResult {
    pub open spec fn totals(self) -> Totals {
        Totals {
            batches: batch_views(self.batches@),
            failures: failure_views(self.failures@),
            unrecognized: self.unrecognized,
        }
    }
}

pub open spec fn failed(t: Totals, label: Seq<char>, error: Seq<char>) -> Totals {
    Totals { failures: t.failures.push((label, error)), ..t }
}

pub open spec fn succeeded(t: Totals, label: Seq<char>, mods: Seq<ImportMod>) -> Totals {
    Totals { batches: t.batches.push((label, mods)), ..t }
}

/// The totals with one unit more.
pub open spec fn with_outcome(
    t: Totals,
    label: Seq<char>,
    outcome: UnitOutcome,
    alone: bool,
) -> Totals {
    match outcome {
        UnitOutcome::Pak(Err(e)) => failed(t, label, e@),
        UnitOutcome::Pak(Ok(mods)) => if mods@.len() == 0 {
            failed(t, label, "No mods found"@)
        } else {
            succeeded(t, label, mods@)
        },
        UnitOutcome::Archive(Err(e)) => failed(t, label, e@),
        UnitOutcome::Archive(Ok(inner)) => if inner.unrecognized && inner.batches@.len() == 0 {
            failed(t, label, "Unrecognized archive layout"@)
        } else {
            Totals {
                batches: t.batches + inner.totals().batches,
                failures: t.failures + inner.totals().failures,
                unrecognized: t.unrecognized,
            }
        },
        UnitOutcome::Directory(Err(e)) => failed(t, label, e@),
        UnitOutcome::Directory(Ok(d)) => {
            let u = Totals { unrecognized: t.unrecognized || (d.unrecognized && alone), ..t };
            if d.mods@.len() > 0 {
                succeeded(u, label, d.mods@)
            } else if u.unrecognized {
                u
            } else {
                failed(u, label, "No mods found"@)
            }
        },
    }
}

impl ImportResult {
    fn fail(&mut self, label: String, error: String)
        ensures
            final(self).totals() == failed(old(self).totals(), label@, error@),
    {
        self.failures.push(ImportFailure { source: ImportSource { label }, error });
        assert(failure_views(self.failures@) =~= failure_views(old(self).failures@).push(
            (label@, error@),
        ));
    }

    fn succeed(&mut self, label: String, mods: Vec<ImportMod>)
        ensures
            final(self).totals() == succeeded(old(self).totals(), label@, mods@),
    {
        self.batches.push(ImportBatch { source: ImportSource { label }, mods });
        assert(batch_views(self.batches@) =~= batch_views(old(self).batches@).push(
            (label@, mods@),
        ));
    }

    /// Adds what became of a unit, one of several or alone.
    pub fn add_outcome(&mut self, label: String, outcome: UnitOutcome, alone: bool)
        ensures
            final(self).totals() == with_outcome(old(self).totals(), label@, outcome, alone),
    {
        match outcome {
            UnitOutcome::Pak(result) => match result {
                Err(e) => self.fail(label, e),
                Ok(mods) => if mods.is_empty() {
                    self.fail(label, "No mods found".to_owned());
                } else {
                    self.succeed(label, mods);
                },
            },
            UnitOutcome::Archive(result) => match result {
                Err(e) => self.fail(label, e),
                Ok(found) => if found.unrecognized && found.batches.is_empty() {
                    self.fail(label, "Unrecognized archive layout".to_owned());
                } else {
                    let mut inner = found;
                    let ghost a = self.batches@;
                    let ghost b = self.failures@;
                    let ghost c = inner.batches@;
                    let ghost d = inner.failures@;
                    self.failures.append(&mut inner.failures);
                    self.batches.append(&mut inner.batches);
                    assert(batch_views(self.batches@) =~= batch_views(a) + batch_views(c));
                    assert(failure_views(self.failures@) =~= failure_views(b) + failure_views(d));
                },
            },
            UnitOutcome::Directory(result) => match result {
                Err(e) => self.fail(label, e),
                Ok(d) => {
                    if d.unrecognized && alone {
                        self.unrecognized = true;
                    }
                    if d.mods.is_empty() {
                        if !self.unrecognized {
                            self.fail(label, "No mods found".to_owned());
                        }
                    } else {
                        self.succeed(label, d.mods);
                    }
                },
            },
        }
    }
}

/// The totals of the first `n` units.
pub open spec fn outcomes(labels: Seq<Seq<char>>, list: Seq<UnitOutcome>, n: int) -> Totals
    decreases n,
{
    if n <= 0 {
        Totals { batches: Seq::empty(), failures: Seq::empty(), unrecognized: false }
    } else {
        with_outcome(
            outcomes(labels, list, n - 1),
            labels[n - 1],
            list[n - 1],
            list.len() == 1,
        )
    }
}

/// What a directory's import comes to, given what became of its units.
pub fn import_batch_from_dir(labels: Vec<String>, list: Vec<UnitOutcome>) -> (r: ImportResult)
    requires
        labels.len() == list.len(),
    ensures
        r.totals() == outcomes(text::texts(labels@), list@, list@.len() as int),
{
    let ghost all = list@;
    let ghost names = text::texts(labels@);
    let alone = list.len() == 1;
    let mut names_left = labels;
    let mut left = list;
    let mut r = empty_result(false);
    assert(r.totals() =~= outcomes(names, all, 0));
    while left.len() > 0
        invariant
            left.len() <= all.len(),
            names.len() == all.len(),
            alone == (all.len() == 1),
            names_left.len() == left.len(),
            left@ == all.skip(all.len() - left.len()),
            text::texts(names_left@) == names.skip(all.len() - left.len()),
            r.totals() == outcomes(names, all, all.len() - left.len()),
        decreases left.len(),
    {
        let ghost at = all.len() - left.len();
        assert(left@[0] == all[at]);
        assert(text::texts(names_left@)[0] == names[at]);
        let ghost before = names_left@;
        let label = names_left.remove(0);
        assert forall|k: int| 0 <= k < names_left.len() implies names.skip(at + 1)[k]
            == #[trigger] names_left@[k]@ by {
            assert(names_left@[k] == before[k + 1]);
            assert(text::texts(before)[k + 1] == names.skip(at)[k + 1]);
        }
        let outcome = left.remove(0);
        r.add_outcome(label, outcome, alone);
        assert(left@ =~= all.skip(at + 1));
        assert(text::texts(names_left@) =~= names.skip(at + 1));
    }
    r
}

/// Every unit but an unrecognized one leaves a trace: a batch or a failure. Units
/// that are archives leave those of what is in them.
pub proof fn law_nothing_lost(t: Totals, label: Seq<char>, outcome: UnitOutcome, alone: bool)
    requires
        !(outcome is Archive),
    ensures
        ({
            let u = with_outcome(t, label, outcome, alone);
            ||| u.unrecognized
            ||| u.batches.len() + u.failures.len() == t.batches.len() + t.failures.len() + 1
        }),
{
}

// ---------------------------------------------------------------------------
// Directories
// ---------------------------------------------------------------------------

/// How a directory is imported.
#[derive(Debug)]
pub struct DirPlan {
    /// There is nothing to install.
    pub unrecognized: bool,
    /// Its directories may be moved, not copied.
    pub allow_move: bool,
    /// What each package is said to come from.
    pub pak_labels: Vec<Option<String>>,
    /// How many steps installing has.
    pub install_total: usize,
    pub detail: String,
}

pub open spec fn pak_source(
    scan: PayloadScan,
    source_label: Option<String>,
    i: int,
) -> Option<Seq<char>> {
    if scan.pak_files@.len() == 1 {
        text::text_opt(source_label)
    } else {
        import_scan::file_stem(scan.pak_files@[i]@)
    }
}

/// Plans the import of a directory. Directories within one another are copied.
pub fn plan_dir(
    scan: &PayloadScan,
    source_label: &Option<String>,
    allow_move: bool,
    loose_file_count: usize,
) -> (r: DirPlan)
    ensures
        r.unrecognized == !scan.is_mod(),
        r.allow_move == (allow_move && !scan.overlaps()),
        r.pak_labels@.len() == scan.pak_files@.len(),
        forall|i: int|
            0 <= i < scan.pak_files@.len() ==> text::text_opt(#[trigger] r.pak_labels@[i])
                == pak_source(*scan, *source_label, i),
        r.install_total == importer::at_least_one(
            importer::capped(
                scan.pak_files@.len() + loose_file_count,
                usize::MAX as int,
            ) as usize,
        ),
        r.detail@ == if scan.is_loose() {
            text::decimal(loose_file_count as nat) + " files"@
        } else {
            "Scanning layout"@
        },
{
    let mut pak_labels: Vec<Option<String>> = Vec::new();
    let mut i: usize = 0;
    while i < scan.pak_files.len()
        invariant
            i <= scan.pak_files.len(),
            i == pak_labels.len(),
            forall|k: int|
                0 <= k < i ==> text::text_opt(#[trigger] pak_labels@[k]) == pak_source(
                    *scan,
                    *source_label,
                    k,
                ),
        decreases scan.pak_files.len() - i,
    {
        let label = if scan.pak_files.len() == 1 {
            copy_opt(source_label)
        } else {
            source_label_for_archive(scan.pak_files[i].as_str())
        };
        pak_labels.push(label);
        i = i + 1;
    }
    let detail = if scan.has_loose_targets() {
        let shown = show_usize(loose_file_count);
        concat2(shown.as_str(), " files")
    } else {
        "Scanning layout".to_owned()
    };
    DirPlan {
        unrecognized: !scan.is_mod_candidate_dir(),
        allow_move: allow_move && !scan.has_overlap(),
        pak_labels,
        install_total: importer::or_one(scan.pak_files.len().saturating_add(loose_file_count)),
        detail,
    }
}

/// The earliest creation time among the first `n` entries.
pub open spec fn json_earliest(json: Seq<JsonModInfo>, n: int) -> Option<i64>
    decreases n,
{
    if n <= 0 {
        None
    } else {
        importer::earliest(json_earliest(json, n - 1), json[n - 1].created_at)
    }
}

/// When loose files are said to have been made: what the metadata says, else the
/// earliest that the information file says.
pub fn stated_loose_created(meta_created: Option<i64>, json: &[JsonModInfo]) -> (r: Option<i64>)
    ensures
        r == match meta_created {
            Some(t) => Some(t),
            None => json_earliest(json@, json@.len() as int),
        },
{
    if meta_created.is_some() {
        return meta_created;
    }
    let mut r: Option<i64> = None;
    let mut i: usize = 0;
    while i < json.len()
        invariant
            i <= json.len(),
            r == json_earliest(json@, i as int),
        decreases json.len() - i,
    {
        r = earliest_of(r, json[i].created_at);
        i = i + 1;
    }
    r
}

/// What a directory's import comes to: an error only where nothing was imported.
pub fn import_from_dir(
    mods: Vec<ImportMod>,
    last_error: Option<String>,
    unrecognized: bool,
) -> (r: Result<DirImportResult, String>)
    ensures
        r == match last_error {
            Some(e) => if mods@.len() == 0 {
                Err(e)
            } else {
                Ok(DirImportResult { mods, unrecognized })
            },
            None => Ok(DirImportResult { mods, unrecognized }),
        },
{
    if mods.is_empty() {
        if let Some(e) = last_error {
            return Err(e);
        }
    }
    Ok(DirImportResult { mods, unrecognized })
}

} // verus!
