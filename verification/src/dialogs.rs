//! Questions to the user, and what the answers mean.
use crate::actions;
use crate::actions::{
    DependentMod, Dialog, DialogChoice, DialogKind, DialogToggle, DialogView, KindView,
};
use crate::dep_missing;
use crate::dep_missing::build_dependent_message;
use crate::input_text;
use crate::input_text::summarize_error;
use crate::importer::ImportFailure;
use crate::mod_table;
use crate::mod_table::{ModSort, ModSortColumn, SortDirection};
use crate::text;
use crate::text::{add_line, concat2, concat3, join_texts, push_text, show_usize};
use vstd::prelude::*;

verus! {

// ---------------------------------------------------------------------------
// What an answer means
// ---------------------------------------------------------------------------

/// What is to be done after a dialog.
#[derive(Debug)]
pub enum DialogOutcome {
    Nothing,
    /// What becomes of a mod that is there already, and whether that holds for the
    /// others too.
    Duplicate { overwrite: bool, apply_all: bool },
    ImportUnrecognized { path: String, label: String },
    SkipUnrecognized { label: String },
    /// `stop_asking` says that the question need not be asked again.
    DeleteProfile { name: String, stop_asking: bool },
    DeleteMod {
        id: String,
        name: String,
        native_files: bool,
        stop_asking: bool,
        dependents: Vec<DependentMod>,
    },
    RestoreOrder { resume_move_mode: bool, clear_filter: bool },
    CancelImport { keep_files: bool },
    ProceedWithoutDependencies,
    KeepDependencies,
    /// Whether a link is copied, and whether that is remembered.
    SearchLink { link: String, copy: bool, remember: bool },
    HideStartupNotice,
}

pub open spec fn is_checked(t: Option<DialogToggle>) -> bool {
    t matches Some(x) && x.checked
}

/// Whether an outcome is what a dialog comes to.
pub open spec fn comes_to(d: Dialog, r: DialogOutcome) -> bool {
    let yes = d.choice == DialogChoice::Yes;
    let checked = is_checked(d.toggle);
    match d.kind {
        DialogKind::Overwrite | DialogKind::Similar => r == DialogOutcome::Duplicate {
            overwrite: yes,
            apply_all: checked,
        },
        DialogKind::Unrecognized { path, label } => r == if yes {
            DialogOutcome::ImportUnrecognized { path, label }
        } else {
            DialogOutcome::SkipUnrecognized { label }
        },
        DialogKind::DeleteProfile { name } => r == if yes {
            DialogOutcome::DeleteProfile { name, stop_asking: checked }
        } else {
            DialogOutcome::Nothing
        },
        DialogKind::DeleteMod { id, name, native, dependents } => r == if yes {
            DialogOutcome::DeleteMod {
                id,
                name,
                native_files: native,
                stop_asking: !native && checked,
                dependents,
            }
        } else {
            DialogOutcome::Nothing
        },
        DialogKind::MoveBlocked { resume_move_mode, clear_filter } => r == if yes {
            DialogOutcome::RestoreOrder { resume_move_mode, clear_filter }
        } else {
            DialogOutcome::Nothing
        },
        DialogKind::CancelImport => r == if yes {
            DialogOutcome::Nothing
        } else {
            DialogOutcome::CancelImport { keep_files: checked }
        },
        DialogKind::OverrideDependencies => r == if yes {
            DialogOutcome::ProceedWithoutDependencies
        } else {
            DialogOutcome::KeepDependencies
        },
        DialogKind::CopyDependencySearchLink { link } => r == DialogOutcome::SearchLink {
            link,
            copy: yes,
            remember: checked,
        },
        DialogKind::StartupDependencyNotice => r == if yes {
            DialogOutcome::Nothing
        } else {
            DialogOutcome::HideStartupNotice
        },
        DialogKind::ImportSummary
        | DialogKind::EnableAllVisible
        | DialogKind::DisableAllVisible
        | DialogKind::InvertVisible => r == DialogOutcome::Nothing,
    }
}

/// What a dialog comes to.
pub fn dialog_confirm(dialog: Dialog) -> (r: DialogOutcome)
    ensures
        comes_to(dialog, r),
{
    let yes = matches!(dialog.choice, DialogChoice::Yes);
    let checked = match &dialog.toggle {
        Some(t) => t.checked,
        None => false,
    };
    match dialog.kind {
        DialogKind::Overwrite | DialogKind::Similar => DialogOutcome::Duplicate {
            overwrite: yes,
            apply_all: checked,
        },
        DialogKind::Unrecognized { path, label } => if yes {
            DialogOutcome::ImportUnrecognized { path, label }
        } else {
            DialogOutcome::SkipUnrecognized { label }
        },
        DialogKind::DeleteProfile { name } => if yes {
            DialogOutcome::DeleteProfile { name, stop_asking: checked }
        } else {
            DialogOutcome::Nothing
        },
        DialogKind::DeleteMod { id, name, native, dependents } => if yes {
            DialogOutcome::DeleteMod {
                id,
                name,
                native_files: native,
                stop_asking: !native && checked,
                dependents,
            }
        } else {
            DialogOutcome::Nothing
        },
        DialogKind::MoveBlocked { resume_move_mode, clear_filter } => if yes {
            DialogOutcome::RestoreOrder { resume_move_mode, clear_filter }
        } else {
            DialogOutcome::Nothing
        },
        DialogKind::CancelImport => if yes {
            DialogOutcome::Nothing
        } else {
            DialogOutcome::CancelImport { keep_files: checked }
        },
        DialogKind::OverrideDependencies => if yes {
            DialogOutcome::ProceedWithoutDependencies
        } else {
            DialogOutcome::KeepDependencies
        },
        DialogKind::CopyDependencySearchLink { link } => DialogOutcome::SearchLink {
            link,
            copy: yes,
            remember: checked,
        },
        DialogKind::StartupDependencyNotice => if yes {
            DialogOutcome::Nothing
        } else {
            DialogOutcome::HideStartupNotice
        },
        DialogKind::ImportSummary
        | DialogKind::EnableAllVisible
        | DialogKind::DisableAllVisible
        | DialogKind::InvertVisible => DialogOutcome::Nothing,
    }
}

impl Dialog {
    pub fn dialog_set_choice(&mut self, choice: DialogChoice)
        ensures
            *final(self) == (Dialog { choice, ..*old(self) }),
    {
        self.choice = choice;
    }

    pub fn dialog_choice_left(&mut self)
        ensures
            *final(self) == (Dialog { choice: DialogChoice::Yes, ..*old(self) }),
    {
        self.choice = DialogChoice::Yes;
    }

    pub fn dialog_choice_right(&mut self)
        ensures
            *final(self) == (Dialog { choice: DialogChoice::No, ..*old(self) }),
    {
        self.choice = DialogChoice::No;
    }
}

/// Saying no never removes anything: neither a profile, nor a mod, nor one that is
/// there already.
pub proof fn law_no_removes_nothing(d: Dialog, r: DialogOutcome)
    requires
        comes_to(d, r),
        d.choice == DialogChoice::No,
    ensures
        r !is DeleteProfile,
        r !is DeleteMod,
        r matches DialogOutcome::Duplicate { overwrite, .. } ==> !overwrite,
{
}

// ---------------------------------------------------------------------------
// Questions
// ---------------------------------------------------------------------------

pub open spec fn ask_again() -> Option<(Seq<char>, bool)> {
    Some(("Don't ask again for this action?"@, false))
}

fn make_toggle() -> (t: Option<DialogToggle>)
    ensures
        actions::toggle_view(t) == ask_again(),
{
    Some(DialogToggle { label: "Don't ask again for this action?".to_owned(), checked: false })
}

pub fn prompt_delete_profile(name: &str) -> (d: Dialog)
    ensures
        d.shown() == (DialogView {
            title: "Delete Profile"@,
            message: Seq::empty(),
            yes_label: "Delete"@,
            no_label: "Cancel"@,
            choice: DialogChoice::No,
            kind: KindView::DeleteProfile { name: name@ },
            toggle: ask_again(),
            scroll: 0,
        }),
{
    let message = String::new();
    assert(message@ =~= Seq::<char>::empty());
    Dialog {
        title: "Delete Profile".to_owned(),
        message,
        yes_label: "Delete".to_owned(),
        no_label: "Cancel".to_owned(),
        choice: DialogChoice::No,
        kind: DialogKind::DeleteProfile { name: name.to_owned() },
        toggle: make_toggle(),
        scroll: 0,
    }
}

/// What is said before a mod is removed.
pub open spec fn delete_message(names: Seq<Seq<char>>, native: bool) -> Seq<char> {
    let needed = dep_missing::dependent_message(names);
    if !native {
        needed
    } else if needed.len() == 0 {
        "This will delete the local mod file from the Larian Mods folder."@
    } else {
        needed + "\n\n"@ + "This will delete the local mod file from the Larian Mods folder."@
    }
}

/// The question whether a mod is to be removed, with the ids and names of those that
/// need it.
pub open spec fn delete_dialog(
    id: Seq<char>,
    name: Seq<char>,
    native: bool,
    dependents: Seq<(Seq<char>, Seq<char>)>,
) -> DialogView {
    DialogView {
        title: if native {
            "Remove Native Mod"@
        } else {
            "Remove Mod"@
        },
        message: delete_message(names_of(dependents), native),
        yes_label: "Remove"@,
        no_label: "Cancel"@,
        choice: DialogChoice::No,
        kind: KindView::DeleteMod { id, name, native, dependents },
        toggle: if native {
            None
        } else {
            ask_again()
        },
        scroll: 0,
    }
}

pub open spec fn names_of(dependents: Seq<(Seq<char>, Seq<char>)>) -> Seq<Seq<char>> {
    Seq::new(dependents.len(), |i: int| dependents[i].1)
}

pub fn prompt_delete_mod(id: &str, name: &str, native: bool, dependents: Vec<DependentMod>) -> (d:
    Dialog)
    ensures
        d.shown() == delete_dialog(id@, name@, native, actions::dependent_views(dependents@)),
{
    assert(dep_missing::dependent_names(dependents@) =~= names_of(
        actions::dependent_views(dependents@),
    ));
    let needed = build_dependent_message(&dependents);
    let message = if !native {
        needed
    } else if needed.as_str().is_empty() {
        "This will delete the local mod file from the Larian Mods folder.".to_owned()
    } else {
        concat3(
            needed.as_str(),
            "\n\n",
            "This will delete the local mod file from the Larian Mods folder.",
        )
    };
    Dialog {
        title: if native {
            "Remove Native Mod".to_owned()
        } else {
            "Remove Mod".to_owned()
        },
        message,
        yes_label: "Remove".to_owned(),
        no_label: "Cancel".to_owned(),
        choice: DialogChoice::No,
        kind: DialogKind::DeleteMod {
            id: id.to_owned(),
            name: name.to_owned(),
            native,
            dependents,
        },
        toggle: if native {
            None
        } else {
            make_toggle()
        },
        scroll: 0,
    }
}

pub open spec fn unrecognized_message(label: Seq<char>) -> Seq<char> {
    "Mod directory paths are not recognized for:\n"@ + label + "\nImport anyway?"@
}

pub fn prompt_unrecognized(path: &str) -> (d: Dialog)
    ensures
        d.shown() == (DialogView {
            title: "Unrecognized Layout"@,
            message: unrecognized_message(input_text::shown_path(path@)),
            yes_label: "Import"@,
            no_label: "Cancel"@,
            choice: DialogChoice::No,
            kind: KindView::Unrecognized { path: path@, label: input_text::shown_path(path@) },
            toggle: None,
            scroll: 0,
        }),
{
    let label = input_text::display_path(path);
    Dialog {
        title: "Unrecognized Layout".to_owned(),
        message: concat3(
            "Mod directory paths are not recognized for:\n",
            label.as_str(),
            "\nImport anyway?",
        ),
        yes_label: "Import".to_owned(),
        no_label: "Cancel".to_owned(),
        choice: DialogChoice::No,
        kind: DialogKind::Unrecognized { path: path.to_owned(), label },
        toggle: None,
        scroll: 0,
    }
}

pub open spec fn in_order(sort: ModSort) -> bool {
    sort.column == ModSortColumn::Order && sort.direction == SortDirection::Asc
}

/// Why a mod cannot be moved, and what would help.
pub open spec fn move_blocked_message(sort: ModSort, filtered: bool, name: Seq<char>) -> Seq<char> {
    (if in_order(sort) {
        Seq::empty()
    } else {
        "Can't move while sorting by "@ + mod_table::column_name(sort.column) + " ("@
            + mod_table::direction_name(sort.direction) + ").\n"@
    }) + (if filtered {
        "Can't move while search is active.\n"@
    } else {
        Seq::empty()
    }) + (if filtered {
        "Switch to Order view and clear search"@
    } else {
        "Switch to Order view"@
    }) + " to move \""@ + name + "\"?"@
}

/// Asks whether the mods are to be shown in their order, so that one can be moved.
pub fn prompt_move_blocked(
    sort: &ModSort,
    filtered: bool,
    mod_name: &str,
    resume_move_mode: bool,
) -> (d: Dialog)
    ensures
        d.shown() == (DialogView {
            title: "Move requires Order"@,
            message: move_blocked_message(*sort, filtered, mod_name@),
            yes_label: "Switch"@,
            no_label: "Cancel"@,
            choice: DialogChoice::Yes,
            kind: KindView::MoveBlocked { resume_move_mode, clear_filter: filtered },
            toggle: None,
            scroll: 0,
        }),
{
    let mut message = String::new();
    assert(message@ =~= Seq::<char>::empty());
    if !sort.is_order_default() {
        message = concat2("Can't move while sorting by ", sort.column_label());
        push_text(&mut message, " (");
        push_text(&mut message, sort.direction_label());
        push_text(&mut message, ").\n");
    }
    let ghost first = message@;
    if filtered {
        push_text(&mut message, "Can't move while search is active.\n");
        push_text(&mut message, "Switch to Order view and clear search");
    } else {
        assert(message@ =~= first + Seq::<char>::empty());
        push_text(&mut message, "Switch to Order view");
    }
    push_text(&mut message, " to move \"");
    push_text(&mut message, mod_name);
    push_text(&mut message, "\"?");
    Dialog {
        title: "Move requires Order".to_owned(),
        message,
        yes_label: "Switch".to_owned(),
        no_label: "Cancel".to_owned(),
        choice: DialogChoice::Yes,
        kind: DialogKind::MoveBlocked { resume_move_mode, clear_filter: filtered },
        toggle: None,
        scroll: 0,
    }
}

/// The lines of the notice on the mods that a start switched off.
pub open spec fn notice_lines(names: Seq<Seq<char>>, n: int) -> Seq<Seq<char>>
    decreases n,
{
    if n <= 0 {
        seq![
            "Disabled "@ + text::decimal(names.len()) + " mod(s) missing dependencies."@,
            Seq::empty(),
        ]
    } else {
        notice_lines(names, n - 1).push(text::decimal(n as nat) + ". "@ + names[n - 1])
    }
}

pub open spec fn notice_dialog(names: Seq<Seq<char>>) -> DialogView {
    DialogView {
        title: "Dependencies missing"@,
        message: text::join(notice_lines(names, names.len() as int), "\n"@),
        yes_label: "OK"@,
        no_label: "Hide next time"@,
        choice: DialogChoice::Yes,
        kind: KindView::StartupDependencyNotice,
        toggle: None,
        scroll: 0,
    }
}

/// Tells which mods a start switched off.
pub fn prompt_startup_dependency_notice(disabled: &Vec<String>) -> (d: Dialog)
    ensures
        d.shown() == notice_dialog(text::texts(disabled@)),
{
    let ghost names = text::texts(disabled@);
    let mut lines: Vec<String> = Vec::new();
    assert(text::texts(lines@) =~= Seq::<Seq<char>>::empty());
    add_line(
        &mut lines,
        concat3("Disabled ", show_usize(disabled.len()).as_str(), " mod(s) missing dependencies."),
    );
    let empty = String::new();
    assert(empty@ =~= Seq::<char>::empty());
    add_line(&mut lines, empty);
    assert(text::texts(lines@) =~= notice_lines(names, 0));
    let mut i: usize = 0;
    while i < disabled.len()
        invariant
            i <= disabled.len(),
            names == text::texts(disabled@),
            text::texts(lines@) == notice_lines(names, i as int),
        decreases disabled.len() - i,
    {
        add_line(
            &mut lines,
            concat3(show_usize(i + 1).as_str(), ". ", disabled[i].as_str()),
        );
        i = i + 1;
    }
    Dialog {
        title: "Dependencies missing".to_owned(),
        message: join_texts(&lines, "\n"),
        yes_label: "OK".to_owned(),
        no_label: "Hide next time".to_owned(),
        choice: DialogChoice::Yes,
        kind: DialogKind::StartupDependencyNotice,
        toggle: None,
        scroll: 0,
    }
}

/// A failed import in a line.
pub open spec fn failure_line(start: Seq<char>, f: ImportFailure) -> Seq<char> {
    start + f.source.label@ + ": "@ + input_text::summary(f.error@)
}

pub fn show_failure(start: &str, f: &ImportFailure) -> (r: String)
    ensures
        r@ == failure_line(start@, *f),
{
    let mut r = concat3(start, f.source.label.as_str(), ": ");
    push_text(&mut r, summarize_error(f.error.as_str()).as_str());
    r
}

/// The lines of the summary of an import: no more than six failures by name.
pub open spec fn summary_lines(failures: Seq<ImportFailure>, n: int) -> Seq<Seq<char>>
    decreases n,
{
    if n <= 0 {
        seq![
            "Import completed with "@ + text::decimal(failures.len()) + " failure(s)."@,
            Seq::empty(),
        ]
    } else {
        summary_lines(failures, n - 1).push(failure_line("- "@, failures[n - 1]))
    }
}

pub open spec fn summary_message(failures: Seq<ImportFailure>) -> Seq<char> {
    if failures.len() > 6 {
        text::join(
            summary_lines(failures, 6).push(
                "...and "@ + text::decimal((failures.len() - 6) as nat) + " more (see log)"@,
            ),
            "\n"@,
        )
    } else {
        text::join(summary_lines(failures, failures.len() as int), "\n"@)
    }
}

/// Tells what went wrong with an import.
pub fn prompt_import_summary(failures: &Vec<ImportFailure>) -> (d: Dialog)
    ensures
        d.shown() == (DialogView {
            title: "Import Summary"@,
            message: summary_message(failures@),
            yes_label: "Close"@,
            no_label: "Close"@,
            choice: DialogChoice::Yes,
            kind: KindView::ImportSummary,
            toggle: None,
            scroll: 0,
        }),
{
    let mut lines: Vec<String> = Vec::new();
    assert(text::texts(lines@) =~= Seq::<Seq<char>>::empty());
    add_line(
        &mut lines,
        concat3("Import completed with ", show_usize(failures.len()).as_str(), " failure(s)."),
    );
    let empty = String::new();
    assert(empty@ =~= Seq::<char>::empty());
    add_line(&mut lines, empty);
    assert(text::texts(lines@) =~= summary_lines(failures@, 0));
    let mut i: usize = 0;
    while i < failures.len() && i < 6
        invariant
            i <= failures.len(),
            i <= 6,
            text::texts(lines@) == summary_lines(failures@, i as int),
        decreases failures.len() - i,
    {
        add_line(&mut lines, show_failure("- ", &failures[i]));
        i = i + 1;
    }
    if failures.len() > 6 {
        add_line(
            &mut lines,
            concat3("...and ", show_usize(failures.len() - 6).as_str(), " more (see log)"),
        );
    }
    Dialog {
        title: "Import Summary".to_owned(),
        message: join_texts(&lines, "\n"),
        yes_label: "Close".to_owned(),
        no_label: "Close".to_owned(),
        choice: DialogChoice::Yes,
        kind: DialogKind::ImportSummary,
        toggle: None,
        scroll: 0,
    }
}

} // verus!
