//! What the user types: what for, and when it is taken.
use crate::actions;
use crate::actions::{no_actions, say, Action, ActionView};
use crate::explorer::RenamePreview;
use crate::library::{Library, Profile};
use crate::mod_view::ModView;
use crate::path_browser::PathBrowser;
use crate::profiles;
use crate::profiles::unique_profile_name;
use crate::tasks;
use crate::tasks::{block_mod_changes, Tasks};
use crate::text;
use crate::text::{concat2, same_text, trim};
use vstd::prelude::*;

verus! {

/// How long a search waits for more to be typed, in milliseconds.
pub const SEARCH_DEBOUNCE_MS: u64 = 250;

/// How long an entry waits that is taken by itself, in milliseconds.
pub const AUTO_SUBMIT_MS: u64 = 350;

/// What is typed in for.
#[derive(Debug)]
pub enum InputPurpose {
    ImportPath,
    CreateProfile,
    RenameProfile { original: String },
    DuplicateProfile { source: String },
    ExportProfile { profile: String },
    ImportProfile,
    FilterMods,
}

pub enum PurposeView {
    ImportPath,
    CreateProfile,
    RenameProfile(Seq<char>),
    DuplicateProfile(Seq<char>),
    ExportProfile(Seq<char>),
    ImportProfile,
    FilterMods,
}

impl InputPurpose {
    pub open spec fn shown(self) -> PurposeView {
        match self {
            InputPurpose::ImportPath => PurposeView::ImportPath,
            InputPurpose::CreateProfile => PurposeView::CreateProfile,
            InputPurpose::RenameProfile { original } => PurposeView::RenameProfile(original@),
            InputPurpose::DuplicateProfile { source } => PurposeView::DuplicateProfile(source@),
            InputPurpose::ExportProfile { profile } => PurposeView::ExportProfile(profile@),
            InputPurpose::ImportProfile => PurposeView::ImportProfile,
            InputPurpose::FilterMods => PurposeView::FilterMods,
        }
    }
}

/// Where keys go.
#[derive(Debug)]
pub enum InputMode {
    Normal,
    Editing {
        prompt: String,
        buffer: String,
        purpose: InputPurpose,
        /// Whether the entry is taken by itself.
        auto_submit: bool,
        /// When something was last typed, in milliseconds.
        last_edit_at: u64,
    },
    Browsing(PathBrowser),
}

/// What the user types.
#[derive(Debug)]
pub struct InputDesk {
    pub mode: InputMode,
}

/// Whether something is being typed in, from `buffer` on.
pub open spec fn edits(
    mode: InputMode,
    prompt: Seq<char>,
    buffer: Seq<char>,
    purpose: PurposeView,
    now: u64,
) -> bool {
    mode matches InputMode::Editing {
        prompt: p,
        buffer: b,
        purpose: u,
        auto_submit,
        last_edit_at,
    } && p@ == prompt && b@ == buffer && u.shown() == purpose && !auto_submit && last_edit_at == now
}

/// Whether so much time has gone by.
pub open spec fn has_passed(since: u64, now: u64, wait: u64) -> bool {
    now - since >= wait
}

pub fn is_past(since: u64, now: u64, wait: u64) -> (r: bool)
    ensures
        r == has_passed(since, now, wait),
{
    now >= since && now - since >= wait
}

impl InputDesk {
    pub fn new() -> (r: Self)
        ensures
            r.mode is Normal,
    {
        InputDesk { mode: InputMode::Normal }
    }

    fn begin(
        &mut self,
        view: &mut ModView,
        prompt: &str,
        buffer: String,
        purpose: InputPurpose,
        now: u64,
        status: &str,
    ) -> (out: Vec<Action>)
        ensures
            edits(final(self).mode, prompt@, buffer@, purpose.shown(), now),
            *final(view) == (ModView { move_mode: false, ..*old(view) }),
            actions::action_views(out@) == seq![ActionView::Status(status@)],
    {
        view.move_mode = false;
        self.mode = InputMode::Editing {
            prompt: prompt.to_owned(),
            buffer,
            purpose,
            auto_submit: false,
            last_edit_at: now,
        };
        let mut out = no_actions();
        say(&mut out, status);
        assert(actions::action_views(out@) =~= seq![ActionView::Status(status@)]);
        out
    }

    pub fn enter_create_profile(&mut self, view: &mut ModView, now: u64) -> (out: Vec<Action>)
        ensures
            edits(
                final(self).mode,
                "New profile name"@,
                Seq::empty(),
                PurposeView::CreateProfile,
                now,
            ),
            *final(view) == (ModView { move_mode: false, ..*old(view) }),
            actions::action_views(out@) == seq![
                ActionView::Status("Profile: enter new profile name"@),
            ],
    {
        let empty = String::new();
        assert(empty@ =~= Seq::<char>::empty());
        self.begin(
            view,
            "New profile name",
            empty,
            InputPurpose::CreateProfile,
            now,
            "Profile: enter new profile name",
        )
    }

    pub fn enter_rename_profile(&mut self, view: &mut ModView, original: &str, now: u64) -> (out:
        Vec<Action>)
        ensures
            edits(
                final(self).mode,
                "Rename profile"@,
                original@,
                PurposeView::RenameProfile(original@),
                now,
            ),
            *final(view) == (ModView { move_mode: false, ..*old(view) }),
            actions::action_views(out@) == seq![ActionView::Status("Profile: enter new name"@)],
    {
        self.begin(
            view,
            "Rename profile",
            original.to_owned(),
            InputPurpose::RenameProfile { original: original.to_owned() },
            now,
            "Profile: enter new name",
        )
    }

    /// Asks for the name of a copy; one that is free is suggested.
    pub fn enter_duplicate_profile(
        &mut self,
        view: &mut ModView,
        profiles: &Vec<Profile>,
        source: &str,
        now: u64,
    ) -> (out: Vec<Action>)
        ensures
            edits(
                final(self).mode,
                "Duplicate profile"@,
                profiles::unique_name(profiles@, source@ + " Copy"@),
                PurposeView::DuplicateProfile(source@),
                now,
            ),
            *final(view) == (ModView { move_mode: false, ..*old(view) }),
            actions::action_views(out@) == seq![
                ActionView::Status("Profile: enter duplicated profile name"@),
            ],
    {
        let suggested = unique_profile_name(profiles, concat2(source, " Copy").as_str());
        self.begin(
            view,
            "Duplicate profile",
            suggested,
            InputPurpose::DuplicateProfile { source: source.to_owned() },
            now,
            "Profile: enter duplicated profile name",
        )
    }

    pub fn enter_export_profile(&mut self, view: &mut ModView, profile: &str, now: u64) -> (out: Vec<
        Action,
    >)
        ensures
            edits(
                final(self).mode,
                "Export path"@,
                Seq::empty(),
                PurposeView::ExportProfile(profile@),
                now,
            ),
            *final(view) == (ModView { move_mode: false, ..*old(view) }),
            actions::action_views(out@) == seq![
                ActionView::Status("Export profile: "@ + profile@),
            ],
    {
        let empty = String::new();
        assert(empty@ =~= Seq::<char>::empty());
        self.begin(
            view,
            "Export path",
            empty,
            InputPurpose::ExportProfile { profile: profile.to_owned() },
            now,
            concat2("Export profile: ", profile).as_str(),
        )
    }

    pub fn enter_import_profile(&mut self, view: &mut ModView, now: u64) -> (out: Vec<Action>)
        ensures
            edits(
                final(self).mode,
                "Import mod list"@,
                Seq::empty(),
                PurposeView::ImportProfile,
                now,
            ),
            *final(view) == (ModView { move_mode: false, ..*old(view) }),
            actions::action_views(out@) == seq![ActionView::Status("Import mod list: enter path"@)],
    {
        let empty = String::new();
        assert(empty@ =~= Seq::<char>::empty());
        self.begin(
            view,
            "Import mod list",
            empty,
            InputPurpose::ImportProfile,
            now,
            "Import mod list: enter path",
        )
    }

    /// Asks what to import, unless something stands in the way.
    pub fn enter_import_mode(&mut self, view: &mut ModView, t: &Tasks, now: u64) -> (out: Vec<
        Action,
    >)
        ensures
            if tasks::obstacle(*t, "import"@) is Some {
                &&& *final(self) == *old(self)
                &&& *final(view) == *old(view)
                &&& actions::action_views(out@) == tasks::wait_says(*t, "import"@)
            } else {
                &&& edits(
                    final(self).mode,
                    "Import path"@,
                    Seq::empty(),
                    PurposeView::ImportPath,
                    now,
                )
                &&& *final(view) == (ModView { move_mode: false, ..*old(view) })
                &&& actions::action_views(out@) == seq![
                    ActionView::Status("Import: paste a file or folder path, then press Enter"@),
                ]
            },
    {
        let (wait, notes) = block_mod_changes(t, "import");
        if wait {
            return notes;
        }
        let empty = String::new();
        assert(empty@ =~= Seq::<char>::empty());
        self.begin(
            view,
            "Import path",
            empty,
            InputPurpose::ImportPath,
            now,
            "Import: paste a file or folder path, then press Enter",
        )
    }

    /// Asks what to look for; what was looked for before is kept.
    pub fn enter_mod_filter(&mut self, view: &mut ModView, now: u64) -> (out: Vec<Action>)
        ensures
            edits(
                final(self).mode,
                "Search mods"@,
                old(view).filter@,
                PurposeView::FilterMods,
                now,
            ),
            *final(view) == (ModView {
                move_mode: false,
                snapshot: final(view).snapshot,
                ..*old(view)
            }),
            text::text_opt(final(view).snapshot) == Some(old(view).filter@),
            actions::action_views(out@) == seq![
                ActionView::Status("Search mods: type (updates after pause, Enter to apply)"@),
            ],
    {
        view.snapshot = Some(view.filter.clone());
        let buffer = view.filter.clone();
        self.begin(
            view,
            "Search mods",
            buffer,
            InputPurpose::FilterMods,
            now,
            "Search mods: type (updates after pause, Enter to apply)",
        )
    }

    /// Whether an entry is taken by itself: it is one of that sort, there is something
    /// in it, and nothing was typed for a while.
    pub open spec fn submits(self, dialog_open: bool, now: u64) -> bool {
        !dialog_open && match self.mode {
            InputMode::Editing { buffer, purpose, auto_submit, last_edit_at, .. } => auto_submit && (
            text::trimmed(buffer@).len() > 0 || purpose is FilterMods) && has_passed(
                last_edit_at,
                now,
                AUTO_SUBMIT_MS,
            ),
            _ => false,
        }
    }

    /// Takes an entry that is taken by itself.
    pub fn maybe_auto_submit(&mut self, dialog_open: bool, now: u64) -> (r: Option<
        (InputPurpose, String),
    >)
        ensures
            match r {
                Some((purpose, value)) => {
                    &&& old(self).submits(dialog_open, now)
                    &&& final(self).mode is Normal
                    &&& old(self).mode matches InputMode::Editing { buffer, purpose: p, .. }
                        && purpose == p && value@ == text::trimmed(buffer@)
                },
                None => !old(self).submits(dialog_open, now) && *final(self) == *old(self),
            },
    {
        if dialog_open {
            return None;
        }
        match &self.mode {
            InputMode::Editing { buffer, purpose, auto_submit, last_edit_at, .. } => {
                let value = trim(buffer.as_str());
                let search = matches!(purpose, InputPurpose::FilterMods);
                if !*auto_submit || (value.as_str().is_empty() && !search) || !is_past(
                    *last_edit_at,
                    now,
                    AUTO_SUBMIT_MS,
                ) {
                    return None;
                }
            },
            _ => return None,
        }
        let mut mode = InputMode::Normal;
        std::mem::swap(&mut mode, &mut self.mode);
        match mode {
            InputMode::Editing { buffer, purpose, .. } => Some((purpose, trim(buffer.as_str()))),
            _ => None,
        }
    }

    /// What is to be looked for now: what was typed, once nothing more was typed for a
    /// while.
    pub open spec fn next_filter(self, filter: Seq<char>, now: u64) -> Option<Seq<char>> {
        match self.mode {
            InputMode::Editing { buffer, purpose: InputPurpose::FilterMods, last_edit_at, .. } => if has_passed(
                last_edit_at,
                now,
                SEARCH_DEBOUNCE_MS,
            ) && text::trimmed(buffer@) != filter {
                Some(text::trimmed(buffer@))
            } else {
                None
            },
            _ => None,
        }
    }

    pub fn maybe_debounce_mod_filter(&self, filter: &str, now: u64) -> (r: Option<String>)
        ensures
            text::text_opt(r) == self.next_filter(filter@, now),
    {
        match &self.mode {
            InputMode::Editing { buffer, purpose: InputPurpose::FilterMods, last_edit_at, .. } => {
                let value = trim(buffer.as_str());
                if is_past(*last_edit_at, now, SEARCH_DEBOUNCE_MS) && !same_text(
                    value.as_str(),
                    filter,
                ) {
                    Some(value)
                } else {
                    None
                }
            },
            _ => None,
        }
    }

    /// The profile that is being renamed, and its name so far.
    pub open spec fn renames(self) -> Option<(Seq<char>, Seq<char>)> {
        match self.mode {
            InputMode::Editing {
                buffer,
                purpose: InputPurpose::RenameProfile { original },
                ..
            } => Some((original@, buffer@)),
            _ => None,
        }
    }

    pub fn rename_preview(&self) -> (r: Option<RenamePreview>)
        ensures
            match r {
                Some(p) => self.renames() == Some((p.original@, p.buffer@)),
                None => self.renames() is None,
            },
    {
        match &self.mode {
            InputMode::Editing {
                buffer,
                purpose: InputPurpose::RenameProfile { original },
                ..
            } => Some(RenamePreview { original: original.clone(), buffer: buffer.clone() }),
            _ => None,
        }
    }

    pub fn is_renaming_profile(&self, name: &str) -> (r: bool)
        ensures
            r == (self.renames() matches Some((original, _)) && original == name@),
    {
        match self.rename_preview() {
            Some(p) => same_text(p.original.as_str(), name),
            None => false,
        }
    }

    pub fn is_renaming_active_profile(&self, library: &Library) -> (r: bool)
        ensures
            r == (self.renames() matches Some((original, _)) && original
                == library.active_profile@),
    {
        self.is_renaming_profile(library.active_profile.as_str())
    }
}

} // verus!
