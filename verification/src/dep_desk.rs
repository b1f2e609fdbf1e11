//! Going through the list of what is missing.
use crate::actions;
use crate::actions::{
    also, no_actions, say, toast, Action, ActionView, Dialog, DialogChoice, DialogKind,
    DialogToggle, DialogView, KindView, ToastLevel,
};
use crate::dep_queue::{DependencyItem, DependencyQueue};
use crate::text;
use crate::text::{concat3, is_blank, same_text};
use vstd::prelude::*;

verus! {

/// The list of what is missing, and the mods that wait for it.
pub struct DependencyDesk {
    pub queue: Option<DependencyQueue>,
    /// The ids of the mods that are to be switched on afterwards.
    pub pending_enable: Option<Vec<String>>,
    /// How many items are in view.
    pub view: usize,
}

/// The index nearest to `at` in a list.
pub open spec fn clamped(at: int, len: int) -> int {
    if len <= 0 || at < 0 {
        0
    } else if at >= len {
        len - 1
    } else {
        at
    }
}

pub open spec fn with_selected(q: DependencyQueue, at: int) -> DependencyQueue {
    DependencyQueue { selected: at as usize, ..q }
}

impl DependencyDesk {
    pub fn new() -> (r: Self)
        ensures
            r == (DependencyDesk { queue: None, pending_enable: None, view: 1 }),
    {
        DependencyDesk { queue: None, pending_enable: None, view: 1 }
    }

    pub fn dependency_queue_active(&self) -> (r: bool)
        ensures
            r == (self.queue is Some),
    {
        self.queue.is_some()
    }

    pub fn dependency_queue_enable_pending(&self) -> (r: bool)
        ensures
            r == (self.pending_enable is Some),
    {
        self.pending_enable.is_some()
    }

    pub fn set_dependency_queue_view(&mut self, view_items: usize)
        ensures
            *final(self) == (DependencyDesk {
                view: if view_items > 1 {
                    view_items
                } else {
                    1
                },
                ..*old(self)
            }),
    {
        self.view = if view_items > 1 {
            view_items
        } else {
            1
        };
    }

    /// How far a page reaches: all that is in view but one.
    pub fn dependency_queue_page_step(&self) -> (r: usize)
        ensures
            r == if self.view > 2 {
                self.view - 1
            } else {
                1
            },
    {
        if self.view > 2 {
            self.view - 1
        } else {
            1
        }
    }

    /// Moves the selection, as far as the list reaches.
    pub fn dependency_queue_move(&mut self, delta: isize)
        ensures
            match old(self).queue {
                Some(q) => *final(self) == (DependencyDesk {
                    queue: Some(
                        with_selected(q, clamped(q.selected + delta, q.items@.len() as int)),
                    ),
                    ..*old(self)
                }),
                None => *final(self) == *old(self),
            },
    {
        if let Some(q) = &mut self.queue {
            let len = q.items.len();
            if len == 0 {
                q.selected = 0;
                return;
            }
            let next: i128 = q.selected as i128 + delta as i128;
            if next < 0 {
                q.selected = 0;
            } else if next >= len as i128 {
                q.selected = len - 1;
            } else {
                q.selected = next as usize;
            }
        }
    }

    pub fn dependency_queue_home(&mut self)
        ensures
            match old(self).queue {
                Some(q) => *final(self) == (DependencyDesk {
                    queue: Some(with_selected(q, 0)),
                    ..*old(self)
                }),
                None => *final(self) == *old(self),
            },
    {
        if let Some(q) = &mut self.queue {
            q.selected = 0;
        }
    }

    pub fn dependency_queue_end(&mut self)
        ensures
            match old(self).queue {
                Some(q) => *final(self) == (DependencyDesk {
                    queue: Some(
                        if q.items@.len() > 0 {
                            with_selected(q, q.items@.len() - 1)
                        } else {
                            q
                        },
                    ),
                    ..*old(self)
                }),
                None => *final(self) == *old(self),
            },
    {
        if let Some(q) = &mut self.queue {
            if q.items.len() > 0 {
                q.selected = q.items.len() - 1;
            }
        }
    }

    /// The item that is selected.
    pub open spec fn selected_item(self) -> Option<DependencyItem> {
        match self.queue {
            Some(q) => if q.selected < q.items@.len() {
                Some(q.items@[q.selected as int])
            } else {
                None
            },
            None => None,
        }
    }

    pub fn dependency_queue_selected(&self) -> (r: Option<&DependencyItem>)
        ensures
            match r {
                Some(i) => self.selected_item() == Some(*i),
                None => self.selected_item() is None,
            },
    {
        match &self.queue {
            Some(q) => if q.selected < q.items.len() {
                Some(&q.items[q.selected])
            } else {
                None
            },
            None => None,
        }
    }

    /// Leaves the list. While an import waits, that is asked about first.
    pub fn dependency_queue_cancel(&mut self, import_waits: bool, dialog_open: bool) -> (out: Vec<
        Action,
    >)
        ensures
            if import_waits {
                &&& *final(self) == *old(self)
                &&& actions::action_views(out@) == if dialog_open {
                    Seq::empty()
                } else {
                    seq![ActionView::Ask(cancel_import_dialog())]
                }
            } else {
                &&& *final(self) == (DependencyDesk {
                    queue: None,
                    pending_enable: None,
                    ..*old(self)
                })
                &&& actions::action_views(out@) == seq![
                    ActionView::Status("Dependency check canceled"@),
                ]
            },
    {
        let mut out = no_actions();
        if import_waits {
            if !dialog_open {
                also(&mut out, Action::Ask(prompt_cancel_import()));
            }
            return out;
        }
        self.queue = None;
        self.pending_enable = None;
        say(&mut out, "Dependency check canceled");
        out
    }

    /// Opens what is known of the selected item.
    pub fn dependency_queue_open_selected(
        &self,
        copy_preference: Option<bool>,
        dialog_open: bool,
    ) -> (out: Vec<Action>)
        ensures
            actions::action_views(out@) == open_says(
                self.selected_item(),
                self.pending_enable is Some,
                copy_preference,
                dialog_open,
            ),
    {
        let mut out = no_actions();
        let item = match self.dependency_queue_selected() {
            Some(i) => i,
            None => return out,
        };
        if item.is_override_action() {
            if !dialog_open {
                also(
                    &mut out,
                    Action::Ask(prompt_dependency_override(self.pending_enable.is_some())),
                );
            }
            return out;
        }
        if let Some(link) = &item.link {
            open_link(&mut out, link.as_str());
            assert(actions::action_views(out@) =~= link_says(link@));
            return out;
        }
        if let Some(search) = &item.search_link {
            open_link(&mut out, search.as_str());
            assert(actions::action_views(out@) =~= link_says(search@));
            if same_text(item.search_label.as_str(), "Unknown dependency") {
                maybe_prompt_copy_search_link(
                    &mut out,
                    search.as_str(),
                    item.search_label.as_str(),
                    copy_preference,
                    dialog_open,
                );
            }
            return out;
        }
        say(&mut out, "No links available");
        toast(&mut out, ToastLevel::Warn, "No links available", 2);
        out
    }

    /// Copies the link of the selected item.
    pub fn dependency_queue_copy_link(&self) -> (out: Vec<Action>)
        ensures
            actions::action_views(out@) == match self.selected_item() {
                Some(i) => if i.kind is OverrideAction {
                    Seq::empty()
                } else {
                    match (i.link, i.search_link) {
                        (Some(link), _) => seq![ActionView::Copy(link@, "Link copied"@)],
                        (None, Some(search)) => seq![
                            ActionView::Copy(search@, "Search link copied"@),
                        ],
                        (None, None) => seq![
                            ActionView::Status("No link available"@),
                            ActionView::Toast(ToastLevel::Warn, "No link available"@, 2),
                        ],
                    }
                },
                None => Seq::empty(),
            },
    {
        let mut out = no_actions();
        let item = match self.dependency_queue_selected() {
            Some(i) => i,
            None => return out,
        };
        if item.is_override_action() {
            return out;
        }
        if let Some(link) = &item.link {
            also(&mut out, Action::Copy(link.clone(), "Link copied".to_owned()));
            return out;
        }
        if let Some(search) = &item.search_link {
            also(&mut out, Action::Copy(search.clone(), "Search link copied".to_owned()));
            return out;
        }
        say(&mut out, "No link available");
        toast(&mut out, ToastLevel::Warn, "No link available", 2);
        assert(actions::action_views(out@) =~= seq![
            ActionView::Status("No link available"@),
            ActionView::Toast(ToastLevel::Warn, "No link available"@, 2),
        ]);
        out
    }

    /// Copies the id of the selected item.
    pub fn dependency_queue_copy_uuid(&self) -> (out: Vec<Action>)
        ensures
            actions::action_views(out@) == match self.selected_item() {
                Some(i) => if i.kind is OverrideAction {
                    Seq::empty()
                } else {
                    match i.uuid {
                        Some(uuid) => seq![ActionView::Copy(uuid@, "Dependency UUID copied"@)],
                        None => seq![ActionView::Copy(i.label@, "Dependency id copied"@)],
                    }
                },
                None => Seq::empty(),
            },
    {
        let mut out = no_actions();
        let item = match self.dependency_queue_selected() {
            Some(i) => i,
            None => return out,
        };
        if item.is_override_action() {
            return out;
        }
        if let Some(uuid) = &item.uuid {
            also(&mut out, Action::Copy(uuid.clone(), "Dependency UUID copied".to_owned()));
            return out;
        }
        also(&mut out, Action::Copy(item.label.clone(), "Dependency id copied".to_owned()));
        out
    }
}

/// However the selection is moved, it stays within the list.
pub proof fn law_selection_stays(at: int, len: int)
    requires
        len > 0,
    ensures
        0 <= clamped(at, len) < len,
        0 <= at < len ==> clamped(at, len) == at,
{
}

// ---------------------------------------------------------------------------
// Questions
// ---------------------------------------------------------------------------

pub open spec fn cancel_import_dialog() -> DialogView {
    DialogView {
        title: "Cancel Import"@,
        message: "Cancel this import and return to the main view?"@,
        yes_label: "Continue import"@,
        no_label: "Cancel import"@,
        choice: DialogChoice::No,
        kind: KindView::CancelImport,
        toggle: Some(("Remember import choice"@, false)),
        scroll: 0,
    }
}

pub fn prompt_cancel_import() -> (d: Dialog)
    ensures
        d.shown() == cancel_import_dialog(),
{
    Dialog {
        title: "Cancel Import".to_owned(),
        message: "Cancel this import and return to the main view?".to_owned(),
        yes_label: "Continue import".to_owned(),
        no_label: "Cancel import".to_owned(),
        choice: DialogChoice::No,
        kind: DialogKind::CancelImport,
        toggle: Some(
            DialogToggle { label: "Remember import choice".to_owned(), checked: false },
        ),
        scroll: 0,
    }
}

pub open spec fn override_dialog(enabling: bool) -> DialogView {
    DialogView {
        title: "Override Dependencies"@,
        message: if enabling {
            "Enable mods without resolving dependencies?\nThis can break your load order."@
        } else {
            "Continue import without resolving dependencies?\nThis can break your load order."@
        },
        yes_label: "Override"@,
        no_label: "Cancel"@,
        choice: DialogChoice::No,
        kind: KindView::OverrideDependencies,
        toggle: None,
        scroll: 0,
    }
}

pub fn prompt_dependency_override(enabling: bool) -> (d: Dialog)
    ensures
        d.shown() == override_dialog(enabling),
{
    Dialog {
        title: "Override Dependencies".to_owned(),
        message: if enabling {
            "Enable mods without resolving dependencies?\nThis can break your load order.".to_owned()
        } else {
            "Continue import without resolving dependencies?\nThis can break your load order.".to_owned()
        },
        yes_label: "Override".to_owned(),
        no_label: "Cancel".to_owned(),
        choice: DialogChoice::No,
        kind: DialogKind::OverrideDependencies,
        toggle: None,
        scroll: 0,
    }
}

/// The question whether a search link is to be copied.
pub open spec fn copy_link_dialog(link: Seq<char>, label: Seq<char>) -> DialogView {
    DialogView {
        title: "Copy Search Link"@,
        message: "No direct link found for \""@ + (if text::trimmed(label).len() == 0 {
            "dependency"@
        } else {
            label
        }) + "\".\nCopy Nexus search link to clipboard?"@,
        yes_label: "Copy"@,
        no_label: "Skip"@,
        choice: DialogChoice::No,
        kind: KindView::CopyDependencySearchLink { link },
        toggle: Some(("Remember my choice"@, false)),
        scroll: 0,
    }
}

/// What becomes of a search link: it is copied or not, as the user once decided, or
/// the user is asked.
pub open spec fn search_link_says(
    link: Seq<char>,
    label: Seq<char>,
    preference: Option<bool>,
    dialog_open: bool,
) -> Seq<ActionView> {
    match preference {
        Some(true) => seq![ActionView::Copy(link, "Search link copied"@)],
        Some(false) => seq![ActionView::Status("Search link available"@)],
        None => if dialog_open {
            Seq::empty()
        } else {
            seq![ActionView::Ask(copy_link_dialog(link, label))]
        },
    }
}

fn maybe_prompt_copy_search_link(
    out: &mut Vec<Action>,
    link: &str,
    label: &str,
    preference: Option<bool>,
    dialog_open: bool,
)
    ensures
        actions::action_views(final(out)@) == actions::action_views(old(out)@) + search_link_says(
            link@,
            label@,
            preference,
            dialog_open,
        ),
{
    let ghost before = actions::action_views(out@);
    match preference {
        Some(true) => {
            also(out, Action::Copy(link.to_owned(), "Search link copied".to_owned()));
        },
        Some(false) => {
            say(out, "Search link available");
        },
        None => {
            if !dialog_open {
                let shown = if is_blank(label) {
                    "dependency"
                } else {
                    label
                };
                let dialog = Dialog {
                    title: "Copy Search Link".to_owned(),
                    message: concat3(
                        "No direct link found for \"",
                        shown,
                        "\".\nCopy Nexus search link to clipboard?",
                    ),
                    yes_label: "Copy".to_owned(),
                    no_label: "Skip".to_owned(),
                    choice: DialogChoice::No,
                    kind: DialogKind::CopyDependencySearchLink { link: link.to_owned() },
                    toggle: Some(
                        DialogToggle { label: "Remember my choice".to_owned(), checked: false },
                    ),
                    scroll: 0,
                };
                assert(dialog.shown() == copy_link_dialog(link@, label@));
                also(out, Action::Ask(dialog));
            }
        },
    }
    assert(actions::action_views(out@) =~= before + search_link_says(
        link@,
        label@,
        preference,
        dialog_open,
    ));
}

/// Opening a link; an empty one opens nothing.
pub open spec fn link_says(link: Seq<char>) -> Seq<ActionView> {
    if text::trimmed(link).len() == 0 {
        Seq::empty()
    } else {
        seq![ActionView::OpenLink(link)]
    }
}

fn open_link(out: &mut Vec<Action>, link: &str)
    ensures
        actions::action_views(final(out)@) == actions::action_views(old(out)@) + link_says(link@),
{
    let ghost before = actions::action_views(out@);
    if !is_blank(link) {
        also(out, Action::OpenLink(link.to_owned()));
    }
    assert(actions::action_views(out@) =~= before + link_says(link@));
}

/// What opening an item does.
pub open spec fn open_says(
    item: Option<DependencyItem>,
    enabling: bool,
    preference: Option<bool>,
    dialog_open: bool,
) -> Seq<ActionView> {
    match item {
        Some(i) => if i.kind is OverrideAction {
            if dialog_open {
                Seq::empty()
            } else {
                seq![ActionView::Ask(override_dialog(enabling))]
            }
        } else {
            match (i.link, i.search_link) {
                (Some(link), _) => link_says(link@),
                (None, Some(search)) => link_says(search@) + (
                if i.search_label@ == "Unknown dependency"@ {
                    search_link_says(search@, i.search_label@, preference, dialog_open)
                } else {
                    Seq::empty()
                }),
                (None, None) => seq![
                    ActionView::Status("No links available"@),
                    ActionView::Toast(ToastLevel::Warn, "No links available"@, 2),
                ],
            }
        },
        None => Seq::empty(),
    }
}

} // verus!
