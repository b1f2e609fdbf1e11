//! What is said and done when profiles are made, renamed, copied, deleted and chosen.
use crate::actions;
use crate::actions::{also, log, no_actions, say, toast, Action, ActionView, LogLevel, ToastLevel};
use crate::config::GameConfig;
use crate::library::Library;
use crate::mod_view::ModView;
use crate::profiles::ProfileChange;
use crate::text;
use crate::text::{concat2, concat3, trim};
use vstd::prelude::*;

verus! {

/// What is said when nothing was changed.
pub open spec fn refusal_says(r: ProfileChange, name: Seq<char>) -> Seq<ActionView> {
    let (status, note) = match r {
        ProfileChange::NameRequired => ("Profile name is required"@, "Profile name required"@),
        ProfileChange::NameTaken => ("Profile already exists: "@ + name, "Profile already exists"@),
        ProfileChange::Unchanged => ("Profile name unchanged"@, "Rename cancelled"@),
        ProfileChange::NotFound => ("Profile not found"@, "Profile not found"@),
        ProfileChange::LastProfile => (
            "Cannot delete the last profile"@,
            "At least one profile is required"@,
        ),
        ProfileChange::Done => (Seq::empty(), Seq::empty()),
    };
    seq![ActionView::Status(status), ActionView::Toast(ToastLevel::Warn, note, 3)]
}

fn refuse(r: ProfileChange, name: &str) -> (out: Vec<Action>)
    requires
        r !is Done,
    ensures
        actions::action_views(out@) == refusal_says(r, name@),
{
    let mut out = no_actions();
    let taken = concat2("Profile already exists: ", name);
    let (status, note) = match r {
        ProfileChange::NameRequired => ("Profile name is required", "Profile name required"),
        ProfileChange::NameTaken => (taken.as_str(), "Profile already exists"),
        ProfileChange::Unchanged => ("Profile name unchanged", "Rename cancelled"),
        ProfileChange::NotFound => ("Profile not found", "Profile not found"),
        ProfileChange::LastProfile | ProfileChange::Done => (
            "Cannot delete the last profile",
            "At least one profile is required",
        ),
    };
    say(&mut out, status);
    toast(&mut out, ToastLevel::Warn, note, 3);
    assert(actions::action_views(out@) =~= refusal_says(r, name@));
    out
}

/// What is said and done when a profile becomes active.
pub open spec fn loaded_says(name: Seq<char>) -> Seq<ActionView> {
    seq![
        ActionView::SaveLibrary,
        ActionView::SaveConfig,
        ActionView::Status("Profile loaded: "@ + name),
        ActionView::Log(LogLevel::Info, "Profile loaded: "@ + name),
        ActionView::WarmRanking,
        ActionView::Deploy("profile changed"@),
    ]
}

fn say_loaded(name: &str) -> (out: Vec<Action>)
    ensures
        actions::action_views(out@) == loaded_says(name@),
{
    let mut out = no_actions();
    let line = concat2("Profile loaded: ", name);
    also(&mut out, Action::SaveLibrary);
    also(&mut out, Action::SaveConfig);
    say(&mut out, line.as_str());
    log(&mut out, LogLevel::Info, line.as_str());
    also(&mut out, Action::WarmRanking);
    also(&mut out, Action::Deploy("profile changed".to_owned()));
    assert(actions::action_views(out@) =~= loaded_says(name@));
    out
}

pub fn say_profile_chosen(r: ProfileChange, name: &str) -> (out: Vec<Action>)
    ensures
        actions::action_views(out@) == if r is Done {
            loaded_says(name@)
        } else {
            seq![ActionView::Status("Profile not found"@)]
        },
{
    match r {
        ProfileChange::Done => say_loaded(name),
        _ => {
            let mut out = no_actions();
            say(&mut out, "Profile not found");
            out
        },
    }
}

/// Shows the active profile from its first mod, and remembers it for the next start.
pub fn show_active_profile(library: &Library, config: &mut GameConfig, view: &mut ModView)
    ensures
        *final(config) == (GameConfig {
            active_profile: final(config).active_profile,
            ..*old(config)
        }),
        final(config).active_profile@ == library.active_profile@,
        *final(view) == (ModView { selected: 0, move_mode: false, ..*old(view) }),
{
    config.active_profile = library.active_profile.clone();
    view.selected = 0;
    view.move_mode = false;
}

/// What is said after a change: a log entry and a passing message.
pub open spec fn told(line: Seq<char>, note: Seq<char>) -> Seq<ActionView> {
    seq![ActionView::Log(LogLevel::Info, line), ActionView::Toast(ToastLevel::Info, note, 3)]
}

fn tell(out: &mut Vec<Action>, line: &str, note: &str)
    ensures
        actions::action_views(final(out)@) == actions::action_views(old(out)@) + told(line@, note@),
{
    let ghost before = actions::action_views(out@);
    log(out, LogLevel::Info, line);
    toast(out, ToastLevel::Info, note, 3);
    assert(actions::action_views(out@) =~= before + told(line@, note@));
}

/// What is said and done after a profile was to be made. It becomes active.
pub fn say_profile_created(r: ProfileChange, name: &str) -> (out: Vec<Action>)
    ensures
        ({
            let new_name = text::trimmed(name@);
            let line = "Profile created: "@ + new_name;
            actions::action_views(out@) == if r is Done {
                loaded_says(new_name) + told(line, line)
            } else {
                refusal_says(r, new_name)
            }
        }),
{
    let new_name = trim(name);
    if !matches!(r, ProfileChange::Done) {
        return refuse(r, new_name.as_str());
    }
    let mut out = say_loaded(new_name.as_str());
    let line = concat2("Profile created: ", new_name.as_str());
    tell(&mut out, line.as_str(), line.as_str());
    out
}

/// What is said and done after a profile was to be copied. The copy becomes active.
pub fn say_profile_duplicated(r: ProfileChange, source: &str, name: &str) -> (out: Vec<Action>)
    ensures
        ({
            let new_name = text::trimmed(name@);
            actions::action_views(out@) == if r is Done {
                loaded_says(new_name) + told(
                    "Profile duplicated: "@ + source@ + " -> "@ + new_name,
                    "Profile duplicated: "@ + new_name,
                )
            } else {
                refusal_says(r, new_name)
            }
        }),
{
    let new_name = trim(name);
    if !matches!(r, ProfileChange::Done) {
        return refuse(r, new_name.as_str());
    }
    let mut out = say_loaded(new_name.as_str());
    let mut line = concat3("Profile duplicated: ", source, " -> ");
    line.append(new_name.as_str());
    tell(
        &mut out,
        line.as_str(),
        concat2("Profile duplicated: ", new_name.as_str()).as_str(),
    );
    out
}

/// What is said and done after a profile was to be renamed.
pub fn say_profile_renamed(r: ProfileChange, original: &str, name: &str) -> (out: Vec<Action>)
    ensures
        ({
            let new_name = text::trimmed(name@);
            actions::action_views(out@) == if r is Done {
                seq![
                    ActionView::SaveLibrary,
                    ActionView::SaveConfig,
                    ActionView::Status("Profile renamed: "@ + new_name),
                ] + told(
                    "Profile renamed: "@ + original@ + " -> "@ + new_name,
                    "Profile renamed to "@ + new_name,
                )
            } else {
                refusal_says(r, new_name)
            }
        }),
{
    let new_name = trim(name);
    if !matches!(r, ProfileChange::Done) {
        return refuse(r, new_name.as_str());
    }
    let mut out = no_actions();
    also(&mut out, Action::SaveLibrary);
    also(&mut out, Action::SaveConfig);
    say(&mut out, concat2("Profile renamed: ", new_name.as_str()).as_str());
    assert(actions::action_views(out@) =~= seq![
        ActionView::SaveLibrary,
        ActionView::SaveConfig,
        ActionView::Status("Profile renamed: "@ + new_name@),
    ]);
    let mut line = concat3("Profile renamed: ", original, " -> ");
    line.append(new_name.as_str());
    tell(&mut out, line.as_str(), concat2("Profile renamed to ", new_name.as_str()).as_str());
    out
}

pub open spec fn deletion_says(r: ProfileChange, name: Seq<char>, was_active: bool) -> Seq<
    ActionView,
> {
    if r is Done {
        (if was_active {
            seq![ActionView::WarmRanking, ActionView::Deploy("profile deleted"@)]
        } else {
            Seq::empty()
        }) + seq![
            ActionView::SaveLibrary,
            ActionView::SaveConfig,
            ActionView::Status("Profile deleted: "@ + name),
        ] + told("Profile deleted: "@ + name, "Profile deleted: "@ + name)
    } else {
        refusal_says(r, name)
    }
}

/// What is said and done after a profile was to be deleted. `was_active` says that it
/// was the active one.
pub fn say_profile_deleted(r: ProfileChange, name: &str, was_active: bool) -> (out: Vec<Action>)
    ensures
        actions::action_views(out@) == deletion_says(r, name@, was_active),
{
    if !matches!(r, ProfileChange::Done) {
        return refuse(r, name);
    }
    let mut out = no_actions();
    if was_active {
        also(&mut out, Action::WarmRanking);
        also(&mut out, Action::Deploy("profile deleted".to_owned()));
    }
    let line = concat2("Profile deleted: ", name);
    also(&mut out, Action::SaveLibrary);
    also(&mut out, Action::SaveConfig);
    say(&mut out, line.as_str());
    assert(actions::action_views(out@) =~= (if was_active {
        seq![ActionView::WarmRanking, ActionView::Deploy("profile deleted"@)]
    } else {
        Seq::empty()
    }) + seq![
        ActionView::SaveLibrary,
        ActionView::SaveConfig,
        ActionView::Status("Profile deleted: "@ + name@),
    ]);
    tell(&mut out, line.as_str(), line.as_str());
    out
}

} // verus!
