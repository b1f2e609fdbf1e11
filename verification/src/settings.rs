//! The menu of settings, and the help.
use crate::actions;
use crate::actions::{also, no_actions, say, Action, ActionView};
use crate::config::AppConfig;
use crate::text::concat3;
use vstd::prelude::*;

verus! {

/// The menu of settings.
#[derive(Debug, Clone, Copy, PartialEq, Eq, Structural)]
pub struct SettingsMenu {
    pub selected: usize,
}

/// What lies over the screen.
#[derive(Debug, Clone, Copy, PartialEq, Eq, Structural)]
pub struct Overlays {
    pub settings_menu: Option<SettingsMenu>,
    pub help_open: bool,
    pub help_scroll: usize,
}

impl Overlays {
    pub fn new() -> (r: Self)
        ensures
            r == (Overlays { settings_menu: None, help_open: false, help_scroll: 0 }),
    {
        Overlays { settings_menu: None, help_open: false, help_scroll: 0 }
    }

    pub fn open_settings_menu(&mut self)
        ensures
            *final(self) == (Overlays {
                settings_menu: Some(SettingsMenu { selected: 0 }),
                ..*old(self)
            }),
    {
        self.settings_menu = Some(SettingsMenu { selected: 0 });
    }

    pub fn close_settings_menu(&mut self)
        ensures
            *final(self) == (Overlays { settings_menu: None, ..*old(self) }),
    {
        self.settings_menu = None;
    }

    /// Opens or closes the menu. The result says whether updates are looked for, as they
    /// are whenever it opens.
    pub fn toggle_settings_menu(&mut self) -> (opened: bool)
        ensures
            opened == (old(self).settings_menu is None),
            *final(self) == (Overlays {
                settings_menu: if opened {
                    Some(SettingsMenu { selected: 0 })
                } else {
                    None
                },
                ..*old(self)
            }),
    {
        if self.settings_menu.is_some() {
            self.close_settings_menu();
            false
        } else {
            self.open_settings_menu();
            true
        }
    }

    /// Opens the help at its top, or closes it.
    pub fn toggle_help(&mut self)
        ensures
            *final(self) == (Overlays {
                help_open: !old(self).help_open,
                help_scroll: if old(self).help_open {
                    old(self).help_scroll
                } else {
                    0
                },
                ..*old(self)
            }),
    {
        if self.help_open {
            self.help_open = false;
        } else {
            self.help_open = true;
            self.help_scroll = 0;
        }
    }

    pub fn close_help(&mut self)
        ensures
            *final(self) == (Overlays { help_open: false, ..*old(self) }),
    {
        self.help_open = false;
    }
}

/// What is said of a switch.
pub open spec fn switch_line(name: Seq<char>, on: bool) -> Seq<char> {
    name + " "@ + if on {
        "enabled"@
    } else {
        "disabled"@
    }
}

pub open spec fn setting_says(name: Seq<char>, on: bool) -> Seq<ActionView> {
    seq![ActionView::SaveAppConfig, ActionView::Status(switch_line(name, on))]
}

fn say_setting(name: &str, on: bool) -> (out: Vec<Action>)
    ensures
        actions::action_views(out@) == setting_says(name@, on),
{
    let mut out = no_actions();
    also(&mut out, Action::SaveAppConfig);
    let line = concat3(
        name,
        " ",
        if on {
            "enabled"
        } else {
            "disabled"
        },
    );
    say(&mut out, line.as_str());
    assert(actions::action_views(out@) =~= setting_says(name@, on));
    out
}

impl AppConfig {
    pub fn toggle_confirm_profile_delete(&mut self) -> (out: Vec<Action>)
        ensures
            *final(self) == (AppConfig {
                confirm_profile_delete: !old(self).confirm_profile_delete,
                ..*old(self)
            }),
            actions::action_views(out@) == setting_says(
                "Confirm profile delete"@,
                !old(self).confirm_profile_delete,
            ),
    {
        self.confirm_profile_delete = !self.confirm_profile_delete;
        say_setting("Confirm profile delete", self.confirm_profile_delete)
    }

    pub fn toggle_confirm_mod_delete(&mut self) -> (out: Vec<Action>)
        ensures
            *final(self) == (AppConfig {
                confirm_mod_delete: !old(self).confirm_mod_delete,
                ..*old(self)
            }),
            actions::action_views(out@) == setting_says(
                "Confirm mod delete"@,
                !old(self).confirm_mod_delete,
            ),
    {
        self.confirm_mod_delete = !self.confirm_mod_delete;
        say_setting("Confirm mod delete", self.confirm_mod_delete)
    }

    pub fn toggle_enable_mods_after_import(&mut self) -> (out: Vec<Action>)
        ensures
            *final(self) == (AppConfig {
                enable_mods_after_import: !old(self).enable_mods_after_import,
                ..*old(self)
            }),
            actions::action_views(out@) == setting_says(
                "Enable mods after import"@,
                !old(self).enable_mods_after_import,
            ),
    {
        self.enable_mods_after_import = !self.enable_mods_after_import;
        say_setting("Enable mods after import", self.enable_mods_after_import)
    }

    pub fn toggle_delete_mod_files_on_remove(&mut self) -> (out: Vec<Action>)
        ensures
            *final(self) == (AppConfig {
                delete_mod_files_on_remove: !old(self).delete_mod_files_on_remove,
                ..*old(self)
            }),
            actions::action_views(out@) == setting_says(
                "Delete mod files on remove"@,
                !old(self).delete_mod_files_on_remove,
            ),
    {
        self.delete_mod_files_on_remove = !self.delete_mod_files_on_remove;
        say_setting("Delete mod files on remove", self.delete_mod_files_on_remove)
    }

    pub fn toggle_dependency_downloads(&mut self) -> (out: Vec<Action>)
        ensures
            *final(self) == (AppConfig {
                offer_dependency_downloads: !old(self).offer_dependency_downloads,
                ..*old(self)
            }),
            actions::action_views(out@) == setting_says(
                "Dependency downloads"@,
                !old(self).offer_dependency_downloads,
            ),
    {
        self.offer_dependency_downloads = !self.offer_dependency_downloads;
        say_setting("Dependency downloads", self.offer_dependency_downloads)
    }

    pub fn toggle_dependency_warnings(&mut self) -> (out: Vec<Action>)
        ensures
            *final(self) == (AppConfig {
                warn_missing_dependencies: !old(self).warn_missing_dependencies,
                ..*old(self)
            }),
            actions::action_views(out@) == setting_says(
                "Missing dependency warnings"@,
                !old(self).warn_missing_dependencies,
            ),
    {
        self.warn_missing_dependencies = !self.warn_missing_dependencies;
        say_setting("Missing dependency warnings", self.warn_missing_dependencies)
    }

    pub fn toggle_startup_dependency_notice(&mut self) -> (out: Vec<Action>)
        ensures
            *final(self) == (AppConfig {
                show_startup_dependency_notice: !old(self).show_startup_dependency_notice,
                ..*old(self)
            }),
            actions::action_views(out@) == setting_says(
                "Startup dependency notice"@,
                !old(self).show_startup_dependency_notice,
            ),
    {
        self.show_startup_dependency_notice = !self.show_startup_dependency_notice;
        say_setting("Startup dependency notice", self.show_startup_dependency_notice)
    }
}

} // verus!
