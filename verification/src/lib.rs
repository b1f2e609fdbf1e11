//! Mod management logic for a game mod manager: the library of mods, its
//! profiles and load order, mod metadata, package indexes, ranking, deployment
//! plans, imports and the state behind the command line and the interface.
//!
//! Text is modelled as `Seq<char>`; file system paths are text with `/` between
//! their components.
pub mod actions;
pub mod backup;
pub mod bg3;
pub mod calendar;
pub mod choice_laws;
pub mod cli;
pub mod cli_import;
pub mod cli_lists;
pub mod config;
pub mod conflict_laws;
pub mod conflicts;
pub mod dep_desk;
pub mod dep_keys;
pub mod dep_lookup;
pub mod dep_missing;
pub mod dep_queue;
pub mod dep_report;
pub mod deploy;
pub mod deploy_desk;
pub mod deploy_laws;
pub mod desk_laws;
pub mod dialog_desk;
pub mod dialogs;
pub mod duplicates;
pub mod explorer;
pub mod failures;
pub mod file_laws;
pub mod fingerprint;
pub mod game;
pub mod game_laws;
pub mod gather_laws;
pub mod heal_laws;
pub mod import_batch;
pub mod import_desk;
pub mod import_laws;
pub mod import_scan;
pub mod importer;
pub mod info_json;
pub mod input_text;
pub mod inputs;
pub mod larian_pak;
pub mod labels;
pub mod library;
pub mod list_laws;
pub mod lists;
pub mod loose;
pub mod meta_laws;
pub mod metadata;
pub mod metadata_desk;
pub mod mod_changes;
pub mod mod_choices;
pub mod mod_files;
pub mod mod_readings;
pub mod mod_removal;
pub mod mod_requests;
pub mod mod_switches;
pub mod mod_scan;
pub mod mod_table;
pub mod mod_view;
pub mod modsettings;
pub mod native_order;
pub mod native_pak;
pub mod native_apply;
pub mod native_sync;
pub mod need_laws;
pub mod pak_index;
pub mod pak_laws;
pub mod path_browser;
pub mod paths;
pub mod rank_order;
pub mod payload;
pub mod profile_messages;
pub mod profile_transfer;
pub mod profiles;
pub mod queue_laws;
pub mod rank_explain;
pub mod rank_flow;
pub mod rank_items;
pub mod rank_laws;
pub mod rank_preview;
pub mod rank_report;
pub mod rank_scan;
pub mod rank_scenario;
pub mod rank_state;
pub mod rank_store;
pub mod rank_trials;
pub mod reading_laws;
pub mod score_laws;
pub mod self_heal;
pub mod settings;
pub mod settings_file;
pub mod settings_laws;
pub mod setup;
pub mod sigillink;
pub mod smart_rank;
pub mod sorting;
pub mod sync_desk;
pub mod sync_laws;
pub mod table_laws;
pub mod tasks;
pub mod text;
pub mod unit_laws;
pub mod update_desk;
pub mod time_laws;
pub mod upkeep;
pub mod versions;
pub mod word_laws;
