//! Reports on what is kept of rankings.
use crate::fingerprint;
use crate::fingerprint::{metadata_cache_key, smart_rank_profile_key_for};
use crate::library;
use crate::library::{display_mod_name, Library, ModEntry};
use crate::mod_view::ModView;
use crate::mod_table;
use crate::rank_state;
use crate::rank_state::{
    plan_warmup, smart_rank_cache_missing_ids_for, smart_rank_cache_ready_for, SmartRankCache,
    SmartRankRefreshMode,
};
use crate::tasks;
use crate::tasks::{block_mod_changes, Tasks};
use crate::text;
use crate::text::{add_line, concat2, concat3, join_texts, same_text, show_u64, show_usize};
use vstd::prelude::*;

verus! {

/// How many ids a report lists.
pub const LISTED_IDS: usize = 8;

pub open spec fn truth(b: bool) -> Seq<char> {
    if b {
        "true"@
    } else {
        "false"@
    }
}

pub(crate) fn show_truth(b: bool) -> (r: &'static str)
    ensures
        r@ == truth(b),
{
    if b {
        "true"
    } else {
        "false"
    }
}

/// The ids of the active profile whose mods are not known as they are.
pub open spec fn unknown_in(library: Library, cache: SmartRankCache, keys: Seq<String>) -> Seq<
    Seq<char>,
> {
    let at = library::profile_index(library.profiles@, library.active_profile@);
    let order = library.profiles@[at].order@;
    if at >= 0 {
        rank_state::unknown_ids(order, library.mods@, keys, cache.mods@, order.len() as int)
    } else {
        Seq::empty()
    }
}

pub open spec fn shorter(n: nat) -> int {
    if n < LISTED_IDS {
        n as int
    } else {
        LISTED_IDS as int
    }
}

/// The lines of ids that are not known, with their names where `mods` are given; not all
/// of them where there are many.
pub open spec fn unknown_lines(
    title: Seq<char>,
    ids: Seq<Seq<char>>,
    mods: Option<Seq<ModEntry>>,
) -> Seq<Seq<char>> {
    if ids.len() == 0 {
        Seq::empty()
    } else {
        seq![title + text::decimal(ids.len())] + Seq::new(
            shorter(ids.len()) as nat,
            |i: int| unknown_line(ids[i], mods),
        ) + if ids.len() > LISTED_IDS {
            seq!["  ... "@ + text::decimal((ids.len() - LISTED_IDS) as nat) + " more"@]
        } else {
            Seq::empty()
        }
    }
}

pub open spec fn unknown_line(id: Seq<char>, mods: Option<Seq<ModEntry>>) -> Seq<char> {
    match mods {
        Some(list) => "  - "@ + library::mod_name(list, id) + " ("@ + id + ")"@,
        None => "  - "@ + id,
    }
}

fn add_unknown(lines: &mut Vec<String>, title: &str, ids: &Vec<String>, library: &Library, named: bool)
    ensures
        text::texts(final(lines)@) == text::texts(old(lines)@) + unknown_lines(
            title@,
            text::texts(ids@),
            if named {
                Some(library.mods@)
            } else {
                None
            },
        ),
{
    let ghost start = text::texts(lines@);
    let ghost all = text::texts(ids@);
    let ghost mods = if named {
        Some(library.mods@)
    } else {
        None
    };
    if ids.is_empty() {
        assert(text::texts(lines@) =~= start + unknown_lines(title@, all, mods));
        return;
    }
    add_line(lines, concat2(title, show_usize(ids.len()).as_str()));
    let ghost head = seq![title@ + text::decimal(all.len())];
    let ghost goal = Seq::new(shorter(all.len()) as nat, |i: int| unknown_line(all[i], mods));
    let index = library.index_by_id();
    let mut i: usize = 0;
    assert(text::texts(lines@) =~= start + (head + goal.take(0)));
    while i < ids.len() && i < LISTED_IDS
        invariant
            i <= ids.len(),
            i <= LISTED_IDS,
            all == text::texts(ids@),
            mods == (if named {
                Some(library.mods@)
            } else {
                None
            }),
            library::indexes(index@, library.mods@),
            goal == Seq::new(shorter(all.len()) as nat, |i: int| unknown_line(all[i], mods)),
            text::texts(lines@) == start + (head + goal.take(i as int)),
        decreases ids.len() - i,
    {
        let id = ids[i].as_str();
        let line = if named {
            let name = display_mod_name(id, library.mods.as_slice(), &index);
            let mut line = concat3("  - ", name.as_str(), " (");
            line.append(id);
            line.append(")");
            line
        } else {
            concat2("  - ", id)
        };
        add_line(lines, line);
        i = i + 1;
        assert(goal.take(i as int) =~= goal.take(i - 1).push(goal[i - 1]));
        assert(text::texts(lines@) =~= start + (head + goal.take(i as int)));
    }
    assert(goal.take(i as int) =~= goal);
    if ids.len() > LISTED_IDS {
        add_line(
            lines,
            concat3("  ... ", show_usize(ids.len() - LISTED_IDS).as_str(), " more"),
        );
    }
    assert(text::texts(lines@) =~= start + unknown_lines(title@, all, mods));
}

// ---------------------------------------------------------------------------
// The ranking in use
// ---------------------------------------------------------------------------

pub open spec fn rank_lines(
    cache: Option<SmartRankCache>,
    library: Library,
    keys: Seq<String>,
    path: Seq<char>,
) -> Seq<Seq<char>> {
    let current = fingerprint::profile_key(library);
    seq![
        "Smart rank cache path: "@ + path,
        if cache is Some {
            "Cache loaded: yes"@
        } else {
            "Cache loaded: no"@
        },
    ] + (match cache {
        Some(c) => seq![
            "Cache version: "@ + text::decimal(c.version as nat),
            "Cache profile key: "@ + c.profile_key@,
            "Cache result present: "@ + truth(c.result is Some),
            "Cache ready for enabled: "@ + truth(rank_state::cache_ready(library, c, keys)),
        ] + unknown_lines(
            "Missing mod cache entries: "@,
            unknown_in(library, c, keys),
            None,
        ),
        None => Seq::empty(),
    }) + seq![
        "Current profile key: "@ + current,
        "Profile key match: "@ + truth(cache matches Some(c) && c.profile_key@ == current),
    ]
}

/// What is known from the last ranking, and whether it will do.
pub fn debug_smart_rank_report(
    cache: &Option<SmartRankCache>,
    library: &Library,
    keys: &Vec<String>,
    path: &str,
) -> (r: String)
    requires
        keys@.len() == library.mods@.len(),
    ensures
        r@ == text::join(rank_lines(*cache, *library, keys@, path@), "\n"@),
{
    let current = smart_rank_profile_key_for(library);
    let mut lines: Vec<String> = Vec::new();
    assert(text::texts(lines@) =~= Seq::<Seq<char>>::empty());
    add_line(&mut lines, concat2("Smart rank cache path: ", path));
    add_line(
        &mut lines,
        (if cache.is_some() {
            "Cache loaded: yes"
        } else {
            "Cache loaded: no"
        }).to_owned(),
    );
    let mut same = false;
    if let Some(c) = cache {
        add_line(&mut lines, concat2("Cache version: ", show_u64(c.version as u64).as_str()));
        add_line(&mut lines, concat2("Cache profile key: ", c.profile_key.as_str()));
        add_line(&mut lines, concat2("Cache result present: ", show_truth(c.result.is_some())));
        let missing = smart_rank_cache_missing_ids_for(library, c, keys);
        let ready = smart_rank_cache_ready_for(library, c, keys);
        add_line(&mut lines, concat2("Cache ready for enabled: ", show_truth(ready)));
        add_unknown(&mut lines, "Missing mod cache entries: ", &missing, library, false);
        same = same_text(c.profile_key.as_str(), current.as_str());
    }
    add_line(&mut lines, concat2("Current profile key: ", current.as_str()));
    add_line(&mut lines, concat2("Profile key match: ", show_truth(same)));
    assert(text::texts(lines@) =~= rank_lines(*cache, *library, keys@, path@));
    join_texts(&lines, "\n")
}

pub open spec fn validate_lines(
    cache: Option<SmartRankCache>,
    library: Library,
    keys: Seq<String>,
) -> Seq<Seq<char>> {
    seq!["Profile key: "@ + fingerprint::profile_key(library)] + match cache {
        Some(c) => seq![
            "Cache loaded: yes"@,
            "Cache version: "@ + text::decimal(c.version as nat),
            "Cache profile key: "@ + c.profile_key@,
            "Cache result present: "@ + truth(c.result is Some),
            "Cache mod entries: "@ + text::decimal(c.mods@.dom().len()),
            "Cache ready for enabled: "@ + truth(rank_state::cache_ready(library, c, keys)),
        ] + unknown_lines("Missing entries: "@, unknown_in(library, c, keys), Some(library.mods@)),
        None => seq!["Cache loaded: no"@],
    }
}

/// Whether what is known from the last ranking will do, and what it lacks.
pub fn debug_smart_rank_cache_validate(
    cache: &Option<SmartRankCache>,
    library: &Library,
    keys: &Vec<String>,
) -> (r: String)
    requires
        keys@.len() == library.mods@.len(),
    ensures
        r@ == text::join(validate_lines(*cache, *library, keys@), "\n"@),
{
    let mut lines: Vec<String> = Vec::new();
    assert(text::texts(lines@) =~= Seq::<Seq<char>>::empty());
    add_line(&mut lines, concat2("Profile key: ", smart_rank_profile_key_for(library).as_str()));
    match cache {
        Some(c) => {
            add_line(&mut lines, "Cache loaded: yes".to_owned());
            add_line(&mut lines, concat2("Cache version: ", show_u64(c.version as u64).as_str()));
            add_line(&mut lines, concat2("Cache profile key: ", c.profile_key.as_str()));
            add_line(&mut lines, concat2("Cache result present: ", show_truth(c.result.is_some())));
            add_line(&mut lines, concat2("Cache mod entries: ", show_usize(c.mods.len()).as_str()));
            let ready = smart_rank_cache_ready_for(library, c, keys);
            add_line(&mut lines, concat2("Cache ready for enabled: ", show_truth(ready)));
            let missing = smart_rank_cache_missing_ids_for(library, c, keys);
            add_unknown(&mut lines, "Missing entries: ", &missing, library, true);
        },
        None => {
            add_line(&mut lines, "Cache loaded: no".to_owned());
        },
    }
    assert(text::texts(lines@) =~= validate_lines(*cache, *library, keys@));
    join_texts(&lines, "\n")
}

// ---------------------------------------------------------------------------
// The ranking that is stored
// ---------------------------------------------------------------------------

/// What reading the stored ranking came to.
pub enum ReadRanking {
    /// It could not be read.
    Unreadable(String),
    /// It makes no sense.
    Broken(String),
    Found(SmartRankCache),
}

pub open spec fn warmup_word(mode: Option<SmartRankRefreshMode>) -> Seq<char> {
    match mode {
        None => "None (cache hit)"@,
        Some(SmartRankRefreshMode::Full) => "Full"@,
        Some(SmartRankRefreshMode::Incremental) => "Incremental"@,
        Some(SmartRankRefreshMode::ReorderOnly) => "ReorderOnly"@,
    }
}

pub open spec fn restart_lines(
    read: ReadRanking,
    library: Library,
    keys: Seq<String>,
    path: Seq<char>,
) -> Seq<Seq<char>> {
    seq!["Cache path: "@ + path] + match read {
        ReadRanking::Unreadable(error) => seq!["Cache load: failed ("@ + error@ + ")"@],
        ReadRanking::Broken(error) => seq!["Cache parse: failed ("@ + error@ + ")"@],
        ReadRanking::Found(c) => seq![
            "Cache version: "@ + text::decimal(c.version as nat),
            "Cache result present: "@ + truth(c.result is Some),
            "Cache profile key: "@ + c.profile_key@,
            "Current profile key: "@ + fingerprint::profile_key(library),
            "Cache ready: "@ + truth(rank_state::cache_ready(library, c, keys)),
            "Restart warmup: "@ + warmup_word(rank_state::warmup_mode(library, Some(c), keys)),
        ],
    }
}

/// What a start would make of the ranking that is stored.
pub fn debug_smart_rank_restart_check(
    read: ReadRanking,
    library: &Library,
    keys: &Vec<String>,
    path: &str,
) -> (r: String)
    requires
        keys@.len() == library.mods@.len(),
    ensures
        r@ == text::join(restart_lines(read, *library, keys@, path@), "\n"@),
{
    let ghost whole = read;
    let mut lines: Vec<String> = Vec::new();
    assert(text::texts(lines@) =~= Seq::<Seq<char>>::empty());
    add_line(&mut lines, concat2("Cache path: ", path));
    match read {
        ReadRanking::Unreadable(error) => {
            add_line(&mut lines, concat3("Cache load: failed (", error.as_str(), ")"));
        },
        ReadRanking::Broken(error) => {
            add_line(&mut lines, concat3("Cache parse: failed (", error.as_str(), ")"));
        },
        ReadRanking::Found(c) => {
            add_line(&mut lines, concat2("Cache version: ", show_u64(c.version as u64).as_str()));
            add_line(&mut lines, concat2("Cache result present: ", show_truth(c.result.is_some())));
            add_line(&mut lines, concat2("Cache profile key: ", c.profile_key.as_str()));
            add_line(
                &mut lines,
                concat2("Current profile key: ", smart_rank_profile_key_for(library).as_str()),
            );
            let ready = smart_rank_cache_ready_for(library, &c, keys);
            add_line(&mut lines, concat2("Cache ready: ", show_truth(ready)));
            let found = Some(c);
            let word = match plan_warmup(library, &found, keys) {
                None => "None (cache hit)",
                Some(SmartRankRefreshMode::Full) => "Full",
                Some(SmartRankRefreshMode::Incremental) => "Incremental",
                Some(SmartRankRefreshMode::ReorderOnly) => "ReorderOnly",
            };
            add_line(&mut lines, concat2("Restart warmup: ", word));
        },
    }
    assert(text::texts(lines@) =~= restart_lines(whole, *library, keys@, path@));
    join_texts(&lines, "\n")
}

// ---------------------------------------------------------------------------
// Other reports
// ---------------------------------------------------------------------------

/// What keeps mods from being moved about in the table.
pub open spec fn reorder_gate(view: ModView) -> Seq<char> {
    let filtered = text::trimmed(view.filter@).len() > 0;
    let sorted = view.sort.column != mod_table::ModSortColumn::Order || view.sort.direction
        != mod_table::SortDirection::Asc;
    if filtered && sorted {
        "Reorder UI gate: blocked (filter active, sort != Order)"@
    } else if filtered {
        "Reorder UI gate: blocked (filter active)"@
    } else if sorted {
        "Reorder UI gate: blocked (sort != Order)"@
    } else {
        "Reorder UI gate: allowed"@
    }
}

pub open spec fn gate_line(t: Tasks, action: Seq<char>) -> Seq<char> {
    "block_mod_changes "@ + action + ": "@ + truth(tasks::obstacle(t, action) is Some)
}

fn show_gate(t: &Tasks, action: &str) -> (r: String)
    ensures
        r@ == gate_line(*t, action@),
{
    let (blocked, _) = block_mod_changes(t, action);
    let mut r = concat3("block_mod_changes ", action, ": ");
    r.append(show_truth(blocked));
    r
}

/// Which changes wait for a ranking that is only to be at hand.
pub fn debug_smart_rank_warmup_block_report(t: &Tasks, view: &ModView) -> (r: String)
    ensures
        r@ == text::join(
            seq![
                "Smart rank warmup edit gating"@,
                "Allow during warmup: toggle/enable/disable/reorder/remove"@,
                gate_line(*t, "toggle"@),
                gate_line(*t, "enable"@),
                gate_line(*t, "disable"@),
                gate_line(*t, "reorder"@),
                gate_line(*t, "remove"@),
                reorder_gate(*view),
            ],
            "\n"@,
        ),
{
    let mut lines: Vec<String> = Vec::new();
    assert(text::texts(lines@) =~= Seq::<Seq<char>>::empty());
    add_line(&mut lines, "Smart rank warmup edit gating".to_owned());
    add_line(
        &mut lines,
        "Allow during warmup: toggle/enable/disable/reorder/remove".to_owned(),
    );
    add_line(&mut lines, show_gate(t, "toggle"));
    add_line(&mut lines, show_gate(t, "enable"));
    add_line(&mut lines, show_gate(t, "disable"));
    add_line(&mut lines, show_gate(t, "reorder"));
    add_line(&mut lines, show_gate(t, "remove"));
    let filtered = view.mod_filter_active();
    let sorted = !view.sort.is_order_default();
    let gate = if filtered && sorted {
        "Reorder UI gate: blocked (filter active, sort != Order)"
    } else if filtered {
        "Reorder UI gate: blocked (filter active)"
    } else if sorted {
        "Reorder UI gate: blocked (sort != Order)"
    } else {
        "Reorder UI gate: allowed"
    };
    add_line(&mut lines, gate.to_owned());
    assert(text::texts(lines@) =~= seq![
        "Smart rank warmup edit gating"@,
        "Allow during warmup: toggle/enable/disable/reorder/remove"@,
        gate_line(*t, "toggle"@),
        gate_line(*t, "enable"@),
        gate_line(*t, "disable"@),
        gate_line(*t, "reorder"@),
        gate_line(*t, "remove"@),
        reorder_gate(*view),
    ]);
    join_texts(&lines, "\n")
}

/// What reading the game's own settings came to.
pub enum SettingsReading {
    /// Their fingerprint.
    Read(String),
    Failed(String),
    Absent,
    /// It is not known where they are.
    NoPaths(String),
}

pub open spec fn or_none(t: Option<String>) -> Seq<char> {
    match t {
        Some(s) => s@,
        None => "none"@,
    }
}

pub open spec fn cache_lines(library: Library, reading: SettingsReading) -> Seq<Seq<char>> {
    seq![
        "Metadata cache key (stored): "@ + or_none(library.metadata_cache_key),
        "Metadata cache key (current): "@ + fingerprint::mods_key(library.mods@),
        "Modsettings hash (stored): "@ + or_none(library.modsettings_hash),
        "Modsettings sync enabled: "@ + truth(library.modsettings_sync_enabled),
    ] + match reading {
        SettingsReading::Read(current) => seq![
            "Modsettings hash (current): "@ + current@,
            "Modsettings hash match: "@ + truth(
                text::text_opt(library.modsettings_hash) == Some(current@),
            ),
        ],
        SettingsReading::Failed(error) => seq!["Modsettings read failed: "@ + error@],
        SettingsReading::Absent => seq!["Modsettings path missing"@],
        SettingsReading::NoPaths(error) => seq!["Path detection failed: "@ + error@],
    }
}

fn show_or_none(t: &Option<String>) -> (r: &str)
    ensures
        r@ == or_none(*t),
{
    match t {
        Some(s) => s.as_str(),
        None => "none",
    }
}

/// What is stored of the mods and of the game's settings, and what they are now.
pub fn debug_cache_report(library: &Library, reading: &SettingsReading) -> (r: String)
    ensures
        r@ == text::join(cache_lines(*library, *reading), "\n"@),
{
    let mut lines: Vec<String> = Vec::new();
    assert(text::texts(lines@) =~= Seq::<Seq<char>>::empty());
    add_line(
        &mut lines,
        concat2("Metadata cache key (stored): ", show_or_none(&library.metadata_cache_key)),
    );
    add_line(
        &mut lines,
        concat2(
            "Metadata cache key (current): ",
            metadata_cache_key(&library.mods).as_str(),
        ),
    );
    add_line(
        &mut lines,
        concat2("Modsettings hash (stored): ", show_or_none(&library.modsettings_hash)),
    );
    add_line(
        &mut lines,
        concat2("Modsettings sync enabled: ", show_truth(library.modsettings_sync_enabled)),
    );
    match reading {
        SettingsReading::Read(current) => {
            add_line(&mut lines, concat2("Modsettings hash (current): ", current.as_str()));
            let same = match &library.modsettings_hash {
                Some(stored) => same_text(stored.as_str(), current.as_str()),
                None => false,
            };
            add_line(&mut lines, concat2("Modsettings hash match: ", show_truth(same)));
        },
        SettingsReading::Failed(error) => {
            add_line(&mut lines, concat2("Modsettings read failed: ", error.as_str()));
        },
        SettingsReading::Absent => {
            add_line(&mut lines, "Modsettings path missing".to_owned());
        },
        SettingsReading::NoPaths(error) => {
            add_line(&mut lines, concat2("Path detection failed: ", error.as_str()));
        },
    }
    assert(text::texts(lines@) =~= cache_lines(*library, *reading));
    join_texts(&lines, "\n")
}

} // verus!
