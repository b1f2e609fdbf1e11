//! Profiles that are written to files and read from them.
use crate::actions;
use crate::actions::{log, no_actions, say, toast, Action, ActionView, LogLevel, ToastLevel};
use crate::game::GameId;
use crate::input_text;
use crate::input_text::expand_tilde;
use crate::library;
use crate::library::{
    collect_ids, find_profile, FileOverride, Library, ModEntry, Profile, ProfileEntry,
};
use crate::lists;
use crate::mod_changes;
use crate::mod_changes::find_mod;
use crate::profiles;
use crate::profiles::{copy_choices, unique_profile_name};
use crate::text;
use crate::text::{concat2, concat3, eq_ignore_case, show_usize, trim};
use vstd::prelude::*;

verus! {

/// A mod of a load order, by id and name.
#[derive(Debug)]
pub struct ProfileExportEntry {
    pub id: String,
    pub name: String,
    pub enabled: bool,
}

/// A profile as it is written to a file.
#[derive(Debug)]
pub struct ProfileExport {
    pub game_id: String,
    pub game_name: String,
    pub profile_name: String,
    pub entries: Vec<ProfileExportEntry>,
    pub file_overrides: Vec<FileOverride>,
}

pub struct ExportView {
    pub id: Seq<char>,
    pub name: Seq<char>,
    pub enabled: bool,
}

pub open spec fn export_views(list: Seq<ProfileExportEntry>) -> Seq<ExportView> {
    Seq::new(
        list.len(),
        |i: int| ExportView { id: list[i].id@, name: list[i].name@, enabled: list[i].enabled },
    )
}

// ---------------------------------------------------------------------------
// Writing
// ---------------------------------------------------------------------------

/// The first `n` entries of a load order, as far as there are mods to them.
pub open spec fn exported(order: Seq<ProfileEntry>, mods: Seq<ModEntry>, n: int) -> Seq<ExportView>
    decreases n,
{
    if n <= 0 {
        Seq::empty()
    } else {
        let before = exported(order, mods, n - 1);
        let k = library::last_index(mods, order[n - 1].id@);
        if k >= 0 {
            before.push(
                ExportView {
                    id: order[n - 1].id@,
                    name: mods[k].shown_name(),
                    enabled: order[n - 1].enabled,
                },
            )
        } else {
            before
        }
    }
}

pub open spec fn game_key(g: GameId) -> Seq<char> {
    match g {
        GameId::Bg3 => "bg3"@,
    }
}

/// Whether a file holds a profile.
pub open spec fn holds_profile(e: ProfileExport, p: Profile, mods: Seq<ModEntry>, g: GameId) -> bool {
    &&& e.game_id@ == game_key(g)
    &&& e.game_name@ == g.name()
    &&& e.profile_name@ == p.name@
    &&& export_views(e.entries@) == exported(p.order@, mods, p.order@.len() as int)
    &&& e.file_overrides@ == p.file_overrides@
}

/// What is written of a profile, if there is one of the name.
pub fn export_profile(library: &Library, game: GameId, name: &str) -> (r: Option<ProfileExport>)
    ensures
        ({
            let at = library::profile_index(library.profiles@, name@);
            match r {
                Some(e) => at >= 0 && holds_profile(
                    e,
                    library.profiles@[at],
                    library.mods@,
                    game,
                ),
                None => at < 0,
            }
        }),
{
    proof {
        library::lemma_profile_index(library.profiles@, name@);
    }
    let at = match find_profile(&library.profiles, name) {
        Some(at) => at,
        None => return None,
    };
    let index = library.index_by_id();
    let order = &library.profiles[at].order;
    let mut entries: Vec<ProfileExportEntry> = Vec::new();
    let mut i: usize = 0;
    assert(export_views(entries@) =~= Seq::<ExportView>::empty());
    while i < order.len()
        invariant
            i <= order.len(),
            library::indexes(index@, library.mods@),
            export_views(entries@) == exported(order@, library.mods@, i as int),
        decreases order.len() - i,
    {
        let ghost before = entries@;
        proof {
            let id = order@[i as int].id@;
            library::lemma_last_index(library.mods@, id);
            assert(index@.contains_key(id) || !index@.contains_key(id));
        }
        if let Some(k) = index.get(order[i].id.as_str()) {
            let e = ProfileExportEntry {
                id: order[i].id.clone(),
                name: library.mods[*k].display_name(),
                enabled: order[i].enabled,
            };
            entries.push(e);
            assert(export_views(entries@) =~= export_views(before).push(
                ExportView { id: e.id@, name: e.name@, enabled: e.enabled },
            ));
        }
        i = i + 1;
    }
    Some(
        ProfileExport {
            game_id: game.as_str().to_owned(),
            game_name: game.display_name().to_owned(),
            profile_name: library.profiles[at].name.clone(),
            entries,
            file_overrides: copy_choices(&library.profiles[at].file_overrides),
        },
    )
}

/// What comes of the wish to write a profile to a file.
pub enum ExportPlan {
    Refused(Vec<Action>),
    Write { path: String, export: ProfileExport },
}

/// What is said where a profile cannot be written.
pub open spec fn export_refused_says(status: Seq<char>, note: Seq<char>) -> Seq<ActionView> {
    seq![ActionView::Status(status), ActionView::Toast(ToastLevel::Warn, note, 3)]
}

fn refuse_export(status: &str, note: &str) -> (out: Vec<Action>)
    ensures
        actions::action_views(out@) == export_refused_says(status@, note@),
{
    let mut out = no_actions();
    say(&mut out, status);
    toast(&mut out, ToastLevel::Warn, note, 3);
    assert(actions::action_views(out@) =~= export_refused_says(status@, note@));
    out
}

/// Whether a plan is what comes of the wish to write the profile with a name to a path. A
/// path is asked for first.
pub open spec fn is_export_plan(
    r: ExportPlan,
    library: Library,
    game: GameId,
    name: Seq<char>,
    path: Seq<char>,
) -> bool {
    let at = library::profile_index(library.profiles@, name);
    match r {
        ExportPlan::Refused(out) => {
            &&& path.len() == 0 || at < 0
            &&& actions::action_views(out@) == if path.len() == 0 {
                export_refused_says("Export path is required"@, "Export path required"@)
            } else {
                export_refused_says("Profile not found"@, "Profile not found"@)
            }
        },
        ExportPlan::Write { path: to, export } => {
            &&& path.len() > 0
            &&& at >= 0
            &&& to@ == path
            &&& holds_profile(export, library.profiles@[at], library.mods@, game)
        },
    }
}

/// Plans to write a profile to the path that was entered.
pub fn plan_export(
    library: &Library,
    game: GameId,
    name: &str,
    entered: &str,
    home: &Option<String>,
) -> (r: ExportPlan)
    ensures
        is_export_plan(
            r,
            *library,
            game,
            name@,
            input_text::expanded(text::trimmed(entered@), text::text_opt(*home)),
        ),
{
    let path = expand_tilde(trim(entered).as_str(), home);
    if path.as_str().is_empty() {
        return ExportPlan::Refused(refuse_export("Export path is required", "Export path required"));
    }
    match export_profile(library, game, name) {
        Some(export) => ExportPlan::Write { path, export },
        None => ExportPlan::Refused(refuse_export("Profile not found", "Profile not found")),
    }
}

/// What is said of a profile that was written.
pub fn say_exported(path: &str) -> (out: Vec<Action>)
    ensures
        ({
            let line = "Profile exported: "@ + path@;
            actions::action_views(out@) == seq![
                ActionView::Status(line),
                ActionView::Log(LogLevel::Info, line),
                ActionView::Toast(ToastLevel::Info, line, 3),
            ]
        }),
{
    let mut out = no_actions();
    let line = concat2("Profile exported: ", path);
    say(&mut out, line.as_str());
    log(&mut out, LogLevel::Info, line.as_str());
    toast(&mut out, ToastLevel::Info, line.as_str(), 3);
    assert(actions::action_views(out@) =~= seq![
        ActionView::Status(line@),
        ActionView::Log(LogLevel::Info, line@),
        ActionView::Toast(ToastLevel::Info, line@, 3),
    ]);
    out
}

// ---------------------------------------------------------------------------
// Reading
// ---------------------------------------------------------------------------

/// What is said where there is no file to read a profile from.
pub fn say_import_path_missing(path: &str) -> (out: Vec<Action>)
    ensures
        actions::action_views(out@) == seq![
            ActionView::Status("Path not found: "@ + path@),
            ActionView::Toast(ToastLevel::Warn, "Import path not found"@, 3),
        ],
{
    let mut out = no_actions();
    say(&mut out, concat2("Path not found: ", path).as_str());
    toast(&mut out, ToastLevel::Warn, "Import path not found", 3);
    assert(actions::action_views(out@) =~= seq![
        ActionView::Status("Path not found: "@ + path@),
        ActionView::Toast(ToastLevel::Warn, "Import path not found"@, 3),
    ]);
    out
}

/// Whether a mod goes by a name, whatever the case.
pub open spec fn goes_by(m: ModEntry, name: Seq<char>) -> bool {
    text::same_ignoring_case(m.shown_name(), text::trimmed(name)) || text::same_ignoring_case(
        m.name@,
        text::trimmed(name),
    )
}

/// The first mod that goes by a name, or -1.
pub open spec fn first_by_name(mods: Seq<ModEntry>, name: Seq<char>, from: int) -> int
    decreases mods.len() - from,
{
    if from < 0 || from >= mods.len() {
        -1
    } else if goes_by(mods[from], name) {
        from
    } else {
        first_by_name(mods, name, from + 1)
    }
}

/// The id of the mod that an entry means: the one with its id, else the first that
/// goes by its name.
pub open spec fn meant_id(mods: Seq<ModEntry>, e: ExportView) -> Option<Seq<char>> {
    let k = first_by_name(mods, e.name, 0);
    if mod_changes::has_mod(mods, e.id) {
        Some(e.id)
    } else if k >= 0 {
        Some(mods[k].id@)
    } else {
        None
    }
}

/// The load order that the first `n` entries make, each mod once.
pub open spec fn read_order(mods: Seq<ModEntry>, list: Seq<ExportView>, n: int) -> Seq<
    (Seq<char>, bool),
>
    decreases n,
{
    if n <= 0 {
        Seq::empty()
    } else {
        let before = read_order(mods, list, n - 1);
        match meant_id(mods, list[n - 1]) {
            Some(id) => if library::lists_id(before, id) {
                before
            } else {
                before.push((id, list[n - 1].enabled))
            },
            None => before,
        }
    }
}

/// The names of those of the first `n` entries that mean no mod.
pub open spec fn unknown_names(mods: Seq<ModEntry>, list: Seq<ExportView>, n: int) -> Seq<Seq<char>>
    decreases n,
{
    if n <= 0 {
        Seq::empty()
    } else if meant_id(mods, list[n - 1]) is None {
        unknown_names(mods, list, n - 1).push(list[n - 1].name)
    } else {
        unknown_names(mods, list, n - 1)
    }
}

fn find_by_name(mods: &Vec<ModEntry>, name: &str) -> (r: Option<usize>)
    ensures
        match r {
            Some(i) => i < mods@.len() && first_by_name(mods@, name@, 0) == i,
            None => first_by_name(mods@, name@, 0) < 0,
        },
{
    let wanted = trim(name);
    let mut i: usize = 0;
    while i < mods.len()
        invariant
            i <= mods.len(),
            wanted@ == text::trimmed(name@),
            first_by_name(mods@, name@, 0) == first_by_name(mods@, name@, i as int),
        decreases mods.len() - i,
    {
        if eq_ignore_case(mods[i].display_name().as_str(), wanted.as_str()) || eq_ignore_case(
            mods[i].name.as_str(),
            wanted.as_str(),
        ) {
            return Some(i);
        }
        i = i + 1;
    }
    None
}

fn find_meant(mods: &Vec<ModEntry>, e: &ProfileExportEntry) -> (r: Option<String>)
    ensures
        text::text_opt(r) == meant_id(
            mods@,
            (ExportView { id: e.id@, name: e.name@, enabled: e.enabled }),
        ),
{
    if find_mod(mods, e.id.as_str()).is_some() {
        return Some(e.id.clone());
    }
    match find_by_name(mods, e.name.as_str()) {
        Some(k) => Some(mods[k].id.clone()),
        None => None,
    }
}

pub open spec fn choices_of(mods: Seq<ModEntry>) -> spec_fn(FileOverride) -> bool {
    |o: FileOverride| mod_changes::has_mod(mods, o.mod_id@)
}

fn keep_choices(list: Vec<FileOverride>, mods: &Vec<ModEntry>) -> (out: Vec<FileOverride>)
    ensures
        out@ == list@.filter(choices_of(mods@)),
{
    let ghost all = list@;
    let ghost keeps = choices_of(mods@);
    let mut out: Vec<FileOverride> = Vec::new();
    let mut i: usize = 0;
    proof {
        lists::lemma_filter_whole(all, keeps);
        assert(out@ =~= all.take(0).filter(keeps));
    }
    while i < list.len()
        invariant
            i <= list.len(),
            all == list@,
            keeps == choices_of(mods@),
            out@ == all.take(i as int).filter(keeps),
        decreases list.len() - i,
    {
        proof {
            lists::lemma_keep_item(all, i as int, keeps);
        }
        if find_mod(mods, list[i].mod_id.as_str()).is_some() {
            out.push(list[i].clone());
        }
        i = i + 1;
    }
    proof {
        lists::lemma_filter_whole(all, keeps);
    }
    out
}

/// What came of a file.
pub struct ImportedProfile {
    pub name: String,
    /// The names of the mods that are not there.
    pub missing: Vec<String>,
    /// Whether the file is for another game.
    pub mismatch: bool,
}

/// The name that a profile gets: that of the file, made unique.
pub open spec fn imported_name(profiles: Seq<Profile>, name: Seq<char>) -> Seq<char> {
    profiles::unique_name(
        profiles,
        if text::trimmed(name).len() == 0 {
            "Imported Profile"@
        } else {
            text::trimmed(name)
        },
    )
}

/// Whether `mid` is the profile that a file makes, before it gets entries for all mods.
pub open spec fn is_read(mid: Profile, mods: Seq<ModEntry>, e: ProfileExport, name: Seq<char>) -> bool {
    let list = export_views(e.entries@);
    &&& mid.name@ == name
    &&& library::entries(mid.order@) == read_order(mods, list, list.len() as int)
    &&& mid.file_overrides@ == e.file_overrides@.filter(choices_of(mods))
}

/// Whether the last profile was read from a file, over `mid`.
pub open spec fn profile_read(
    after: Library,
    before: Library,
    mid: Profile,
    e: ProfileExport,
    name: Seq<char>,
) -> bool {
    &&& after == (Library {
        profiles: after.profiles,
        active_profile: after.active_profile,
        ..before
    })
    &&& after.profiles@.len() == before.profiles@.len() + 1
    &&& after.profiles@.drop_last() == before.profiles@
    &&& is_read(mid, before.mods@, e, name)
    &&& library::ensured(mid, after.profiles@.last(), library::mod_ids(before.mods@))
    &&& after.active_profile@ == name
}

pub open spec fn has_read(after: Library, before: Library, e: ProfileExport, name: Seq<char>) -> bool {
    exists|mid: Profile| #[trigger] profile_read(after, before, mid, e, name)
}

impl Library {
    /// Makes a profile of a file, and makes it active.
    pub fn import_profile(&mut self, export: ProfileExport, game: GameId) -> (r: ImportedProfile)
        ensures
            r.name@ == imported_name(old(self).profiles@, export.profile_name@),
            r.mismatch == (export.game_id@ != game_key(game)),
            ({
                let list = export_views(export.entries@);
                text::texts(r.missing@) == unknown_names(old(self).mods@, list, list.len() as int)
            }),
            has_read(*final(self), *old(self), export, r.name@),
    {
        let ghost start = *self;
        let ghost list = export_views(export.entries@);
        let mismatch = !text::same_text(export.game_id.as_str(), game.as_str());
        let base = trim(export.profile_name.as_str());
        let name = unique_profile_name(
            &self.profiles,
            if base.as_str().is_empty() {
                "Imported Profile"
            } else {
                base.as_str()
            },
        );
        let mut profile = Profile::new(name.as_str());
        let mut missing: Vec<String> = Vec::new();
        let mut i: usize = 0;
        assert(library::entries(profile.order@) =~= Seq::<(Seq<char>, bool)>::empty());
        assert(text::texts(missing@) =~= Seq::<Seq<char>>::empty());
        while i < export.entries.len()
            invariant
                i <= export.entries.len(),
                list == export_views(export.entries@),
                *self == start,
                profile.name@ == name@,
                library::entries(profile.order@) == read_order(start.mods@, list, i as int),
                text::texts(missing@) == unknown_names(start.mods@, list, i as int),
            decreases export.entries.len() - i,
        {
            match find_meant(&self.mods, &export.entries[i]) {
                Some(id) => {
                    let known = library::has_entry(&profile.order, id.as_str());
                    assert(known == library::lists_id(library::entries(profile.order@), id@));
                    if !known {
                        let ghost before = profile.order@;
                        let e = ProfileEntry { id, enabled: export.entries[i].enabled };
                        profile.order.push(e);
                        assert(library::entries(profile.order@) =~= library::entries(before).push(
                            (e.id@, e.enabled),
                        ));
                    }
                },
                None => {
                    let n = export.entries[i].name.clone();
                    proof {
                        text::lemma_texts_push(missing@, n);
                    }
                    missing.push(n);
                },
            }
            i = i + 1;
        }
        profile.file_overrides = keep_choices(export.file_overrides, &self.mods);
        let ghost mid = profile;
        let ids = collect_ids(&self.mods);
        profile.ensure_mods(ids.as_slice());
        self.profiles.push(profile);
        assert(self.profiles@.drop_last() =~= start.profiles@);
        self.active_profile = name.clone();
        proof {
            assert(profile_read(*self, start, mid, export, name@));
            assert(has_read(*self, start, export, name@));
        }
        ImportedProfile { name, missing, mismatch }
    }
}

// ---------------------------------------------------------------------------
// What is said
// ---------------------------------------------------------------------------

/// What is said of a profile that was read.
pub open spec fn imported_says(name: Seq<char>, missing: nat, mismatch: bool, game: Seq<char>, other: Seq<char>) -> Seq<
    ActionView,
> {
    let line = "Profile imported: "@ + name;
    (if mismatch {
        seq![
            ActionView::Log(
                LogLevel::Warn,
                "Profile export game mismatch: expected "@ + game + ", got "@ + other,
            ),
        ]
    } else {
        Seq::empty()
    }) + (if missing > 0 {
        seq![
            ActionView::Log(
                LogLevel::Warn,
                "Profile import skipped "@ + text::decimal(missing) + " missing mod(s)"@,
            ),
        ]
    } else {
        Seq::empty()
    }) + seq![
        ActionView::Status(line),
        ActionView::Log(LogLevel::Info, line),
        if missing > 0 {
            ActionView::Toast(
                ToastLevel::Warn,
                line + " (missing "@ + text::decimal(missing) + " mods)"@,
                3,
            )
        } else if mismatch {
            ActionView::Toast(ToastLevel::Warn, line + " (game mismatch)"@, 3)
        } else {
            ActionView::Toast(ToastLevel::Info, line, 3)
        },
    ]
}

pub fn say_imported(r: &ImportedProfile, game: GameId, other: &str) -> (out: Vec<Action>)
    ensures
        actions::action_views(out@) == imported_says(
            r.name@,
            r.missing@.len(),
            r.mismatch,
            game_key(game),
            other@,
        ),
{
    let mut out = no_actions();
    if r.mismatch {
        let mut line = concat3(
            "Profile export game mismatch: expected ",
            game.as_str(),
            ", got ",
        );
        line.append(other);
        log(&mut out, LogLevel::Warn, line.as_str());
    }
    let count = r.missing.len();
    if count > 0 {
        log(
            &mut out,
            LogLevel::Warn,
            concat3("Profile import skipped ", show_usize(count).as_str(), " missing mod(s)").as_str(),
        );
    }
    let line = concat2("Profile imported: ", r.name.as_str());
    say(&mut out, line.as_str());
    log(&mut out, LogLevel::Info, line.as_str());
    let mut note = line.clone();
    if count > 0 {
        note.append(" (missing ");
        note.append(show_usize(count).as_str());
        note.append(" mods)");
        toast(&mut out, ToastLevel::Warn, note.as_str(), 3);
    } else if r.mismatch {
        note.append(" (game mismatch)");
        toast(&mut out, ToastLevel::Warn, note.as_str(), 3);
    } else {
        toast(&mut out, ToastLevel::Info, line.as_str(), 3);
    }
    assert(actions::action_views(out@) =~= imported_says(
        r.name@,
        r.missing@.len(),
        r.mismatch,
        game_key(game),
        other@,
    ));
    out
}

// ---------------------------------------------------------------------------
// Laws
// ---------------------------------------------------------------------------

/// Whether all mods of a load order are there, and each stands once.
pub open spec fn is_full(order: Seq<ProfileEntry>, mods: Seq<ModEntry>) -> bool {
    &&& library::order_ids(order).no_duplicates()
    &&& forall|i: int| 0 <= i < order.len() ==> mod_changes::has_mod(mods, #[trigger] order[i].id@)
}

/// A profile that is written and read again keeps its load order: the mods, their
/// order and their switches.
pub proof fn law_read_gives_back_written(order: Seq<ProfileEntry>, mods: Seq<ModEntry>, n: int)
    requires
        0 <= n <= order.len(),
        is_full(order, mods),
    ensures
        exported(order, mods, n).len() == n,
        read_order(mods, exported(order, mods, n), n) == library::entries(order).take(n),
        unknown_names(mods, exported(order, mods, n), n).len() == 0,
    decreases n,
{
    if n > 0 {
        law_read_gives_back_written(order, mods, n - 1);
        let before = exported(order, mods, n - 1);
        let all = exported(order, mods, n);
        let id = order[n - 1].id@;
        assert(mod_changes::has_mod(mods, id));
        library::lemma_last_index(mods, id);
        let j = choose|j: int| 0 <= j < mods.len() && (#[trigger] mods[j]).id@ == id;
        assert(library::mod_ids(mods)[j] == id);
        assert(all.drop_last() =~= before);
        lemma_read_prefix(mods, before, all, n - 1);
        let so_far = read_order(mods, before, n - 1);
        assert(so_far == library::entries(order).take(n - 1));
        if library::lists_id(so_far, id) {
            let i = choose|i: int| 0 <= i < so_far.len() && (#[trigger] so_far[i]).0 == id;
            assert(library::order_ids(order)[i] == id);
            assert(library::order_ids(order)[n - 1] == id);
        }
        assert(library::entries(order).take(n) =~= library::entries(order).take(n - 1).push(
            (id, order[n - 1].enabled),
        ));
    } else {
        assert(library::entries(order).take(0) =~= Seq::<(Seq<char>, bool)>::empty());
    }
}

proof fn lemma_read_prefix(mods: Seq<ModEntry>, a: Seq<ExportView>, b: Seq<ExportView>, n: int)
    requires
        0 <= n <= a.len(),
        n <= b.len(),
        forall|i: int| 0 <= i < n ==> a[i] == b[i],
    ensures
        read_order(mods, a, n) == read_order(mods, b, n),
        unknown_names(mods, a, n) == unknown_names(mods, b, n),
    decreases n,
{
    if n > 0 {
        lemma_read_prefix(mods, a, b, n - 1);
    }
}

proof fn lemma_read_distinct(mods: Seq<ModEntry>, list: Seq<ExportView>, n: int)
    ensures
        library::distinct_list(read_order(mods, list, n)),
    decreases n,
{
    if n > 0 {
        lemma_read_distinct(mods, list, n - 1);
    }
}

/// A profile that is read from a file lists no mod twice, whatever the file says.
pub proof fn law_read_profile_lists_mods_once(
    after: Library,
    before: Library,
    e: ProfileExport,
    name: Seq<char>,
)
    requires
        has_read(after, before, e, name),
    ensures
        library::distinct_entries(after.profiles@.last().order@),
{
    let mid = choose|mid: Profile| #[trigger] profile_read(after, before, mid, e, name);
    let list = export_views(e.entries@);
    lemma_read_distinct(before.mods@, list, list.len() as int);
    library::lemma_distinct_list(mid.order@);
    library::law_profile_lists_mods_once(
        mid,
        after.profiles@.last(),
        library::mod_ids(before.mods@),
        0,
    );
}

proof fn lemma_choices_kept(list: Seq<FileOverride>, mods: Seq<ModEntry>)
    ensures
        ({
            let ids = library::mod_ids(mods);
            let kept = list.filter(choices_of(mods));
            kept.filter(|o: FileOverride| ids.contains(o.mod_id@)) == kept
        }),
{
    let ids = library::mod_ids(mods);
    let kept = list.filter(choices_of(mods));
    let known = |o: FileOverride| ids.contains(o.mod_id@);
    assert forall|i: int| 0 <= i < kept.len() implies #[trigger] known(kept[i]) by {
        list.lemma_filter_pred(choices_of(mods), i);
        let j = choose|j: int| 0 <= j < mods.len() && (#[trigger] mods[j]).id@ == kept[i].mod_id@;
        assert(ids[j] == kept[i].mod_id@);
    }
    lists::lemma_filter_all(kept, known);
}

/// A profile that is written and read into the same library again stands there twice:
/// the copy comes last and is active, has the load order of the profile, with entries
/// that are switched off for the mods it lacked, and its file choices for mods that are
/// there. It has the name of the profile, with the least number from two on that makes it
/// free.
pub proof fn law_written_profile_is_read(
    before: Library,
    after: Library,
    at: int,
    e: ProfileExport,
    game: GameId,
    k: nat,
)
    requires
        0 <= at < before.profiles@.len(),
        is_full(before.profiles@[at].order@, before.mods@),
        before.profiles@[at].name@.len() > 0,
        text::trimmed(before.profiles@[at].name@) == before.profiles@[at].name@,
        profiles::is_least_number(before.profiles@, before.profiles@[at].name@, k),
        holds_profile(e, before.profiles@[at], before.mods@, game),
        has_read(after, before, e, imported_name(before.profiles@, e.profile_name@)),
    ensures
        ({
            let p = before.profiles@[at];
            let q = after.profiles@.last();
            &&& after.mods@ == before.mods@
            &&& after.profiles@ == before.profiles@.push(q)
            &&& after.active_profile@ == q.name@
            &&& q.name@ == profiles::numbered(p.name@, k)
            &&& library::entries(q.order@) == library::with_missing(
                library::entries(p.order@),
                library::mod_ids(before.mods@),
            )
            &&& library::entries(q.order@).take(p.order@.len() as int) == library::entries(
                p.order@,
            )
            &&& forall|i: int|
                p.order@.len() <= i < q.order@.len() ==> !(#[trigger] q.order@[i]).enabled
            &&& q.file_overrides@ == p.file_overrides@.filter(choices_of(before.mods@))
        }),
{
    let p = before.profiles@[at];
    let q = after.profiles@.last();
    let name = imported_name(before.profiles@, e.profile_name@);
    let ids = library::mod_ids(before.mods@);
    assert(profiles::name_taken(before.profiles@, p.name@)) by {
        assert(text::same_ignoring_case(before.profiles@[at].name@, p.name@));
    }
    profiles::lemma_least_number(before.profiles@, p.name@, 2, k);
    let mid = choose|mid: Profile| #[trigger] profile_read(after, before, mid, e, name);
    let n = p.order@.len() as int;
    law_read_gives_back_written(p.order@, before.mods@, n);
    assert(library::entries(p.order@).take(n) =~= library::entries(p.order@));
    assert(library::entries(mid.order@) == library::entries(p.order@));
    assert(mid.order@.len() == library::entries(mid.order@).len());
    assert(p.order@.len() == library::entries(p.order@).len());
    library::law_ensured_covers(mid, q, ids);
    lemma_choices_kept(p.file_overrides@, before.mods@);
    assert(after.profiles@ =~= before.profiles@.push(q));
}

} // verus!
