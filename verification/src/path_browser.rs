//! Choosing folders.
use crate::paths;
use crate::paths::join_path;
use crate::sorting;
use crate::sorting::{has_string, is_text_before, sort, Ranked};
use crate::text;
use crate::text::{concat2, to_lowercase};
use vstd::prelude::*;

verus! {

/// What is being set up.
#[derive(Debug, Clone, Copy, PartialEq, Eq, Structural)]
pub enum SetupStep {
    GameRoot,
    LarianDir,
    DownloadsDir,
}

#[derive(Debug, Clone, Copy, PartialEq, Eq, Structural)]
pub enum PathBrowserEntryKind {
    Select,
    Parent,
    Dir,
}

#[derive(Debug, Clone, Copy, PartialEq, Eq, Structural)]
pub enum PathBrowserFocus {
    List,
    PathInput,
}

/// A line of the list of folders.
#[derive(Debug)]
pub struct PathBrowserEntry {
    pub label: String,
    pub path: String,
    pub kind: PathBrowserEntryKind,
    pub selectable: bool,
}

/// The list of folders on the screen.
#[derive(Debug)]
pub struct PathBrowser {
    pub step: SetupStep,
    pub current: String,
    pub entries: Vec<PathBrowserEntry>,
    pub selected: usize,
    pub path_input: String,
    pub focus: PathBrowserFocus,
}

// ---------------------------------------------------------------------------
// Where to begin
// ---------------------------------------------------------------------------

pub const LARIAN_IN_PROTON: &'static str =
    ".local/share/Steam/steamapps/compatdata/1086940/pfx/drive_c/users/steamuser/AppData/Local/Larian Studios";

/// Where to look below the home directory.
pub open spec fn usual_places(step: SetupStep) -> Seq<Seq<char>> {
    match step {
        SetupStep::GameRoot => seq![
            ".steam/steam/steamapps/common"@,
            ".local/share/Steam/steamapps/common"@,
        ],
        SetupStep::LarianDir => seq![".local/share/Larian Studios"@, LARIAN_IN_PROTON@],
        SetupStep::DownloadsDir => seq!["Downloads"@],
    }
}

/// Where to look: what is set, and then the usual places.
pub open spec fn candidates(step: SetupStep, set: Seq<char>, home: Seq<char>) -> Seq<Seq<char>> {
    (if set.len() > 0 {
        seq![set]
    } else {
        Seq::empty()
    }) + Seq::new(
        usual_places(step).len(),
        |i: int| paths::joined(home, usual_places(step)[i]),
    )
}

pub fn path_browser_candidates(step: SetupStep, set: &str, home: &str) -> (out: Vec<String>)
    ensures
        text::texts(out@) == candidates(step, set@, home@),
{
    let mut out: Vec<String> = Vec::new();
    if !set.is_empty() {
        out.push(set.to_owned());
    }
    match step {
        SetupStep::GameRoot => {
            out.push(join_path(home, ".steam/steam/steamapps/common"));
            out.push(join_path(home, ".local/share/Steam/steamapps/common"));
        },
        SetupStep::LarianDir => {
            out.push(join_path(home, ".local/share/Larian Studios"));
            out.push(join_path(home, LARIAN_IN_PROTON));
        },
        SetupStep::DownloadsDir => {
            out.push(join_path(home, "Downloads"));
        },
    }
    assert(text::texts(out@) =~= candidates(step, set@, home@));
    out
}

/// The first of the first `n` places that is a directory.
pub open spec fn first_dir(places: Seq<Seq<char>>, dirs: Seq<Seq<char>>, n: int) -> Option<Seq<char>>
    decreases n,
{
    if n <= 0 {
        None
    } else {
        match first_dir(places, dirs, n - 1) {
            Some(p) => Some(p),
            None => if dirs.contains(places[n - 1]) {
                Some(places[n - 1])
            } else {
                None
            },
        }
    }
}

/// The folder that a choice begins in: the first place that is a directory, or the home
/// directory. `dirs` are the directories among the places.
pub fn path_browser_start(step: SetupStep, set: &str, home: &str, dirs: &Vec<String>) -> (r: String)
    ensures
        ({
            let places = candidates(step, set@, home@);
            r@ == match first_dir(places, text::texts(dirs@), places.len() as int) {
                Some(p) => p,
                None => home@,
            }
        }),
{
    let places = path_browser_candidates(step, set, home);
    let ghost all = text::texts(places@);
    let mut i: usize = 0;
    while i < places.len()
        invariant
            i <= places.len(),
            all == text::texts(places@),
            all == candidates(step, set@, home@),
            first_dir(all, text::texts(dirs@), i as int) is None,
        decreases places.len() - i,
    {
        assert(all[i as int] == places@[i as int]@);
        if has_string(dirs, places[i].as_str()) {
            proof {
                lemma_first_dir(all, text::texts(dirs@), i + 1, all.len() as int);
            }
            return places[i].clone();
        }
        i = i + 1;
    }
    home.to_owned()
}

proof fn lemma_first_dir(places: Seq<Seq<char>>, dirs: Seq<Seq<char>>, m: int, n: int)
    requires
        m <= n,
        first_dir(places, dirs, m) is Some,
    ensures
        first_dir(places, dirs, n) == first_dir(places, dirs, m),
    decreases n,
{
    if m < n && n > 0 {
        lemma_first_dir(places, dirs, m, n - 1);
    }
}

// ---------------------------------------------------------------------------
// What is listed
// ---------------------------------------------------------------------------

pub struct EntryView {
    pub label: Seq<char>,
    pub path: Seq<char>,
    pub kind: PathBrowserEntryKind,
    pub selectable: bool,
}

pub open spec fn entry_view(e: PathBrowserEntry) -> EntryView {
    EntryView { label: e.label@, path: e.path@, kind: e.kind, selectable: e.selectable }
}

pub open spec fn entry_views(list: Seq<PathBrowserEntry>) -> Seq<EntryView> {
    Seq::new(list.len(), |i: int| entry_view(list[i]))
}

/// A folder that was found: its name, where that is a text, and its path.
#[derive(Debug)]
pub struct FoundDir {
    pub name: Option<String>,
    pub path: String,
}

/// The line of a folder.
pub open spec fn dir_entry(d: FoundDir) -> EntryView {
    EntryView {
        label: match d.name {
            Some(name) => name@ + "/"@,
            None => d.path@,
        },
        path: d.path@,
        kind: PathBrowserEntryKind::Dir,
        selectable: false,
    }
}

pub open spec fn dir_entries(dirs: Seq<FoundDir>) -> Seq<EntryView> {
    Seq::new(dirs.len(), |i: int| dir_entry(dirs[i]))
}

/// By label, small and capital letters alike.
pub open spec fn label_order() -> spec_fn(EntryView, EntryView) -> bool {
    |a: EntryView, b: EntryView|
        sorting::text_before(text::unicode_lowercase(a.label), text::unicode_lowercase(b.label))
}

impl Ranked for PathBrowserEntry {
    open spec fn before(self, other: Self) -> bool {
        sorting::text_before(
            text::unicode_lowercase(self.label@),
            text::unicode_lowercase(other.label@),
        )
    }

    proof fn before_asymmetric(a: Self, b: Self) {
        sorting::lemma_text_before_asymmetric(
            text::unicode_lowercase(a.label@),
            text::unicode_lowercase(b.label@),
        );
    }

    proof fn before_splits(a: Self, b: Self, c: Self) {
        sorting::lemma_text_before_splits(
            text::unicode_lowercase(a.label@),
            text::unicode_lowercase(b.label@),
            text::unicode_lowercase(c.label@),
        );
    }

    fn is_before(&self, other: &Self) -> (r: bool) {
        is_text_before(
            to_lowercase(self.label.as_str()).as_str(),
            to_lowercase(other.label.as_str()).as_str(),
        )
    }
}

/// The lines of a folder: itself, the one above, and those in it.
pub open spec fn browser_entries(
    current: Seq<char>,
    selectable: bool,
    parent: Option<Seq<char>>,
    dirs: Seq<FoundDir>,
) -> Seq<EntryView> {
    seq![
        EntryView {
            label: "[ Select this folder ]"@,
            path: current,
            kind: PathBrowserEntryKind::Select,
            selectable,
        },
    ] + (match parent {
        Some(p) => seq![
            EntryView {
                label: ".."@,
                path: p,
                kind: PathBrowserEntryKind::Parent,
                selectable: false,
            },
        ],
        None => Seq::empty(),
    }) + sorting::ranking_by(dir_entries(dirs), label_order())
}

fn list_dirs(dirs: &Vec<FoundDir>) -> (out: Vec<PathBrowserEntry>)
    ensures
        entry_views(out@) == sorting::ranking_by(dir_entries(dirs@), label_order()),
{
    let ghost goal = dir_entries(dirs@);
    let mut list: Vec<PathBrowserEntry> = Vec::new();
    let mut i: usize = 0;
    assert(entry_views(list@) =~= goal.take(0));
    while i < dirs.len()
        invariant
            i <= dirs.len(),
            goal == dir_entries(dirs@),
            entry_views(list@) == goal.take(i as int),
        decreases dirs.len() - i,
    {
        let label = match &dirs[i].name {
            Some(name) => concat2(name.as_str(), "/"),
            None => dirs[i].path.clone(),
        };
        let e = PathBrowserEntry {
            label,
            path: dirs[i].path.clone(),
            kind: PathBrowserEntryKind::Dir,
            selectable: false,
        };
        let ghost before = list@;
        list.push(e);
        i = i + 1;
        assert(entry_views(list@) =~= entry_views(before).push(entry_view(e)));
        assert(goal.take(i as int) =~= goal.take(i - 1).push(goal[i - 1]));
    }
    assert(goal.take(i as int) =~= goal);
    let ghost plain = list@;
    let out = sort(list);
    proof {
        let f = |e: PathBrowserEntry| entry_view(e);
        sorting::lemma_ranking_map(plain, f, sorting::order_of::<PathBrowserEntry>(), label_order());
        assert(entry_views(plain) =~= plain.map_values(f));
        assert(entry_views(out@) =~= out@.map_values(f));
    }
    out
}

/// The lines of a folder. `selectable` says whether it can be chosen, `parent` is the
/// folder above, and `dirs` are those in it.
pub fn build_path_browser_entries(
    current: &str,
    selectable: bool,
    parent: &Option<String>,
    dirs: &Vec<FoundDir>,
) -> (out: Vec<PathBrowserEntry>)
    ensures
        entry_views(out@) == browser_entries(
            current@,
            selectable,
            text::text_opt(*parent),
            dirs@,
        ),
{
    let mut out: Vec<PathBrowserEntry> = Vec::new();
    out.push(
        PathBrowserEntry {
            label: "[ Select this folder ]".to_owned(),
            path: current.to_owned(),
            kind: PathBrowserEntryKind::Select,
            selectable,
        },
    );
    if let Some(p) = parent {
        out.push(
            PathBrowserEntry {
                label: "..".to_owned(),
                path: p.clone(),
                kind: PathBrowserEntryKind::Parent,
                selectable: false,
            },
        );
    }
    let ghost first = out@;
    let mut more = list_dirs(dirs);
    let ghost rest = more@;
    out.append(&mut more);
    assert(entry_views(out@) =~= entry_views(first) + entry_views(rest));
    assert(entry_views(out@) =~= browser_entries(
        current@,
        selectable,
        text::text_opt(*parent),
        dirs@,
    ));
    out
}

/// What is said when a choice begins.
pub open spec fn browser_title(step: SetupStep) -> Seq<char> {
    match step {
        SetupStep::GameRoot => "Select BG3 install root (Data/ + bin/)"@,
        SetupStep::LarianDir => "Select Larian data dir (PlayerProfiles/)"@,
        SetupStep::DownloadsDir => "Select downloads folder"@,
    }
}

/// The list of folders for a step, and what is said.
pub fn open_path_browser(step: SetupStep, current: String, entries: Vec<PathBrowserEntry>) -> (r: (
    PathBrowser,
    &'static str,
))
    ensures
        r.0.step == step,
        r.0.current == current,
        r.0.entries == entries,
        r.0.selected == 0,
        r.0.path_input@ == current@,
        r.0.focus == PathBrowserFocus::List,
        r.1@ == browser_title(step),
{
    let title = match step {
        SetupStep::GameRoot => "Select BG3 install root (Data/ + bin/)",
        SetupStep::LarianDir => "Select Larian data dir (PlayerProfiles/)",
        SetupStep::DownloadsDir => "Select downloads folder",
    };
    let path_input = current.clone();
    (
        PathBrowser {
            step,
            current,
            entries,
            selected: 0,
            path_input,
            focus: PathBrowserFocus::List,
        },
        title,
    )
}

} // verus!
