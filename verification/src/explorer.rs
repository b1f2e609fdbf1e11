//! The tree of games and profiles.
use crate::dep_desk;
use crate::game::GameId;
use crate::library::{Library, Profile};
use crate::lists;
use crate::text;
use crate::text::{is_blank, same_text};
use vstd::prelude::*;

verus! {

/// What a line of the tree stands for.
#[derive(Debug)]
pub enum ExplorerItemKind {
    Game(GameId),
    ProfilesHeader(GameId),
    Profile { name: String },
    NewProfile(GameId),
    Info(GameId),
}

#[derive(Debug)]
pub struct ExplorerItem {
    pub kind: ExplorerItemKind,
    pub label: String,
    pub depth: usize,
    pub active: bool,
    pub expanded: bool,
    pub disabled: bool,
    pub renaming: bool,
}

pub enum ExplorerKindView {
    Game(GameId),
    ProfilesHeader(GameId),
    Profile { name: Seq<char> },
    NewProfile(GameId),
    Info(GameId),
}

pub struct ExplorerView {
    pub kind: ExplorerKindView,
    pub label: Seq<char>,
    pub depth: nat,
    pub active: bool,
    pub expanded: bool,
    pub disabled: bool,
    pub renaming: bool,
}

impl ExplorerItem {
    pub open spec fn shown(self) -> ExplorerView {
        ExplorerView {
            kind: match self.kind {
                ExplorerItemKind::Game(g) => ExplorerKindView::Game(g),
                ExplorerItemKind::ProfilesHeader(g) => ExplorerKindView::ProfilesHeader(g),
                ExplorerItemKind::Profile { name } => ExplorerKindView::Profile { name: name@ },
                ExplorerItemKind::NewProfile(g) => ExplorerKindView::NewProfile(g),
                ExplorerItemKind::Info(g) => ExplorerKindView::Info(g),
            },
            label: self.label@,
            depth: self.depth as nat,
            active: self.active,
            expanded: self.expanded,
            disabled: self.disabled,
            renaming: self.renaming,
        }
    }
}

pub open spec fn explorer_views(list: Seq<ExplorerItem>) -> Seq<ExplorerView> {
    Seq::new(list.len(), |i: int| list[i].shown())
}

/// The profile that is being renamed, and the name as it is typed.
pub struct RenamePreview {
    pub original: String,
    pub buffer: String,
}

/// The state of the tree.
pub struct ExplorerState {
    pub selected: usize,
    /// The games whose lines are open.
    pub games_open: Vec<GameId>,
    /// The games whose lists of profiles are open.
    pub profiles_open: Vec<GameId>,
}

// ---------------------------------------------------------------------------
// The lines
// ---------------------------------------------------------------------------

pub open spec fn is_renamed(p: Profile, rename: Option<RenamePreview>) -> bool {
    rename matches Some(r) && r.original@ == p.name@
}

/// The name under which a profile is shown.
pub open spec fn profile_label(name: Seq<char>, rename: Option<RenamePreview>) -> Seq<char> {
    match rename {
        Some(r) => if r.original@ != name {
            name
        } else if text::trimmed(r.buffer@).len() == 0 {
            "<new name>"@
        } else {
            r.buffer@
        },
        None => name,
    }
}

pub open spec fn profile_line(
    p: Profile,
    active: Seq<char>,
    rename: Option<RenamePreview>,
) -> ExplorerView {
    ExplorerView {
        kind: ExplorerKindView::Profile { name: p.name@ },
        label: profile_label(p.name@, rename),
        depth: 2,
        active: p.name@ == active,
        expanded: false,
        disabled: false,
        renaming: is_renamed(p, rename),
    }
}

pub open spec fn profile_lines(library: Library, rename: Option<RenamePreview>) -> Seq<ExplorerView> {
    Seq::new(
        library.profiles@.len(),
        |i: int| profile_line(library.profiles@[i], library.active_profile@, rename),
    )
}

/// A line that stands for no profile.
pub open spec fn plain_line(
    kind: ExplorerKindView,
    label: Seq<char>,
    depth: nat,
    active: bool,
    expanded: bool,
    disabled: bool,
) -> ExplorerView {
    ExplorerView { kind, label, depth, active, expanded, disabled, renaming: false }
}

/// The lines of a game.
pub open spec fn game_lines(
    s: ExplorerState,
    g: GameId,
    current: GameId,
    library: Library,
    rename: Option<RenamePreview>,
) -> Seq<ExplorerView> {
    let open = s.games_open@.contains(g);
    let listed = s.profiles_open@.contains(g);
    let active = g == current;
    let head = seq![plain_line(ExplorerKindView::Game(g), g.name(), 0, active, open, false)];
    let header = plain_line(
        ExplorerKindView::ProfilesHeader(g),
        "Profiles"@,
        1,
        false,
        listed,
        !active,
    );
    if !open {
        head
    } else if !listed {
        head.push(header)
    } else if active {
        head.push(header) + profile_lines(library, rename) + seq![
            plain_line(ExplorerKindView::NewProfile(g), "New Profile..."@, 2, false, false, false),
        ]
    } else {
        head.push(header).push(
            plain_line(
                ExplorerKindView::Info(g),
                "Select game to view profiles"@,
                2,
                false,
                false,
                true,
            ),
        )
    }
}

/// The lines of the first `n` games.
pub open spec fn explorer_lines(
    s: ExplorerState,
    games: Seq<GameId>,
    current: GameId,
    library: Library,
    rename: Option<RenamePreview>,
    n: int,
) -> Seq<ExplorerView>
    decreases n,
{
    if n <= 0 {
        Seq::empty()
    } else {
        explorer_lines(s, games, current, library, rename, n - 1) + game_lines(
            s,
            games[n - 1],
            current,
            library,
            rename,
        )
    }
}

fn has_game(list: &Vec<GameId>, g: GameId) -> (r: bool)
    ensures
        r == list@.contains(g),
{
    let mut i: usize = 0;
    while i < list.len()
        invariant
            i <= list.len(),
            forall|j: int| 0 <= j < i ==> list@[j] != g,
        decreases list.len() - i,
    {
        if list[i] == g {
            assert(list@[i as int] == g);
            return true;
        }
        i = i + 1;
    }
    false
}

fn add_item(out: &mut Vec<ExplorerItem>, item: ExplorerItem)
    ensures
        explorer_views(final(out)@) == explorer_views(old(out)@).push(item.shown()),
{
    let ghost before = out@;
    out.push(item);
    assert(explorer_views(out@) =~= explorer_views(before).push(item.shown()));
}

fn show_profile_label(name: &str, rename: &Option<RenamePreview>) -> (r: String)
    ensures
        r@ == profile_label(name@, *rename),
{
    if let Some(r) = rename {
        if same_text(r.original.as_str(), name) {
            if is_blank(r.buffer.as_str()) {
                return "<new name>".to_owned();
            }
            return r.buffer.clone();
        }
    }
    name.to_owned()
}

fn add_profiles(out: &mut Vec<ExplorerItem>, library: &Library, rename: &Option<RenamePreview>)
    ensures
        explorer_views(final(out)@) == explorer_views(old(out)@) + profile_lines(*library, *rename),
{
    let ghost start = explorer_views(out@);
    let ghost all = profile_lines(*library, *rename);
    let mut i: usize = 0;
    assert(start =~= start + all.take(0));
    while i < library.profiles.len()
        invariant
            i <= library.profiles.len(),
            start == explorer_views(old(out)@),
            all == profile_lines(*library, *rename),
            explorer_views(out@) == start + all.take(i as int),
        decreases library.profiles.len() - i,
    {
        let name = library.profiles[i].name.as_str();
        let renaming = match rename {
            Some(r) => same_text(r.original.as_str(), name),
            None => false,
        };
        let item = ExplorerItem {
            kind: ExplorerItemKind::Profile { name: name.to_owned() },
            label: show_profile_label(name, rename),
            depth: 2,
            active: same_text(name, library.active_profile.as_str()),
            expanded: false,
            disabled: false,
            renaming,
        };
        add_item(out, item);
        i = i + 1;
        assert(explorer_views(out@) =~= start + all.take(i as int));
    }
    assert(all.take(i as int) =~= all);
}

fn make_line(
    kind: ExplorerItemKind,
    label: &str,
    depth: usize,
    active: bool,
    expanded: bool,
    disabled: bool,
) -> (r: ExplorerItem)
    ensures
        r.kind == kind,
        r.shown() == (ExplorerView {
            kind: r.shown().kind,
            label: label@,
            depth: depth as nat,
            active,
            expanded,
            disabled,
            renaming: false,
        }),
{
    ExplorerItem {
        kind,
        label: label.to_owned(),
        depth,
        active,
        expanded,
        disabled,
        renaming: false,
    }
}

impl ExplorerState {
    pub fn new(game: GameId) -> (r: Self)
        ensures
            r.selected == 0,
            r.games_open@ == seq![game],
            r.profiles_open@ == seq![game],
    {
        let mut games_open: Vec<GameId> = Vec::new();
        games_open.push(game);
        let mut profiles_open: Vec<GameId> = Vec::new();
        profiles_open.push(game);
        assert(games_open@ =~= seq![game]);
        assert(profiles_open@ =~= seq![game]);
        ExplorerState { selected: 0, games_open, profiles_open }
    }

    /// The lines of the tree.
    pub fn explorer_items(
        &self,
        games: &Vec<GameId>,
        current: GameId,
        library: &Library,
        rename: &Option<RenamePreview>,
    ) -> (out: Vec<ExplorerItem>)
        ensures
            explorer_views(out@) == explorer_lines(
                *self,
                games@,
                current,
                *library,
                *rename,
                games@.len() as int,
            ),
    {
        let mut out: Vec<ExplorerItem> = Vec::new();
        let mut i: usize = 0;
        assert(explorer_views(out@) =~= Seq::<ExplorerView>::empty());
        while i < games.len()
            invariant
                i <= games.len(),
                explorer_views(out@) == explorer_lines(
                    *self,
                    games@,
                    current,
                    *library,
                    *rename,
                    i as int,
                ),
            decreases games.len() - i,
        {
            let ghost before = explorer_views(out@);
            let g = games[i];
            let open = has_game(&self.games_open, g);
            let listed = has_game(&self.profiles_open, g);
            let active = g == current;
            add_item(
                &mut out,
                make_line(ExplorerItemKind::Game(g), g.display_name(), 0, active, open, false),
            );
            if open {
                add_item(
                    &mut out,
                    make_line(
                        ExplorerItemKind::ProfilesHeader(g),
                        "Profiles",
                        1,
                        false,
                        listed,
                        !active,
                    ),
                );
                if listed && active {
                    add_profiles(&mut out, library, rename);
                    add_item(
                        &mut out,
                        make_line(
                            ExplorerItemKind::NewProfile(g),
                            "New Profile...",
                            2,
                            false,
                            false,
                            false,
                        ),
                    );
                } else if listed {
                    add_item(
                        &mut out,
                        make_line(
                            ExplorerItemKind::Info(g),
                            "Select game to view profiles",
                            2,
                            false,
                            false,
                            true,
                        ),
                    );
                }
            }
            assert(explorer_views(out@) =~= before + game_lines(
                *self,
                g,
                current,
                *library,
                *rename,
            ));
            i = i + 1;
        }
        out
    }

    pub fn explorer_move_up(&mut self)
        ensures
            *final(self) == (ExplorerState {
                selected: if old(self).selected == 0 {
                    0
                } else {
                    (old(self).selected - 1) as usize
                },
                ..*old(self)
            }),
    {
        if self.selected > 0 {
            self.selected = self.selected - 1;
        }
    }

    /// Moves the selection down, as far as the lines reach.
    pub fn explorer_move_down(&mut self, len: usize)
        ensures
            *final(self) == (ExplorerState {
                selected: if old(self).selected + 1 < len {
                    (old(self).selected + 1) as usize
                } else {
                    old(self).selected
                },
                ..*old(self)
            }),
    {
        if self.selected < len && len - self.selected > 1 {
            self.selected = self.selected + 1;
        }
    }

    pub fn clamp(&mut self, len: usize)
        ensures
            *final(self) == (ExplorerState {
                selected: dep_desk::clamped(old(self).selected as int, len as int) as usize,
                ..*old(self)
            }),
    {
        if len == 0 {
            self.selected = 0;
        } else if self.selected >= len {
            self.selected = len - 1;
        }
    }

    /// Closes the line that is selected.
    pub fn explorer_toggle_collapse(&mut self, item: &ExplorerItem)
        ensures
            final(self).selected == old(self).selected,
            final(self).games_open@ == if item.kind is Game {
                without_game(old(self).games_open@, item.kind->Game_0)
            } else {
                old(self).games_open@
            },
            final(self).profiles_open@ == if item.kind is ProfilesHeader {
                without_game(old(self).profiles_open@, item.kind->ProfilesHeader_0)
            } else {
                old(self).profiles_open@
            },
    {
        match &item.kind {
            ExplorerItemKind::Game(g) => close_game(&mut self.games_open, *g),
            ExplorerItemKind::ProfilesHeader(g) => close_game(&mut self.profiles_open, *g),
            _ => {},
        }
    }

    /// Opens the line that is selected.
    pub fn explorer_toggle_expand(&mut self, item: &ExplorerItem)
        ensures
            final(self).selected == old(self).selected,
            final(self).games_open@ == if item.kind is Game {
                with_game(old(self).games_open@, item.kind->Game_0)
            } else {
                old(self).games_open@
            },
            final(self).profiles_open@ == if item.kind is ProfilesHeader {
                with_game(old(self).profiles_open@, item.kind->ProfilesHeader_0)
            } else {
                old(self).profiles_open@
            },
    {
        match &item.kind {
            ExplorerItemKind::Game(g) => open_game(&mut self.games_open, *g),
            ExplorerItemKind::ProfilesHeader(g) => open_game(&mut self.profiles_open, *g),
            _ => {},
        }
    }

    pub fn toggle_game_expanded(&mut self, g: GameId)
        ensures
            *final(self) == (ExplorerState { games_open: final(self).games_open, ..*old(self) }),
            final(self).games_open@ == toggled(old(self).games_open@, g),
    {
        toggle_game(&mut self.games_open, g);
    }

    pub fn toggle_profiles_expanded(&mut self, g: GameId)
        ensures
            *final(self) == (ExplorerState {
                profiles_open: final(self).profiles_open,
                ..*old(self)
            }),
            final(self).profiles_open@ == toggled(old(self).profiles_open@, g),
    {
        toggle_game(&mut self.profiles_open, g);
    }
}

pub open spec fn other_games(g: GameId) -> spec_fn(GameId) -> bool {
    |x: GameId| x != g
}

pub open spec fn without_game(list: Seq<GameId>, g: GameId) -> Seq<GameId> {
    list.filter(other_games(g))
}

pub open spec fn with_game(list: Seq<GameId>, g: GameId) -> Seq<GameId> {
    if list.contains(g) {
        list
    } else {
        list.push(g)
    }
}

pub open spec fn toggled(list: Seq<GameId>, g: GameId) -> Seq<GameId> {
    if list.contains(g) {
        without_game(list, g)
    } else {
        list.push(g)
    }
}

fn close_game(list: &mut Vec<GameId>, g: GameId)
    ensures
        final(list)@ == without_game(old(list)@, g),
{
    let ghost all = list@;
    let ghost keeps = other_games(g);
    let mut kept: Vec<GameId> = Vec::new();
    let mut i: usize = 0;
    proof {
        lists::lemma_filter_whole(all, keeps);
        assert(kept@ =~= all.take(0).filter(keeps));
    }
    while i < list.len()
        invariant
            i <= list.len(),
            list@ == all,
            keeps == other_games(g),
            kept@ == all.take(i as int).filter(keeps),
        decreases list.len() - i,
    {
        proof {
            lists::lemma_keep_item(all, i as int, keeps);
        }
        if list[i] != g {
            kept.push(list[i]);
        }
        i = i + 1;
    }
    proof {
        lists::lemma_filter_whole(all, keeps);
    }
    *list = kept;
}

fn open_game(list: &mut Vec<GameId>, g: GameId)
    ensures
        final(list)@ == with_game(old(list)@, g),
{
    if !has_game(list, g) {
        list.push(g);
    }
}

fn toggle_game(list: &mut Vec<GameId>, g: GameId)
    ensures
        final(list)@ == toggled(old(list)@, g),
{
    if has_game(list, g) {
        close_game(list, g);
    } else {
        list.push(g);
    }
}

/// What was opened is open, and what was closed is closed.
pub proof fn law_open_and_close(list: Seq<GameId>, g: GameId)
    ensures
        with_game(list, g).contains(g),
        !without_game(list, g).contains(g),
        toggled(list, g).contains(g) != list.contains(g),
{
    lists::lemma_filter_contains(list, other_games(g), g);
    lists::lemma_push_contains(list, g, g);
}

/// What choosing a line does.
#[derive(Debug)]
pub enum ExplorerChoice {
    Nothing,
    ToggleGame(GameId),
    SwitchGame(GameId),
    ToggleProfiles(GameId),
    OpenProfile(String),
    NewProfile,
}

pub fn explorer_activate(item: &ExplorerItem, current: GameId) -> (r: ExplorerChoice)
    ensures
        match item.kind {
            ExplorerItemKind::Game(g) => r == if g == current {
                ExplorerChoice::ToggleGame(g)
            } else {
                ExplorerChoice::SwitchGame(g)
            },
            ExplorerItemKind::ProfilesHeader(g) => r == ExplorerChoice::ToggleProfiles(g),
            ExplorerItemKind::Profile { name } => r matches ExplorerChoice::OpenProfile(n) && n@
                == name@,
            ExplorerItemKind::NewProfile(_) => r == ExplorerChoice::NewProfile,
            ExplorerItemKind::Info(_) => r == ExplorerChoice::Nothing,
        },
{
    match &item.kind {
        ExplorerItemKind::Game(g) => if *g == current {
            ExplorerChoice::ToggleGame(*g)
        } else {
            ExplorerChoice::SwitchGame(*g)
        },
        ExplorerItemKind::ProfilesHeader(g) => ExplorerChoice::ToggleProfiles(*g),
        ExplorerItemKind::Profile { name } => ExplorerChoice::OpenProfile(name.clone()),
        ExplorerItemKind::NewProfile(_) => ExplorerChoice::NewProfile,
        ExplorerItemKind::Info(_) => ExplorerChoice::Nothing,
    }
}

/// The name of the active profile, as it is shown.
pub fn active_profile_label(library: &Library, rename: &Option<RenamePreview>) -> (r: String)
    ensures
        r@ == profile_label(library.active_profile@, *rename),
{
    show_profile_label(library.active_profile.as_str(), rename)
}

} // verus!
