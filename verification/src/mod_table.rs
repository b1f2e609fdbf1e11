//! The table of the mods of a profile: which are shown, and in what order.
use crate::library;
use crate::library::{
    InstallTarget, ModEntry, ModSource, ProfileEntry, TargetKind,
};
use crate::sorting;
use crate::sorting::{is_text_before, sort, Ranked};
use crate::text;
use crate::text::{concat2, concat3, has_text, to_ascii_lower, to_lowercase, trim};
use vstd::hash_map::StringHashMap;
use vstd::prelude::*;

verus! {

// ---------------------------------------------------------------------------
// Columns
// ---------------------------------------------------------------------------

#[derive(Debug, Clone, Copy, PartialEq, Eq, Structural)]
pub enum SortDirection {
    Asc,
    Desc,
}

#[derive(Debug, Clone, Copy, PartialEq, Eq, Structural)]
pub enum ModSortColumn {
    Order,
    Name,
    Enabled,
    Native,
    Kind,
    Target,
    Created,
    Added,
}

#[derive(Debug, Clone, Copy, PartialEq, Eq, Structural)]
pub struct ModSort {
    pub column: ModSortColumn,
    pub direction: SortDirection,
}

impl Default for ModSort {
    fn default() -> (r: Self)
        ensures
            r.column == ModSortColumn::Order,
            r.direction == SortDirection::Asc,
    {
        ModSort { column: ModSortColumn::Order, direction: SortDirection::Asc }
    }
}

impl ModSort {
    pub fn column_label(&self) -> (r: &'static str)
        ensures
            r@ == column_name(self.column),
    {
        match self.column {
            ModSortColumn::Order => "Order",
            ModSortColumn::Name => "Mod",
            ModSortColumn::Enabled => "Enabled",
            ModSortColumn::Native => "Native",
            ModSortColumn::Kind => "Kind",
            ModSortColumn::Target => "Target",
            ModSortColumn::Created => "Created",
            ModSortColumn::Added => "Added",
        }
    }

    pub fn direction_arrow(&self) -> (r: &'static str)
        ensures
            r@ == match self.direction {
                SortDirection::Asc => "↑"@,
                SortDirection::Desc => "↓"@,
            },
    {
        match self.direction {
            SortDirection::Asc => "↑",
            SortDirection::Desc => "↓",
        }
    }

    pub fn direction_label(&self) -> (r: &'static str)
        ensures
            r@ == direction_name(self.direction),
    {
        match self.direction {
            SortDirection::Asc => "asc",
            SortDirection::Desc => "desc",
        }
    }

    pub fn is_order_default(&self) -> (r: bool)
        ensures
            r == (self.column == ModSortColumn::Order && self.direction == SortDirection::Asc),
    {
        matches!(self.column, ModSortColumn::Order) && matches!(self.direction, SortDirection::Asc)
    }
}

pub open spec fn column_name(c: ModSortColumn) -> Seq<char> {
    match c {
        ModSortColumn::Order => "Order"@,
        ModSortColumn::Name => "Mod"@,
        ModSortColumn::Enabled => "Enabled"@,
        ModSortColumn::Native => "Native"@,
        ModSortColumn::Kind => "Kind"@,
        ModSortColumn::Target => "Target"@,
        ModSortColumn::Created => "Created"@,
        ModSortColumn::Added => "Added"@,
    }
}

pub open spec fn direction_name(d: SortDirection) -> Seq<char> {
    match d {
        SortDirection::Asc => "asc"@,
        SortDirection::Desc => "desc"@,
    }
}

/// Where a column stands in the table.
pub open spec fn column_place(c: ModSortColumn) -> int {
    match c {
        ModSortColumn::Enabled => 0,
        ModSortColumn::Native => 1,
        ModSortColumn::Order => 2,
        ModSortColumn::Kind => 3,
        ModSortColumn::Target => 4,
        ModSortColumn::Created => 5,
        ModSortColumn::Added => 6,
        ModSortColumn::Name => 7,
    }
}

pub fn mod_sort_column_index(c: ModSortColumn) -> (r: usize)
    ensures
        r == column_place(c),
{
    match c {
        ModSortColumn::Enabled => 0,
        ModSortColumn::Native => 1,
        ModSortColumn::Order => 2,
        ModSortColumn::Kind => 3,
        ModSortColumn::Target => 4,
        ModSortColumn::Created => 5,
        ModSortColumn::Added => 6,
        ModSortColumn::Name => 7,
    }
}

/// The column at a place.
pub open spec fn column_at(place: int) -> ModSortColumn {
    if place == 0 {
        ModSortColumn::Enabled
    } else if place == 1 {
        ModSortColumn::Native
    } else if place == 2 {
        ModSortColumn::Order
    } else if place == 3 {
        ModSortColumn::Kind
    } else if place == 4 {
        ModSortColumn::Target
    } else if place == 5 {
        ModSortColumn::Created
    } else if place == 6 {
        ModSortColumn::Added
    } else {
        ModSortColumn::Name
    }
}

/// The column to the right or to the left; past the last comes the first.
pub open spec fn next_column(c: ModSortColumn, direction: int) -> ModSortColumn {
    column_at(
        (column_place(c) + if direction >= 0 {
            1int
        } else {
            -1int
        }) % 8,
    )
}

pub fn mod_sort_next_column(c: ModSortColumn, direction: i32) -> (r: ModSortColumn)
    ensures
        r == next_column(c, direction as int),
{
    let at = mod_sort_column_index(c);
    let next: usize = if direction >= 0 {
        (at + 1) % 8
    } else {
        (at + 7) % 8
    };
    match next {
        0 => ModSortColumn::Enabled,
        1 => ModSortColumn::Native,
        2 => ModSortColumn::Order,
        3 => ModSortColumn::Kind,
        4 => ModSortColumn::Target,
        5 => ModSortColumn::Created,
        6 => ModSortColumn::Added,
        _ => ModSortColumn::Name,
    }
}

/// One step to the right and one to the left lead back.
pub proof fn law_columns_cycle(c: ModSortColumn)
    ensures
        next_column(next_column(c, 1), -1) == c,
        next_column(next_column(c, -1), 1) == c,
        next_column(c, 1) != c,
{
}

// ---------------------------------------------------------------------------
// What a row says
// ---------------------------------------------------------------------------

pub open spec fn has_pak(m: ModEntry) -> bool {
    exists|i: int| 0 <= i < m.targets@.len() && (#[trigger] m.targets@[i]) is Pak
}

pub open spec fn has_other(m: ModEntry) -> bool {
    exists|i: int| 0 <= i < m.targets@.len() && !((#[trigger] m.targets@[i]) is Pak)
}

/// Whether a mod is a package, loose files or both.
pub open spec fn kind_word(m: ModEntry) -> Seq<char> {
    if has_pak(m) && has_other(m) {
        "Mixed"@
    } else if has_pak(m) {
        "Pak"@
    } else if has_other(m) {
        "Loose"@
    } else {
        "Unknown"@
    }
}

pub fn mod_kind_label(m: &ModEntry) -> (r: &'static str)
    ensures
        r@ == kind_word(*m),
{
    let mut pak = false;
    let mut loose = false;
    let mut i: usize = 0;
    while i < m.targets.len()
        invariant
            i <= m.targets.len(),
            pak == exists|k: int| 0 <= k < i && (#[trigger] m.targets@[k]) is Pak,
            loose == exists|k: int| 0 <= k < i && !((#[trigger] m.targets@[k]) is Pak),
        decreases m.targets.len() - i,
    {
        match &m.targets[i] {
            InstallTarget::Pak { .. } => {
                assert(m.targets@[i as int] is Pak);
                pak = true;
            },
            _ => {
                assert(!(m.targets@[i as int] is Pak));
                loose = true;
            },
        }
        i = i + 1;
    }
    if pak && loose {
        "Mixed"
    } else if pak {
        "Pak"
    } else if loose {
        "Loose"
    } else {
        "Unknown"
    }
}

/// Where targets of a kind go, in a word.
pub open spec fn target_word(kind: TargetKind) -> Seq<char> {
    match kind {
        TargetKind::Pak => "Mods"@,
        TargetKind::Generated => "Generated"@,
        TargetKind::Data => "Data"@,
        TargetKind::Bin => "Bin"@,
    }
}

pub fn target_kind_label(kind: TargetKind) -> (r: &'static str)
    ensures
        r@ == target_word(kind),
{
    match kind {
        TargetKind::Pak => "Mods",
        TargetKind::Generated => "Generated",
        TargetKind::Data => "Data",
        TargetKind::Bin => "Bin",
    }
}

/// The kinds of the first `n` targets, each once, in order.
pub open spec fn kinds(targets: Seq<InstallTarget>, n: int) -> Seq<TargetKind>
    decreases n,
{
    if n <= 0 {
        Seq::empty()
    } else {
        let before = kinds(targets, n - 1);
        let k = targets[n - 1].kind_of();
        if before.contains(k) {
            before
        } else {
            before.push(k)
        }
    }
}

/// The kinds that are switched on.
pub open spec fn kinds_on(m: ModEntry) -> Seq<TargetKind> {
    kinds(m.targets@, m.targets@.len() as int).filter(
        |k: TargetKind| library::switched_on(m.target_overrides@, k),
    )
}

/// Where a mod goes, in words.
pub open spec fn target_words(m: ModEntry) -> Seq<char> {
    let all = kinds(m.targets@, m.targets@.len() as int);
    let on = kinds_on(m);
    let custom = m.target_overrides@.len() > 0;
    let base = if !custom {
        "Auto"@
    } else if on.len() == 1 {
        target_word(on[0])
    } else if on.len() == 0 {
        "None"@
    } else {
        "Custom"@
    };
    if m.targets@.len() == 0 {
        "Invalid"@
    } else if on.len() == 1 {
        base + " "@ + target_word(on[0])
    } else if !custom && all.len() == 1 {
        base + " "@ + target_word(all[0])
    } else if all.len() > 1 {
        base + " Multiple"@
    } else {
        base
    }
}

fn has_kind(list: &Vec<TargetKind>, kind: TargetKind) -> (r: bool)
    ensures
        r == list@.contains(kind),
{
    let mut i: usize = 0;
    while i < list.len()
        invariant
            i <= list.len(),
            forall|k: int| 0 <= k < i ==> list@[k] != kind,
        decreases list.len() - i,
    {
        if list[i] == kind {
            assert(list@[i as int] == kind);
            return true;
        }
        i = i + 1;
    }
    false
}

/// The kinds of a mod's targets, each once.
pub fn collect_kinds(m: &ModEntry) -> (out: Vec<TargetKind>)
    ensures
        out@ == kinds(m.targets@, m.targets@.len() as int),
{
    let mut out: Vec<TargetKind> = Vec::new();
    let mut i: usize = 0;
    while i < m.targets.len()
        invariant
            i <= m.targets.len(),
            out@ == kinds(m.targets@, i as int),
        decreases m.targets.len() - i,
    {
        let kind = m.targets[i].kind();
        if !has_kind(&out, kind) {
            out.push(kind);
        }
        i = i + 1;
    }
    out
}

proof fn lemma_kinds(targets: Seq<InstallTarget>, n: int, k: TargetKind)
    requires
        n <= targets.len(),
        kinds(targets, n).contains(k),
    ensures
        library::targets_have(targets, k),
    decreases n,
{
    if n > 0 {
        crate::lists::lemma_push_contains(
            kinds(targets, n - 1),
            targets[n - 1].kind_of(),
            k,
        );
        if kinds(targets, n - 1).contains(k) {
            lemma_kinds(targets, n - 1, k);
        } else {
            assert(targets[n - 1].kind_of() == k);
        }
    }
}

pub fn mod_target_sort_label(m: &ModEntry) -> (r: String)
    ensures
        r@ == target_words(*m),
{
    if m.targets.is_empty() {
        return "Invalid".to_owned();
    }
    let all = collect_kinds(m);
    let ghost keeps = |k: TargetKind| library::switched_on(m.target_overrides@, k);
    let mut on: Vec<TargetKind> = Vec::new();
    let mut i: usize = 0;
    proof {
        crate::lists::lemma_filter_whole(all@, keeps);
    }
    while i < all.len()
        invariant
            i <= all.len(),
            all@ == kinds(m.targets@, m.targets@.len() as int),
            keeps == (|k: TargetKind| library::switched_on(m.target_overrides@, k)),
            on@ == all@.take(i as int).filter(keeps),
        decreases all.len() - i,
    {
        proof {
            crate::lists::lemma_keep_item(all@, i as int, keeps);
            assert(all@.contains(all@[i as int]));
            lemma_kinds(m.targets@, m.targets@.len() as int, all@[i as int]);
        }
        if m.is_target_enabled(all[i]) {
            on.push(all[i]);
        }
        i = i + 1;
    }
    proof {
        crate::lists::lemma_filter_whole(all@, keeps);
    }
    let custom = !m.target_overrides.is_empty();
    let base = if !custom {
        "Auto"
    } else if on.len() == 1 {
        target_kind_label(on[0])
    } else if on.len() == 0 {
        "None"
    } else {
        "Custom"
    };
    if on.len() == 1 {
        concat3(base, " ", target_kind_label(on[0]))
    } else if !custom && all.len() == 1 {
        concat3(base, " ", target_kind_label(all[0]))
    } else if all.len() > 1 {
        concat2(base, " Multiple")
    } else {
        base.to_owned()
    }
}

/// Whether a text of the mod contains the filter, whatever the case.
pub open spec fn mentions(s: Seq<char>, filter: Seq<char>) -> bool {
    text::contains_text(text::unicode_lowercase(s), filter)
}

/// Whether the filter lets a mod through: one of its names, its id or its source
/// has the filter in it.
pub open spec fn matches_filter(m: ModEntry, filter: Seq<char>) -> bool {
    let f = text::unicode_lowercase(text::trimmed(filter));
    ||| text::trimmed(filter).len() == 0
    ||| mentions(m.shown_name(), f)
    ||| mentions(m.name@, f)
    ||| mentions(m.id@, f)
    ||| (m.source_label matches Some(l) && mentions(l@, f))
    ||| (m.source == ModSource::Native && (mentions("native"@, f) || mentions("mod.io"@, f)))
}

fn has_mention(s: &str, filter: &str) -> (r: bool)
    ensures
        r == mentions(s@, filter@),
{
    let lower = to_lowercase(s);
    has_text(lower.as_str(), filter)
}

pub fn mod_matches_filter(m: &ModEntry, filter: &str) -> (r: bool)
    ensures
        r == matches_filter(*m, filter@),
{
    let trimmed = trim(filter);
    if trimmed.as_str().is_empty() {
        return true;
    }
    let f = to_lowercase(trimmed.as_str());
    let shown = m.display_name();
    has_mention(shown.as_str(), f.as_str()) || has_mention(m.name.as_str(), f.as_str())
        || has_mention(m.id.as_str(), f.as_str()) || (match &m.source_label {
        Some(l) => has_mention(l.as_str(), f.as_str()),
        None => false,
    }) || (m.is_native() && (has_mention("native", f.as_str()) || has_mention(
        "mod.io",
        f.as_str(),
    )))
}

// ---------------------------------------------------------------------------
// Rows in order
// ---------------------------------------------------------------------------

/// What the rows are ordered by.
#[verifier::ext_equal]
pub struct RowView {
    pub index: int,
    pub enabled: bool,
    pub native: bool,
    pub name: Seq<char>,
    pub kind: Seq<char>,
    pub target: Seq<char>,
    pub created: Option<i64>,
    pub added: i64,
}

/// The row of the entry at an index.
pub open spec fn row_of(order: Seq<ProfileEntry>, mods: Seq<ModEntry>, index: int) -> RowView {
    let m = mods[library::last_index(mods, order[index].id@)];
    RowView {
        index,
        enabled: order[index].enabled,
        native: m.source == ModSource::Native,
        name: text::ascii_lower(m.shown_name()),
        kind: text::ascii_lower(kind_word(m)),
        target: text::ascii_lower(target_words(m)),
        created: m.created_at,
        added: m.added_at,
    }
}

pub open spec fn number_less(a: int, b: int, d: SortDirection) -> bool {
    match d {
        SortDirection::Asc => a < b,
        SortDirection::Desc => b < a,
    }
}

pub open spec fn text_less(a: Seq<char>, b: Seq<char>, d: SortDirection) -> bool {
    match d {
        SortDirection::Asc => sorting::text_before(a, b),
        SortDirection::Desc => sorting::text_before(b, a),
    }
}

/// Times that are not known come last, whatever the direction.
pub open spec fn time_less(a: Option<i64>, b: Option<i64>, d: SortDirection) -> bool {
    match (a, b) {
        (Some(x), Some(y)) => number_less(x as int, y as int, d),
        (Some(_), None) => true,
        (None, _) => false,
    }
}

pub open spec fn bit(b: bool) -> int {
    if b {
        1
    } else {
        0
    }
}

/// Whether a column puts one row before another.
pub open spec fn column_less(a: RowView, b: RowView, s: ModSort) -> bool {
    match s.column {
        ModSortColumn::Order => number_less(a.index, b.index, s.direction),
        ModSortColumn::Name => text_less(a.name, b.name, s.direction),
        ModSortColumn::Enabled => number_less(bit(a.enabled), bit(b.enabled), s.direction),
        ModSortColumn::Native => number_less(bit(a.native), bit(b.native), s.direction),
        ModSortColumn::Kind => text_less(a.kind, b.kind, s.direction),
        ModSortColumn::Target => text_less(a.target, b.target, s.direction),
        ModSortColumn::Created => time_less(a.created, b.created, s.direction),
        ModSortColumn::Added => number_less(a.added as int, b.added as int, s.direction),
    }
}

/// The order of the rows: by the column, and by their places where it says nothing.
pub open spec fn row_less(a: RowView, b: RowView, s: ModSort) -> bool {
    column_less(a, b, s) || (!column_less(b, a, s) && a.index < b.index)
}

pub open spec fn row_before(s: ModSort) -> spec_fn(RowView, RowView) -> bool {
    |a: RowView, b: RowView| row_less(a, b, s)
}

proof fn lemma_text_less(a: Seq<char>, b: Seq<char>, c: Seq<char>, d: SortDirection)
    ensures
        text_less(a, b, d) ==> !text_less(b, a, d),
        text_less(a, b, d) ==> text_less(a, c, d) || text_less(c, b, d),
{
    if sorting::text_before(a, b) {
        sorting::lemma_text_before_asymmetric(a, b);
        sorting::lemma_text_before_splits(a, b, c);
    }
    if sorting::text_before(b, a) {
        sorting::lemma_text_before_asymmetric(b, a);
        sorting::lemma_text_before_splits(b, a, c);
    }
}

proof fn lemma_column_less(a: RowView, b: RowView, c: RowView, s: ModSort)
    ensures
        column_less(a, b, s) ==> !column_less(b, a, s),
        column_less(a, b, s) ==> column_less(a, c, s) || column_less(c, b, s),
{
    lemma_text_less(a.name, b.name, c.name, s.direction);
    lemma_text_less(a.kind, b.kind, c.kind, s.direction);
    lemma_text_less(a.target, b.target, c.target, s.direction);
}

pub proof fn lemma_row_less(a: RowView, b: RowView, c: RowView, s: ModSort)
    requires
        row_less(a, b, s),
    ensures
        !row_less(b, a, s),
        row_less(a, c, s) || row_less(c, b, s),
{
    lemma_column_less(a, b, c, s);
    lemma_column_less(b, a, c, s);
    lemma_column_less(c, a, b, s);
    lemma_column_less(b, c, a, s);
    lemma_column_less(a, c, b, s);
    lemma_column_less(c, b, a, s);
}

spec fn sort_place(s: ModSort) -> int {
    2 * column_place(s.column) + match s.direction {
        SortDirection::Asc => 0int,
        SortDirection::Desc => 1int,
    }
}

fn find_sort_place(s: ModSort) -> (r: usize)
    ensures
        r == sort_place(s),
{
    2 * mod_sort_column_index(s.column) + match s.direction {
        SortDirection::Asc => 0,
        SortDirection::Desc => 1,
    }
}

/// A row, and how the table that it is in is ordered. Rows of tables with other
/// orders stand apart.
struct ModRow {
    sort: ModSort,
    index: usize,
    enabled: bool,
    native: bool,
    name: String,
    kind: String,
    target: String,
    created: Option<i64>,
    added: i64,
}

impl ModRow {
    spec fn shown(self) -> RowView {
        RowView {
            index: self.index as int,
            enabled: self.enabled,
            native: self.native,
            name: self.name@,
            kind: self.kind@,
            target: self.target@,
            created: self.created,
            added: self.added,
        }
    }

    fn is_column_less(&self, other: &Self) -> (r: bool)
        ensures
            r == column_less(self.shown(), other.shown(), self.sort),
    {
        let (a, b) = match self.sort.direction {
            SortDirection::Asc => (self, other),
            SortDirection::Desc => (other, self),
        };
        match self.sort.column {
            ModSortColumn::Order => a.index < b.index,
            ModSortColumn::Name => is_text_before(a.name.as_str(), b.name.as_str()),
            ModSortColumn::Enabled => !a.enabled && b.enabled,
            ModSortColumn::Native => !a.native && b.native,
            ModSortColumn::Kind => is_text_before(a.kind.as_str(), b.kind.as_str()),
            ModSortColumn::Target => is_text_before(a.target.as_str(), b.target.as_str()),
            ModSortColumn::Created => match (self.created, other.created) {
                (Some(_), Some(_)) => match (a.created, b.created) {
                    (Some(x), Some(y)) => x < y,
                    _ => false,
                },
                (Some(_), None) => true,
                (None, _) => false,
            },
            ModSortColumn::Added => a.added < b.added,
        }
    }
}

impl Ranked for ModRow {
    closed spec fn before(self, other: Self) -> bool {
        sort_place(self.sort) < sort_place(other.sort) || (self.sort == other.sort && row_less(
            self.shown(),
            other.shown(),
            self.sort,
        ))
    }

    proof fn before_asymmetric(a: Self, b: Self) {
        if a.sort == b.sort {
            lemma_row_less(a.shown(), b.shown(), a.shown(), a.sort);
        }
    }

    proof fn before_splits(a: Self, b: Self, c: Self) {
        if a.sort == b.sort {
            lemma_row_less(a.shown(), b.shown(), c.shown(), a.sort);
        }
        assert(sort_place(a.sort) == sort_place(c.sort) ==> a.sort == c.sort);
        assert(sort_place(b.sort) == sort_place(c.sort) ==> b.sort == c.sort);
    }

    fn is_before(&self, other: &Self) -> (r: bool) {
        if self.sort != other.sort {
            return find_sort_place(self.sort) < find_sort_place(other.sort);
        }
        self.is_column_less(other) || (!other.is_column_less(self) && self.index < other.index)
    }
}

fn make_row(m: &ModEntry, index: usize, enabled: bool, sort: ModSort) -> (r: ModRow)
    ensures
        r.sort == sort,
        r.shown() == (RowView {
            index: index as int,
            enabled,
            native: m.source == ModSource::Native,
            name: text::ascii_lower(m.shown_name()),
            kind: text::ascii_lower(kind_word(*m)),
            target: text::ascii_lower(target_words(*m)),
            created: m.created_at,
            added: m.added_at,
        }),
{
    let shown = m.display_name();
    let target = mod_target_sort_label(m);
    ModRow {
        sort,
        index,
        enabled,
        native: m.is_native(),
        name: to_ascii_lower(shown.as_str()),
        kind: to_ascii_lower(mod_kind_label(m)),
        target: to_ascii_lower(target.as_str()),
        created: m.created_at,
        added: m.added_at,
    }
}

/// The filter as it is compared; blank filters let everything through.
pub open spec fn filter_of(filter: Seq<char>) -> Option<Seq<char>> {
    if text::trimmed(filter).len() == 0 {
        None
    } else {
        Some(text::unicode_lowercase(text::trimmed(filter)))
    }
}

pub fn mod_filter_normalized(filter: &str) -> (r: Option<String>)
    ensures
        text::text_opt(r) == filter_of(filter@),
{
    let trimmed = trim(filter);
    if trimmed.as_str().is_empty() {
        None
    } else {
        Some(to_lowercase(trimmed.as_str()))
    }
}

/// Whether the entry at an index is shown: its mod is there and passes the filter.
pub open spec fn is_shown(
    order: Seq<ProfileEntry>,
    mods: Seq<ModEntry>,
    filter: Option<Seq<char>>,
    index: int,
) -> bool {
    let at = library::last_index(mods, order[index].id@);
    at >= 0 && match filter {
        Some(f) => matches_filter(mods[at], f),
        None => true,
    }
}

/// The rows of the first `n` entries that are shown.
pub open spec fn shown_rows(
    order: Seq<ProfileEntry>,
    mods: Seq<ModEntry>,
    filter: Option<Seq<char>>,
    n: int,
) -> Seq<RowView>
    decreases n,
{
    if n <= 0 {
        Seq::empty()
    } else if is_shown(order, mods, filter, n - 1) {
        shown_rows(order, mods, filter, n - 1).push(row_of(order, mods, n - 1))
    } else {
        shown_rows(order, mods, filter, n - 1)
    }
}

pub open spec fn indices_of(rows: Seq<RowView>) -> Seq<int> {
    Seq::new(rows.len(), |i: int| rows[i].index)
}

/// The rows of the table: in load order while the list is still loading, else as
/// the column says.
pub open spec fn table(
    order: Seq<ProfileEntry>,
    mods: Seq<ModEntry>,
    filter: Seq<char>,
    s: ModSort,
    loading: bool,
) -> Seq<RowView> {
    let rows = shown_rows(order, mods, filter_of(filter), order.len() as int);
    if loading {
        rows
    } else {
        sorting::ranking_by(rows, row_before(s))
    }
}

/// Which entries of a load order are shown, in the order of the table.
pub fn table_indices(
    order: &Vec<ProfileEntry>,
    mods: &Vec<ModEntry>,
    index: &StringHashMap<usize>,
    filter: &str,
    s: ModSort,
    loading: bool,
) -> (out: Vec<usize>)
    requires
        library::indexes(index@, mods@),
    ensures
        crate::rank_order::as_ints(out@) == indices_of(
            table(order@, mods@, filter@, s, loading),
        ),
        forall|i: int| 0 <= i < out.len() ==> (#[trigger] out@[i]) < order.len(),
{
    let wanted = mod_filter_normalized(filter);
    let ghost view = |r: ModRow| r.shown();
    let mut rows: Vec<ModRow> = Vec::new();
    let mut i: usize = 0;
    assert(rows@.map_values(view) =~= shown_rows(order@, mods@, filter_of(filter@), 0));
    while i < order.len()
        invariant
            i <= order.len(),
            library::indexes(index@, mods@),
            text::text_opt(wanted) == filter_of(filter@),
            view == (|r: ModRow| r.shown()),
            rows@.map_values(view) == shown_rows(order@, mods@, filter_of(filter@), i as int),
            forall|k: int| 0 <= k < rows.len() ==> (#[trigger] rows@[k]).sort == s,
            forall|k: int| 0 <= k < rows.len() ==> (#[trigger] rows@[k]).index < order.len(),
        decreases order.len() - i,
    {
        let e = &order[i];
        proof {
            library::lemma_last_index(mods@, e.id@);
        }
        if let Some(at) = index.get(e.id.as_str()) {
            assert(library::is_last_with_id(mods@, e.id@, *at as int));
            let m = &mods[*at];
            let pass = match &wanted {
                Some(f) => mod_matches_filter(m, f.as_str()),
                None => true,
            };
            if pass {
                let row = make_row(m, i, e.enabled, s);
                let ghost before = rows@;
                rows.push(row);
                assert(rows@.map_values(view) =~= before.map_values(view).push(view(row)));
                assert(row.shown() =~= row_of(order@, mods@, i as int));
            }
        }
        i = i + 1;
    }
    proof {
        let before = sorting::order_of::<ModRow>();
        assert forall|x: ModRow, y: ModRow|
            rows@.contains(x) && rows@.contains(y) implies #[trigger] before(x, y) == row_before(
            s,
        )(view(x), view(y)) by {}
        sorting::lemma_ranking_map(rows@, view, before, row_before(s));
    }
    let ghost unsorted = rows@;
    let sorted = if loading {
        rows
    } else {
        sort(rows)
    };
    proof {
        assert forall|k: int| 0 <= k < sorted.len() implies (#[trigger] sorted@[k]).index
            < order.len() by {
            if !loading {
                sorting::lemma_ranking_members(unsorted, sorting::order_of::<ModRow>(), k);
            }
        }
    }
    let ghost t = table(order@, mods@, filter@, s, loading);
    assert(sorted@.map_values(view) == t);
    let mut out: Vec<usize> = Vec::new();
    let mut j: usize = 0;
    while j < sorted.len()
        invariant
            j <= sorted.len(),
            j == out.len(),
            view == (|r: ModRow| r.shown()),
            sorted@.map_values(view) == t,
            forall|k: int| 0 <= k < sorted.len() ==> (#[trigger] sorted@[k]).index < order.len(),
            forall|k: int| 0 <= k < j ==> (#[trigger] out@[k]) == t[k].index,
            forall|k: int| 0 <= k < j ==> (#[trigger] out@[k]) < order.len(),
        decreases sorted.len() - j,
    {
        assert(t[j as int] == sorted@[j as int].shown());
        out.push(sorted[j].index);
        j = j + 1;
    }
    assert(t.len() == sorted.len());
    assert(crate::rank_order::as_ints(out@) =~= indices_of(t));
    out
}

/// What is shown does not depend on the order in which it is shown.
pub proof fn law_sorting_hides_nothing(
    order: Seq<ProfileEntry>,
    mods: Seq<ModEntry>,
    filter: Seq<char>,
    s: ModSort,
)
    ensures
        table(order, mods, filter, s, false).to_multiset() == table(
            order,
            mods,
            filter,
            s,
            true,
        ).to_multiset(),
{
    sorting::law_ranking_permutes(
        shown_rows(order, mods, filter_of(filter), order.len() as int),
        row_before(s),
    );
}

} // verus!
