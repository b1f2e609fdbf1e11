//! A report on what mods answer to and what they need.
use crate::dep_lookup;
use crate::dep_lookup::{mod_dependency_keys, DependencyLookup};
use crate::dep_missing;
use crate::library;
use crate::library::{
    display_mod_name, library_mod_root, normalize_label, InstallTarget, Library, ModEntry,
    ModSource,
};
use crate::mod_switches;
use crate::paths;
use crate::paths::join_path;
use crate::sorting;
use crate::sorting::has_string;
use crate::text;
use crate::text::{add_line, concat2, concat3, has_text, join_texts};
use vstd::hash_map::StringHashMap;
use vstd::prelude::*;

verus! {

/// What a mod answers to, in order.
pub open spec fn sorted_keys(m: ModEntry) -> Seq<Seq<char>> {
    sorting::sorted_set(dep_lookup::mod_keys(m))
}

/// Whether one of the keys holds a text.
pub open spec fn some_key_has(keys: Seq<Seq<char>>, needle: Seq<char>) -> bool {
    exists|i: int| 0 <= i < keys.len() && text::contains_text(#[trigger] keys[i], needle)
}

/// The ids of the mods that answer to a dependency, in order.
pub open spec fn answering(mods: Seq<ModEntry>, dep: Seq<char>) -> Seq<Seq<char>> {
    mod_switches::with_needed(Seq::empty(), mods, seq![dep])
}

/// The names of the mods with some ids.
pub open spec fn names_for(mods: Seq<ModEntry>, ids: Seq<Seq<char>>) -> Seq<Seq<char>> {
    Seq::new(ids.len(), |i: int| library::mod_name(mods, ids[i]))
}

pub open spec fn target_text(t: InstallTarget) -> Seq<char> {
    match t {
        InstallTarget::Pak { file, info } => "Pak:"@ + file@ + " (uuid "@ + info.uuid@ + ", folder "@
            + info.folder@ + ")"@,
        InstallTarget::Generated { dir } => "Generated:"@ + dir@,
        InstallTarget::Data { dir } => "Data:"@ + dir@,
        InstallTarget::Bin { dir } => "Bin:"@ + dir@,
    }
}

pub open spec fn target_texts(targets: Seq<InstallTarget>) -> Seq<Seq<char>> {
    Seq::new(targets.len(), |i: int| target_text(targets[i]))
}

/// The line of a dependency.
pub open spec fn need_line(mods: Seq<ModEntry>, dep: Seq<char>) -> Seq<char> {
    let ids = answering(mods, dep);
    if ids.len() == 0 {
        "  - "@ + dep + " (missing)"@
    } else {
        "  - "@ + dep + " -> "@ + text::join(names_for(mods, ids), ", "@)
    }
}

pub open spec fn need_lines(mods: Seq<ModEntry>, deps: Seq<Seq<char>>) -> Seq<Seq<char>> {
    if deps.len() == 0 {
        seq!["Dependencies: none"@]
    } else {
        seq!["Dependencies:"@] + Seq::new(deps.len(), |i: int| need_line(mods, deps[i]))
    }
}

/// The lines of a mod. `root` is where the manager would keep its files, `rooted` says
/// whether it does.
pub open spec fn mod_lines(
    mods: Seq<ModEntry>,
    m: ModEntry,
    root: Seq<char>,
    rooted: bool,
    deps: Seq<Seq<char>>,
) -> Seq<Seq<char>> {
    seq![
        "Mod: "@ + m.shown_name() + " ("@ + m.id@ + ")"@,
        "Source: "@ + match m.source {
            ModSource::Managed => "Managed"@,
            ModSource::Native => "Native"@,
        },
        "Managed root: "@ + root + if rooted {
            " (exists)"@
        } else {
            " (missing)"@
        },
        if m.targets@.len() == 0 {
            "Targets: none"@
        } else {
            "Targets: "@ + text::join(target_texts(m.targets@), ", "@)
        },
    ] + (if sorted_keys(m).len() == 0 {
        Seq::empty()
    } else {
        seq!["Dependency keys: "@ + text::join(sorted_keys(m), ", "@)]
    }) + need_lines(mods, deps) + seq![Seq::empty()]
}

/// The lines of those of the first `n` mods that answer to something with a text in it.
pub open spec fn report_lines(
    mods: Seq<ModEntry>,
    needle: Seq<char>,
    root: Seq<char>,
    rooted: Seq<Seq<char>>,
    deps: Seq<Vec<String>>,
    n: int,
) -> Seq<Seq<char>>
    decreases n,
{
    if n <= 0 {
        Seq::empty()
    } else {
        let m = mods[n - 1];
        let before = report_lines(mods, needle, root, rooted, deps, n - 1);
        if some_key_has(sorted_keys(m), needle) {
            before + mod_lines(
                mods,
                m,
                paths::joined(root, m.id@),
                rooted.contains(m.id@),
                dep_missing::needs_at(deps, n - 1),
            )
        } else {
            before
        }
    }
}

/// The report on the mods that a text is meant for.
pub open spec fn report(
    library: Library,
    query: Seq<char>,
    data_dir: Seq<char>,
    rooted: Seq<Seq<char>>,
    deps: Seq<Vec<String>>,
) -> Seq<char> {
    let needle = library::label_key(query);
    let lines = report_lines(
        library.mods@,
        needle,
        paths::joined(data_dir, "mods"@),
        rooted,
        deps,
        library.mods@.len() as int,
    );
    if needle.len() == 0 {
        "Provide a mod id or name to debug."@
    } else if lines.len() == 0 {
        "No mods matched \""@ + query + "\"."@
    } else {
        text::join(lines, "\n"@)
    }
}

fn has_key_with(keys: &Vec<String>, needle: &str) -> (r: bool)
    ensures
        r == some_key_has(text::texts(keys@), needle@),
{
    let ghost all = text::texts(keys@);
    let mut i: usize = 0;
    while i < keys.len()
        invariant
            i <= keys.len(),
            all == text::texts(keys@),
            forall|k: int| 0 <= k < i ==> !text::contains_text(#[trigger] all[k], needle@),
        decreases keys.len() - i,
    {
        assert(all[i as int] == keys@[i as int]@);
        if has_text(keys[i].as_str(), needle) {
            assert(text::contains_text(all[i as int], needle@));
            return true;
        }
        i = i + 1;
    }
    false
}

fn show_target(t: &InstallTarget) -> (r: String)
    ensures
        r@ == target_text(*t),
{
    match t {
        InstallTarget::Pak { file, info } => {
            let mut r = concat3("Pak:", file.as_str(), " (uuid ");
            r.append(info.uuid.as_str());
            r.append(", folder ");
            r.append(info.folder.as_str());
            r.append(")");
            r
        },
        InstallTarget::Generated { dir } => concat2("Generated:", dir.as_str()),
        InstallTarget::Data { dir } => concat2("Data:", dir.as_str()),
        InstallTarget::Bin { dir } => concat2("Bin:", dir.as_str()),
    }
}

fn show_targets(targets: &Vec<InstallTarget>) -> (r: String)
    ensures
        r@ == if targets@.len() == 0 {
            "Targets: none"@
        } else {
            "Targets: "@ + text::join(target_texts(targets@), ", "@)
        },
{
    if targets.is_empty() {
        return "Targets: none".to_owned();
    }
    let ghost goal = target_texts(targets@);
    let mut list: Vec<String> = Vec::new();
    let mut i: usize = 0;
    assert(text::texts(list@) =~= goal.take(0));
    while i < targets.len()
        invariant
            i <= targets.len(),
            goal == target_texts(targets@),
            text::texts(list@) == goal.take(i as int),
        decreases targets.len() - i,
    {
        add_line(&mut list, show_target(&targets[i]));
        i = i + 1;
        assert(goal.take(i as int) =~= goal.take(i - 1).push(goal[i - 1]));
    }
    assert(goal.take(i as int) =~= goal);
    concat2("Targets: ", join_texts(&list, ", ").as_str())
}

fn show_need(
    lookup: &DependencyLookup,
    mods: &Vec<ModEntry>,
    index: &StringHashMap<usize>,
    dep: &str,
) -> (r: String)
    requires
        lookup.is_of(mods@),
        library::indexes(index@, mods@),
    ensures
        r@ == need_line(mods@, dep@),
{
    let found = lookup.resolve_ids(dep);
    let ghost ids = text::texts(found@);
    proof {
        let needs = seq![dep@];
        assert forall|id: Seq<char>| #[trigger] ids.contains(id) <==> Seq::<
            Seq<char>,
        >::empty().contains(id) || mod_switches::is_needed(mods@, needs, id) by {
            if ids.contains(id) {
                let key = choose|key: Seq<char>|
                    dep_lookup::match_keys(dep@).contains(key) && #[trigger] lookup.means(key, id);
                assert(dep_lookup::answers(mods@, id, key));
                assert(dep_missing::answers_to(mods@, needs[0], id));
            }
            if mod_switches::is_needed(mods@, needs, id) {
                let i = choose|i: int|
                    0 <= i < needs.len() && dep_missing::answers_to(mods@, #[trigger] needs[i], id);
                assert(needs[i] == dep@);
                let key = choose|key: Seq<char>|
                    dep_lookup::match_keys(dep@).contains(key) && #[trigger] dep_lookup::answers(
                        mods@,
                        id,
                        key,
                    );
                assert(lookup.means(key, id));
            }
        }
        mod_switches::lemma_with_needed(ids, Seq::empty(), mods@, needs);
        assert(ids.len() == found@.len());
    }
    if found.is_empty() {
        return concat3("  - ", dep, " (missing)");
    }
    let ghost goal = names_for(mods@, ids);
    let mut names: Vec<String> = Vec::new();
    let mut i: usize = 0;
    assert(text::texts(names@) =~= goal.take(0));
    while i < found.len()
        invariant
            i <= found.len(),
            library::indexes(index@, mods@),
            ids == text::texts(found@),
            goal == names_for(mods@, ids),
            text::texts(names@) == goal.take(i as int),
        decreases found.len() - i,
    {
        add_line(&mut names, display_mod_name(found[i].as_str(), mods.as_slice(), index));
        i = i + 1;
        assert(goal.take(i as int) =~= goal.take(i - 1).push(goal[i - 1]));
    }
    assert(goal.take(i as int) =~= goal);
    let mut r = concat3("  - ", dep, " -> ");
    r.append(join_texts(&names, ", ").as_str());
    r
}

fn add_needs(
    lines: &mut Vec<String>,
    lookup: &DependencyLookup,
    mods: &Vec<ModEntry>,
    index: &StringHashMap<usize>,
    deps: &Vec<String>,
)
    requires
        lookup.is_of(mods@),
        library::indexes(index@, mods@),
    ensures
        text::texts(final(lines)@) == text::texts(old(lines)@) + need_lines(
            mods@,
            text::texts(deps@),
        ),
{
    let ghost start = text::texts(lines@);
    let ghost needs = text::texts(deps@);
    if deps.is_empty() {
        add_line(lines, "Dependencies: none".to_owned());
        assert(text::texts(lines@) =~= start + need_lines(mods@, needs));
        return;
    }
    add_line(lines, "Dependencies:".to_owned());
    let ghost goal = Seq::new(needs.len(), |i: int| need_line(mods@, needs[i]));
    let mut i: usize = 0;
    assert(text::texts(lines@) =~= start + (seq!["Dependencies:"@] + goal.take(0)));
    while i < deps.len()
        invariant
            i <= deps.len(),
            lookup.is_of(mods@),
            library::indexes(index@, mods@),
            needs == text::texts(deps@),
            goal == Seq::new(needs.len(), |i: int| need_line(mods@, needs[i])),
            text::texts(lines@) == start + (seq!["Dependencies:"@] + goal.take(i as int)),
        decreases deps.len() - i,
    {
        add_line(lines, show_need(lookup, mods, index, deps[i].as_str()));
        i = i + 1;
        assert(goal.take(i as int) =~= goal.take(i - 1).push(goal[i - 1]));
        assert(text::texts(lines@) =~= start + (seq!["Dependencies:"@] + goal.take(i as int)));
    }
    assert(goal.take(i as int) =~= goal);
}

fn add_mod(
    lines: &mut Vec<String>,
    lookup: &DependencyLookup,
    mods: &Vec<ModEntry>,
    index: &StringHashMap<usize>,
    m: &ModEntry,
    keys: &Vec<String>,
    root: &str,
    rooted: bool,
    deps: &Vec<String>,
)
    requires
        lookup.is_of(mods@),
        library::indexes(index@, mods@),
        text::texts(keys@) == sorted_keys(*m),
    ensures
        text::texts(final(lines)@) == text::texts(old(lines)@) + mod_lines(
            mods@,
            *m,
            root@,
            rooted,
            text::texts(deps@),
        ),
{
    let ghost start = text::texts(lines@);
    let mut first = concat3("Mod: ", m.display_name().as_str(), " (");
    first.append(m.id.as_str());
    first.append(")");
    add_line(lines, first);
    add_line(
        lines,
        concat2(
            "Source: ",
            match m.source {
                ModSource::Managed => "Managed",
                ModSource::Native => "Native",
            },
        ),
    );
    add_line(
        lines,
        concat3(
            "Managed root: ",
            root,
            if rooted {
                " (exists)"
            } else {
                " (missing)"
            },
        ),
    );
    add_line(lines, show_targets(&m.targets));
    assert(text::texts(keys@).len() == keys@.len());
    if !keys.is_empty() {
        add_line(lines, concat2("Dependency keys: ", join_texts(keys, ", ").as_str()));
    }
    add_needs(lines, lookup, mods, index, deps);
    let empty = String::new();
    assert(empty@ =~= Seq::<char>::empty());
    add_line(lines, empty);
    assert(text::texts(lines@) =~= start + mod_lines(
        mods@,
        *m,
        root@,
        rooted,
        text::texts(deps@),
    ));
}

/// The report on the mods that a text is meant for. `rooted` are the ids of the mods that
/// the manager keeps files of, `deps` are the needs of the mods.
pub fn debug_dependency_report(
    library: &Library,
    query: &str,
    data_dir: &str,
    rooted: &Vec<String>,
    deps: &Vec<Vec<String>>,
) -> (r: String)
    requires
        deps@.len() == library.mods@.len(),
    ensures
        r@ == report(*library, query@, data_dir@, text::texts(rooted@), deps@),
{
    let needle = normalize_label(query);
    if needle.as_str().is_empty() {
        return "Provide a mod id or name to debug.".to_owned();
    }
    let mods = &library.mods;
    let lookup = DependencyLookup::new(mods);
    let index = library.index_by_id();
    let base = library_mod_root(data_dir);
    let ghost kept = text::texts(rooted@);
    let mut lines: Vec<String> = Vec::new();
    let mut i: usize = 0;
    assert(text::texts(lines@) =~= Seq::<Seq<char>>::empty());
    while i < mods.len()
        invariant
            i <= mods.len() == deps.len(),
            lookup.is_of(mods@),
            library::indexes(index@, mods@),
            kept == text::texts(rooted@),
            text::texts(lines@) == report_lines(mods@, needle@, base@, kept, deps@, i as int),
        decreases mods.len() - i,
    {
        let keys = mod_dependency_keys(&mods[i]);
        proof {
            sorting::lemma_sorted_set(text::texts(keys@), dep_lookup::mod_keys(mods@[i as int]));
        }
        if has_key_with(&keys, needle.as_str()) {
            let root = join_path(base.as_str(), mods[i].id.as_str());
            let is_rooted = has_string(rooted, mods[i].id.as_str());
            add_mod(
                &mut lines,
                &lookup,
                mods,
                &index,
                &mods[i],
                &keys,
                root.as_str(),
                is_rooted,
                &deps[i],
            );
        }
        i = i + 1;
    }
    assert(text::texts(lines@).len() == lines@.len());
    if lines.is_empty() {
        return concat3("No mods matched \"", query, "\".");
    }
    join_texts(&lines, "\n")
}

} // verus!
