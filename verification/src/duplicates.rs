//! Mods that are imported while the library has them, or the like of them, already.
use crate::actions;
use crate::actions::{
    Dialog, DialogChoice, DialogKind, DialogToggle, DialogView, KindView,
};
use crate::library::ModEntry;
use crate::text;
use crate::text::{concat2, push_text, show_u64};
use crate::versions;
use crate::versions::{
    duplicate_default_overwrite, find_duplicate_by_name, find_similar_by_label, Likeness,
};
use vstd::prelude::*;

verus! {

/// In what a mod is like one that is there.
#[derive(Debug)]
pub enum DuplicateKind {
    /// It has the same name.
    Exact,
    /// It comes from a file with a similar name.
    Similar {
        new_label: String,
        existing_label: String,
        new_stamp: Option<u64>,
        existing_stamp: Option<u64>,
        likeness: Likeness,
    },
}

/// A mod that waits for a decision.
#[derive(Debug)]
pub struct DuplicateDecision {
    pub mod_entry: ModEntry,
    pub existing_id: String,
    pub existing_label: String,
    pub kind: DuplicateKind,
    /// Whether it should take the place of the other, as far as that can be told.
    pub default_overwrite: Option<bool>,
}

// ---------------------------------------------------------------------------
// Which mods are there already
// ---------------------------------------------------------------------------

/// Where the first mod with a name stands, or -1.
pub open spec fn first_named(mods: Seq<ModEntry>, name: Seq<char>) -> int
    decreases mods.len(),
{
    if mods.len() == 0 {
        -1
    } else {
        let before = first_named(mods.drop_last(), name);
        if before >= 0 {
            before
        } else if versions::has_name(mods.last(), name) {
            mods.len() - 1
        } else {
            -1
        }
    }
}

pub proof fn lemma_first_named(mods: Seq<ModEntry>, name: Seq<char>)
    ensures
        -1 <= first_named(mods, name) < mods.len(),
        first_named(mods, name) >= 0 ==> versions::is_first_with_name(
            mods,
            name,
            first_named(mods, name),
        ),
        first_named(mods, name) < 0 ==> forall|j: int|
            0 <= j < mods.len() ==> !versions::has_name(#[trigger] mods[j], name),
        forall|i: int| #[trigger]
            versions::is_first_with_name(mods, name, i) ==> i == first_named(mods, name),
    decreases mods.len(),
{
    if mods.len() > 0 {
        let front = mods.drop_last();
        lemma_first_named(front, name);
        let k = first_named(mods, name);
        if k >= 0 {
            assert forall|j: int| 0 <= j < k implies !versions::has_name(#[trigger] mods[j], name) by {
                assert(!versions::has_name(front[j], name));
            }
        } else {
            assert forall|j: int| 0 <= j < mods.len() implies !versions::has_name(
                #[trigger] mods[j],
                name,
            ) by {
                if j < front.len() {
                    assert(!versions::has_name(front[j], name));
                }
            }
        }
    }
}

/// How a mod clashes with those that are there.
pub enum Clash {
    Free,
    SameName { at: usize },
    Similar { at: usize },
}

/// How a mod clashes: with the first of its name, else with the one most like it.
pub open spec fn clash(mods: Seq<ModEntry>, m: ModEntry) -> Clash {
    let named = first_named(mods, m.name@);
    let like = versions::most_similar(mods, m, mods.len() as int);
    if named >= 0 {
        Clash::SameName { at: named as usize }
    } else if like >= 0 {
        Clash::Similar { at: like as usize }
    } else {
        Clash::Free
    }
}

/// Whether the newer of two files is the new one.
pub open spec fn newer_stamp(new: Option<u64>, existing: Option<u64>) -> Option<bool> {
    match (new, existing) {
        (Some(a), Some(b)) => Some(a > b),
        _ => None,
    }
}

/// Whether a decision is the one that is to be made on a mod.
pub open spec fn is_decision(d: DuplicateDecision, mods: Seq<ModEntry>, m: ModEntry) -> bool {
    &&& d.mod_entry == m
    &&& match clash(mods, m) {
        Clash::Free => false,
        Clash::SameName { at } => {
            &&& at < mods.len()
            &&& d.existing_id@ == mods[at as int].id@
            &&& d.existing_label@ == mods[at as int].shown_name()
            &&& d.kind is Exact
            &&& d.default_overwrite == versions::default_overwrite(m, mods[at as int])
        },
        Clash::Similar { at } => {
            &&& at < mods.len()
            &&& d.existing_id@ == mods[at as int].id@
            &&& d.existing_label@ == mods[at as int].shown_name()
            &&& d.kind matches DuplicateKind::Similar {
                new_label,
                existing_label,
                new_stamp,
                existing_stamp,
                likeness,
            }
            &&& new_label@ == m.shown_name()
            &&& existing_label@ == mods[at as int].shown_name()
            &&& new_stamp == versions::timestamp(versions::origin(m))
            &&& existing_stamp == versions::timestamp(versions::origin(mods[at as int]))
            &&& (likeness.changes as nat, likeness.length as nat) == versions::likeness(
                versions::origin_key(m),
                versions::origin_key(mods[at as int]),
            )
            &&& likeness.changes <= likeness.length
            &&& d.default_overwrite == newer_stamp(new_stamp, existing_stamp)
        },
    }
}

/// What is to be decided on a mod, or the mod itself where it clashes with none.
pub fn find_decision(mods: &Vec<ModEntry>, m: ModEntry) -> (r: Result<ModEntry, DuplicateDecision>)
    ensures
        match r {
            Ok(free) => free == m && clash(mods@, m) is Free,
            Err(d) => clash(mods@, m) !is Free && is_decision(d, mods@, m),
        },
{
    proof {
        lemma_first_named(mods@, m.name@);
    }
    if let Some(at) = find_duplicate_by_name(mods, m.name.as_str()) {
        let default_overwrite = duplicate_default_overwrite(&m, &mods[at]);
        return Err(
            DuplicateDecision {
                mod_entry: m,
                existing_id: mods[at].id.clone(),
                existing_label: mods[at].display_name(),
                kind: DuplicateKind::Exact,
                default_overwrite,
            },
        );
    }
    match find_similar_by_label(mods, &m) {
        Some(s) => {
            let default_overwrite = match (s.new_stamp, s.existing_stamp) {
                (Some(a), Some(b)) => Some(a > b),
                _ => None,
            };
            let existing_label = s.existing_label.clone();
            Err(
                DuplicateDecision {
                    mod_entry: m,
                    existing_id: s.existing_id,
                    existing_label: s.existing_label,
                    kind: DuplicateKind::Similar {
                        new_label: s.new_label,
                        existing_label,
                        new_stamp: s.new_stamp,
                        existing_stamp: s.existing_stamp,
                        likeness: s.likeness,
                    },
                    default_overwrite,
                },
            )
        },
        None => Ok(m),
    }
}

/// Those of the first `n` mods that clash with none.
pub open spec fn free_mods(mods: Seq<ModEntry>, new: Seq<ModEntry>, n: int) -> Seq<ModEntry>
    decreases n,
{
    if n <= 0 {
        Seq::empty()
    } else if clash(mods, new[n - 1]) is Free {
        free_mods(mods, new, n - 1).push(new[n - 1])
    } else {
        free_mods(mods, new, n - 1)
    }
}

/// Those of the first `n` mods that clash with one.
pub open spec fn clashing_mods(mods: Seq<ModEntry>, new: Seq<ModEntry>, n: int) -> Seq<ModEntry>
    decreases n,
{
    if n <= 0 {
        Seq::empty()
    } else if clash(mods, new[n - 1]) is Free {
        clashing_mods(mods, new, n - 1)
    } else {
        clashing_mods(mods, new, n - 1).push(new[n - 1])
    }
}

/// Whether decisions are those that are to be made on mods.
pub open spec fn are_decisions(
    list: Seq<DuplicateDecision>,
    mods: Seq<ModEntry>,
    new: Seq<ModEntry>,
) -> bool {
    &&& list.len() == new.len()
    &&& forall|i: int| 0 <= i < list.len() ==> is_decision(#[trigger] list[i], mods, new[i])
}

/// Parts mods into those that can be taken in, and those that need a decision.
pub fn stage_imports(mods: &Vec<ModEntry>, new: Vec<ModEntry>) -> (r: (
    Vec<ModEntry>,
    Vec<DuplicateDecision>,
))
    ensures
        r.0@ == free_mods(mods@, new@, new@.len() as int),
        are_decisions(r.1@, mods@, clashing_mods(mods@, new@, new@.len() as int)),
{
    let ghost all = new@;
    let mut left = new;
    let mut approved: Vec<ModEntry> = Vec::new();
    let mut waiting: Vec<DuplicateDecision> = Vec::new();
    assert(left@ =~= all.skip(0));
    while left.len() > 0
        invariant
            left.len() <= all.len(),
            left@ == all.skip(all.len() - left.len()),
            approved@ == free_mods(mods@, all, all.len() - left.len()),
            are_decisions(waiting@, mods@, clashing_mods(mods@, all, all.len() - left.len())),
        decreases left.len(),
    {
        let ghost at = all.len() - left.len();
        assert(left@[0] == all[at]);
        let m = left.remove(0);
        assert(left@ =~= all.skip(at + 1));
        match find_decision(mods, m) {
            Ok(free) => approved.push(free),
            Err(d) => waiting.push(d),
        }
    }
    (approved, waiting)
}

/// Nothing that is imported is lost: each mod is either taken in or waits for a
/// decision.
pub proof fn law_staged_all(mods: Seq<ModEntry>, new: Seq<ModEntry>, n: int)
    requires
        0 <= n <= new.len(),
    ensures
        free_mods(mods, new, n).len() + clashing_mods(mods, new, n).len() == n,
        forall|i: int|
            0 <= i < n ==> free_mods(mods, new, n).contains(#[trigger] new[i]) || clashing_mods(
                mods,
                new,
                n,
            ).contains(new[i]),
    decreases n,
{
    if n > 0 {
        law_staged_all(mods, new, n - 1);
        assert forall|i: int| 0 <= i < n implies free_mods(mods, new, n).contains(
            #[trigger] new[i],
        ) || clashing_mods(mods, new, n).contains(new[i]) by {
            crate::lists::lemma_push_contains(free_mods(mods, new, n - 1), new[n - 1], new[i]);
            crate::lists::lemma_push_contains(clashing_mods(mods, new, n - 1), new[n - 1], new[i]);
        }
    }
}

// ---------------------------------------------------------------------------
// The question
// ---------------------------------------------------------------------------

/// What is said of the age of two files.
pub open spec fn stamp_note(new: Option<u64>, existing: Option<u64>) -> Seq<char> {
    match (new, existing) {
        (Some(a), Some(b)) => if a > b {
            "\nNewer archive detected ("@ + text::decimal(a as nat) + " > "@ + text::decimal(
                b as nat,
            ) + ")."@
        } else if a < b {
            "\nExisting archive looks newer ("@ + text::decimal(b as nat) + " > "@ + text::decimal(
                a as nat,
            ) + ")."@
        } else {
            Seq::empty()
        },
        _ => Seq::empty(),
    }
}

pub open spec fn duplicate_message(d: DuplicateDecision) -> Seq<char> {
    match d.kind {
        DuplicateKind::Exact => "Mod \""@ + d.mod_entry.shown_name()
            + "\" already exists.\nOverwrite \""@ + d.existing_label@ + "\"?"@,
        DuplicateKind::Similar { new_label, existing_label, new_stamp, existing_stamp, likeness } =>
        "Similar mod detected ("@ + text::decimal(likeness.percent() as nat) + "% match).\nNew: "@
            + new_label@ + "\nExisting: "@ + existing_label@ + stamp_note(
            new_stamp,
            existing_stamp,
        ),
    }
}

pub open spec fn duplicate_dialog(d: DuplicateDecision) -> DialogView {
    DialogView {
        title: if d.kind is Exact {
            "Overwrite Duplicate"@
        } else {
            "Similar Mod Detected"@
        },
        message: duplicate_message(d),
        yes_label: "Overwrite"@,
        no_label: "Skip"@,
        choice: if d.default_overwrite == Some(true) {
            DialogChoice::Yes
        } else {
            DialogChoice::No
        },
        kind: if d.kind is Exact {
            KindView::Overwrite
        } else {
            KindView::Similar
        },
        toggle: Some(("Apply this choice to all remaining duplicates"@, false)),
        scroll: 0,
    }
}

/// Whether the likeness that a decision states can be put in numbers.
pub open spec fn can_show(d: DuplicateDecision) -> bool {
    d.kind matches DuplicateKind::Similar { likeness, .. } ==> likeness.changes <= likeness.length
}

fn show_stamps(new: Option<u64>, existing: Option<u64>) -> (r: String)
    ensures
        r@ == stamp_note(new, existing),
{
    if let (Some(a), Some(b)) = (new, existing) {
        if a > b {
            let mut r = concat2("\nNewer archive detected (", show_u64(a).as_str());
            push_text(&mut r, " > ");
            push_text(&mut r, show_u64(b).as_str());
            push_text(&mut r, ").");
            return r;
        }
        if a < b {
            let mut r = concat2("\nExisting archive looks newer (", show_u64(b).as_str());
            push_text(&mut r, " > ");
            push_text(&mut r, show_u64(a).as_str());
            push_text(&mut r, ").");
            return r;
        }
    }
    let r = String::new();
    assert(r@ =~= Seq::<char>::empty());
    r
}

/// Asks whether a mod is to take the place of another.
pub fn ask_duplicate(d: &DuplicateDecision) -> (r: Dialog)
    requires
        can_show(*d),
    ensures
        r.shown() == duplicate_dialog(*d),
{
    let (title, message, kind) = match &d.kind {
        DuplicateKind::Exact => {
            let mut m = concat2("Mod \"", d.mod_entry.display_name().as_str());
            push_text(&mut m, "\" already exists.\nOverwrite \"");
            push_text(&mut m, d.existing_label.as_str());
            push_text(&mut m, "\"?");
            ("Overwrite Duplicate".to_owned(), m, DialogKind::Overwrite)
        },
        DuplicateKind::Similar { new_label, existing_label, new_stamp, existing_stamp, likeness } => {
            let mut m = concat2("Similar mod detected (", show_u64(likeness.in_percent()).as_str());
            push_text(&mut m, "% match).\nNew: ");
            push_text(&mut m, new_label.as_str());
            push_text(&mut m, "\nExisting: ");
            push_text(&mut m, existing_label.as_str());
            push_text(&mut m, show_stamps(*new_stamp, *existing_stamp).as_str());
            ("Similar Mod Detected".to_owned(), m, DialogKind::Similar)
        },
    };
    let choice = match d.default_overwrite {
        Some(true) => DialogChoice::Yes,
        _ => DialogChoice::No,
    };
    let r = Dialog {
        title,
        message,
        yes_label: "Overwrite".to_owned(),
        no_label: "Skip".to_owned(),
        choice,
        kind,
        toggle: Some(
            DialogToggle {
                label: "Apply this choice to all remaining duplicates".to_owned(),
                checked: false,
            },
        ),
        scroll: 0,
    };
    assert(actions::toggle_view(r.toggle) == duplicate_dialog(*d).toggle);
    r
}

} // verus!
