//! That kinds of targets go by the same words wherever they are spoken of.
use crate::bg3::GamePaths;
use crate::deploy;
use crate::fingerprint;
use crate::library;
use crate::library::{InstallTarget, TargetKind};
use crate::mod_scan;
use crate::mod_table;
use crate::paths;
use crate::text;
use vstd::prelude::*;

verus! {

/// The files of a kind go to the directory that the kind is called by: data to the data
/// directory of the game, generated files to the one of their name in it, programs to the
/// one beside it. Packages go to the directory that a table names for them.
pub proof fn law_kinds_go_by_their_directories(
    p: GamePaths,
    game_root: Seq<char>,
    larian_dir: Seq<char>,
)
    requires
        p.below(game_root, larian_dir),
    ensures
        deploy::dest_root_of(p, TargetKind::Data) == paths::joined(
            game_root,
            deploy::kind_name(TargetKind::Data),
        ),
        deploy::dest_root_of(p, TargetKind::Generated) == paths::joined(
            deploy::dest_root_of(p, TargetKind::Data),
            deploy::kind_name(TargetKind::Generated),
        ),
        deploy::dest_root_of(p, TargetKind::Bin) == paths::joined(
            game_root,
            text::ascii_lower(deploy::kind_name(TargetKind::Bin)),
        ),
        p.larian_mods_dir@ == paths::joined(larian_dir, mod_table::target_word(TargetKind::Pak)),
{
    reveal_strlit("Bin");
    reveal_strlit("bin");
    assert(text::ascii_lower("Bin"@) =~= "bin"@);
}

/// A kind is called the same in records, in tables, in the keys of files and in what a mod
/// is said to consist of.
pub proof fn law_kinds_have_one_name(kind: TargetKind, targets: Seq<InstallTarget>)
    ensures
        kind != TargetKind::Pak ==> mod_table::target_word(kind) == deploy::kind_name(kind),
        mod_scan::key_word(kind) == text::ascii_lower(deploy::kind_name(kind)),
        library::kind_names(targets).contains(deploy::kind_name(kind)) <==> library::targets_have(
            targets,
            kind,
        ),
{
    reveal_strlit("Pak");
    reveal_strlit("Generated");
    reveal_strlit("Data");
    reveal_strlit("Bin");
    reveal_strlit("pak");
    reveal_strlit("generated");
    reveal_strlit("data");
    reveal_strlit("bin");
    assert(text::ascii_lower("Pak"@) =~= "pak"@);
    assert(text::ascii_lower("Generated"@) =~= "generated"@);
    assert(text::ascii_lower("Data"@) =~= "data"@);
    assert(text::ascii_lower("Bin"@) =~= "bin"@);
    assert("Pak"@[0] == 'P' && "Generated"@[0] == 'G' && "Data"@[0] == 'D' && "Bin"@[0] == 'B');
    let names = library::kind_names(targets);
    let want = deploy::kind_name(kind);
    let a: int = if library::targets_have(targets, TargetKind::Pak) {
        1
    } else {
        0
    };
    let b: int = if library::targets_have(targets, TargetKind::Generated) {
        1
    } else {
        0
    };
    let c: int = if library::targets_have(targets, TargetKind::Data) {
        1
    } else {
        0
    };
    let d: int = if library::targets_have(targets, TargetKind::Bin) {
        1
    } else {
        0
    };
    assert(names.len() == a + b + c + d);
    if a == 1 {
        assert(names[0] == "Pak"@);
    }
    if b == 1 {
        assert(names[a] == "Generated"@);
    }
    if c == 1 {
        assert(names[a + b] == "Data"@);
    }
    if d == 1 {
        assert(names[a + b + c] == "Bin"@);
    }
    if names.contains(want) {
        let i = choose|i: int| 0 <= i < names.len() && names[i] == want;
        assert(names[i][0] == want[0]);
        if i < a {
            assert(names[i] == "Pak"@);
        } else if i < a + b {
            assert(names[i] == "Generated"@);
        } else if i < a + b + c {
            assert(names[i] == "Data"@);
        } else {
            assert(names[i] == "Bin"@);
        }
    }
}

/// The key of a target tells its kind, and where it holds loose files their directory.
pub proof fn law_target_keys_tell_apart(a: InstallTarget, b: InstallTarget)
    requires
        fingerprint::target_key(a) == fingerprint::target_key(b),
    ensures
        a.kind_of() == b.kind_of(),
        deploy::loose_dir(a) == deploy::loose_dir(b),
{
    reveal_strlit("pak|");
    reveal_strlit("gen|");
    reveal_strlit("data|");
    reveal_strlit("bin|");
    assert("pak|"@[0] == 'p' && "gen|"@[0] == 'g' && "data|"@[0] == 'd' && "bin|"@[0] == 'b');
    let x = fingerprint::target_key(a);
    let y = fingerprint::target_key(b);
    assert(x[0] == y[0]);
    match (a, b) {
        (InstallTarget::Generated { dir: s }, InstallTarget::Generated { dir: t }) => {
            assert(x.skip("gen|"@.len() as int) =~= s@);
            assert(y.skip("gen|"@.len() as int) =~= t@);
        },
        (InstallTarget::Data { dir: s }, InstallTarget::Data { dir: t }) => {
            assert(x.skip("data|"@.len() as int) =~= s@);
            assert(y.skip("data|"@.len() as int) =~= t@);
        },
        (InstallTarget::Bin { dir: s }, InstallTarget::Bin { dir: t }) => {
            assert(x.skip("bin|"@.len() as int) =~= s@);
            assert(y.skip("bin|"@.len() as int) =~= t@);
        },
        _ => {},
    }
}

} // verus!
