//! What holds of the game's settings once the mods of the library were written to them.
use crate::library::PakInfo;
use crate::lists;
use crate::modsettings;
use crate::modsettings::{ModSettings, ModSettingsSnapshot, NodeView};
use crate::text;
use vstd::prelude::*;

verus! {

/// Whether a module of the settings is one of the game's own: its name or its folder is
/// one of the game's words.
pub open spec fn is_the_games(n: NodeView) -> bool {
    ||| (modsettings::attr(n.attributes, "Name"@) matches Some(w)
        && modsettings::own_words().contains(w))
    ||| (modsettings::attr(n.attributes, "Folder"@) matches Some(w)
        && modsettings::own_words().contains(w))
}

/// The game's own modules are told by their names and folders; a module that states
/// neither is not the game's own.
pub proof fn law_own_nodes(n: NodeView)
    ensures
        modsettings::is_base_node(n) <==> is_the_games(n),
{
    let name = modsettings::or_default(modsettings::attr(n.attributes, "Name"@), Seq::empty());
    let folder = modsettings::or_default(modsettings::attr(n.attributes, "Folder"@), Seq::empty());
    modsettings::law_own_by_word(name, folder);
    let w = modsettings::own_words();
    reveal_strlit("Gustav");
    reveal_strlit("GustavX");
    reveal_strlit("GustavDev");
    reveal_strlit("Honour");
    reveal_strlit("HonourX");
    assert(!w.contains(Seq::<char>::empty())) by {
        assert(w.len() == 5);
        assert forall|i: int| 0 <= i < w.len() implies w[i].len() > 0 by {
            assert(w[0] == "Gustav"@ && w[1] == "GustavX"@ && w[2] == "GustavDev"@ && w[3]
                == "Honour"@ && w[4] == "HonourX"@);
        }
    }
}

/// Whether the module at `i` is one that neither the game nor the library has, and the last
/// with its id.
pub open spec fn is_foreign(nodes: Seq<NodeView>, installed: Seq<PakInfo>, i: int) -> bool {
    &&& 0 <= i < nodes.len()
    &&& modsettings::attr(nodes[i].attributes, "UUID"@) matches Some(u)
    &&& forall|j: int|
        i < j < nodes.len() ==> modsettings::attr((#[trigger] nodes[j]).attributes, "UUID"@)
            != Some(u)
    &&& forall|j: int|
        0 <= j < nodes.len() && modsettings::attr((#[trigger] nodes[j]).attributes, "UUID"@)
            == Some(u) ==> !is_the_games(nodes[j])
    &&& forall|k: int| 0 <= k < installed.len() ==> (#[trigger] installed[k]).uuid@ != u
}

/// The modules of the written settings are those of the game, those of the library, and
/// those that were there and that neither the game nor the library has, each of the last as
/// it stood last. Nothing else comes in, and none of these is lost.
pub proof fn law_other_modules_stay(
    doc: ModSettings,
    written: ModSettings,
    installed: Seq<PakInfo>,
    enabled: Seq<PakInfo>,
    n: NodeView,
)
    requires
        modsettings::settings_views(written.nodes@) == modsettings::with_mods(
            modsettings::settings_views(doc.nodes@),
            installed,
            enabled,
        ),
    ensures
        ({
            let before = modsettings::listed(doc.nodes@, "Mods"@);
            let after = modsettings::listed(written.nodes@, "Mods"@);
            after.contains(n) <==> {
                ||| before.contains(n) && is_the_games(n)
                ||| exists|k: int|
                    0 <= k < installed.len() && n == modsettings::short_desc(
                        #[trigger] installed[k],
                    )
                ||| exists|i: int| #[trigger]
                    is_foreign(before, installed, i) && before[i] == n
            }
        }),
{
    modsettings::law_settings_read_back(doc, written, installed, enabled);
    let before = modsettings::listed(doc.nodes@, "Mods"@);
    let after = modsettings::listed(written.nodes@, "Mods"@);
    let own = modsettings::base_ids(before, before.len() as int);
    let ids = modsettings::info_ids(installed);
    let base = modsettings::base_nodes(before);
    let rest = modsettings::staying(before, own, ids, before.len() as int);
    let descs = modsettings::short_descs(installed);
    let keeps = |m: NodeView| modsettings::is_base_node(m);
    lists::lemma_filter_contains(before, keeps, n);
    law_own_nodes(n);
    lemma_three(base, rest, descs, n);
    assert forall|i: int| 0 <= i < before.len() implies (modsettings::stays(before, i, own, ids)
        <==> #[trigger] is_foreign(before, installed, i)) by {
        lemma_stays(before, installed, i);
    }
    if rest.contains(n) {
        lemma_staying_was(before, own, ids, before.len() as int, n);
        let i = choose|i: int|
            0 <= i < before.len() && before[i] == n && #[trigger] modsettings::stays(
                before,
                i,
                own,
                ids,
            );
        assert(is_foreign(before, installed, i));
    }
    if exists|i: int| #[trigger] is_foreign(before, installed, i) && before[i] == n {
        let i = choose|i: int| #[trigger] is_foreign(before, installed, i) && before[i] == n;
        lemma_stays_listed(before, own, ids, before.len() as int, i);
    }
    if descs.contains(n) {
        let k = choose|k: int| 0 <= k < descs.len() && descs[k] == n;
        assert(n == modsettings::short_desc(installed[k]));
    }
    if exists|k: int|
        0 <= k < installed.len() && n == modsettings::short_desc(#[trigger] installed[k]) {
        let k = choose|k: int|
            0 <= k < installed.len() && n == modsettings::short_desc(#[trigger] installed[k]);
        assert(descs[k] == n);
    }
}

proof fn lemma_stays(nodes: Seq<NodeView>, installed: Seq<PakInfo>, i: int)
    requires
        0 <= i < nodes.len(),
    ensures
        modsettings::stays(
            nodes,
            i,
            modsettings::base_ids(nodes, nodes.len() as int),
            modsettings::info_ids(installed),
        ) <==> is_foreign(nodes, installed, i),
{
    let own = modsettings::base_ids(nodes, nodes.len() as int);
    let ids = modsettings::info_ids(installed);
    if let Some(u) = modsettings::attr(nodes[i].attributes, "UUID"@) {
        lemma_own_id(nodes, nodes.len() as int, u);
        assert forall|j: int| 0 <= j < nodes.len() implies modsettings::is_base_node(
            #[trigger] nodes[j],
        ) == is_the_games(nodes[j]) by {
            law_own_nodes(nodes[j]);
        }
        if ids.contains(u) {
            let k = choose|k: int| 0 <= k < ids.len() && ids[k] == u;
            assert(installed[k].uuid@ == u);
        }
        if exists|k: int| 0 <= k < installed.len() && (#[trigger] installed[k]).uuid@ == u {
            let k = choose|k: int| 0 <= k < installed.len() && (#[trigger] installed[k]).uuid@ == u;
            assert(ids[k] == u);
        }
        assert(modsettings::uuid_of(nodes[i]) == Some(u));
        if modsettings::named_later(nodes, i, u) {
            let j = choose|j: int|
                i < j < nodes.len() && modsettings::uuid_of(#[trigger] nodes[j]) == Some(u);
            assert(modsettings::attr(nodes[j].attributes, "UUID"@) == Some(u));
        }
        if exists|j: int|
            i < j < nodes.len() && modsettings::attr((#[trigger] nodes[j]).attributes, "UUID"@)
                == Some(u) {
            let j = choose|j: int|
                i < j < nodes.len() && modsettings::attr((#[trigger] nodes[j]).attributes, "UUID"@)
                    == Some(u);
            assert(modsettings::uuid_of(nodes[j]) == Some(u));
        }
    }
}

proof fn lemma_three<T>(a: Seq<T>, b: Seq<T>, c: Seq<T>, x: T)
    ensures
        (a + b + c).contains(x) <==> a.contains(x) || b.contains(x) || c.contains(x),
{
    let s = a + b + c;
    if a.contains(x) {
        let i = choose|i: int| 0 <= i < a.len() && a[i] == x;
        assert(s[i] == x);
    }
    if b.contains(x) {
        let i = choose|i: int| 0 <= i < b.len() && b[i] == x;
        assert(s[a.len() + i] == x);
    }
    if c.contains(x) {
        let i = choose|i: int| 0 <= i < c.len() && c[i] == x;
        assert(s[a.len() + b.len() + i] == x);
    }
    if s.contains(x) {
        let i = choose|i: int| 0 <= i < s.len() && s[i] == x;
        if i < a.len() {
            assert(a[i] == x);
        } else if i < a.len() + b.len() {
            assert(b[i - a.len()] == x);
        } else {
            assert(c[i - a.len() - b.len()] == x);
        }
    }
}

proof fn lemma_staying_was(
    nodes: Seq<NodeView>,
    own: Seq<Seq<char>>,
    ids: Seq<Seq<char>>,
    n: int,
    x: NodeView,
)
    requires
        0 <= n <= nodes.len(),
        modsettings::staying(nodes, own, ids, n).contains(x),
    ensures
        exists|i: int|
            0 <= i < n && nodes[i] == x && #[trigger] modsettings::stays(nodes, i, own, ids),
    decreases n,
{
    if n > 0 {
        let before = modsettings::staying(nodes, own, ids, n - 1);
        lists::lemma_push_contains(before, nodes[n - 1], x);
        if before.contains(x) {
            lemma_staying_was(nodes, own, ids, n - 1, x);
            let i = choose|i: int|
                0 <= i < n - 1 && nodes[i] == x && #[trigger] modsettings::stays(
                    nodes,
                    i,
                    own,
                    ids,
                );
            assert(0 <= i < n && modsettings::stays(nodes, i, own, ids));
        } else {
            assert(nodes[n - 1] == x && modsettings::stays(nodes, n - 1, own, ids));
        }
    }
}

proof fn lemma_stays_listed(
    nodes: Seq<NodeView>,
    own: Seq<Seq<char>>,
    ids: Seq<Seq<char>>,
    n: int,
    i: int,
)
    requires
        0 <= i < n <= nodes.len(),
        modsettings::stays(nodes, i, own, ids),
    ensures
        modsettings::staying(nodes, own, ids, n).contains(nodes[i]),
    decreases n,
{
    let before = modsettings::staying(nodes, own, ids, n - 1);
    lists::lemma_push_contains(before, nodes[n - 1], nodes[i]);
    if i < n - 1 {
        lemma_stays_listed(nodes, own, ids, n - 1, i);
    }
}

proof fn lemma_own_id(nodes: Seq<NodeView>, n: int, u: Seq<char>)
    requires
        0 <= n <= nodes.len(),
    ensures
        modsettings::base_ids(nodes, n).contains(u) <==> exists|j: int|
            0 <= j < n && modsettings::attr((#[trigger] nodes[j]).attributes, "UUID"@) == Some(u)
                && modsettings::is_base_node(nodes[j]),
    decreases n,
{
    if n > 0 {
        lemma_own_id(nodes, n - 1, u);
        let before = modsettings::base_ids(nodes, n - 1);
        if let Some(here) = modsettings::uuid_of(nodes[n - 1]) {
            lists::lemma_push_contains(before, here, u);
        }
        if before.contains(u) {
            let j = choose|j: int|
                0 <= j < n - 1 && modsettings::attr(
                    (#[trigger] nodes[j]).attributes,
                    "UUID"@,
                ) == Some(u) && modsettings::is_base_node(nodes[j]);
            assert(0 <= j < n);
        }
        assert(nodes[n - 1] == nodes[n - 1]);
    }
}

/// The order of the written settings names what it named before, the enabled mods and the
/// game's own modules, and nothing else.
pub proof fn law_order_loses_nothing(
    doc: ModSettings,
    written: ModSettings,
    installed: Seq<PakInfo>,
    enabled: Seq<PakInfo>,
    u: Seq<char>,
)
    requires
        modsettings::settings_views(written.nodes@) == modsettings::with_mods(
            modsettings::settings_views(doc.nodes@),
            installed,
            enabled,
        ),
    ensures
        ({
            let mods = modsettings::listed(doc.nodes@, "Mods"@);
            let before = modsettings::listed(doc.nodes@, "ModOrder"@);
            let after = modsettings::listed(written.nodes@, "ModOrder"@);
            names(after, u) <==> {
                ||| names(before, u)
                ||| exists|k: int| 0 <= k < enabled.len() && (#[trigger] enabled[k]).uuid@ == u
                ||| exists|j: int|
                    0 <= j < mods.len() && modsettings::attr(
                        (#[trigger] mods[j]).attributes,
                        "UUID"@,
                    ) == Some(u) && is_the_games(mods[j])
            }
        }),
{
    modsettings::law_settings_read_back(doc, written, installed, enabled);
    let mods = modsettings::listed(doc.nodes@, "Mods"@);
    let before = modsettings::listed(doc.nodes@, "ModOrder"@);
    let after = modsettings::listed(written.nodes@, "ModOrder"@);
    let own = modsettings::base_ids(mods, mods.len() as int);
    let on = modsettings::info_ids(enabled);
    let old_ids = modsettings::ordered_ids(before, before.len() as int);
    let keeps = |v: Seq<char>| !own.contains(v) && !on.contains(v);
    lemma_names(before, before.len() as int, u);
    lemma_names(after, after.len() as int, u);
    lists::lemma_filter_contains(old_ids, keeps, u);
    lemma_three(own, on, old_ids.filter(keeps), u);
    lemma_own_id(mods, mods.len() as int, u);
    if on.contains(u) {
        let k = choose|k: int| 0 <= k < on.len() && on[k] == u;
        assert(enabled[k].uuid@ == u);
    }
    if exists|k: int| 0 <= k < enabled.len() && (#[trigger] enabled[k]).uuid@ == u {
        let k = choose|k: int| 0 <= k < enabled.len() && (#[trigger] enabled[k]).uuid@ == u;
        assert(on[k] == u);
    }
    assert forall|j: int| 0 <= j < mods.len() implies modsettings::is_base_node(#[trigger] mods[j])
        == is_the_games(mods[j]) by {
        law_own_nodes(mods[j]);
    }
}

/// Whether one of the nodes has the id.
pub open spec fn names(nodes: Seq<NodeView>, u: Seq<char>) -> bool {
    exists|i: int|
        0 <= i < nodes.len() && modsettings::attr((#[trigger] nodes[i]).attributes, "UUID"@)
            == Some(u)
}

proof fn lemma_names(nodes: Seq<NodeView>, n: int, u: Seq<char>)
    requires
        0 <= n <= nodes.len(),
    ensures
        modsettings::ordered_ids(nodes, n).contains(u) <==> exists|i: int|
            0 <= i < n && modsettings::attr((#[trigger] nodes[i]).attributes, "UUID"@) == Some(u),
    decreases n,
{
    if n > 0 {
        lemma_names(nodes, n - 1, u);
        let before = modsettings::ordered_ids(nodes, n - 1);
        if let Some(here) = modsettings::uuid_of(nodes[n - 1]) {
            lists::lemma_push_contains(before, here, u);
        }
        if before.contains(u) {
            let i = choose|i: int|
                0 <= i < n - 1 && modsettings::attr((#[trigger] nodes[i]).attributes, "UUID"@)
                    == Some(u);
            assert(0 <= i < n);
        }
        assert(nodes[n - 1] == nodes[n - 1]);
    }
}

/// What is read of the order is what the settings name in it, without the game's own
/// modules, in the same order.
pub proof fn law_order_is_read(doc: ModSettings, snapshot: ModSettingsSnapshot, u: Seq<char>)
    requires
        modsettings::is_snapshot(snapshot, modsettings::settings_views(doc.nodes@)),
    ensures
        ({
            let mods = modsettings::listed_views(
                modsettings::settings_views(doc.nodes@),
                "Mods"@,
            );
            let order = modsettings::listed_views(
                modsettings::settings_views(doc.nodes@),
                "ModOrder"@,
            );
            text::texts(snapshot.order@).contains(u) <==> names(order, u) && !exists|j: int|
                0 <= j < mods.len() && modsettings::attr(
                    (#[trigger] mods[j]).attributes,
                    "UUID"@,
                ) == Some(u) && (is_the_games(mods[j]) || (modsettings::attr(
                    mods[j].attributes,
                    "Folder"@,
                ) is None && modsettings::own_words().contains(u)))
        }),
{
    let mods = modsettings::listed_views(modsettings::settings_views(doc.nodes@), "Mods"@);
    let order = modsettings::listed_views(modsettings::settings_views(doc.nodes@), "ModOrder"@);
    let own = modsettings::own_ids(mods, mods.len() as int);
    let keeps = |v: Seq<char>| !own.contains(v);
    lemma_names(order, order.len() as int, u);
    lists::lemma_filter_contains(
        modsettings::ordered_ids(order, order.len() as int),
        keeps,
        u,
    );
    lemma_read_own(mods, mods.len() as int, u);
}

spec fn reads_as_own(n: NodeView, u: Seq<char>) -> bool {
    is_the_games(n) || (modsettings::attr(n.attributes, "Folder"@) is None
        && modsettings::own_words().contains(u))
}

proof fn lemma_read_own(nodes: Seq<NodeView>, n: int, u: Seq<char>)
    requires
        0 <= n <= nodes.len(),
    ensures
        modsettings::own_ids(nodes, n).contains(u) <==> exists|j: int|
            0 <= j < n && modsettings::attr((#[trigger] nodes[j]).attributes, "UUID"@) == Some(u)
                && reads_as_own(nodes[j], u),
    decreases n,
{
    if n > 0 {
        lemma_read_own(nodes, n - 1, u);
        let before = modsettings::own_ids(nodes, n - 1);
        let m = nodes[n - 1];
        if let Some(here) = modsettings::uuid_of(m) {
            lists::lemma_push_contains(before, here, u);
            let name = modsettings::or_default(modsettings::attr(m.attributes, "Name"@), "Unknown"@);
            let folder = modsettings::or_default(modsettings::attr(m.attributes, "Folder"@), here);
            modsettings::law_own_by_word(name, folder);
            lemma_unknown();
            if here == u {
                assert(modsettings::is_own(m, here) <==> reads_as_own(m, u));
            }
        }
        if before.contains(u) {
            let j = choose|j: int|
                0 <= j < n - 1 && modsettings::attr((#[trigger] nodes[j]).attributes, "UUID"@)
                    == Some(u) && reads_as_own(nodes[j], u);
            assert(0 <= j < n);
        }
        assert(nodes[n - 1] == m);
    }
}

proof fn lemma_unknown()
    ensures
        !modsettings::own_words().contains("Unknown"@),
{
    let w = modsettings::own_words();
    reveal_strlit("Unknown");
    reveal_strlit("Gustav");
    reveal_strlit("GustavX");
    reveal_strlit("GustavDev");
    reveal_strlit("Honour");
    reveal_strlit("HonourX");
    assert(w.len() == 5);
    assert(w[0] == "Gustav"@ && w[1] == "GustavX"@ && w[2] == "GustavDev"@ && w[3] == "Honour"@
        && w[4] == "HonourX"@);
    assert("Unknown"@[0] == 'U');
    assert("Gustav"@[0] == 'G' && "GustavX"@[0] == 'G' && "GustavDev"@[0] == 'G' && "Honour"@[0]
        == 'H' && "HonourX"@[0] == 'H');
    assert forall|i: int| 0 <= i < w.len() implies w[i] != "Unknown"@ by {
        assert(w[i][0] != 'U');
    }
}

} // verus!
