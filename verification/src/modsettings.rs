//! The game's own list of modules and their order.
use crate::library::PakInfo;
use crate::metadata;
use crate::metadata::parse_created_at_value;
use crate::sorting::has_string;
use crate::text;
use crate::text::{parse_u64, same_text, show_u64};
use vstd::prelude::*;

verus! {

/// An attribute of a node: its id, its value and the type of the value.
#[derive(Debug)]
pub struct SettingsAttribute {
    pub id: String,
    pub value: String,
    pub kind: String,
}

/// A node that describes or names one module.
#[derive(Debug)]
pub struct ModuleNode {
    pub id: String,
    pub attributes: Vec<SettingsAttribute>,
}

/// A list of modules, such as `Mods` or `ModOrder`.
#[derive(Debug)]
pub struct SettingsNode {
    pub id: String,
    pub attributes: Vec<SettingsAttribute>,
    pub children: Vec<Vec<ModuleNode>>,
}

/// The version of the game that wrote the settings.
#[derive(Debug, Clone, Copy, PartialEq, Eq, Structural)]
pub struct SettingsVersion {
    pub major: u16,
    pub minor: u16,
    pub revision: u16,
    pub build: u16,
}

/// The settings: what they are called, and the lists below the root node.
#[derive(Debug)]
pub struct ModSettings {
    pub version: SettingsVersion,
    pub region: String,
    pub root: String,
    pub nodes: Vec<SettingsNode>,
}

#[derive(Debug)]
pub struct ModSettingsModule {
    pub info: PakInfo,
    pub created_at: Option<i64>,
}

/// The modules that the game knows, and their order, without the game's own.
#[derive(Debug)]
pub struct ModSettingsSnapshot {
    pub modules: Vec<ModSettingsModule>,
    pub order: Vec<String>,
}

// ---------------------------------------------------------------------------
// Views
// ---------------------------------------------------------------------------

pub struct AttributeView {
    pub id: Seq<char>,
    pub value: Seq<char>,
    pub kind: Seq<char>,
}

pub struct NodeView {
    pub id: Seq<char>,
    pub attributes: Seq<AttributeView>,
}

pub open spec fn attribute_views(list: Seq<SettingsAttribute>) -> Seq<AttributeView> {
    Seq::new(
        list.len(),
        |i: int| AttributeView { id: list[i].id@, value: list[i].value@, kind: list[i].kind@ },
    )
}

impl ModuleNode {
    pub open spec fn node(self) -> NodeView {
        NodeView { id: self.id@, attributes: attribute_views(self.attributes@) }
    }
}

pub open spec fn node_views(list: Seq<ModuleNode>) -> Seq<NodeView> {
    Seq::new(list.len(), |i: int| list[i].node())
}

proof fn lemma_node_views_push(list: Seq<ModuleNode>, n: ModuleNode)
    ensures
        node_views(list.push(n)) == node_views(list).push(n.node()),
{
    assert(node_views(list.push(n)) =~= node_views(list).push(n.node()));
}

/// The value of the first attribute with the id.
pub open spec fn attr(list: Seq<AttributeView>, key: Seq<char>) -> Option<Seq<char>>
    decreases list.len(),
{
    if list.len() == 0 {
        None
    } else if list[0].id == key {
        Some(list[0].value)
    } else {
        attr(list.drop_first(), key)
    }
}

/// Where the first node with the id stands, or -1.
pub open spec fn find_node(nodes: Seq<SettingsNode>, id: Seq<char>, from: int) -> int
    decreases nodes.len() - from,
{
    if from < 0 || from >= nodes.len() {
        -1
    } else if nodes[from].id@ == id {
        from
    } else {
        find_node(nodes, id, from + 1)
    }
}

/// The modules that the list with the id holds.
pub open spec fn listed(nodes: Seq<SettingsNode>, id: Seq<char>) -> Seq<NodeView> {
    let at = find_node(nodes, id, 0);
    if at < 0 || nodes[at].children@.len() == 0 {
        Seq::empty()
    } else {
        node_views(nodes[at].children@[0]@)
    }
}

pub open spec fn uuid_of(n: NodeView) -> Option<Seq<char>> {
    attr(n.attributes, "UUID"@)
}

pub open spec fn or_default(value: Option<Seq<char>>, default: Seq<char>) -> Seq<char> {
    match value {
        Some(v) => v,
        None => default,
    }
}

pub open spec fn is_base_word(s: Seq<char>) -> bool {
    s == "Gustav"@ || s == "GustavX"@ || s == "GustavDev"@ || s == "Honour"@ || s == "HonourX"@
}

/// Whether a module is one of the game's own.
pub open spec fn base_module(name: Seq<char>, folder: Seq<char>) -> bool {
    is_base_word(name) || is_base_word(folder)
}

pub fn is_base_module(name: &str, folder: &str) -> (r: bool)
    ensures
        r == base_module(name@, folder@),
{
    same_text(name, "Gustav") || same_text(name, "GustavX") || same_text(name, "GustavDev")
        || same_text(name, "Honour") || same_text(name, "HonourX") || same_text(folder, "Gustav")
        || same_text(folder, "GustavX") || same_text(folder, "GustavDev") || same_text(
        folder,
        "Honour",
    ) || same_text(folder, "HonourX")
}

/// The value of the first attribute with the id.
pub fn module_attr(node: &ModuleNode, key: &str) -> (r: Option<String>)
    ensures
        text::text_opt(r) == attr(node.node().attributes, key@),
{
    let ghost all = attribute_views(node.attributes@);
    let mut i: usize = 0;
    assert(all.skip(0) =~= all);
    while i < node.attributes.len()
        invariant
            i <= node.attributes.len(),
            all == attribute_views(node.attributes@),
            attr(all.skip(i as int), key@) == attr(all, key@),
        decreases node.attributes.len() - i,
    {
        assert(all.skip(i as int)[0] == all[i as int]);
        assert(all.skip(i as int).drop_first() =~= all.skip(i + 1));
        if same_text(node.attributes[i].id.as_str(), key) {
            return Some(node.attributes[i].value.clone());
        }
        i = i + 1;
    }
    None
}

fn find_settings_node(doc: &ModSettings, id: &str) -> (r: Option<usize>)
    ensures
        match r {
            Some(i) => i < doc.nodes.len() && find_node(doc.nodes@, id@, 0) == i,
            None => find_node(doc.nodes@, id@, 0) == -1,
        },
{
    let mut i: usize = 0;
    while i < doc.nodes.len()
        invariant
            i <= doc.nodes.len(),
            find_node(doc.nodes@, id@, i as int) == find_node(doc.nodes@, id@, 0),
        decreases doc.nodes.len() - i,
    {
        if same_text(doc.nodes[i].id.as_str(), id) {
            return Some(i);
        }
        i = i + 1;
    }
    None
}

fn copy_attributes(list: &Vec<SettingsAttribute>) -> (out: Vec<SettingsAttribute>)
    ensures
        attribute_views(out@) == attribute_views(list@),
{
    let mut out: Vec<SettingsAttribute> = Vec::new();
    let mut i: usize = 0;
    while i < list.len()
        invariant
            i <= list.len(),
            attribute_views(out@) == attribute_views(list@).take(i as int),
        decreases list.len() - i,
    {
        let a = SettingsAttribute {
            id: list[i].id.clone(),
            value: list[i].value.clone(),
            kind: list[i].kind.clone(),
        };
        let ghost before = attribute_views(out@);
        out.push(a);
        assert(attribute_views(out@) =~= before.push(
            an_attribute(a.id@, a.value@, a.kind@),
        ));
        assert(attribute_views(list@).take(i + 1) =~= attribute_views(list@).take(i as int).push(
            an_attribute(a.id@, a.value@, a.kind@),
        ));
        i = i + 1;
    }
    assert(attribute_views(list@).take(i as int) =~= attribute_views(list@));
    out
}

fn copy_node(n: &ModuleNode) -> (r: ModuleNode)
    ensures
        r.node() == n.node(),
{
    ModuleNode { id: n.id.clone(), attributes: copy_attributes(&n.attributes) }
}

fn copy_listed(doc: &ModSettings, id: &str) -> (out: Vec<ModuleNode>)
    ensures
        node_views(out@) == listed(doc.nodes@, id@),
{
    let mut out: Vec<ModuleNode> = Vec::new();
    assert(node_views(out@) =~= Seq::empty());
    if let Some(at) = find_settings_node(doc, id) {
        if doc.nodes[at].children.len() > 0 {
            let list = &doc.nodes[at].children[0];
            let mut i: usize = 0;
            while i < list.len()
                invariant
                    i <= list.len(),
                    node_views(out@) == node_views(list@).take(i as int),
                decreases list.len() - i,
            {
                let n = copy_node(&list[i]);
                proof {
                    lemma_node_views_push(out@, n);
                    assert(node_views(list@).take(i + 1) =~= node_views(list@).take(i as int).push(
                        n.node(),
                    ));
                }
                out.push(n);
                i = i + 1;
            }
            assert(node_views(list@).take(i as int) =~= node_views(list@));
        }
    }
    out
}

// ---------------------------------------------------------------------------
// Reading
// ---------------------------------------------------------------------------

/// Whether a described module with an id is one of the game's own; its name is
/// `Unknown` and its folder its id where they are not stated.
pub open spec fn is_own(n: NodeView, uuid: Seq<char>) -> bool {
    base_module(
        or_default(attr(n.attributes, "Name"@), "Unknown"@),
        or_default(attr(n.attributes, "Folder"@), uuid),
    )
}

/// The modules with an id that are not the game's own.
pub open spec fn foreign(nodes: Seq<NodeView>) -> Seq<NodeView> {
    nodes.filter(|n: NodeView| uuid_of(n) is Some && !is_own(n, uuid_of(n)->0))
}

/// The ids of the game's own modules among the first `n`.
pub open spec fn own_ids(nodes: Seq<NodeView>, n: int) -> Seq<Seq<char>>
    decreases n,
{
    if n <= 0 {
        Seq::empty()
    } else {
        let before = own_ids(nodes, n - 1);
        match uuid_of(nodes[n - 1]) {
            Some(u) => if is_own(nodes[n - 1], u) {
                before.push(u)
            } else {
                before
            },
            None => before,
        }
    }
}

/// The ids that the first `n` nodes of the order name.
pub open spec fn ordered_ids(nodes: Seq<NodeView>, n: int) -> Seq<Seq<char>>
    decreases n,
{
    if n <= 0 {
        Seq::empty()
    } else {
        let before = ordered_ids(nodes, n - 1);
        match uuid_of(nodes[n - 1]) {
            Some(u) => before.push(u),
            None => before,
        }
    }
}

/// The number that an attribute states.
pub open spec fn number_attr(n: NodeView, key: Seq<char>) -> Option<u64> {
    match attr(n.attributes, key) {
        Some(v) => text::u64_value(v),
        None => None,
    }
}

/// Whether `m` is what a node says of a module.
pub open spec fn describes(m: ModSettingsModule, n: NodeView) -> bool {
    let uuid = uuid_of(n)->0;
    let created = match attr(n.attributes, "Created"@) {
        Some(v) => Some(v),
        None => attr(n.attributes, "CreatedOn"@),
    };
    &&& m.info.uuid@ == uuid
    &&& m.info.name@ == or_default(attr(n.attributes, "Name"@), "Unknown"@)
    &&& m.info.folder@ == or_default(attr(n.attributes, "Folder"@), uuid)
    &&& m.info.version == match number_attr(n, "Version64"@) {
        Some(v) => v,
        None => 0,
    }
    &&& m.info.publish_handle == number_attr(n, "PublishHandle"@)
    &&& text::text_opt(m.info.md5) == attr(n.attributes, "MD5"@)
    &&& m.info.author is None
    &&& m.info.description is None
    &&& m.info.module_type is None
    &&& m.created_at == match created {
        Some(v) => metadata::created_seconds(v),
        None => None,
    }
}

fn read_number(node: &ModuleNode, key: &str) -> (r: Option<u64>)
    ensures
        r == number_attr(node.node(), key@),
{
    match module_attr(node, key) {
        Some(v) => parse_u64(v.as_str()),
        None => None,
    }
}

/// Whether a snapshot is that of settings with the lists.
pub open spec fn is_snapshot(r: ModSettingsSnapshot, lists: Seq<SettingsView>) -> bool {
    let nodes = listed_views(lists, "Mods"@);
    let order = listed_views(lists, "ModOrder"@);
    let own = own_ids(nodes, nodes.len() as int);
    &&& r.modules@.len() == foreign(nodes).len()
    &&& forall|i: int|
        0 <= i < r.modules@.len() ==> describes(#[trigger] r.modules@[i], foreign(nodes)[i])
    &&& text::texts(r.order@) == ordered_ids(order, order.len() as int).filter(
        |u: Seq<char>| !own.contains(u),
    )
}

/// The modules that the settings list, and their order, without the game's own.
pub fn settings_snapshot(doc: &ModSettings) -> (r: ModSettingsSnapshot)
    ensures
        is_snapshot(r, settings_views(doc.nodes@)),
{
    proof {
        lemma_listed(doc.nodes@, "Mods"@);
        lemma_listed(doc.nodes@, "ModOrder"@);
    }
    let nodes = copy_listed(doc, "Mods");
    let ghost all = node_views(nodes@);
    let ghost keep = |n: NodeView| uuid_of(n) is Some && !is_own(n, uuid_of(n)->0);
    let mut own: Vec<String> = Vec::new();
    let mut modules: Vec<ModSettingsModule> = Vec::new();
    let mut i: usize = 0;
    proof {
        crate::lists::lemma_filter_whole(all, keep);
    }
    assert(text::texts(own@) =~= own_ids(all, 0));
    while i < nodes.len()
        invariant
            i <= nodes.len(),
            all == node_views(nodes@),
            keep == (|n: NodeView| uuid_of(n) is Some && !is_own(n, uuid_of(n)->0)),
            text::texts(own@) == own_ids(all, i as int),
            modules@.len() == all.take(i as int).filter(keep).len(),
            forall|k: int|
                0 <= k < modules@.len() ==> describes(
                    #[trigger] modules@[k],
                    all.take(i as int).filter(keep)[k],
                ),
        decreases nodes.len() - i,
    {
        let node = &nodes[i];
        proof {
            crate::lists::lemma_keep_item(all, i as int, keep);
            assert(all[i as int] == node.node());
        }
        if let Some(uuid) = module_attr(node, "UUID") {
            let name = match module_attr(node, "Name") {
                Some(v) => v,
                None => "Unknown".to_owned(),
            };
            let folder = match module_attr(node, "Folder") {
                Some(v) => v,
                None => uuid.clone(),
            };
            if is_base_module(name.as_str(), folder.as_str()) {
                proof {
                    text::lemma_texts_push(own@, uuid);
                }
                own.push(uuid);
            } else {
                let version: u64 = match read_number(node, "Version64") {
                    Some(v) => v,
                    None => 0,
                };
                let publish_handle = read_number(node, "PublishHandle");
                let md5 = module_attr(node, "MD5");
                let stamp = match module_attr(node, "Created") {
                    Some(v) => Some(v),
                    None => module_attr(node, "CreatedOn"),
                };
                let created_at = match stamp {
                    Some(v) => parse_created_at_value(v.as_str()),
                    None => None,
                };
                modules.push(
                    ModSettingsModule {
                        info: PakInfo {
                            uuid,
                            name,
                            folder,
                            version,
                            md5,
                            publish_handle,
                            author: None,
                            description: None,
                            module_type: None,
                        },
                        created_at,
                    },
                );
            }
        }
        i = i + 1;
    }
    proof {
        crate::lists::lemma_filter_whole(all, keep);
    }
    let ghost own_all = own_ids(all, all.len() as int);
    let found = copy_listed(doc, "ModOrder");
    let ghost order_all = node_views(found@);
    let ghost open_id = |u: Seq<char>| !own_all.contains(u);
    let mut order: Vec<String> = Vec::new();
    let mut k: usize = 0;
    assert(text::texts(order@) =~= ordered_ids(order_all, 0).filter(open_id)) by {
        crate::lists::lemma_filter_whole(Seq::<Seq<char>>::empty(), open_id);
        assert(Seq::<Seq<char>>::empty().take(0) =~= Seq::<Seq<char>>::empty());
    }
    while k < found.len()
        invariant
            k <= found.len(),
            order_all == node_views(found@),
            text::texts(own@) == own_all,
            open_id == (|u: Seq<char>| !own_all.contains(u)),
            text::texts(order@) == ordered_ids(order_all, k as int).filter(open_id),
        decreases found.len() - k,
    {
        assert(order_all[k as int] == found@[k as int].node());
        if let Some(uuid) = module_attr(&found[k], "UUID") {
            proof {
                let before = ordered_ids(order_all, k as int);
                let now = before.push(uuid@);
                crate::lists::lemma_keep_item(now, before.len() as int, open_id);
                assert(now.take(before.len() as int) =~= before);
                assert(now.take(before.len() as int + 1) =~= now);
            }
            if !has_string(own.as_slice(), uuid.as_str()) {
                proof {
                    text::lemma_texts_push(order@, uuid);
                }
                order.push(uuid);
            }
        }
        k = k + 1;
    }
    ModSettingsSnapshot { modules, order }
}

// ---------------------------------------------------------------------------
// Writing
// ---------------------------------------------------------------------------

/// Whether a node describes one of the game's own modules, by what it states.
pub open spec fn is_base_node(n: NodeView) -> bool {
    base_module(
        or_default(attr(n.attributes, "Name"@), Seq::empty()),
        or_default(attr(n.attributes, "Folder"@), Seq::empty()),
    )
}

pub open spec fn base_nodes(nodes: Seq<NodeView>) -> Seq<NodeView> {
    nodes.filter(|n: NodeView| is_base_node(n))
}

/// The ids of the game's own modules among the first `n`.
pub open spec fn base_ids(nodes: Seq<NodeView>, n: int) -> Seq<Seq<char>>
    decreases n,
{
    if n <= 0 {
        Seq::empty()
    } else {
        let before = base_ids(nodes, n - 1);
        match uuid_of(nodes[n - 1]) {
            Some(u) => if is_base_node(nodes[n - 1]) {
                before.push(u)
            } else {
                before
            },
            None => before,
        }
    }
}

/// Whether a node further on has the id.
pub open spec fn named_later(nodes: Seq<NodeView>, i: int, uuid: Seq<char>) -> bool {
    exists|j: int| i < j < nodes.len() && uuid_of(#[trigger] nodes[j]) == Some(uuid)
}

/// Whether a node stays as it is: it is the last with its id, is not the game's
/// own, and no mod of the library takes its place.
pub open spec fn stays(
    nodes: Seq<NodeView>,
    i: int,
    own: Seq<Seq<char>>,
    installed: Seq<Seq<char>>,
) -> bool {
    match uuid_of(nodes[i]) {
        Some(u) => !named_later(nodes, i, u) && !own.contains(u) && !installed.contains(u),
        None => false,
    }
}

/// The nodes among the first `n` that stay.
pub open spec fn staying(
    nodes: Seq<NodeView>,
    own: Seq<Seq<char>>,
    installed: Seq<Seq<char>>,
    n: int,
) -> Seq<NodeView>
    decreases n,
{
    if n <= 0 {
        Seq::empty()
    } else if stays(nodes, n - 1, own, installed) {
        staying(nodes, own, installed, n - 1).push(nodes[n - 1])
    } else {
        staying(nodes, own, installed, n - 1)
    }
}

pub open spec fn an_attribute(
    id: Seq<char>,
    value: Seq<char>,
    kind: Seq<char>,
) -> AttributeView {
    AttributeView { id, value, kind }
}

/// The node that describes a module of the library.
pub open spec fn short_desc(info: PakInfo) -> NodeView {
    NodeView {
        id: "ModuleShortDesc"@,
        attributes: seq![
            an_attribute("Folder"@, info.folder@, "LSString"@),
            an_attribute(
                "MD5"@,
                match info.md5 {
                    Some(m) => m@,
                    None => Seq::empty(),
                },
                "LSString"@,
            ),
            an_attribute("Name"@, info.name@, "LSString"@),
            an_attribute(
                "PublishHandle"@,
                text::decimal(
                    match info.publish_handle {
                        Some(h) => h as nat,
                        None => 0,
                    },
                ),
                "uint64"@,
            ),
            an_attribute("UUID"@, info.uuid@, "guid"@),
            an_attribute("Version64"@, text::decimal(info.version as nat), "int64"@),
        ],
    }
}

/// The node that gives a module its place in the order.
pub open spec fn order_node(uuid: Seq<char>) -> NodeView {
    NodeView {
        id: "Module"@,
        attributes: seq![an_attribute("UUID"@, uuid, "FixedString"@)],
    }
}

pub open spec fn info_ids(list: Seq<PakInfo>) -> Seq<Seq<char>> {
    Seq::new(list.len(), |i: int| list[i].uuid@)
}

pub open spec fn short_descs(list: Seq<PakInfo>) -> Seq<NodeView> {
    Seq::new(list.len(), |i: int| short_desc(list[i]))
}

pub open spec fn order_nodes(ids: Seq<Seq<char>>) -> Seq<NodeView> {
    Seq::new(ids.len(), |i: int| order_node(ids[i]))
}

/// The list of modules: the game's own, those that stay, and the mods of the
/// library.
pub open spec fn new_mods(nodes: Seq<NodeView>, installed: Seq<PakInfo>) -> Seq<NodeView> {
    let own = base_ids(nodes, nodes.len() as int);
    base_nodes(nodes) + staying(nodes, own, info_ids(installed), nodes.len() as int) + short_descs(
        installed,
    )
}

/// The ids in their order: the game's own modules, the enabled mods, and what was
/// in the order besides.
pub open spec fn new_order_ids(
    nodes: Seq<NodeView>,
    order: Seq<NodeView>,
    enabled: Seq<PakInfo>,
) -> Seq<Seq<char>> {
    let own = base_ids(nodes, nodes.len() as int);
    own + info_ids(enabled) + ordered_ids(order, order.len() as int).filter(
        |u: Seq<char>| !own.contains(u) && !info_ids(enabled).contains(u),
    )
}

/// A list of modules, in mathematical values.
pub struct SettingsView {
    pub id: Seq<char>,
    pub attributes: Seq<AttributeView>,
    pub children: Seq<Seq<NodeView>>,
}

pub open spec fn child_views(list: Seq<Vec<ModuleNode>>) -> Seq<Seq<NodeView>> {
    Seq::new(list.len(), |i: int| node_views(list[i]@))
}

impl SettingsNode {
    pub open spec fn shown(self) -> SettingsView {
        SettingsView {
            id: self.id@,
            attributes: attribute_views(self.attributes@),
            children: child_views(self.children@),
        }
    }
}

pub open spec fn settings_views(nodes: Seq<SettingsNode>) -> Seq<SettingsView> {
    Seq::new(nodes.len(), |i: int| nodes[i].shown())
}

/// Where the first list with the id stands, or -1.
pub open spec fn find_list(nodes: Seq<SettingsView>, id: Seq<char>, from: int) -> int
    decreases nodes.len() - from,
{
    if from < 0 || from >= nodes.len() {
        -1
    } else if nodes[from].id == id {
        from
    } else {
        find_list(nodes, id, from + 1)
    }
}

/// The settings with the contents of one list replaced; a new list comes last.
pub open spec fn with_list(
    nodes: Seq<SettingsView>,
    id: Seq<char>,
    list: Seq<NodeView>,
) -> Seq<SettingsView> {
    let at = find_list(nodes, id, 0);
    if at >= 0 {
        nodes.update(at, SettingsView { children: seq![list], ..nodes[at] })
    } else {
        nodes.push(SettingsView { id, attributes: Seq::empty(), children: seq![list] })
    }
}

proof fn lemma_find_list(nodes: Seq<SettingsNode>, id: Seq<char>, from: int)
    requires
        0 <= from,
    ensures
        find_list(settings_views(nodes), id, from) == find_node(nodes, id, from),
        find_node(nodes, id, from) < nodes.len(),
        find_node(nodes, id, from) >= 0 || find_node(nodes, id, from) == -1,
    decreases nodes.len() - from,
{
    if from < nodes.len() {
        lemma_find_list(nodes, id, from + 1);
    }
}

/// The lists with the id, in terms of views.
pub open spec fn listed_views(nodes: Seq<SettingsView>, id: Seq<char>) -> Seq<NodeView> {
    let at = find_list(nodes, id, 0);
    if at < 0 || nodes[at].children.len() == 0 {
        Seq::empty()
    } else {
        nodes[at].children[0]
    }
}

fn replace_list(doc: &mut ModSettings, id: &str, list: Vec<ModuleNode>)
    ensures
        *final(doc) == (ModSettings { nodes: final(doc).nodes, ..*old(doc) }),
        settings_views(final(doc).nodes@) == with_list(
            settings_views(old(doc).nodes@),
            id@,
            node_views(list@),
        ),
{
    let ghost before = doc.nodes@;
    let ghost content = node_views(list@);
    proof {
        lemma_find_list(before, id@, 0);
    }
    let mut children: Vec<Vec<ModuleNode>> = Vec::new();
    children.push(list);
    assert(child_views(children@) =~= seq![content]);
    match find_settings_node(doc, id) {
        Some(at) => {
            doc.nodes[at].children = children;
            assert(settings_views(doc.nodes@) =~= with_list(settings_views(before), id@, content));
        },
        None => {
            let attributes: Vec<SettingsAttribute> = Vec::new();
            assert(attribute_views(attributes@) =~= Seq::empty());
            doc.nodes.push(SettingsNode { id: id.to_owned(), attributes, children });
            assert(settings_views(doc.nodes@) =~= with_list(settings_views(before), id@, content));
        },
    }
}

fn make_attribute(id: &str, value: &str, kind: &str) -> (r: SettingsAttribute)
    ensures
        r.id@ == id@,
        r.value@ == value@,
        r.kind@ == kind@,
{
    SettingsAttribute { id: id.to_owned(), value: value.to_owned(), kind: kind.to_owned() }
}

pub fn module_short_desc_from_info(info: &PakInfo) -> (r: ModuleNode)
    ensures
        r.node() == short_desc(*info),
{
    let handle: u64 = match info.publish_handle {
        Some(h) => h,
        None => 0,
    };
    let shown_handle = show_u64(handle);
    let shown_version = show_u64(info.version);
    let empty = String::new();
    assert(empty@ =~= Seq::empty());
    let md5 = match &info.md5 {
        Some(m) => m.as_str(),
        None => empty.as_str(),
    };
    let mut attributes: Vec<SettingsAttribute> = Vec::new();
    attributes.push(make_attribute("Folder", info.folder.as_str(), "LSString"));
    attributes.push(make_attribute("MD5", md5, "LSString"));
    attributes.push(make_attribute("Name", info.name.as_str(), "LSString"));
    attributes.push(make_attribute("PublishHandle", shown_handle.as_str(), "uint64"));
    attributes.push(make_attribute("UUID", info.uuid.as_str(), "guid"));
    attributes.push(make_attribute("Version64", shown_version.as_str(), "int64"));
    assert(attribute_views(attributes@) =~= short_desc(*info).attributes);
    ModuleNode { id: "ModuleShortDesc".to_owned(), attributes }
}

pub fn module_order_node(uuid: &str) -> (r: ModuleNode)
    ensures
        r.node() == order_node(uuid@),
{
    let mut attributes: Vec<SettingsAttribute> = Vec::new();
    attributes.push(make_attribute("UUID", uuid, "FixedString"));
    assert(attribute_views(attributes@) =~= order_node(uuid@).attributes);
    ModuleNode { id: "Module".to_owned(), attributes }
}

fn collect_info_ids(list: &[PakInfo]) -> (out: Vec<String>)
    ensures
        text::texts(out@) == info_ids(list@),
{
    let mut out: Vec<String> = Vec::new();
    let mut i: usize = 0;
    while i < list.len()
        invariant
            i <= list.len(),
            text::texts(out@) == info_ids(list@).take(i as int),
        decreases list.len() - i,
    {
        let id = list[i].uuid.clone();
        proof {
            text::lemma_texts_push(out@, id);
            assert(info_ids(list@).take(i + 1) =~= info_ids(list@).take(i as int).push(id@));
        }
        out.push(id);
        i = i + 1;
    }
    assert(info_ids(list@).take(i as int) =~= info_ids(list@));
    out
}

fn text_attr(node: &ModuleNode, key: &str) -> (r: String)
    ensures
        r@ == or_default(attr(node.node().attributes, key@), Seq::empty()),
{
    match module_attr(node, key) {
        Some(v) => v,
        None => String::new(),
    }
}

/// Whether a node further on has the id.
fn is_named_later(nodes: &Vec<ModuleNode>, i: usize, uuid: &str) -> (r: bool)
    requires
        i < nodes.len(),
    ensures
        r == named_later(node_views(nodes@), i as int, uuid@),
{
    let ghost all = node_views(nodes@);
    let mut j: usize = i + 1;
    while j < nodes.len()
        invariant
            i < j <= nodes.len(),
            all == node_views(nodes@),
            forall|k: int| i < k < j ==> uuid_of(#[trigger] all[k]) != Some(uuid@),
        decreases nodes.len() - j,
    {
        assert(all[j as int] == nodes@[j as int].node());
        if let Some(u) = module_attr(&nodes[j], "UUID") {
            if same_text(u.as_str(), uuid) {
                return true;
            }
        }
        j = j + 1;
    }
    false
}

/// The lists with the mods of the library.
pub open spec fn with_mods(
    lists: Seq<SettingsView>,
    installed: Seq<PakInfo>,
    enabled: Seq<PakInfo>,
) -> Seq<SettingsView> {
    let nodes = listed_views(lists, "Mods"@);
    let order = listed_views(lists, "ModOrder"@);
    with_list(
        with_list(lists, "Mods"@, new_mods(nodes, installed)),
        "ModOrder"@,
        order_nodes(new_order_ids(nodes, order, enabled)),
    )
}

/// The settings with the mods of the library: which modules there are, and in
/// which order they are loaded.
pub fn build_modsettings_save(
    doc: ModSettings,
    installed: &[PakInfo],
    enabled: &[PakInfo],
) -> (r: ModSettings)
    ensures
        r == (ModSettings { nodes: r.nodes, ..doc }),
        settings_views(r.nodes@) == with_mods(settings_views(doc.nodes@), installed@, enabled@),
{
    let mut doc = doc;
    proof {
        lemma_find_list(doc.nodes@, "Mods"@, 0);
        lemma_find_list(doc.nodes@, "ModOrder"@, 0);
    }
    let nodes = copy_listed(&doc, "Mods");
    let found = copy_listed(&doc, "ModOrder");
    let ghost all = node_views(nodes@);
    let ghost order_all = node_views(found@);
    assert(all == listed_views(settings_views(doc.nodes@), "Mods"@));
    assert(order_all == listed_views(settings_views(doc.nodes@), "ModOrder"@));
    let ghost is_base = |n: NodeView| is_base_node(n);
    let installed_ids = collect_info_ids(installed);
    let enabled_ids = collect_info_ids(enabled);
    let mut mods_list: Vec<ModuleNode> = Vec::new();
    let mut own: Vec<String> = Vec::new();
    let mut i: usize = 0;
    proof {
        crate::lists::lemma_filter_whole(all, is_base);
    }
    assert(node_views(mods_list@) =~= all.take(0).filter(is_base));
    assert(text::texts(own@) =~= base_ids(all, 0));
    while i < nodes.len()
        invariant
            i <= nodes.len(),
            all == node_views(nodes@),
            is_base == (|n: NodeView| is_base_node(n)),
            node_views(mods_list@) == all.take(i as int).filter(is_base),
            text::texts(own@) == base_ids(all, i as int),
        decreases nodes.len() - i,
    {
        let node = &nodes[i];
        proof {
            crate::lists::lemma_keep_item(all, i as int, is_base);
            assert(all[i as int] == node.node());
        }
        let name = text_attr(node, "Name");
        let folder = text_attr(node, "Folder");
        if is_base_module(name.as_str(), folder.as_str()) {
            if let Some(uuid) = module_attr(node, "UUID") {
                proof {
                    text::lemma_texts_push(own@, uuid);
                }
                own.push(uuid);
            }
            let copy = copy_node(node);
            proof {
                lemma_node_views_push(mods_list@, copy);
            }
            mods_list.push(copy);
        }
        i = i + 1;
    }
    proof {
        crate::lists::lemma_filter_whole(all, is_base);
    }
    let ghost own_all = base_ids(all, all.len() as int);
    let ghost first = node_views(mods_list@);
    let ghost kept = staying(all, own_all, info_ids(installed@), 0);
    assert(first + kept =~= first);
    let mut k: usize = 0;
    while k < nodes.len()
        invariant
            k <= nodes.len(),
            all == node_views(nodes@),
            text::texts(own@) == own_all,
            text::texts(installed_ids@) == info_ids(installed@),
            node_views(mods_list@) == first + staying(
                all,
                own_all,
                info_ids(installed@),
                k as int,
            ),
        decreases nodes.len() - k,
    {
        assert(all[k as int] == nodes@[k as int].node());
        if let Some(uuid) = module_attr(&nodes[k], "UUID") {
            if !is_named_later(&nodes, k, uuid.as_str()) && !has_string(
                own.as_slice(),
                uuid.as_str(),
            ) && !has_string(installed_ids.as_slice(), uuid.as_str()) {
                let copy = copy_node(&nodes[k]);
                proof {
                    lemma_node_views_push(mods_list@, copy);
                    let s = staying(all, own_all, info_ids(installed@), k as int);
                    assert((first + s).push(copy.node()) =~= first + s.push(copy.node()));
                }
                mods_list.push(copy);
            }
        }
        k = k + 1;
    }
    let ghost second = node_views(mods_list@);
    let mut m: usize = 0;
    assert(second + short_descs(installed@).take(0) =~= second);
    while m < installed.len()
        invariant
            m <= installed.len(),
            node_views(mods_list@) == second + short_descs(installed@).take(m as int),
        decreases installed.len() - m,
    {
        let node = module_short_desc_from_info(&installed[m]);
        proof {
            lemma_node_views_push(mods_list@, node);
            let s = short_descs(installed@);
            assert(s.take(m + 1) =~= s.take(m as int).push(node.node()));
            assert((second + s.take(m as int)).push(node.node()) =~= second + s.take(m as int).push(
                node.node(),
            ));
        }
        mods_list.push(node);
        m = m + 1;
    }
    assert(short_descs(installed@).take(m as int) =~= short_descs(installed@));
    assert(node_views(mods_list@) =~= new_mods(all, installed@));
    replace_list(&mut doc, "Mods", mods_list);
    let ghost open_id = |u: Seq<char>| !own_all.contains(u) && !info_ids(enabled@).contains(u);
    let mut order_ids: Vec<String> = crate::lists::copy_strings(own.as_slice());
    let ghost start = order_ids@;
    let mut more = crate::lists::copy_strings(enabled_ids.as_slice());
    let ghost added = more@;
    order_ids.append(&mut more);
    assert(text::texts(order_ids@) =~= own_all + info_ids(enabled@)) by {
        assert(text::texts(order_ids@) =~= text::texts(start) + text::texts(added));
    }
    let ghost head = own_all + info_ids(enabled@);
    let mut q: usize = 0;
    assert(ordered_ids(order_all, 0).filter(open_id) =~= Seq::empty()) by {
        crate::lists::lemma_filter_whole(Seq::<Seq<char>>::empty(), open_id);
        assert(Seq::<Seq<char>>::empty().take(0) =~= Seq::<Seq<char>>::empty());
    }
    assert(head + Seq::<Seq<char>>::empty() =~= head);
    while q < found.len()
        invariant
            q <= found.len(),
            order_all == node_views(found@),
            text::texts(own@) == own_all,
            text::texts(enabled_ids@) == info_ids(enabled@),
            open_id == (|u: Seq<char>|
                !own_all.contains(u) && !info_ids(enabled@).contains(u)),
            text::texts(order_ids@) == head + ordered_ids(order_all, q as int).filter(open_id),
        decreases found.len() - q,
    {
        assert(order_all[q as int] == found@[q as int].node());
        if let Some(uuid) = module_attr(&found[q], "UUID") {
            proof {
                let before = ordered_ids(order_all, q as int);
                let now = before.push(uuid@);
                crate::lists::lemma_keep_item(now, before.len() as int, open_id);
                assert(now.take(before.len() as int) =~= before);
                assert(now.take(before.len() as int + 1) =~= now);
            }
            if !has_string(own.as_slice(), uuid.as_str()) && !has_string(
                enabled_ids.as_slice(),
                uuid.as_str(),
            ) {
                proof {
                    text::lemma_texts_push(order_ids@, uuid);
                    let f = ordered_ids(order_all, q as int).filter(open_id);
                    assert((head + f).push(uuid@) =~= head + f.push(uuid@));
                }
                order_ids.push(uuid);
            }
        }
        q = q + 1;
    }
    let ghost ids = new_order_ids(all, order_all, enabled@);
    assert(text::texts(order_ids@) =~= ids);
    let mut order_list: Vec<ModuleNode> = Vec::new();
    let mut z: usize = 0;
    assert(node_views(order_list@) =~= order_nodes(ids).take(0));
    while z < order_ids.len()
        invariant
            z <= order_ids.len(),
            ids == text::texts(order_ids@),
            node_views(order_list@) == order_nodes(ids).take(z as int),
        decreases order_ids.len() - z,
    {
        let node = module_order_node(order_ids[z].as_str());
        proof {
            lemma_node_views_push(order_list@, node);
            assert(order_nodes(ids).take(z + 1) =~= order_nodes(ids).take(z as int).push(
                node.node(),
            ));
        }
        order_list.push(node);
        z = z + 1;
    }
    assert(order_nodes(ids).take(z as int) =~= order_nodes(ids));
    replace_list(&mut doc, "ModOrder", order_list);
    doc
}

/// The game's own modules come first in the list and in the order, whatever mods
/// the library has.
pub proof fn law_own_modules_first(
    nodes: Seq<NodeView>,
    order: Seq<NodeView>,
    installed: Seq<PakInfo>,
    enabled: Seq<PakInfo>,
)
    ensures
        base_nodes(nodes).is_prefix_of(new_mods(nodes, installed)),
        base_ids(nodes, nodes.len() as int).is_prefix_of(new_order_ids(nodes, order, enabled)),
{
    let m = new_mods(nodes, installed);
    let b = base_nodes(nodes);
    assert(m.subrange(0, b.len() as int) =~= b);
    let o = new_order_ids(nodes, order, enabled);
    let own = base_ids(nodes, nodes.len() as int);
    assert(o.subrange(0, own.len() as int) =~= own);
}

/// Every enabled mod has a place in the order, in the order of the mods.
pub proof fn law_enabled_in_order(
    nodes: Seq<NodeView>,
    order: Seq<NodeView>,
    enabled: Seq<PakInfo>,
    i: int,
)
    requires
        0 <= i < enabled.len(),
    ensures
        new_order_ids(nodes, order, enabled)[base_ids(nodes, nodes.len() as int).len() + i]
            == enabled[i].uuid@,
{
}

proof fn lemma_found(nodes: Seq<SettingsView>, id: Seq<char>, from: int)
    requires
        0 <= from,
    ensures
        -1 <= find_list(nodes, id, from) < nodes.len(),
        find_list(nodes, id, from) >= 0 ==> from <= find_list(nodes, id, from)
            && nodes[find_list(nodes, id, from)].id == id,
        forall|j: int|
            from <= j < nodes.len() && (j < find_list(nodes, id, from) || find_list(
                nodes,
                id,
                from,
            ) < 0) ==> (#[trigger] nodes[j]).id != id,
    decreases nodes.len() - from,
{
    if from < nodes.len() {
        lemma_found(nodes, id, from + 1);
    }
}

proof fn lemma_is_found(nodes: Seq<SettingsView>, id: Seq<char>, from: int, at: int)
    requires
        0 <= from <= at < nodes.len(),
        nodes[at].id == id,
        forall|j: int| from <= j < at ==> (#[trigger] nodes[j]).id != id,
    ensures
        find_list(nodes, id, from) == at,
    decreases at - from,
{
    if from < at {
        lemma_is_found(nodes, id, from + 1, at);
    }
}

/// A list that was replaced holds what was put in, and each other list what it held.
proof fn lemma_with_list(nodes: Seq<SettingsView>, id: Seq<char>, list: Seq<NodeView>, other: Seq<char>)
    requires
        other != id,
    ensures
        listed_views(with_list(nodes, id, list), id) == list,
        listed_views(with_list(nodes, id, list), other) == listed_views(nodes, other),
{
    let after = with_list(nodes, id, list);
    let at = find_list(nodes, id, 0);
    lemma_found(nodes, id, 0);
    lemma_found(nodes, other, 0);
    let place = if at >= 0 {
        at
    } else {
        nodes.len() as int
    };
    assert(forall|j: int|
        0 <= j < nodes.len() ==> (#[trigger] after[j]).id == nodes[j].id);
    lemma_is_found(after, id, 0, place);
    let k = find_list(nodes, other, 0);
    if k >= 0 {
        lemma_is_found(after, other, 0, k);
    } else {
        lemma_found(after, other, 0);
        let f = find_list(after, other, 0);
        if 0 <= f < nodes.len() {
            assert(after[f].id == nodes[f].id);
        }
    }
}

proof fn lemma_listed(nodes: Seq<SettingsNode>, id: Seq<char>)
    ensures
        listed(nodes, id) == listed_views(settings_views(nodes), id),
{
    lemma_find_list(nodes, id, 0);
}

proof fn lemma_ordered(ids: Seq<Seq<char>>, n: int)
    requires
        0 <= n <= ids.len(),
    ensures
        ordered_ids(order_nodes(ids), n) == ids.take(n),
    decreases n,
{
    if n > 0 {
        lemma_ordered(ids, n - 1);
        let node = order_nodes(ids)[n - 1];
        assert(node.attributes[0].id == "UUID"@);
        assert(uuid_of(node) == Some(ids[n - 1]));
        assert(ids.take(n) =~= ids.take(n - 1).push(ids[n - 1]));
    } else {
        assert(ids.take(0) =~= Seq::<Seq<char>>::empty());
    }
}

/// Settings that were written read back: the list holds the game's own modules, those
/// that stay and the mods of the library, and the order names the game's own modules, the
/// enabled mods and what was in it besides.
pub proof fn law_settings_read_back(
    doc: ModSettings,
    written: ModSettings,
    installed: Seq<PakInfo>,
    enabled: Seq<PakInfo>,
)
    requires
        settings_views(written.nodes@) == with_mods(
            settings_views(doc.nodes@),
            installed,
            enabled,
        ),
    ensures
        listed(written.nodes@, "Mods"@) == new_mods(listed(doc.nodes@, "Mods"@), installed),
        ({
            let order = listed(written.nodes@, "ModOrder"@);
            ordered_ids(order, order.len() as int) == new_order_ids(
                listed(doc.nodes@, "Mods"@),
                listed(doc.nodes@, "ModOrder"@),
                enabled,
            )
        }),
{
    reveal_strlit("Mods");
    reveal_strlit("ModOrder");
    assert("Mods"@.len() != "ModOrder"@.len());
    lemma_listed(doc.nodes@, "Mods"@);
    lemma_listed(doc.nodes@, "ModOrder"@);
    lemma_listed(written.nodes@, "Mods"@);
    lemma_listed(written.nodes@, "ModOrder"@);
    let before = settings_views(doc.nodes@);
    let nodes = listed_views(before, "Mods"@);
    let order = listed_views(before, "ModOrder"@);
    let ids = new_order_ids(nodes, order, enabled);
    lemma_with_list(before, "Mods"@, new_mods(nodes, installed), "ModOrder"@);
    lemma_with_list(
        with_list(before, "Mods"@, new_mods(nodes, installed)),
        "ModOrder"@,
        order_nodes(ids),
        "Mods"@,
    );
    lemma_ordered(ids, ids.len() as int);
    assert(ids.take(ids.len() as int) =~= ids);
}

/// What the game's own modules are called, by name or by folder.
pub open spec fn own_words() -> Seq<Seq<char>> {
    seq!["Gustav"@, "GustavX"@, "GustavDev"@, "Honour"@, "HonourX"@]
}

/// A module is the game's own exactly where its name or its folder is one of those words,
/// letter for letter.
pub proof fn law_own_by_word(name: Seq<char>, folder: Seq<char>)
    ensures
        base_module(name, folder) <==> own_words().contains(name) || own_words().contains(folder),
{
    let w = own_words();
    assert(w[0] == "Gustav"@ && w[1] == "GustavX"@ && w[2] == "GustavDev"@ && w[3] == "Honour"@
        && w[4] == "HonourX"@);
    assert(w.len() == 5);
    if w.contains(name) {
        let i = choose|i: int| 0 <= i < w.len() && w[i] == name;
        assert(is_base_word(w[i]));
    }
    if w.contains(folder) {
        let i = choose|i: int| 0 <= i < w.len() && w[i] == folder;
        assert(is_base_word(w[i]));
    }
}

proof fn lemma_attr(list: Seq<AttributeView>, key: Seq<char>, i: int)
    requires
        0 <= i < list.len(),
        list[i].id == key,
        forall|j: int| 0 <= j < i ==> (#[trigger] list[j]).id != key,
    ensures
        attr(list, key) == Some(list[i].value),
    decreases i,
{
    if i > 0 {
        let rest = list.drop_first();
        assert(list[0].id != key);
        assert forall|j: int| 0 <= j < i - 1 implies (#[trigger] rest[j]).id != key by {
            assert(rest[j] == list[j + 1]);
        }
        lemma_attr(rest, key, i - 1);
    }
}

/// What the node of a package states, read attribute by attribute.
proof fn lemma_short_desc(info: PakInfo)
    ensures
        ({
            let n = short_desc(info);
            &&& attr(n.attributes, "UUID"@) == Some(info.uuid@)
            &&& attr(n.attributes, "Folder"@) == Some(info.folder@)
            &&& attr(n.attributes, "Name"@) == Some(info.name@)
            &&& attr(n.attributes, "MD5"@) == Some(
                match info.md5 {
                    Some(m) => m@,
                    None => Seq::empty(),
                },
            )
            &&& number_attr(n, "Version64"@) == Some(info.version)
            &&& number_attr(n, "PublishHandle"@) == Some(
                match info.publish_handle {
                    Some(h) => h,
                    None => 0,
                },
            )
        }),
{
    let list = short_desc(info).attributes;
    reveal_strlit("Folder");
    reveal_strlit("MD5");
    reveal_strlit("Name");
    reveal_strlit("PublishHandle");
    reveal_strlit("UUID");
    reveal_strlit("Version64");
    assert("Name"@[0] != "UUID"@[0]);
    assert(list.len() == 6);
    assert(list[0].id == "Folder"@ && list[1].id == "MD5"@ && list[2].id == "Name"@ && list[3].id
        == "PublishHandle"@ && list[4].id == "UUID"@ && list[5].id == "Version64"@);
    lemma_attr(list, "Folder"@, 0);
    lemma_attr(list, "MD5"@, 1);
    lemma_attr(list, "Name"@, 2);
    lemma_attr(list, "PublishHandle"@, 3);
    lemma_attr(list, "UUID"@, 4);
    lemma_attr(list, "Version64"@, 5);
    lemma_number(info.version);
    lemma_number(
        match info.publish_handle {
            Some(h) => h,
            None => 0,
        },
    );
}

/// A number that was written reads back.
proof fn lemma_number(n: u64)
    ensures
        text::u64_value(text::decimal(n as nat)) == Some(n),
{
    let s = text::decimal(n as nat);
    text::lemma_decimal(n as nat);
    assert(s.len() > 0);
    assert(text::is_digit(s[0]));
}

/// Reading the settings back gives each installed package that is not one of the game's
/// own: with its id, its folder, its name and its version, with its checksum or an empty
/// one, and with its handle or zero.
pub proof fn law_installed_read_back(
    doc: ModSettings,
    written: ModSettings,
    installed: Seq<PakInfo>,
    enabled: Seq<PakInfo>,
    snapshot: ModSettingsSnapshot,
    i: int,
)
    requires
        settings_views(written.nodes@) == with_mods(
            settings_views(doc.nodes@),
            installed,
            enabled,
        ),
        is_snapshot(snapshot, settings_views(written.nodes@)),
        0 <= i < installed.len(),
        !own_words().contains(installed[i].name@),
        !own_words().contains(installed[i].folder@),
    ensures
        exists|k: int|
            0 <= k < snapshot.modules@.len() && {
                let m = (#[trigger] snapshot.modules@[k]).info;
                &&& m.uuid@ == installed[i].uuid@
                &&& m.folder@ == installed[i].folder@
                &&& m.name@ == installed[i].name@
                &&& m.version == installed[i].version
                &&& text::text_opt(m.md5) == Some(
                    match installed[i].md5 {
                        Some(t) => t@,
                        None => Seq::empty(),
                    },
                )
                &&& m.publish_handle == Some(
                    match installed[i].publish_handle {
                        Some(h) => h,
                        None => 0,
                    },
                )
            },
{
    let info = installed[i];
    let n = short_desc(info);
    let keep = |n: NodeView| uuid_of(n) is Some && !is_own(n, uuid_of(n)->0);
    law_settings_read_back(doc, written, installed, enabled);
    lemma_listed(written.nodes@, "Mods"@);
    lemma_listed(doc.nodes@, "Mods"@);
    lemma_short_desc(info);
    law_own_by_word(info.name@, info.folder@);
    let before = listed(doc.nodes@, "Mods"@);
    let nodes = listed(written.nodes@, "Mods"@);
    let at = nodes.len() - installed.len() + i;
    assert(short_descs(installed)[i] == n);
    assert(nodes[at] == n);
    assert(nodes.contains(n));
    crate::lists::lemma_filter_contains(nodes, keep, n);
    assert(foreign(nodes).contains(n));
    let k = choose|k: int| 0 <= k < foreign(nodes).len() && foreign(nodes)[k] == n;
    assert(describes(snapshot.modules@[k], foreign(nodes)[k]));
}

/// The settings hold a node for each installed package, with the attributes that the game
/// reads and their types, and the order holds a node for each enabled one.
pub proof fn law_written_attributes(
    doc: ModSettings,
    written: ModSettings,
    installed: Seq<PakInfo>,
    enabled: Seq<PakInfo>,
    i: int,
)
    requires
        settings_views(written.nodes@) == with_mods(
            settings_views(doc.nodes@),
            installed,
            enabled,
        ),
    ensures
        0 <= i < installed.len() ==> exists|k: int|
            0 <= k < listed(written.nodes@, "Mods"@).len() && {
                let n = #[trigger] listed(written.nodes@, "Mods"@)[k];
                &&& n.id == "ModuleShortDesc"@
                &&& n.attributes.contains(
                    AttributeView {
                        id: "Folder"@,
                        value: installed[i].folder@,
                        kind: "LSString"@,
                    },
                )
                &&& n.attributes.contains(
                    AttributeView { id: "Name"@, value: installed[i].name@, kind: "LSString"@ },
                )
                &&& n.attributes.contains(
                    AttributeView { id: "UUID"@, value: installed[i].uuid@, kind: "guid"@ },
                )
                &&& n.attributes.contains(
                    AttributeView {
                        id: "Version64"@,
                        value: text::decimal(installed[i].version as nat),
                        kind: "int64"@,
                    },
                )
                &&& installed[i].md5 matches Some(m) ==> n.attributes.contains(
                    AttributeView { id: "MD5"@, value: m@, kind: "LSString"@ },
                )
                &&& installed[i].publish_handle matches Some(h) ==> n.attributes.contains(
                    AttributeView {
                        id: "PublishHandle"@,
                        value: text::decimal(h as nat),
                        kind: "uint64"@,
                    },
                )
            },
        0 <= i < enabled.len() ==> exists|k: int|
            0 <= k < listed(written.nodes@, "ModOrder"@).len() && {
                let n = #[trigger] listed(written.nodes@, "ModOrder"@)[k];
                &&& n.id == "Module"@
                &&& n.attributes.contains(
                    AttributeView { id: "UUID"@, value: enabled[i].uuid@, kind: "FixedString"@ },
                )
            },
{
    reveal_strlit("Mods");
    reveal_strlit("ModOrder");
    assert("Mods"@.len() != "ModOrder"@.len());
    lemma_listed(written.nodes@, "Mods"@);
    lemma_listed(written.nodes@, "ModOrder"@);
    let before = settings_views(doc.nodes@);
    let nodes = listed_views(before, "Mods"@);
    let order = listed_views(before, "ModOrder"@);
    let ids = new_order_ids(nodes, order, enabled);
    lemma_with_list(before, "Mods"@, new_mods(nodes, installed), "ModOrder"@);
    lemma_with_list(
        with_list(before, "Mods"@, new_mods(nodes, installed)),
        "ModOrder"@,
        order_nodes(ids),
        "Mods"@,
    );
    if 0 <= i < installed.len() {
        let list = new_mods(nodes, installed);
        let k = list.len() - installed.len() + i;
        let n = list[k];
        assert(short_descs(installed)[i] == short_desc(installed[i]));
        assert(n == short_desc(installed[i]));
        assert(n.attributes.contains(n.attributes[0]));
        assert(n.attributes.contains(n.attributes[1]));
        assert(n.attributes.contains(n.attributes[2]));
        assert(n.attributes.contains(n.attributes[3]));
        assert(n.attributes.contains(n.attributes[4]));
        assert(n.attributes.contains(n.attributes[5]));
        assert(listed(written.nodes@, "Mods"@)[k] == n);
    }
    if 0 <= i < enabled.len() {
        let k = base_ids(nodes, nodes.len() as int).len() + i;
        law_enabled_in_order(nodes, order, enabled, i);
        let n = order_nodes(ids)[k];
        assert(n.attributes.contains(n.attributes[0]));
        assert(listed(written.nodes@, "ModOrder"@)[k] == n);
    }
}

} // verus!
