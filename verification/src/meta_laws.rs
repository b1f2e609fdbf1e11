//! What holds of what is read of a module's description.
use crate::metadata;
use crate::metadata::{MetaState, XmlItem, XmlTag};
use crate::text;
use vstd::prelude::*;

verus! {

// ---------------------------------------------------------------------------
// The game's own modules
// ---------------------------------------------------------------------------

/// What the game's own modules are called.
pub open spec fn own_names() -> Seq<Seq<char>> {
    seq![
        "gustav"@,
        "gustavdev"@,
        "gustavx"@,
        "shared"@,
        "shareddev"@,
        "fw3"@,
        "engine"@,
        "game"@,
        "diceset01"@,
        "diceset02"@,
        "diceset03"@,
        "diceset04"@,
        "diceset06"@,
        "honour"@,
        "honourx"@,
        "modbrowser"@,
        "mainui"@,
        "crossplayui"@,
        "photomode"@,
    ]
}

/// The ids of the game's own modules.
pub open spec fn own_ids() -> Seq<Seq<char>> {
    seq![
        "991c9c7a-fb80-40cb-8f0d-b92d4e80e9b1"@,
        "cb555efe-2d9e-131f-8195-a89329d218ea"@,
        "28ac9ce2-2aba-8cda-b3b5-6e922f71b6b8"@,
        "ed539163-bb70-431b-96a7-f5b2eda5376b"@,
        "3d0c5ff8-c95d-c907-ff3e-34b204f1c630"@,
        "e5c9077e-1fca-4f24-b55d-464f512c98a8"@,
        "9dff4c3b-fda7-43de-a763-ce1383039999"@,
        "game"@,
        "e842840a-2449-588c-b0c4-22122cfce31b"@,
        "b176a0ac-d79f-ed9d-5a87-5c2c80874e10"@,
        "e0a4d990-7b9b-8fa9-d7c6-04017c6cf5b1"@,
        "77a2155f-4b35-4f0c-e7ff-4338f91426a4"@,
        "ee4989eb-aab8-968f-8674-812ea2f4bfd7"@,
        "b77b6210-ac50-4cb1-a3d5-5702fb9c744c"@,
        "767d0062-d82c-279c-e16b-dfee7fe94cdd"@,
        "ee5a55ff-eb38-0b27-c5b0-f358dc306d34"@,
        "630daa32-70f8-3da5-41b9-154fe8410236"@,
        "e1ce736b-52e6-e713-e9e7-e6abbb15a198"@,
        "55ef175c-59e3-b44b-3fb2-8f86acc5d550"@,
    ]
}

/// A label is that of one of the game's own modules just where its letters and digits make
/// one of their names, and an id just where it is one of theirs, whatever the case.
pub proof fn law_the_games_own(label: Seq<char>, id: Seq<char>)
    ensures
        metadata::base_label(label) <==> own_names().contains(text::alnum_key(label)),
        metadata::base_uuid(id) <==> own_ids().contains(text::ascii_lower(id)),
{
    let names = own_names();
    let ids = own_ids();
    let n = text::alnum_key(label);
    let i = text::ascii_lower(id);
    assert(names.len() == 19);
    assert(ids.len() == 19);
    assert(names[0] == "gustav"@);
    assert(names[1] == "gustavdev"@);
    assert(names[2] == "gustavx"@);
    assert(names[3] == "shared"@);
    assert(names[4] == "shareddev"@);
    assert(names[5] == "fw3"@);
    assert(names[6] == "engine"@);
    assert(names[7] == "game"@);
    assert(names[8] == "diceset01"@);
    assert(names[9] == "diceset02"@);
    assert(names[10] == "diceset03"@);
    assert(names[11] == "diceset04"@);
    assert(names[12] == "diceset06"@);
    assert(names[13] == "honour"@);
    assert(names[14] == "honourx"@);
    assert(names[15] == "modbrowser"@);
    assert(names[16] == "mainui"@);
    assert(names[17] == "crossplayui"@);
    assert(names[18] == "photomode"@);
    assert(ids[0] == "991c9c7a-fb80-40cb-8f0d-b92d4e80e9b1"@);
    assert(ids[1] == "cb555efe-2d9e-131f-8195-a89329d218ea"@);
    assert(ids[2] == "28ac9ce2-2aba-8cda-b3b5-6e922f71b6b8"@);
    assert(ids[3] == "ed539163-bb70-431b-96a7-f5b2eda5376b"@);
    assert(ids[4] == "3d0c5ff8-c95d-c907-ff3e-34b204f1c630"@);
    assert(ids[5] == "e5c9077e-1fca-4f24-b55d-464f512c98a8"@);
    assert(ids[6] == "9dff4c3b-fda7-43de-a763-ce1383039999"@);
    assert(ids[7] == "game"@);
    assert(ids[8] == "e842840a-2449-588c-b0c4-22122cfce31b"@);
    assert(ids[9] == "b176a0ac-d79f-ed9d-5a87-5c2c80874e10"@);
    assert(ids[10] == "e0a4d990-7b9b-8fa9-d7c6-04017c6cf5b1"@);
    assert(ids[11] == "77a2155f-4b35-4f0c-e7ff-4338f91426a4"@);
    assert(ids[12] == "ee4989eb-aab8-968f-8674-812ea2f4bfd7"@);
    assert(ids[13] == "b77b6210-ac50-4cb1-a3d5-5702fb9c744c"@);
    assert(ids[14] == "767d0062-d82c-279c-e16b-dfee7fe94cdd"@);
    assert(ids[15] == "ee5a55ff-eb38-0b27-c5b0-f358dc306d34"@);
    assert(ids[16] == "630daa32-70f8-3da5-41b9-154fe8410236"@);
    assert(ids[17] == "e1ce736b-52e6-e713-e9e7-e6abbb15a198"@);
    assert(ids[18] == "55ef175c-59e3-b44b-3fb2-8f86acc5d550"@);
    if names.contains(n) {
        let k = choose|k: int| 0 <= k < names.len() && names[k] == n;
        assert(metadata::is_base_name(names[k]));
    }
    if ids.contains(i) {
        let k = choose|k: int| 0 <= k < ids.len() && ids[k] == i;
        assert(metadata::is_base_id(ids[k]));
    }
}

// ---------------------------------------------------------------------------
// Attributes
// ---------------------------------------------------------------------------

/// The event of an attribute with an id and a value.
pub open spec fn attribute_item(id: Seq<char>, value: Seq<char>) -> XmlItem {
    XmlItem::Empty(
        XmlTag {
            name: metadata::attribute_word(),
            attributes: seq![
                Some((metadata::id_word(), Some(id))),
                Some((metadata::value_word(), Some(value))),
            ],
        },
    )
}

/// The event of a node that opens.
pub open spec fn node_item(id: Seq<char>) -> XmlItem {
    XmlItem::Start(
        XmlTag {
            name: metadata::node_word(),
            attributes: seq![Some((metadata::id_word(), Some(id)))],
        },
    )
}

/// The event of a node that closes.
pub open spec fn close_item() -> XmlItem {
    XmlItem::End(metadata::node_word())
}

proof fn lemma_attribute_item(s: MetaState, id: Seq<char>, value: Seq<char>)
    ensures
        metadata::after_item(s, attribute_item(id, value)) == metadata::after_attribute(
            s,
            id,
            value,
        ),
{
    let list = seq![
        Some((metadata::id_word(), Some(id))),
        Some((metadata::value_word(), Some(value))),
    ];
    let rest = list.drop_first();
    assert(metadata::id_word().len() != metadata::value_word().len());
    assert(metadata::attribute(list, metadata::id_word()) == Some(id));
    assert(rest[0] == Some((metadata::value_word(), Some(value))));
    assert(metadata::attribute(rest, metadata::value_word()) == Some(value));
    assert(metadata::attribute(list, metadata::value_word()) == Some(value));
}

proof fn lemma_node_item(s: MetaState, id: Seq<char>)
    ensures
        metadata::after_item(s, node_item(id)) == metadata::after_open(s, id),
{
    let list = seq![Some((metadata::id_word(), Some(id)))];
    assert(metadata::attribute(list, metadata::id_word()) == Some(id));
}

/// In the description of the module itself each attribute is read into its own field, the
/// last one counting, and into no other. Numbers that cannot be read leave the field as it
/// is; of creation times the earliest stays, and tags add up.
pub proof fn law_attribute_is_read(s: MetaState, id: Seq<char>, value: Seq<char>)
    requires
        s.stack.contains("ModuleInfo"@),
    ensures
        ({
            let t = metadata::after_item(s, attribute_item(id, value));
            let number = text::u64_value(value);
            let time = metadata::created_seconds(value);
            &&& t.stack == s.stack
            &&& t.dependencies == s.dependencies
            &&& t.uuid == if id == "UUID"@ { Some(value) } else { s.uuid }
            &&& t.folder == if id == "Folder"@ { Some(value) } else { s.folder }
            &&& t.name == if id == "Name"@ { Some(value) } else { s.name }
            &&& t.md5 == if id == "MD5"@ { Some(value) } else { s.md5 }
            &&& t.author == if id == "Author"@ { Some(value) } else { s.author }
            &&& t.description == if id == "Description"@ { Some(value) } else { s.description }
            &&& t.module_type == if id == "Type"@ || id == "ModuleType"@ {
                Some(value)
            } else {
                s.module_type
            }
            &&& t.version == if (id == "Version64"@ || id == "Version"@) && number is Some {
                number
            } else {
                s.version
            }
            &&& t.publish_handle == if id == "PublishHandle"@ && number is Some {
                number
            } else {
                s.publish_handle
            }
            &&& id != "Tags"@ ==> t.tags == s.tags
            &&& id == "Tags"@ ==> t.tags.len() >= s.tags.len() && t.tags.take(
                s.tags.len() as int,
            ) == s.tags
            &&& id != "Created"@ ==> t.created_at == s.created_at
            &&& id == "Created"@ ==> {
                &&& t.created_at is Some <==> s.created_at is Some || time is Some
                &&& t.created_at matches Some(c) ==> {
                    &&& s.created_at == Some(c) || time == Some(c)
                    &&& s.created_at matches Some(x) ==> c <= x
                    &&& time matches Some(y) ==> c <= y
                }
            }
        }),
{
    lemma_attribute_item(s, id, value);
    reveal_strlit("Tags");
    reveal_strlit("Created");
    reveal_strlit("UUID");
    reveal_strlit("Folder");
    reveal_strlit("Name");
    reveal_strlit("Version64");
    reveal_strlit("Version");
    reveal_strlit("MD5");
    reveal_strlit("Author");
    reveal_strlit("Description");
    reveal_strlit("PublishHandle");
    reveal_strlit("Type");
    reveal_strlit("ModuleType");
    assert("Tags"@[1] == 'a' && "Tags"@.len() == 4);
    assert("Created"@[0] == 'C' && "Created"@.len() == 7);
    assert("UUID"@[0] == 'U' && "UUID"@.len() == 4);
    assert("Folder"@[0] == 'F' && "Folder"@.len() == 6);
    assert("Name"@[0] == 'N' && "Name"@.len() == 4);
    assert("Version64"@[0] == 'V' && "Version64"@.len() == 9);
    assert("Version"@[0] == 'V' && "Version"@.len() == 7);
    assert("MD5"@[0] == 'M' && "MD5"@.len() == 3);
    assert("Author"@[0] == 'A' && "Author"@.len() == 6);
    assert("Description"@[0] == 'D' && "Description"@.len() == 11);
    assert("PublishHandle"@[0] == 'P' && "PublishHandle"@.len() == 13);
    assert("Type"@[1] == 'y' && "Type"@.len() == 4);
    assert("ModuleType"@[0] == 'M' && "ModuleType"@.len() == 10);
    if id == "Tags"@ {
        let t = metadata::after_item(s, attribute_item(id, value));
        assert(t.tags.take(s.tags.len() as int) =~= s.tags);
    }
}

/// Outside the description of the module an attribute changes nothing of the module but the
/// time of its making, where none is known yet.
pub proof fn law_other_attributes_are_not_the_modules(
    s: MetaState,
    id: Seq<char>,
    value: Seq<char>,
)
    requires
        !s.stack.contains("ModuleInfo"@),
    ensures
        ({
            let t = metadata::after_item(s, attribute_item(id, value));
            &&& t == (MetaState {
                created_at: t.created_at,
                dep_uuid: t.dep_uuid,
                dep_label: t.dep_label,
                ..s
            })
            &&& t.created_at == if s.created_at is None && id == "Created"@ {
                metadata::created_seconds(value)
            } else {
                s.created_at
            }
        }),
{
    lemma_attribute_item(s, id, value);
}

// ---------------------------------------------------------------------------
// Dependencies
// ---------------------------------------------------------------------------

/// What a dependency that states an id and a name is read as: both, joined; the id alone
/// where the name is blank or that of a module of the game; nothing where the id is one of
/// the game's own.
pub open spec fn read_as(uuid: Seq<char>, name: Seq<char>) -> Option<Seq<char>> {
    let n = text::trimmed(name);
    if own_ids().contains(text::ascii_lower(uuid)) {
        None
    } else if n.len() == 0 || own_names().contains(text::alnum_key(n)) {
        Some(uuid)
    } else {
        Some(n + "_"@ + uuid)
    }
}

/// Whether a state is another with what was read of a dependency.
pub open spec fn has_read(t: MetaState, s: MetaState, dep: Option<Seq<char>>) -> bool {
    &&& t.stack == s.stack
    &&& t.dependencies == match dep {
        Some(d) => s.dependencies.push(d),
        None => s.dependencies,
    }
    &&& t.uuid == s.uuid
    &&& t.folder == s.folder
    &&& t.name == s.name
    &&& t.version == s.version
}

/// A dependency that states its id and its name is read, in whichever order it states them,
/// and nothing of it is taken for the module's own.
pub proof fn law_dependency_is_read(
    s: MetaState,
    node: Seq<char>,
    uuid: Seq<char>,
    name: Seq<char>,
)
    requires
        s.stack.contains("Dependencies"@),
        !s.stack.contains("ModuleInfo"@),
        node == "Dependency"@ || node == "ModuleShortDesc"@,
    ensures
        ({
            let a = metadata::after_item(s, node_item(node));
            let b = metadata::after_item(
                metadata::after_item(a, attribute_item("UUID"@, uuid)),
                attribute_item("Name"@, name),
            );
            let c = metadata::after_item(
                metadata::after_item(a, attribute_item("Name"@, name)),
                attribute_item("UUID"@, uuid),
            );
            &&& has_read(metadata::after_item(b, close_item()), s, read_as(uuid, name))
            &&& has_read(metadata::after_item(c, close_item()), s, read_as(uuid, name))
        }),
{
    let a = metadata::after_item(s, node_item(node));
    lemma_node_item(s, node);
    lemma_on_stack(s, node);
    lemma_attribute_item(a, "UUID"@, uuid);
    lemma_attribute_item(a, "Name"@, name);
    let b1 = metadata::after_item(a, attribute_item("UUID"@, uuid));
    let c1 = metadata::after_item(a, attribute_item("Name"@, name));
    lemma_attribute_item(b1, "Name"@, name);
    lemma_attribute_item(c1, "UUID"@, uuid);
    reveal_strlit("UUID");
    reveal_strlit("Name");
    reveal_strlit("Created");
    assert("UUID"@[0] == 'U' && "Name"@[0] == 'N' && "Created"@[0] == 'C');
    law_the_games_own(text::trimmed(name), uuid);
    assert(s.stack.push(node).drop_last() =~= s.stack);
}

/// A dependency that states its name goes by it; the folder is only taken where there is no
/// name.
pub proof fn law_name_before_folder(s: MetaState, node: Seq<char>, name: Seq<char>, folder: Seq<char>)
    requires
        s.stack.contains("Dependencies"@),
        !s.stack.contains("ModuleInfo"@),
        node == "Dependency"@ || node == "ModuleShortDesc"@,
    ensures
        ({
            let a = metadata::after_item(s, node_item(node));
            let n = metadata::after_item(a, attribute_item("Name"@, name));
            let f = metadata::after_item(a, attribute_item("Folder"@, folder));
            &&& metadata::after_item(n, attribute_item("Folder"@, folder)).dep_label == Some(name)
            &&& metadata::after_item(f, attribute_item("Name"@, name)).dep_label == Some(name)
            &&& f.dep_label == Some(folder)
        }),
{
    let a = metadata::after_item(s, node_item(node));
    lemma_node_item(s, node);
    lemma_on_stack(s, node);
    lemma_attribute_item(a, "Name"@, name);
    lemma_attribute_item(a, "Folder"@, folder);
    let n = metadata::after_item(a, attribute_item("Name"@, name));
    let f = metadata::after_item(a, attribute_item("Folder"@, folder));
    lemma_attribute_item(n, "Folder"@, folder);
    lemma_attribute_item(f, "Name"@, name);
    reveal_strlit("UUID");
    reveal_strlit("Name");
    reveal_strlit("Folder");
    reveal_strlit("Created");
    assert("UUID"@[0] == 'U' && "Name"@[0] == 'N' && "Created"@[0] == 'C' && "Folder"@[0] == 'F');
}

proof fn lemma_on_stack(s: MetaState, node: Seq<char>)
    requires
        s.stack.contains("Dependencies"@),
        !s.stack.contains("ModuleInfo"@),
        node == "Dependency"@ || node == "ModuleShortDesc"@,
    ensures
        s.stack.push(node).contains("Dependencies"@),
        s.stack.push(node).contains(node),
        !s.stack.push(node).contains("ModuleInfo"@),
{
    reveal_strlit("Dependency");
    reveal_strlit("ModuleShortDesc");
    reveal_strlit("ModuleInfo");
    assert("Dependency"@[0] == 'D' && "ModuleInfo"@[0] == 'M' && "ModuleShortDesc"@.len() == 15
        && "ModuleInfo"@.len() == 10);
    crate::lists::lemma_push_contains(s.stack, node, "Dependencies"@);
    crate::lists::lemma_push_contains(s.stack, node, "ModuleInfo"@);
    crate::lists::lemma_push_contains(s.stack, node, node);
}

} // verus!
