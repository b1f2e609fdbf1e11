//! The file of the game's own list of modules.
use crate::library::PakInfo;
use crate::modsettings;
use crate::modsettings::{
    build_modsettings_save, settings_snapshot, ModSettings, ModSettingsSnapshot, ModuleNode,
    SettingsAttribute, SettingsNode, SettingsVersion, SettingsView,
};
use crate::text;
use crate::text::{concat3, has_text, replace_text};
use larian_formats::bg3::raw::{
    ConfigChildren, ConfigNode, ModuleInfoAttribute, ModuleInfoNode, ModulesChildren,
    ModulesShortDescriptionNode, Region, Save, Version,
};
use serde::Serialize;
use vstd::prelude::*;

verus! {

/// Settings, in mathematical values.
#[verifier::ext_equal]
pub struct DocView {
    pub version: SettingsVersion,
    pub region: Seq<char>,
    pub root: Seq<char>,
    pub lists: Seq<SettingsView>,
}

impl ModSettings {
    pub open spec fn shown(self) -> DocView {
        DocView {
            version: self.version,
            region: self.region@,
            root: self.root@,
            lists: modsettings::settings_views(self.nodes@),
        }
    }
}

pub open spec fn doc_opt(doc: Option<ModSettings>) -> Option<DocView> {
    match doc {
        Some(d) => Some(d.shown()),
        None => None,
    }
}

// ---------------------------------------------------------------------------
// Reading and writing XML
// ---------------------------------------------------------------------------

/// The settings file of `larian_formats`.
#[verifier::external_type_specification]
#[verifier::external_body]
pub struct ExSave(Save);

/// What a settings file of `larian_formats` holds.
pub uninterp spec fn save_view(save: Save) -> DocView;

/// What `quick_xml::de::from_str` reads from a text as a settings file.
pub uninterp spec fn settings_of_text(raw: Seq<char>) -> Option<DocView>;

/// What `quick_xml::se::Serializer` writes for a settings file, with so many of a
/// character before what stands deeper.
pub uninterp spec fn text_of_settings(doc: DocView, indent: char, width: nat) -> Option<Seq<char>>;

/// Whether a text can be read: where it holds something that begins with `<!`, it holds no
/// tag whose name, or whose name behind a prefix, begins with `@`, which is no XML.
pub open spec fn is_readable(raw: Seq<char>) -> bool {
    !text::contains_text(raw, "<!"@) || !text::contains_text(raw, "<@"@)
        && !text::contains_text(raw, ":@"@)
}

/// Calls `quick_xml::de::from_str` for a settings file of `larian_formats`: what the text
/// says, where it is one, as a function of the text. The deserializer breaks off with a
/// panic where a text value is interrupted by a document type; a settings file has no
/// text values, unless a tag stands in for an attribute. Which tag does is told by its
/// name behind the first colon.
#[verifier::external_body]
fn parse_save(raw: &str) -> (r: Option<Save>)
    requires
        is_readable(raw@),
    ensures
        match r {
            Some(save) => settings_of_text(raw@) == Some(save_view(save)),
            None => settings_of_text(raw@) is None,
        },
{
    quick_xml::de::from_str(raw).ok()
}

/// Reads the fields of `larian_formats::bg3::raw::Save` above the lists: the version, and
/// the ids of the region and of its node.
#[verifier::external_body]
fn save_frame(save: &Save) -> (r: (SettingsVersion, String, String))
    ensures
        r.0 == save_view(*save).version,
        r.1@ == save_view(*save).region,
        r.2@ == save_view(*save).root,
{
    let v = &save.version;
    let (major, minor, revision, build) = (v.major, v.minor, v.revision, v.build);
    let version = SettingsVersion { major, minor, revision, build };
    (version, save.region.id.clone(), save.region.node.id.clone())
}

/// Reads the lists of `larian_formats::bg3::raw::Save`, each with all that is in it.
#[verifier::external_body]
fn save_lists(save: Save) -> (r: Vec<SettingsNode>)
    ensures
        modsettings::settings_views(r@) == save_view(save).lists,
{
    let attributes = |list: Vec<ModuleInfoAttribute>| {
        let one = |a: ModuleInfoAttribute| (a.id, a.value, a.value_type);
        let all = list.into_iter().map(one);
        all.map(|(id, value, kind)| SettingsAttribute { id, value, kind }).collect()
    };
    let module = |n: ModulesShortDescriptionNode| {
        ModuleNode { id: n.id, attributes: attributes(n.attribute) }
    };
    let list = |c: ModulesChildren| c.node.into_iter().map(module).collect();
    let node = |n: ModuleInfoNode| SettingsNode {
        id: n.id,
        attributes: attributes(n.attribute),
        children: n.children.into_iter().map(list).collect(),
    };
    save.region.node.children.node.into_iter().map(node).collect()
}

/// Makes a `larian_formats::bg3::raw::Save` without lists.
#[verifier::external_body]
fn frame_save(version: SettingsVersion, region: &str, root: &str) -> (r: Save)
    ensures
        save_view(r) == (DocView { version, region: region@, root: root@, lists: Seq::empty() }),
{
    let SettingsVersion { major, minor, revision, build } = version;
    let version = Version { major, minor, revision, build };
    let children = ConfigChildren { node: Vec::new() };
    let node = ConfigNode { id: root.to_string(), children };
    Save { version, region: Region { id: region.to_string(), node } }
}

/// Puts lists into a `larian_formats::bg3::raw::Save`, each with all that is in it.
#[verifier::external_body]
fn fill_save(save: &mut Save, nodes: &Vec<SettingsNode>)
    ensures
        save_view(*final(save)) == (DocView {
            lists: modsettings::settings_views(nodes@),
            ..save_view(*old(save))
        }),
{
    let one = |a: &SettingsAttribute| ModuleInfoAttribute::new(&a.id, &a.value, &a.kind);
    let module = |n: &ModuleNode| ModulesShortDescriptionNode {
        id: n.id.clone(),
        attribute: n.attributes.iter().map(one).collect(),
    };
    let list = |c: &Vec<ModuleNode>| ModulesChildren { node: c.iter().map(module).collect() };
    let node = |n: &SettingsNode| ModuleInfoNode {
        id: n.id.clone(),
        attribute: n.attributes.iter().map(one).collect(),
        children: n.children.iter().map(list).collect(),
    };
    save.region.node.children.node = nodes.iter().map(node).collect();
}

/// Calls `quick_xml::se::Serializer` on a settings file of `larian_formats`: the text that
/// is written, as a function of what the file holds and of how it is indented. Nothing is
/// said of reading the text again: a list without modules is written as an empty tag, in
/// which the deserializer misses the modules.
#[verifier::external_body]
fn serialize_save(save: &Save, indent: char, width: usize) -> (r: Option<String>)
    requires
        width < 100,
    ensures
        text::text_opt(r) == text_of_settings(save_view(*save), indent, width as nat),
{
    let mut xml = String::new();
    let mut serializer = quick_xml::se::Serializer::new(&mut xml);
    serializer.indent(indent, width);
    save.serialize(serializer).ok()?;
    Some(xml)
}

// ---------------------------------------------------------------------------
// Reading
// ---------------------------------------------------------------------------

/// Settings that list nothing.
pub open spec fn default_doc() -> DocView {
    DocView {
        version: SettingsVersion { major: 4, minor: 8, revision: 0, build: 500 },
        region: "ModuleSettings"@,
        root: "root"@,
        lists: Seq::empty(),
    }
}

pub fn default_modsettings() -> (r: ModSettings)
    ensures
        r.shown() == default_doc(),
{
    let nodes: Vec<SettingsNode> = Vec::new();
    assert(modsettings::settings_views(nodes@) =~= Seq::empty());
    ModSettings {
        version: SettingsVersion { major: 4, minor: 8, revision: 0, build: 500 },
        region: "ModuleSettings".to_owned(),
        root: "root".to_owned(),
        nodes,
    }
}

/// What a file says; where there is none, the settings list nothing.
pub open spec fn file_settings(raw: Option<Seq<char>>) -> Option<DocView> {
    match raw {
        Some(t) => settings_of_text(t),
        None => Some(default_doc()),
    }
}

pub open spec fn raw_text(raw: Option<&str>) -> Option<Seq<char>> {
    match raw {
        Some(t) => Some(t@),
        None => None,
    }
}

pub open spec fn can_read(raw: Option<&str>) -> bool {
    raw matches Some(t) ==> is_readable(t@)
}

/// Whether a file can be read.
pub fn check_settings_text(raw: Option<&str>) -> (r: bool)
    ensures
        r == can_read(raw),
{
    match raw {
        Some(t) => !has_text(t, "<!") || !has_text(t, "<@") && !has_text(t, ":@"),
        None => true,
    }
}

/// Reads a settings file, given its text where there is one.
pub fn read_modsettings(raw: Option<&str>) -> (r: Option<ModSettings>)
    requires
        can_read(raw),
    ensures
        doc_opt(r) == file_settings(raw_text(raw)),
{
    match raw {
        Some(t) => match parse_save(t) {
            Some(save) => {
                let (version, region, root) = save_frame(&save);
                Some(ModSettings { version, region, root, nodes: save_lists(save) })
            },
            None => None,
        },
        None => Some(default_modsettings()),
    }
}

/// The modules that a settings file lists, and their order, without the game's own.
pub fn read_modsettings_snapshot(raw: Option<&str>) -> (r: Option<ModSettingsSnapshot>)
    requires
        can_read(raw),
    ensures
        match (r, file_settings(raw_text(raw))) {
            (Some(s), Some(doc)) => modsettings::is_snapshot(s, doc.lists),
            (None, None) => true,
            _ => false,
        },
{
    match read_modsettings(raw) {
        Some(doc) => Some(settings_snapshot(&doc)),
        None => None,
    }
}

// ---------------------------------------------------------------------------
// Writing
// ---------------------------------------------------------------------------

/// The text of a settings file: the XML header, the settings by four blanks for each
/// level, and a blank before the end of each empty tag at the end of a line.
pub open spec fn file_text(doc: DocView) -> Option<Seq<char>> {
    match text_of_settings(doc, ' ', 4) {
        Some(t) => Some(
            text::replaced(
                "<?xml version=\"1.0\" encoding=\"UTF-8\"?>\n"@ + t + "\n"@,
                "/>\n"@,
                " />\n"@,
            ),
        ),
        None => None,
    }
}

pub fn modsettings_xml(doc: &ModSettings) -> (r: Option<String>)
    ensures
        text::text_opt(r) == file_text(doc.shown()),
{
    let mut save = frame_save(doc.version, doc.region.as_str(), doc.root.as_str());
    fill_save(&mut save, &doc.nodes);
    assert(save_view(save) == doc.shown());
    match serialize_save(&save, ' ', 4) {
        Some(t) => {
            let xml = concat3(
                "<?xml version=\"1.0\" encoding=\"UTF-8\"?>\n",
                t.as_str(),
                "\n",
            );
            proof {
                reveal_strlit("/>\n");
            }
            Some(replace_text(xml.as_str(), "/>\n", " />\n"))
        },
        None => None,
    }
}

/// A settings file with the mods of the library.
pub open spec fn with_library(
    doc: DocView,
    installed: Seq<PakInfo>,
    enabled: Seq<PakInfo>,
) -> DocView {
    DocView { lists: modsettings::with_mods(doc.lists, installed, enabled), ..doc }
}

/// The settings of a file with the mods of the library.
pub fn build_modsettings_export(raw: Option<&str>, installed: &[PakInfo], enabled: &[PakInfo]) -> (r:
    Option<ModSettings>)
    requires
        can_read(raw),
    ensures
        doc_opt(r) == match file_settings(raw_text(raw)) {
            Some(doc) => Some(with_library(doc, installed@, enabled@)),
            None => None,
        },
{
    match read_modsettings(raw) {
        Some(doc) => Some(build_modsettings_save(doc, installed, enabled)),
        None => None,
    }
}

/// Why a settings file is not written.
#[derive(Debug, Clone, Copy, PartialEq, Eq, Structural)]
pub enum SettingsError {
    Parse,
    Serialize,
}

/// The text of a settings file once the mods of the library are in it.
pub fn update_modsettings(raw: Option<&str>, installed: &[PakInfo], enabled: &[PakInfo]) -> (r:
    Result<String, SettingsError>)
    requires
        can_read(raw),
    ensures
        match file_settings(raw_text(raw)) {
            Some(doc) => match file_text(with_library(doc, installed@, enabled@)) {
                Some(t) => r matches Ok(s) && s@ == t,
                None => r == Err::<String, SettingsError>(SettingsError::Serialize),
            },
            None => r == Err::<String, SettingsError>(SettingsError::Parse),
        },
{
    match build_modsettings_export(raw, installed, enabled) {
        Some(doc) => match modsettings_xml(&doc) {
            Some(s) => Ok(s),
            None => Err(SettingsError::Serialize),
        },
        None => Err(SettingsError::Parse),
    }
}

} // verus!
