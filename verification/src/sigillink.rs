//! The list of a mod's files that is kept beside them.
use crate::library::TargetKind;
use crate::paths;
use crate::paths::join_path;
use crate::text;
use vstd::prelude::*;

verus! {

pub const SIGILLINK_VERSION: u32 = 1;

#[derive(Debug)]
pub struct SigilLinkIndex {
    pub version: u32,
    pub entries: Vec<SigilLinkEntry>,
    pub total_bytes: u64,
}

#[derive(Debug)]
pub struct SigilLinkEntry {
    pub kind: TargetKind,
    pub relative_path: String,
    pub size: u64,
}

pub open spec fn index_root(cache_root: Seq<char>) -> Seq<char> {
    paths::joined(cache_root, "sigillink"@)
}

pub fn sigillink_root(cache_root: &str) -> (r: String)
    ensures
        r@ == index_root(cache_root@),
{
    join_path(cache_root, "sigillink")
}

pub fn sigillink_index_path(cache_root: &str, mod_id: &str) -> (r: String)
    ensures
        r@ == paths::joined(index_root(cache_root@), mod_id@ + ".json"@),
{
    let root = sigillink_root(cache_root);
    let name = text::concat2(mod_id, ".json");
    join_path(root.as_str(), name.as_str())
}

/// The stored list, unless it is of another version.
pub fn load_sigillink_index(stored: Option<SigilLinkIndex>) -> (r: Option<SigilLinkIndex>)
    ensures
        r == match stored {
            Some(index) => if index.version == SIGILLINK_VERSION {
                Some(index)
            } else {
                None
            },
            None => None,
        },
{
    match stored {
        Some(index) => if index.version == SIGILLINK_VERSION {
            Some(index)
        } else {
            None
        },
        None => None,
    }
}

} // verus!
