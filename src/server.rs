use vstd::prelude::*;
use crate::tree::{Node, build_index, tree_index};
use crate::wire::{encode_index, entry_views, json_object_bytes};
use crate::index::{entries_map, keys_unique};

verus! {

/// Status of a reply that carries what was asked for.
pub const STATUS_OK: u16 = 200;

/// Status of a reply for a path that names no regular file.
pub const STATUS_NOT_FOUND: u16 = 404;

/// Status of a reply when the server failed to do its work.
pub const STATUS_SERVER_ERROR: u16 = 500;

/// A reply of the server: a status code and the bytes of the body.
pub struct Reply {
    pub status: u16,
    pub body: Vec<u8>,
}

/// Whether a status code reports success (the 2xx class).
pub open spec fn spec_is_success(status: u16) -> bool {
    200 <= status && status < 300
}

/// Whether a status code reports success (the 2xx class).
pub fn is_success(status: u16) -> (r: bool)
    ensures
        r == spec_is_success(status),
{
    200 <= status && status < 300
}

/// Whether a request's `action` query selects the listing of hashes rather
/// than the bytes of a file.
pub fn wants_index(action: &Option<String>) -> (r: bool)
    ensures
        r == (action is Some && action->0@ == "hashes"@),
{
    match action {
        Some(a) => {
            let selector = String::from_str("hashes");
            *a == selector
        },
        None => false,
    }
}

/// What the server found when it looked for a requested file under its
/// root.
pub enum FileLookup {
    /// No regular file is at that path.
    Missing,
    /// A regular file is there but could not be opened.
    OpenFailed,
    /// The file was opened but reading it failed.
    ReadFailed,
    /// The file's full contents.
    Contents(Vec<u8>),
}

/// The reply to a request for a file's bytes.
pub fn transfer_reply(lookup: FileLookup) -> (r: Reply)
    ensures
        match lookup {
            FileLookup::Missing => r.status == STATUS_NOT_FOUND && r.body@.len() == 0,
            FileLookup::OpenFailed => r.status == STATUS_SERVER_ERROR,
            FileLookup::ReadFailed => r.status == STATUS_SERVER_ERROR,
            FileLookup::Contents(bytes) => r.status == STATUS_OK && r.body@ == bytes@,
        },
{
    match lookup {
        FileLookup::Missing => Reply { status: STATUS_NOT_FOUND, body: Vec::new() },
        FileLookup::OpenFailed => Reply {
            status: STATUS_SERVER_ERROR,
            body: vstd::slice::slice_to_vec("File open error".as_bytes()),
        },
        FileLookup::ReadFailed => Reply {
            status: STATUS_SERVER_ERROR,
            body: vstd::slice::slice_to_vec("File read error".as_bytes()),
        },
        FileLookup::Contents(bytes) => Reply { status: STATUS_OK, body: bytes },
    }
}

/// The reply to a request for the listing of hashes, given the server's
/// tree, or `None` where reading the tree failed: the tree's index as a JSON
/// object, or a server error with no index.
pub fn index_reply(tree: Option<&Vec<Node>>) -> (r: Reply)
    ensures
        tree is None ==> r.status == STATUS_SERVER_ERROR,
        tree is Some ==> r.status == STATUS_OK && exists|s: Seq<(String, String)>|
            keys_unique(s) && entries_map(s) == tree_index(tree->0@) && r.body@ == json_object_bytes(
                #[trigger] entry_views(s),
            ),
{
    match tree {
        Some(root) => {
            let index = build_index(root);
            Reply { status: STATUS_OK, body: encode_index(&index) }
        },
        None => Reply {
            status: STATUS_SERVER_ERROR,
            body: vstd::slice::slice_to_vec("Error calculating hashes".as_bytes()),
        },
    }
}

} // verus!
