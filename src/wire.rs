use vstd::prelude::*;
use crate::index::{FileHashIndex, entries_map, keys_unique};

verus! {

/// The (path, hash) pairs of a list of entries, as character sequences.
pub open spec fn entry_views(s: Seq<(String, String)>) -> Seq<(Seq<char>, Seq<char>)> {
    s.map_values(|e: (String, String)| (e.0@, e.1@))
}

/// The map that a list of (key, value) pairs describes; a later pair for the
/// same key takes the place of an earlier one.
pub open spec fn pairs_map(s: Seq<(Seq<char>, Seq<char>)>) -> Map<Seq<char>, Seq<char>>
    decreases s.len(),
{
    if s.len() == 0 {
        Map::empty()
    } else {
        pairs_map(s.drop_last()).insert(s.last().0, s.last().1)
    }
}

/// The bytes of the JSON object whose members are the given (name, string
/// value) pairs.
pub uninterp spec fn json_object_bytes(members: Seq<(Seq<char>, Seq<char>)>) -> Seq<u8>;

/// The (name, string value) members of the JSON object that `body` holds,
/// each name once, or `None` where `body` is not a JSON object whose member values are all
/// strings.
pub uninterp spec fn json_object_members(body: Seq<u8>) -> Option<Seq<(Seq<char>, Seq<char>)>>;

/// Relies on `serde_json::to_vec`, applied to the entries (whose paths are
/// distinct) gathered in a `BTreeMap`: the bytes of a JSON object with one
/// string member per entry.
#[verifier::external_body]
fn json_object_of(entries: &Vec<(String, String)>) -> (r: Vec<u8>)
    requires
        keys_unique(entries@),
    ensures
        r@ == json_object_bytes(entry_views(entries@)),
{
    let members: std::collections::BTreeMap<&String, &String> = entries.iter().map(|e| (&e.0, &e.1)).collect();
    serde_json::to_vec(&members).unwrap_or_default()
}

/// Relies on `serde_json::from_slice` into a `BTreeMap<String, String>`:
/// `Some` exactly when `body` is a JSON object of string members; a
/// `BTreeMap` holds each key once.
#[verifier::external_body]
fn json_object_from(body: &[u8]) -> (r: Option<Vec<(String, String)>>)
    ensures
        r is Some <==> json_object_members(body@) is Some,
        r is Some ==> entry_views(r->0@) == json_object_members(body@)->0 && keys_unique(r->0@),
{
    serde_json::from_slice::<std::collections::BTreeMap<String, String>>(body).ok().map(|m| m.into_iter().collect())
}

proof fn lemma_pairs_map_of_entries(s: Seq<(String, String)>)
    ensures
        pairs_map(entry_views(s)) == entries_map(s),
    decreases s.len(),
{
    if s.len() > 0 {
        assert(entry_views(s).drop_last() =~= entry_views(s.drop_last()));
        lemma_pairs_map_of_entries(s.drop_last());
    }
}

/// The JSON object that carries an index over the wire: one member per path,
/// whose value is the path's hash.
pub fn encode_index(index: &FileHashIndex) -> (r: Vec<u8>)
    requires
        index.wf(),
    ensures
        exists|s: Seq<(String, String)>|
            keys_unique(s) && entries_map(s) == index@ && r@ == json_object_bytes(#[trigger] entry_views(s)),
{
    let entries = index.to_entries();
    let r = json_object_of(&entries);
    proof {
        assert(keys_unique(entries@) && entries_map(entries@) == index@ && r@ == json_object_bytes(entry_views(entries@)));
    }
    r
}

/// The index that a JSON object of string members describes, or `None`
/// where `body` is no such object.
pub fn decode_index(body: &[u8]) -> (r: Option<FileHashIndex>)
    ensures
        r is Some <==> json_object_members(body@) is Some,
        r is Some ==> r->0.wf() && r->0@ == pairs_map(json_object_members(body@)->0),
{
    match json_object_from(body) {
        Some(entries) => {
            proof {
                lemma_pairs_map_of_entries(entries@);
            }
            Some(FileHashIndex::from_entries(entries))
        },
        None => None,
    }
}

} // verus!
