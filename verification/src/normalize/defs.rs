//! The `$defs` / `definitions` lookup table of a normalized schema, kept in
//! an `indexmap` map. What the map holds is named below; the wrappers state,
//! over that name, what `IndexMap::new`, `IndexMap::insert`,
//! `IndexMap::contains_key` and `IndexMap::get` do.
use indexmap::IndexMap;
use vstd::prelude::*;

use crate::normalize::arena::NodeId;

verus! {

/// The entries of a definition table, in map order, each key by its text.
pub uninterp spec fn defs_entries(m: IndexMap<String, NodeId>) -> Seq<(Seq<char>, NodeId)>;

/// The position of the entry for `k`, or `m.len()` when there is none.
pub open spec fn name_position(m: Seq<(Seq<char>, NodeId)>, k: Seq<char>) -> int
    decreases m.len(),
{
    if m.len() == 0 {
        0
    } else if m[0].0 == k {
        0
    } else {
        1 + name_position(m.drop_first(), k)
    }
}

/// `m` holds an entry for `k`.
pub open spec fn has_name(m: Seq<(Seq<char>, NodeId)>, k: Seq<char>) -> bool {
    name_position(m, k) < m.len()
}

/// The node stored for `k`.
pub open spec fn name_lookup(m: Seq<(Seq<char>, NodeId)>, k: Seq<char>) -> Option<NodeId> {
    if has_name(m, k) {
        Some(m[name_position(m, k)].1)
    } else {
        None
    }
}

/// `IndexMap::insert`: an existing entry for `k` keeps its place and takes
/// the new value; otherwise the entry goes to the end.
pub open spec fn name_insert(m: Seq<(Seq<char>, NodeId)>, k: Seq<char>, v: NodeId) -> Seq<(Seq<char>, NodeId)> {
    if has_name(m, k) {
        m.update(name_position(m, k), (k, v))
    } else {
        m.push((k, v))
    }
}

/// `IndexMap::new`: the table is empty.
#[verifier::external_body]
pub(crate) fn new_defs_map() -> (m: IndexMap<String, NodeId>)
    ensures
        defs_entries(m) == Seq::<(Seq<char>, NodeId)>::empty(),
{
    IndexMap::new()
}

/// `IndexMap::insert`, as `name_insert` states it.
#[verifier::external_body]
pub(crate) fn insert_def(m: &mut IndexMap<String, NodeId>, k: String, v: NodeId)
    ensures
        defs_entries(*final(m)) == name_insert(defs_entries(*old(m)), k@, v),
{
    m.insert(k, v);
}

/// `IndexMap::contains_key`.
#[verifier::external_body]
pub(crate) fn defs_has(m: &IndexMap<String, NodeId>, k: &str) -> (r: bool)
    ensures
        r == has_name(defs_entries(*m), k@),
{
    m.contains_key(k)
}

/// `IndexMap::get`, the id copied out.
#[verifier::external_body]
pub(crate) fn defs_get(m: &IndexMap<String, NodeId>, k: &str) -> (r: Option<NodeId>)
    ensures
        r == name_lookup(defs_entries(*m), k@),
{
    m.get(k).copied()
}

/// The ids of the table's entries, in map order.
pub open spec fn entry_ids(m: Seq<(Seq<char>, NodeId)>) -> Seq<NodeId> {
    Seq::new(m.len(), |i: int| m[i].1)
}

/// `IndexMap::values`, the ids copied out in map order.
#[verifier::external_body]
pub(crate) fn defs_ids(m: &IndexMap<String, NodeId>) -> (r: Vec<NodeId>)
    ensures
        r@ == entry_ids(defs_entries(*m)),
{
    m.values().copied().collect()
}

} // verus!
