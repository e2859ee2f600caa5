//! The insertion-ordered keyword tables of a profile, kept in `indexmap`
//! maps. What each map holds is named below; the wrappers state, over those
//! names, what `IndexMap::new`, `IndexMap::insert` and
//! `IndexMap::contains_key` do.
use indexmap::IndexMap;
use vstd::prelude::*;

use super::keyword::Keyword;
use super::parser::{Restriction, Severity};

verus! {

#[verifier::external_type_specification]
#[verifier::external_body]
#[verifier::reject_recursive_types(K)]
#[verifier::reject_recursive_types(V)]
#[verifier::reject_recursive_types(S)]
pub struct ExIndexMap<K, V, S>(IndexMap<K, V, S>);

/// The entries of a keyword → severity map, in map order.
pub uninterp spec fn severity_entries(m: IndexMap<Keyword, Severity>) -> Seq<(Keyword, Severity)>;

/// The entries of a keyword → restriction map, in map order.
pub uninterp spec fn restriction_entries(m: IndexMap<Keyword, Restriction>) -> Seq<(Keyword, Restriction)>;

/// The position of the first entry for `k`, or `m.len()` when there is none.
pub open spec fn key_position<V>(m: Seq<(Keyword, V)>, k: Keyword) -> int
    decreases m.len(),
{
    if m.len() == 0 {
        0
    } else if m[0].0 == k {
        0
    } else {
        1 + key_position(m.drop_first(), k)
    }
}

/// `m` holds an entry for `k`.
pub open spec fn has_key<V>(m: Seq<(Keyword, V)>, k: Keyword) -> bool {
    key_position(m, k) < m.len()
}

/// `IndexMap::insert`: an existing entry for `k` keeps its place and takes
/// the new value; otherwise the entry goes to the end.
pub open spec fn entry_insert<V>(m: Seq<(Keyword, V)>, k: Keyword, v: V) -> Seq<(Keyword, V)> {
    if has_key(m, k) {
        m.update(key_position(m, k), (k, v))
    } else {
        m.push((k, v))
    }
}

pub proof fn lemma_key_position_bounds<V>(m: Seq<(Keyword, V)>, k: Keyword)
    ensures
        0 <= key_position(m, k) <= m.len(),
        key_position(m, k) < m.len() ==> m[key_position(m, k)].0 == k,
        forall|j: int| 0 <= j < key_position(m, k) ==> m[j].0 != k,
    decreases m.len(),
{
    if m.len() > 0 && m[0].0 != k {
        lemma_key_position_bounds(m.drop_first(), k);
        assert forall|j: int| 0 <= j < key_position(m, k) implies m[j].0 != k by {
            if j > 0 {
                assert(m[j] == m.drop_first()[j - 1]);
            }
        }
    }
}

/// `IndexMap::new` for severities: the map is empty.
#[verifier::external_body]
pub(crate) fn new_severity_map() -> (m: IndexMap<Keyword, Severity>)
    ensures
        severity_entries(m) == Seq::<(Keyword, Severity)>::empty(),
{
    IndexMap::new()
}

/// `IndexMap::insert` for severities, as `entry_insert` states it.
#[verifier::external_body]
pub(crate) fn insert_severity(m: &mut IndexMap<Keyword, Severity>, k: Keyword, v: Severity)
    ensures
        severity_entries(*final(m)) == entry_insert(severity_entries(*old(m)), k, v),
{
    m.insert(k, v);
}

/// `IndexMap::contains_key` for severities.
#[verifier::external_body]
pub(crate) fn severity_map_has(m: &IndexMap<Keyword, Severity>, k: &Keyword) -> (r: bool)
    ensures
        r == has_key(severity_entries(*m), *k),
{
    m.contains_key(k)
}

/// `IndexMap::new` for restrictions: the map is empty.
#[verifier::external_body]
pub(crate) fn new_restriction_map() -> (m: IndexMap<Keyword, Restriction>)
    ensures
        restriction_entries(m) == Seq::<(Keyword, Restriction)>::empty(),
{
    IndexMap::new()
}

/// `IndexMap::insert` for restrictions, as `entry_insert` states it.
#[verifier::external_body]
pub(crate) fn insert_restriction(m: &mut IndexMap<Keyword, Restriction>, k: Keyword, v: Restriction)
    ensures
        restriction_entries(*final(m)) == entry_insert(restriction_entries(*old(m)), k, v),
{
    m.insert(k, v);
}

} // verus!
