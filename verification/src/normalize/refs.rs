//! Resolving `$ref` edges, and finding the nodes that lie on reference cycles.
use indexmap::IndexMap;
use vstd::prelude::*;

use crate::json::{json_get, object_get, JsonModel, JsonValue};
use crate::normalize::arena::{id_at, Arena, NodeId, NodeModel};
use crate::normalize::defs::{defs_entries, defs_get, defs_ids, entry_ids, name_lookup};
use crate::normalize::error::{NormalizeError, NormalizeFault};
use crate::text::{chars_of, concat2, has_prefix, owned, starts_with_chars, string_from_chars, sub_chars};

verus! {

/// What `percent_encoding::percent_decode_str(..).decode_utf8()` makes of a
/// text: the decoded text, or the text of the UTF-8 error.
pub uninterp spec fn percent_decoded(s: Seq<char>) -> Result<Seq<char>, Seq<char>>;

/// Percent-decode a text and read the bytes as UTF-8, with `percent_encoding`.
/// The contract claims only that the outcome is a function of the text,
/// named `percent_decoded`.
#[verifier::external_body]
fn percent_decode_text(s: &str) -> (r: Result<String, String>)
    ensures
        match r {
            Ok(d) => percent_decoded(s@) == Ok::<Seq<char>, Seq<char>>(d@),
            Err(e) => percent_decoded(s@) == Err::<Seq<char>, Seq<char>>(e@),
        },
{
    match percent_encoding::percent_decode_str(s).decode_utf8() {
        Ok(d) => Ok(d.into_owned()),
        Err(e) => Err(e.to_string()),
    }
}

/// The `$ref` text of a node, when it has one.
pub open spec fn ref_of(n: NodeModel) -> Option<Seq<char>> {
    match json_get(n.keywords, "$ref"@) {
        Some(JsonModel::Str(r)) => Some(r),
        _ => None,
    }
}

/// A reference outside the document: a URL or an absolute path.
pub open spec fn external_ref(r: Seq<char>) -> bool {
    has_prefix(r, "http://"@) || has_prefix(r, "https://"@) || has_prefix(r, "/"@)
}

/// What a `$ref` resolves to: after its `#` and percent-decoding, a
/// `/$defs/<name>` or `/definitions/<name>` pointer names a definition;
/// anything else resolves to nothing. Undecodable text is an error.
pub open spec fn ref_target_of(r: Seq<char>, defs: Seq<(Seq<char>, NodeId)>) -> Result<Option<NodeId>, Seq<char>> {
    let p = if r.len() > 0 && r[0] == '#' { r.drop_first() } else { r };
    match percent_decoded(p) {
        Err(e) => Err("invalid percent-encoding in $ref: "@ + e),
        Ok(d) => if has_prefix(d, "/$defs/"@) {
            Ok(name_lookup(defs, d.skip(7)))
        } else if has_prefix(d, "/definitions/"@) {
            Ok(name_lookup(defs, d.skip(13)))
        } else {
            Ok(None)
        },
    }
}

/// What the `$ref` of a node resolves to; nothing for a node without one.
pub open spec fn node_resolution(n: NodeModel, defs: Seq<(Seq<char>, NodeId)>) -> Result<Option<NodeId>, Seq<char>> {
    match ref_of(n) {
        Some(r) => ref_target_of(r, defs),
        None => Ok(None),
    }
}

/// The first reference among the first `n` nodes that cannot be decoded.
pub open spec fn first_bad_ref(a: Seq<NodeModel>, defs: Seq<(Seq<char>, NodeId)>, n: int) -> Option<Seq<char>>
    decreases n,
{
    if n <= 0 {
        None
    } else {
        match first_bad_ref(a, defs, n - 1) {
            Some(m) => Some(m),
            None => match node_resolution(a[n - 1], defs) {
                Err(m) => Some(m),
                Ok(_) => None,
            },
        }
    }
}

/// The resolved edges among the first `n` nodes, from the referring node to
/// its target.
pub open spec fn ref_edges(a: Seq<NodeModel>, defs: Seq<(Seq<char>, NodeId)>, n: int) -> Seq<(NodeId, NodeId)>
    decreases n,
{
    if n <= 0 {
        Seq::empty()
    } else {
        ref_edges(a, defs, n - 1) + match node_resolution(a[n - 1], defs) {
            Ok(Some(t)) => seq![(id_at(n - 1), t)],
            _ => Seq::empty(),
        }
    }
}

/// The first internal reference among the first `n` nodes that resolves to
/// nothing.
pub open spec fn first_unresolved(a: Seq<NodeModel>, defs: Seq<(Seq<char>, NodeId)>, n: int) -> Option<Seq<char>>
    decreases n,
{
    if n <= 0 {
        None
    } else {
        match first_unresolved(a, defs, n - 1) {
            Some(r) => Some(r),
            None => match (ref_of(a[n - 1]), node_resolution(a[n - 1], defs)) {
                (Some(r), Ok(None)) => if external_ref(r) {
                    None
                } else {
                    Some(r)
                },
                _ => None,
            },
        }
    }
}

/// The arena with each resolved reference's target recorded.
pub open spec fn with_targets(a: Seq<NodeModel>, defs: Seq<(Seq<char>, NodeId)>) -> Seq<NodeModel> {
    Seq::new(
        a.len(),
        |i: int|
            match node_resolution(a[i], defs) {
                Ok(Some(t)) => NodeModel { ref_target: Some(t), ..a[i] },
                _ => a[i],
            },
    )
}

fn ref_text(arena: &Arena, id: NodeId) -> (r: Option<String>)
    requires
        (id.0 as int) < arena@.len(),
    ensures
        match r {
            Some(s) => ref_of(arena@[id.0 as int]) == Some(s@),
            None => ref_of(arena@[id.0 as int]) is None,
        },
{
    match object_get(&arena.get(id).keywords, "$ref") {
        Some(JsonValue::String(s)) => Some(owned(s.as_str())),
        _ => None,
    }
}

fn resolve_ref_string(ref_str: &str, defs: &IndexMap<String, NodeId>) -> (r: Result<Option<NodeId>, String>)
    ensures
        match r {
            Ok(t) => ref_target_of(ref_str@, defs_entries(*defs)) == Ok::<Option<NodeId>, Seq<char>>(t),
            Err(e) => ref_target_of(ref_str@, defs_entries(*defs)) == Err::<Option<NodeId>, Seq<char>>(e@),
        },
{
    let c = chars_of(ref_str);
    let p = if c.len() > 0 && c[0] == '#' {
        assert(c@.skip(1) =~= c@.drop_first());
        string_from_chars(&sub_chars(&c, 1, c.len()))
    } else {
        owned(ref_str)
    };
    let decoded = match percent_decode_text(p.as_str()) {
        Ok(d) => d,
        Err(e) => return Err(concat2("invalid percent-encoding in $ref: ", e.as_str())),
    };
    let d = chars_of(decoded.as_str());
    let defs_prefix = chars_of("/$defs/");
    let definitions_prefix = chars_of("/definitions/");
    proof {
        reveal_strlit("/$defs/");
        reveal_strlit("/definitions/");
    }
    if starts_with_chars(&d, &defs_prefix) {
        let name = string_from_chars(&sub_chars(&d, 7, d.len()));
        assert(d@.subrange(7, d.len() as int) =~= d@.skip(7));
        Ok(defs_get(defs, name.as_str()))
    } else if starts_with_chars(&d, &definitions_prefix) {
        let name = string_from_chars(&sub_chars(&d, 13, d.len()));
        assert(d@.subrange(13, d.len() as int) =~= d@.skip(13));
        Ok(defs_get(defs, name.as_str()))
    } else {
        Ok(None)
    }
}

/// Whether a text is an external reference.
fn is_external_ref(r: &str) -> (b: bool)
    ensures
        b == external_ref(r@),
{
    let c = chars_of(r);
    starts_with_chars(&c, &chars_of("http://")) || starts_with_chars(&c, &chars_of("https://")) || starts_with_chars(
        &c,
        &chars_of("/"),
    )
}

/// Resolve internal `$ref` strings to `NodeId` targets.
///
/// Only refs pointing directly to `$defs` or `definitions` entries are
/// resolved; any other internal ref is an error. External refs (http://,
/// https://, absolute paths) are left unresolved.
pub fn resolve_refs(arena: &mut Arena, defs: &IndexMap<String, NodeId>) -> (r: Result<Vec<(NodeId, NodeId)>, NormalizeError>)
    requires
        old(arena)@.len() <= crate::normalize::arena::arena_capacity(),
    ensures
        ({
            let a = old(arena)@;
            let d = defs_entries(*defs);
            let n = a.len() as int;
            match first_bad_ref(a, d, n) {
                Some(m) => r matches Err(e) && e@ == NormalizeFault::ParseError(m),
                None => match first_unresolved(a, d, n) {
                    Some(x) => r matches Err(e) && e@ == NormalizeFault::UnresolvedRef(x),
                    None => r matches Ok(edges) && edges@ == ref_edges(a, d, n) && final(arena)@ == with_targets(a, d),
                },
            }
        }),
{
    let ghost a0 = arena@;
    let ghost d = defs_entries(*defs);
    let n = arena.len();
    let mut edges: Vec<(NodeId, NodeId)> = Vec::new();
    let mut refs: Vec<Option<String>> = Vec::new();
    let mut targets: Vec<Option<NodeId>> = Vec::new();
    let mut i: usize = 0;
    while i < n
        invariant
            i <= n,
            n == a0.len(),
            a0 == old(arena)@,
            n <= crate::normalize::arena::arena_capacity(),
            d == defs_entries(*defs),
            first_bad_ref(a0, d, i as int) is None,
            edges@ == ref_edges(a0, d, i as int),
            refs.len() == i,
            targets.len() == i,
            forall|j: int| 0 <= j < i ==> match #[trigger] refs@[j] {
                Some(s) => ref_of(a0[j]) == Some(s@),
                None => ref_of(a0[j]) is None,
            },
            forall|j: int| 0 <= j < i ==> node_resolution(a0[j], d) == Ok::<Option<NodeId>, Seq<char>>(#[trigger] targets@[j]),
            arena@.len() == n,
            forall|j: int| 0 <= j < i ==> #[trigger] arena@[j] == with_targets(a0, d)[j],
            forall|j: int| i <= j < n ==> #[trigger] arena@[j] == a0[j],
        decreases n - i,
    {
        let id = NodeId(i as u32);
        assert(id_at(i as int) == id);
        let r = ref_text(arena, id);
        let resolved = match &r {
            Some(s) => match resolve_ref_string(s.as_str(), defs) {
                Ok(t) => t,
                Err(m) => {
                    proof {
                        assert(arena@[i as int] == a0[i as int]);
                        assert(node_resolution(a0[i as int], d) == Err::<Option<NodeId>, Seq<char>>(m@));
                        assert(first_bad_ref(a0, d, i as int + 1) == Some(m@));
                        lemma_bad_ref_sticks(a0, d, i as int + 1, n as int);
                    }
                    return Err(NormalizeError::ParseError(m));
                },
            },
            None => None,
        };
        assert(arena@[i as int] == a0[i as int]);
        assert(node_resolution(a0[i as int], d) == Ok::<Option<NodeId>, Seq<char>>(resolved));
        match resolved {
            Some(t) => {
                arena.set_ref_target(id, Some(t));
                edges.push((id, t));
            },
            None => {},
        }
        assert(edges@ =~= ref_edges(a0, d, i as int + 1));
        refs.push(r);
        targets.push(resolved);
        i = i + 1;
    }
    proof {
        assert(arena@ =~= with_targets(a0, d));
    }
    let mut j: usize = 0;
    while j < n
        invariant
            j <= n,
            n == a0.len(),
            a0 == old(arena)@,
            d == defs_entries(*defs),
            first_bad_ref(a0, d, n as int) is None,
            arena@ == with_targets(a0, d),
            edges@ == ref_edges(a0, d, n as int),
            refs.len() == n,
            targets.len() == n,
            forall|k: int| 0 <= k < n ==> match #[trigger] refs@[k] {
                Some(s) => ref_of(a0[k]) == Some(s@),
                None => ref_of(a0[k]) is None,
            },
            forall|k: int| 0 <= k < n ==> node_resolution(a0[k], d) == Ok::<Option<NodeId>, Seq<char>>(#[trigger] targets@[k]),
            first_unresolved(a0, d, j as int) is None,
        decreases n - j,
    {
        match (&refs[j], targets[j]) {
            (Some(s), None) => {
                if !is_external_ref(s.as_str()) {
                    proof {
                        assert(first_unresolved(a0, d, j as int + 1) == Some(s@));
                        lemma_unresolved_sticks(a0, d, j as int + 1, n as int);
                    }
                    return Err(NormalizeError::UnresolvedRef(owned(s.as_str())));
                }
            },
            _ => {},
        }
        j = j + 1;
    }
    Ok(edges)
}

proof fn lemma_bad_ref_sticks(a: Seq<NodeModel>, d: Seq<(Seq<char>, NodeId)>, i: int, n: int)
    requires
        0 <= i <= n,
        first_bad_ref(a, d, i) is Some,
    ensures
        first_bad_ref(a, d, n) == first_bad_ref(a, d, i),
    decreases n - i,
{
    if i < n {
        lemma_bad_ref_sticks(a, d, i + 1, n);
    }
}

proof fn lemma_unresolved_sticks(a: Seq<NodeModel>, d: Seq<(Seq<char>, NodeId)>, i: int, n: int)
    requires
        0 <= i <= n,
        first_unresolved(a, d, i) is Some,
    ensures
        first_unresolved(a, d, n) == first_unresolved(a, d, i),
    decreases n - i,
{
    if i < n {
        lemma_unresolved_sticks(a, d, i + 1, n);
    }
}

/// The edge a resolved reference of node `i` makes for cycle detection: from
/// the schema that owns the reference (the definition itself, or else the
/// node's parent) to the target.
pub open spec fn owner_edge(a: Seq<NodeModel>, defs: Seq<NodeId>, i: int) -> Seq<(NodeId, NodeId)> {
    match a[i].ref_target {
        Some(t) => {
            let source = if defs.contains(id_at(i)) {
                id_at(i)
            } else {
                match a[i].parent {
                    Some(p) => p,
                    None => id_at(i),
                }
            };
            seq![(source, t)]
        },
        None => Seq::empty(),
    }
}

/// The owner edges of the first `n` nodes, in order.
pub open spec fn owner_edges(a: Seq<NodeModel>, defs: Seq<NodeId>, n: int) -> Seq<(NodeId, NodeId)>
    decreases n,
{
    if n <= 0 {
        Seq::empty()
    } else {
        owner_edges(a, defs, n - 1) + owner_edge(a, defs, n - 1)
    }
}

fn contains_id(ids: &Vec<NodeId>, x: NodeId) -> (r: bool)
    ensures
        r == ids@.contains(x),
{
    let mut i: usize = 0;
    while i < ids.len()
        invariant
            i <= ids.len(),
            forall|j: int| 0 <= j < i ==> ids@[j] != x,
        decreases ids.len() - i,
    {
        if ids[i] == x {
            assert(ids@[i as int] == x);
            return true;
        }
        i = i + 1;
    }
    false
}

/// Build transitive ref edges for cycle detection: for every resolved
/// `$ref` node, an edge from the schema that owns the reference to the
/// target.
pub fn transitive_ref_edges(arena: &Arena, defs: &IndexMap<String, NodeId>) -> (r: Vec<(NodeId, NodeId)>)
    requires
        arena@.len() <= crate::normalize::arena::arena_capacity(),
    ensures
        r@ == owner_edges(arena@, entry_ids(defs_entries(*defs)), arena@.len() as int),
{
    let def_ids = defs_ids(defs);
    let n = arena.len();
    let mut edges: Vec<(NodeId, NodeId)> = Vec::new();
    let mut i: usize = 0;
    while i < n
        invariant
            i <= n,
            n == arena@.len(),
            n <= crate::normalize::arena::arena_capacity(),
            def_ids@ == entry_ids(defs_entries(*defs)),
            edges@ == owner_edges(arena@, def_ids@, i as int),
        decreases n - i,
    {
        let id = NodeId(i as u32);
        assert(id_at(i as int) == id);
        let node = arena.get(id);
        match node.ref_target {
            Some(t) => {
                let source = if contains_id(&def_ids, id) {
                    id
                } else {
                    match node.parent {
                        Some(p) => p,
                        None => id,
                    }
                };
                edges.push((source, t));
            },
            None => {},
        }
        assert(edges@ =~= owner_edges(arena@, def_ids@, i as int + 1));
        i = i + 1;
    }
    edges
}

// ---------------------------------------------------------------------------
// Tarjan SCC
// ---------------------------------------------------------------------------

/// How many nodes have not been visited yet.
pub open spec fn unvisited(indices: Seq<Option<usize>>) -> nat
    decreases indices.len(),
{
    if indices.len() == 0 {
        0
    } else {
        unvisited(indices.drop_last()) + if indices.last() is None { 1nat } else { 0nat }
    }
}

proof fn lemma_unvisited_update(s: Seq<Option<usize>>, i: int, x: usize)
    requires
        0 <= i < s.len(),
        s[i] is None,
    ensures
        unvisited(s.update(i, Some(x))) + 1 == unvisited(s),
    decreases s.len(),
{
    let t = s.update(i, Some(x));
    if i < s.len() - 1 {
        assert(t.drop_last() =~= s.drop_last().update(i, Some(x)));
        lemma_unvisited_update(s.drop_last(), i, x);
    } else {
        assert(t.drop_last() =~= s.drop_last());
    }
}

proof fn lemma_unvisited_bound(s: Seq<Option<usize>>)
    ensures
        unvisited(s) <= s.len(),
    decreases s.len(),
{
    if s.len() > 0 {
        lemma_unvisited_bound(s.drop_last());
    }
}

/// The bookkeeping of Tarjan's search over `n` nodes.
pub open spec fn search_ok(
    n: int,
    adj: Seq<Vec<usize>>,
    index: usize,
    stack: Seq<usize>,
    on_stack: Seq<bool>,
    indices: Seq<Option<usize>>,
    lowlinks: Seq<usize>,
    sccs: Seq<Vec<usize>>,
) -> bool {
    &&& adj.len() == n && on_stack.len() == n && indices.len() == n && lowlinks.len() == n
    &&& forall|v: int, k: int| 0 <= v < n && 0 <= k < adj[v]@.len() ==> (#[trigger] adj[v]@[k]) < n
    &&& index + unvisited(indices) <= n
    &&& forall|x: int| 0 <= x < n && #[trigger] on_stack[x] ==> indices[x] is Some
    &&& forall|k: int| 0 <= k < stack.len() ==> (#[trigger] stack[k]) < n
    &&& forall|c: int, k: int| 0 <= c < sccs.len() && 0 <= k < sccs[c]@.len() ==> (#[trigger] sccs[c]@[k]) < n
}

/// Node `x` belongs to one of the components found so far.
pub open spec fn in_some_scc(sccs: Seq<Vec<usize>>, x: usize) -> bool {
    exists|c: int, k: int| 0 <= c < sccs.len() && 0 <= k < sccs[c]@.len() && sccs[c]@[k] == x
}

/// The stack discipline of Tarjan's search: indices are handed out in
/// increasing order, the stack holds distinct visited nodes whose indices
/// are at least that of its bottom, `on_stack` says exactly which nodes are
/// on it, and every visited node off the stack has found its component.
pub open spec fn stack_ok(
    n: int,
    index: usize,
    stack: Seq<usize>,
    on_stack: Seq<bool>,
    indices: Seq<Option<usize>>,
    sccs: Seq<Vec<usize>>,
) -> bool {
    &&& forall|x: int| 0 <= x < n && (#[trigger] indices[x]) is Some ==> indices[x]->Some_0 < index
    &&& forall|k: int| 0 <= k < stack.len() ==> indices[#[trigger] stack[k] as int] is Some
        && indices[stack[k] as int]->Some_0 >= indices[stack[0] as int]->Some_0
    &&& forall|j: int, k: int| 0 <= j < k < stack.len() ==> (#[trigger] stack[j]) != (#[trigger] stack[k])
    &&& forall|j: int, k: int| 0 <= j < k < stack.len()
        ==> indices[#[trigger] stack[j] as int]->Some_0 < indices[#[trigger] stack[k] as int]->Some_0
    &&& forall|x: int| 0 <= x < n ==> (#[trigger] on_stack[x] <==> stack.contains(x as usize))
    &&& forall|x: int| 0 <= x < n && (#[trigger] indices[x]) is Some && !on_stack[x] ==> in_some_scc(sccs, x as usize)
}

/// Step `i` of the walk `p` follows an adjacency list of `adj`.
pub open spec fn adj_step(adj: Seq<Vec<usize>>, p: Seq<int>, i: int) -> bool {
    adj[p[i]]@.contains(p[i + 1] as usize)
}

/// `p` walks along the adjacency lists of `adj`.
pub open spec fn adj_walk(adj: Seq<Vec<usize>>, p: Seq<int>) -> bool {
    &&& p.len() >= 1
    &&& forall|i: int| 0 <= i < p.len() ==> 0 <= #[trigger] p[i] < adj.len()
    &&& forall|i: int| 0 <= i < p.len() - 1 ==> #[trigger] adj_step(adj, p, i)
}

/// Node `b` can be reached from node `a`.
pub open spec fn reaches(adj: Seq<Vec<usize>>, a: int, b: int) -> bool {
    exists|p: Seq<int>| #[trigger] adj_walk(adj, p) && p[0] == a && p[p.len() - 1] == b
}

/// Node `x` lies on a cycle of `adj`.
pub open spec fn on_adj_cycle(adj: Seq<Vec<usize>>, x: int) -> bool {
    exists|p: Seq<int>| #[trigger] adj_walk(adj, p) && p.len() >= 2 && p[0] == x && p[p.len() - 1] == x
}

proof fn lemma_reach_refl(adj: Seq<Vec<usize>>, a: int)
    requires
        0 <= a < adj.len(),
    ensures
        reaches(adj, a, a),
{
    let p = seq![a];
    assert(adj_walk(adj, p));
}

proof fn lemma_reach_edge(adj: Seq<Vec<usize>>, a: int, b: int)
    requires
        0 <= a < adj.len(),
        0 <= b < adj.len(),
        adj[a]@.contains(b as usize),
    ensures
        reaches(adj, a, b),
{
    let p = seq![a, b];
    assert(adj_step(adj, p, 0));
    assert(adj_walk(adj, p));
}

proof fn lemma_walk_join(adj: Seq<Vec<usize>>, p1: Seq<int>, p2: Seq<int>)
    requires
        adj_walk(adj, p1),
        adj_walk(adj, p2),
        p1[p1.len() - 1] == p2[0],
    ensures
        adj_walk(adj, p1 + p2.skip(1)),
        (p1 + p2.skip(1)).len() == p1.len() + p2.len() - 1,
        (p1 + p2.skip(1))[0] == p1[0],
        (p1 + p2.skip(1))[(p1 + p2.skip(1)).len() - 1] == p2[p2.len() - 1],
{
    let q = p1 + p2.skip(1);
    assert forall|i: int| 0 <= i < q.len() implies 0 <= #[trigger] q[i] < adj.len() by {
        if i < p1.len() {
            assert(q[i] == p1[i]);
        } else {
            assert(q[i] == p2[i - p1.len() + 1]);
        }
    }
    assert forall|i: int| 0 <= i < q.len() - 1 implies #[trigger] adj_step(adj, q, i) by {
        if i < p1.len() - 1 {
            assert(adj_step(adj, p1, i));
            assert(q[i] == p1[i] && q[i + 1] == p1[i + 1]);
        } else if i == p1.len() - 1 {
            assert(adj_step(adj, p2, 0));
            assert(q[i] == p1[i] && q[i + 1] == p2[1]);
        } else {
            let j = i - p1.len() + 1;
            assert(adj_step(adj, p2, j));
            assert(q[i] == p2[j] && q[i + 1] == p2[j + 1]);
        }
    }
    if p2.len() == 1 {
        assert(q =~= p1);
    } else {
        assert(q[q.len() - 1] == p2[p2.len() - 1]);
    }
}

proof fn lemma_reach_trans(adj: Seq<Vec<usize>>, a: int, b: int, c: int)
    requires
        reaches(adj, a, b),
        reaches(adj, b, c),
    ensures
        reaches(adj, a, c),
{
    let p1 = choose|p: Seq<int>| #[trigger] adj_walk(adj, p) && p[0] == a && p[p.len() - 1] == b;
    let p2 = choose|p: Seq<int>| #[trigger] adj_walk(adj, p) && p[0] == b && p[p.len() - 1] == c;
    lemma_walk_join(adj, p1, p2);
}

proof fn lemma_cycle_through(adj: Seq<Vec<usize>>, x: int, z: int)
    requires
        x != z,
        reaches(adj, x, z),
        reaches(adj, z, x),
    ensures
        on_adj_cycle(adj, x),
{
    let p1 = choose|p: Seq<int>| #[trigger] adj_walk(adj, p) && p[0] == x && p[p.len() - 1] == z;
    let p2 = choose|p: Seq<int>| #[trigger] adj_walk(adj, p) && p[0] == z && p[p.len() - 1] == x;
    lemma_walk_join(adj, p1, p2);
    assert(p1.len() >= 2);
}

/// A low-link witness: `x` reaches a node on the stack whose index is the
/// lowlink of `x`.
pub open spec fn low_witnessed(
    adj: Seq<Vec<usize>>,
    stack: Seq<usize>,
    indices: Seq<Option<usize>>,
    lowlinks: Seq<usize>,
    x: int,
) -> bool {
    exists|q: int| 0 <= q < stack.len() && indices[stack[q] as int]->Some_0 == lowlinks[x]
        && #[trigger] reaches(adj, x, stack[q] as int)
}

/// Reachability on the stack: a node reaches every node above it, each node
/// reaches a stack node with its lowlink as index, and no lowlink exceeds
/// its node's index.
pub open spec fn reach_ok(
    adj: Seq<Vec<usize>>,
    stack: Seq<usize>,
    indices: Seq<Option<usize>>,
    lowlinks: Seq<usize>,
) -> bool {
    &&& forall|i: int, j: int| 0 <= i < j < stack.len() ==> #[trigger] reaches(adj, stack[i] as int, stack[j] as int)
    &&& forall|j: int| 0 <= j < stack.len() ==> #[trigger] low_witnessed(adj, stack, indices, lowlinks, stack[j] as int)
    &&& forall|j: int| 0 <= j < stack.len() ==> lowlinks[#[trigger] stack[j] as int] <= indices[stack[j] as int]->Some_0
}

/// With every node above position `base` off its own component root, each
/// node from `base` up reaches the node at `base`.
proof fn lemma_reaches_base(
    adj: Seq<Vec<usize>>,
    n: int,
    index: usize,
    stack: Seq<usize>,
    on_stack: Seq<bool>,
    indices: Seq<Option<usize>>,
    lowlinks: Seq<usize>,
    sccs: Seq<Vec<usize>>,
    base: int,
    j: int,
)
    requires
        stack_ok(n, index, stack, on_stack, indices, sccs),
        reach_ok(adj, stack, indices, lowlinks),
        adj.len() == n,
        forall|k: int| 0 <= k < stack.len() ==> (#[trigger] stack[k]) < n,
        0 <= base <= j < stack.len(),
        forall|t: int| base < t < stack.len() ==> lowlinks[#[trigger] stack[t] as int] < indices[stack[t] as int]->Some_0,
    ensures
        reaches(adj, stack[j] as int, stack[base] as int),
    decreases j,
{
    if j == base {
        lemma_reach_refl(adj, stack[j] as int);
    } else {
        let x = stack[j] as int;
        assert(low_witnessed(adj, stack, indices, lowlinks, x));
        let q = choose|q: int| 0 <= q < stack.len() && indices[stack[q] as int]->Some_0 == lowlinks[x]
            && #[trigger] reaches(adj, x, stack[q] as int);
        assert(lowlinks[stack[j] as int] < indices[stack[j] as int]->Some_0);
        if q >= j {
            if q > j {
                assert(indices[stack[j] as int]->Some_0 < indices[stack[q] as int]->Some_0);
            }
            assert(false);
        }
        if q >= base {
            lemma_reaches_base(adj, n, index, stack, on_stack, indices, lowlinks, sccs, base, q);
            lemma_reach_trans(adj, x, stack[q] as int, stack[base] as int);
        } else {
            assert(reaches(adj, stack[q] as int, stack[base] as int));
            lemma_reach_trans(adj, x, stack[q] as int, stack[base] as int);
        }
    }
}

/// Node `x` belongs to component `c`.
pub open spec fn in_scc_at(sccs: Seq<Vec<usize>>, x: usize, c: int) -> bool {
    exists|k: int| 0 <= k < sccs[c]@.len() && sccs[c]@[k] == x
}

/// The components found so far: their nodes are visited and off the stack,
/// no node is in two of them, and every successor of a node of a component
/// lies in that component or in one found before it.
pub open spec fn scc_ok(
    adj: Seq<Vec<usize>>,
    on_stack: Seq<bool>,
    indices: Seq<Option<usize>>,
    sccs: Seq<Vec<usize>>,
) -> bool {
    &&& forall|c: int, k: int| 0 <= c < sccs.len() && 0 <= k < sccs[c]@.len()
        ==> indices[(#[trigger] sccs[c]@[k]) as int] is Some && !on_stack[sccs[c]@[k] as int]
    &&& forall|c1: int, k1: int, c2: int, k2: int|
        0 <= c1 < sccs.len() && 0 <= k1 < sccs[c1]@.len() && 0 <= c2 < sccs.len() && 0 <= k2 < sccs[c2]@.len()
        && #[trigger] sccs[c1]@[k1] == #[trigger] sccs[c2]@[k2] ==> c1 == c2
    &&& forall|c: int, k: int, e: int|
        0 <= c < sccs.len() && 0 <= k < sccs[c]@.len() && 0 <= e < adj[sccs[c]@[k] as int]@.len()
        ==> #[trigger] closed_before(sccs, adj[sccs[c]@[k] as int]@[e], c)
    &&& forall|c: int, k: int| 0 <= c < sccs.len() && 0 <= k < sccs[c]@.len() && sccs[c]@.len() > 1
        ==> on_adj_cycle(adj, #[trigger] sccs[c]@[k] as int)
}

/// Node `y` lies in component `c` or in one found before it.
pub open spec fn closed_before(sccs: Seq<Vec<usize>>, y: usize, c: int) -> bool {
    exists|c2: int| 0 <= c2 <= c && #[trigger] in_scc_at(sccs, y, c2)
}

/// Every successor of `x` is visited, and one still on the stack has an
/// index no smaller than the lowlink of `x`.
pub open spec fn edges_done(
    adj: Seq<Vec<usize>>,
    on_stack: Seq<bool>,
    indices: Seq<Option<usize>>,
    lowlinks: Seq<usize>,
    x: int,
) -> bool {
    forall|e: int| 0 <= e < adj[x]@.len() ==> edge_done(on_stack, indices, lowlinks, x, #[trigger] adj[x]@[e])
}

/// The edge from `x` to `y` has been followed.
pub open spec fn edge_done(on_stack: Seq<bool>, indices: Seq<Option<usize>>, lowlinks: Seq<usize>, x: int, y: usize) -> bool {
    indices[y as int] is Some && (on_stack[y as int] ==> lowlinks[x] <= indices[y as int]->Some_0)
}

proof fn lemma_edge_done_stable(
    n: int,
    on1: Seq<bool>,
    i1: Seq<Option<usize>>,
    l1: Seq<usize>,
    on2: Seq<bool>,
    i2: Seq<Option<usize>>,
    l2: Seq<usize>,
    x: int,
    y: usize,
)
    requires
        0 <= x < n,
        (y as int) < n,
        edge_done(on1, i1, l1, x, y),
        i1[x] is Some,
        i1[y as int] is Some ==> i2[y as int] == i1[y as int],
        i1[x] is Some ==> l2[x] == l1[x],
        i1[y as int] is Some && on2[y as int] ==> on1[y as int],
    ensures
        edge_done(on2, i2, l2, x, y),
{
}

#[verifier::rlimit(100)]
#[verifier::spinoff_prover]
fn strongconnect(
    v: usize,
    adj: &Vec<Vec<usize>>,
    index: &mut usize,
    stack: &mut Vec<usize>,
    on_stack: &mut Vec<bool>,
    indices: &mut Vec<Option<usize>>,
    lowlinks: &mut Vec<usize>,
    sccs: &mut Vec<Vec<usize>>,
)
    requires
        (v as int) < adj.len(),
        old(indices)@[v as int] is None,
        search_ok(adj.len() as int, adj@, *old(index), old(stack)@, old(on_stack)@, old(indices)@, old(lowlinks)@, old(sccs)@),
        stack_ok(adj.len() as int, *old(index), old(stack)@, old(on_stack)@, old(indices)@, old(sccs)@),
        scc_ok(adj@, old(on_stack)@, old(indices)@, old(sccs)@),
        reach_ok(adj@, old(stack)@, old(indices)@, old(lowlinks)@),
        forall|i: int| 0 <= i < old(stack)@.len() ==> #[trigger] reaches(adj@, old(stack)@[i] as int, v as int),
    ensures
        reach_ok(adj@, final(stack)@, final(indices)@, final(lowlinks)@),
        forall|j: int| old(stack)@.len() <= j < final(stack)@.len()
            ==> final(lowlinks)@[#[trigger] final(stack)@[j] as int] < final(indices)@[final(stack)@[j] as int]->Some_0,
        final(indices)@[v as int] == Some(*old(index)),
        final(stack)@.len() > old(stack)@.len() ==> final(stack)@[old(stack)@.len() as int] == v,
        final(stack)@.len() == old(stack)@.len() ==> final(lowlinks)@[v as int] == final(indices)@[v as int]->Some_0,
        search_ok(adj.len() as int, adj@, *final(index), final(stack)@, final(on_stack)@, final(indices)@, final(lowlinks)@, final(sccs)@),
        stack_ok(adj.len() as int, *final(index), final(stack)@, final(on_stack)@, final(indices)@, final(sccs)@),
        scc_ok(adj@, final(on_stack)@, final(indices)@, final(sccs)@),
        final(lowlinks)@[v as int] <= final(indices)@[v as int]->Some_0,
        forall|x: int| 0 <= x < adj.len() && (#[trigger] old(indices)@[x]) is None && final(indices)@[x] is Some
            ==> edges_done(adj@, final(on_stack)@, final(indices)@, final(lowlinks)@, x),
        forall|y: int| 0 <= y < adj.len() && (#[trigger] old(indices)@[y]) is Some && final(on_stack)@[y] ==> old(on_stack)@[y],
        forall|j: int| old(stack)@.len() <= j < final(stack)@.len()
            ==> final(lowlinks)@[v as int] <= final(lowlinks)@[#[trigger] final(stack)@[j] as int],
        *old(index) <= *final(index),
        final(indices)@[v as int] is Some,
        unvisited(final(indices)@) < unvisited(old(indices)@),
        forall|x: int| 0 <= x < adj.len() && (#[trigger] old(indices)@[x]) is Some ==> final(indices)@[x] is Some,
        forall|x: int| 0 <= x < adj.len() && (#[trigger] old(indices)@[x]) is Some
            ==> final(indices)@[x] == old(indices)@[x] && final(lowlinks)@[x] == old(lowlinks)@[x],
        final(stack)@.len() >= old(stack)@.len(),
        final(stack)@.take(old(stack)@.len() as int) == old(stack)@,
        forall|k: int| old(stack)@.len() <= k < final(stack)@.len() ==> (#[trigger] old(indices)@[final(stack)@[k] as int]) is None,
        old(stack)@.len() == 0 ==> final(stack)@.len() == 0,
        old(stack)@.len() > 0 ==> final(lowlinks)@[v as int] >= old(indices)@[old(stack)@[0] as int]->Some_0,
    decreases unvisited(old(indices)@),
{
    let n = adj.len();
    let ghost stack0 = stack@;
    let ghost indices0 = indices@;
    let ghost lowlinks0 = lowlinks@;
    let ghost on0 = on_stack@;
    let ghost index0 = *index;
    proof {
        lemma_unvisited_update(indices@, v as int, *index);
        lemma_unvisited_bound(indices@);
    }
    indices.set(v, Some(*index));
    lowlinks.set(v, *index);
    *index = *index + 1;
    let ghost iv = indices@;
    let ghost il = lowlinks@;
    stack.push(v);
    on_stack.set(v, true);
    proof {
        assert(!stack0.contains(v)) by {
            if stack0.contains(v) {
                let k = choose|k: int| 0 <= k < stack0.len() && stack0[k] == v;
                assert(indices0[stack0[k] as int] is Some);
            }
        }
        assert forall|x: int| 0 <= x < n implies (#[trigger] on_stack@[x] <==> stack@.contains(x as usize)) by {
            if x != v as int {
                if stack0.contains(x as usize) {
                    let k = choose|k: int| 0 <= k < stack0.len() && stack0[k] == x as usize;
                    assert(stack@[k] == x as usize);
                }
                if stack@.contains(x as usize) {
                    let k = choose|k: int| 0 <= k < stack@.len() && stack@[k] == x as usize;
                    assert(stack0[k] == x as usize);
                }
            } else {
                assert(stack@[stack0.len() as int] == v);
            }
        }
        assert forall|j: int, k: int| 0 <= j < k < stack@.len() implies (#[trigger] stack@[j]) != (#[trigger] stack@[k]) by {
            if k == stack0.len() {
                assert(stack0[j] == stack@[j]);
            } else {
                assert(stack0[j] == stack@[j] && stack0[k] == stack@[k]);
            }
        }
        assert forall|j: int, k: int| 0 <= j < k < stack@.len()
            implies indices@[#[trigger] stack@[j] as int]->Some_0 < indices@[#[trigger] stack@[k] as int]->Some_0 by {
            assert(stack0[j] == stack@[j]);
            assert(indices0[stack0[j] as int] is Some);
            if k == stack0.len() {
                assert(stack@[k] == v);
            } else {
                assert(stack0[k] == stack@[k]);
                assert(indices0[stack0[k] as int] is Some);
            }
        }
        assert forall|k: int| 0 <= k < stack@.len() implies indices@[#[trigger] stack@[k] as int] is Some
            && indices@[stack@[k] as int]->Some_0 >= indices@[stack@[0] as int]->Some_0 by {
            if stack0.len() > 0 {
                assert(stack@[0] == stack0[0]);
                assert(indices0[stack0[0] as int] is Some);
                if k < stack0.len() {
                    assert(stack@[k] == stack0[k]);
                    assert(indices0[stack0[k] as int] is Some);
                }
            }
        }
        assert forall|x: int| 0 <= x < n && (#[trigger] indices@[x]) is Some && !on_stack@[x] implies in_some_scc(sccs@, x as usize) by {
            assert(indices0[x] is Some);
        }
        assert forall|c: int, kk: int| 0 <= c < sccs@.len() && 0 <= kk < sccs@[c]@.len()
            implies indices@[(#[trigger] sccs@[c]@[kk]) as int] is Some && !on_stack@[sccs@[c]@[kk] as int] by {
            assert(indices0[sccs@[c]@[kk] as int] is Some);
        }
        assert forall|j: int| stack0.len() <= j < stack@.len()
            implies lowlinks@[v as int] <= lowlinks@[#[trigger] stack@[j] as int] by {
            assert(stack@[j] == v);
        }
        assert forall|i: int, j: int| 0 <= i < j < stack@.len() implies #[trigger] reaches(adj@, stack@[i] as int, stack@[j] as int) by {
            assert(stack@[i] == stack0[i]);
            if j < stack0.len() {
                assert(stack@[j] == stack0[j]);
                assert(reaches(adj@, stack0[i] as int, stack0[j] as int));
            } else {
                assert(stack@[j] == v);
                assert(reaches(adj@, stack0[i] as int, v as int));
            }
        }
        assert forall|j: int| 0 <= j < stack@.len() implies #[trigger] low_witnessed(adj@, stack@, indices@, lowlinks@, stack@[j] as int) by {
            if j < stack0.len() {
                let x = stack0[j] as int;
                assert(stack@[j] == stack0[j]);
                assert(low_witnessed(adj@, stack0, indices0, lowlinks0, x));
                let q = choose|q: int| 0 <= q < stack0.len() && indices0[stack0[q] as int]->Some_0 == lowlinks0[x]
                    && #[trigger] reaches(adj@, x, stack0[q] as int);
                assert(indices0[x] is Some);
                assert(indices0[stack0[q] as int] is Some);
                assert(stack@[q] == stack0[q]);
                assert(reaches(adj@, x, stack@[q] as int));
            } else {
                assert(stack@[j] == v);
                lemma_reach_refl(adj@, v as int);
                assert(reaches(adj@, v as int, stack@[j] as int));
            }
        }
        assert forall|j: int| 0 <= j < stack@.len() implies lowlinks@[#[trigger] stack@[j] as int] <= indices@[stack@[j] as int]->Some_0 by {
            if j < stack0.len() {
                assert(stack@[j] == stack0[j]);
                assert(indices0[stack0[j] as int] is Some);
            }
        }
    }
    let mut k: usize = 0;
    while k < adj[v].len()
        invariant
            n == adj.len(),
            (v as int) < n,
            k <= adj[v as int]@.len(),
            search_ok(n as int, adj@, *index, stack@, on_stack@, indices@, lowlinks@, sccs@),
            stack_ok(n as int, *index, stack@, on_stack@, indices@, sccs@),
            index0 < *index,
            indices@[v as int] is Some,
            unvisited(indices@) < unvisited(indices0),
            forall|x: int| 0 <= x < n && (#[trigger] indices0[x]) is Some ==> indices@[x] is Some,
            forall|x: int| 0 <= x < n && (#[trigger] indices0[x]) is Some
                ==> indices@[x] == indices0[x] && lowlinks@[x] == lowlinks0[x],
            stack@.len() >= stack0.len() + 1,
            stack@.take(stack0.len() as int) == stack0,
            stack@[stack0.len() as int] == v,
            forall|j: int| stack0.len() <= j < stack@.len() ==> (#[trigger] indices0[stack@[j] as int]) is None,
            iv[v as int] == Some(index0),
            iv.len() == n,
            indices0 == old(indices)@,
            forall|x: int| 0 <= x < n && (#[trigger] iv[x]) is Some ==> indices@[x] is Some,
            forall|x: int| 0 <= x < n && (#[trigger] iv[x]) is Some ==> indices@[x] == iv[x],
            forall|j: int| stack0.len() < j < stack@.len() ==> (#[trigger] iv[stack@[j] as int]) is None,
            lowlinks@[v as int] <= index0,
            stack0.len() == 0 ==> lowlinks@[v as int] >= index0,
            stack0.len() > 0 ==> lowlinks@[v as int] >= indices0[stack0[0] as int]->Some_0,
            stack0.len() > 0 ==> indices0[stack0[0] as int] is Some,
            on0 == old(on_stack)@,
            scc_ok(adj@, on_stack@, indices@, sccs@),
            forall|x: int| 0 <= x < n && (#[trigger] indices0[x]) is None && x != v as int && indices@[x] is Some
                ==> edges_done(adj@, on_stack@, indices@, lowlinks@, x),
            forall|e: int| 0 <= e < k ==> edge_done(on_stack@, indices@, lowlinks@, v as int, #[trigger] adj@[v as int]@[e]),
            forall|y: int| 0 <= y < n && (#[trigger] indices0[y]) is Some && on_stack@[y] ==> on0[y],
            forall|j: int| stack0.len() <= j < stack@.len()
                ==> lowlinks@[v as int] <= lowlinks@[#[trigger] stack@[j] as int],
            reach_ok(adj@, stack@, indices@, lowlinks@),
            forall|j: int| stack0.len() < j < stack@.len()
                ==> lowlinks@[#[trigger] stack@[j] as int] < indices@[stack@[j] as int]->Some_0,
            forall|i: int| 0 <= i < stack0.len() ==> #[trigger] reaches(adj@, stack0[i] as int, v as int),
            indices@[v as int] == Some(index0),
            stack0 == old(stack)@,
            lowlinks0 == old(lowlinks)@,
            reach_ok(adj@, stack0, indices0, lowlinks0),
        decreases adj[v as int]@.len() - k,
    {
        let w = adj[v][k];
        match indices[w] {
            None => {
                let ghost s1 = stack@;
                let ghost i1 = indices@;
                let ghost l1 = lowlinks@;
                let ghost on1 = on_stack@;
                let ghost index1 = *index;
                assert(unvisited(indices@) < unvisited(indices0));
                proof {
                    assert(adj@[v as int]@[k as int] == w);
                    lemma_reach_edge(adj@, v as int, w as int);
                    assert forall|i: int| 0 <= i < stack@.len() implies #[trigger] reaches(adj@, stack@[i] as int, w as int) by {
                        if i < stack0.len() {
                            assert(stack@[i] == stack0[i]);
                        } else if i == stack0.len() {
                            lemma_reach_refl(adj@, v as int);
                        } else {
                            lemma_reaches_base(adj@, n as int, *index, stack@, on_stack@, indices@, lowlinks@, sccs@, stack0.len() as int, i);
                        }
                        lemma_reach_trans(adj@, stack@[i] as int, v as int, w as int);
                    }
                }
                strongconnect(w, adj, index, stack, on_stack, indices, lowlinks, sccs);
                let ghost l2 = lowlinks@;
                proof {
                    assert forall|j: int| stack0.len() <= j < stack@.len() implies (#[trigger] indices0[stack@[j] as int]) is None by {
                        if j < s1.len() {
                            assert(stack@.take(s1.len() as int)[j] == s1[j]);
                        } else {
                            assert(i1[stack@[j] as int] is None);
                        }
                    }
                    assert forall|j: int| stack0.len() < j < stack@.len() implies (#[trigger] iv[stack@[j] as int]) is None by {
                        if j < s1.len() {
                            assert(stack@.take(s1.len() as int)[j] == s1[j]);
                        } else {
                            assert(i1[stack@[j] as int] is None);
                        }
                    }
                    assert(stack@.take(stack0.len() as int) =~= s1.take(stack0.len() as int));
                    assert(stack@.take(s1.len() as int)[stack0.len() as int] == s1[stack0.len() as int]);
                    assert(i1[v as int] is Some);
                    assert(s1[0] == stack@.take(s1.len() as int)[0]);
                    if stack0.len() > 0 {
                        assert(s1[0] == stack0[0]);
                        assert(indices0[stack0[0] as int] is Some);
                    } else {
                        assert(s1[0] == v);
                    }
                    assert(i1[s1[0] as int] is Some);
                }
                let lw = lowlinks[w];
                if lw < lowlinks[v] {
                    lowlinks.set(v, lw);
                }
                proof {
                    assert(i1[v as int] is Some);
                    assert(lowlinks@[v as int] <= l1[v as int]);
                    assert(lowlinks@[v as int] <= l2[w as int]);
                    assert forall|x: int| 0 <= x < n && (#[trigger] indices0[x]) is None && x != v as int && indices@[x] is Some
                        implies edges_done(adj@, on_stack@, indices@, lowlinks@, x) by {
                        if i1[x] is None {
                            assert(edges_done(adj@, on_stack@, indices@, l2, x));
                            assert forall|e: int| 0 <= e < adj@[x]@.len() implies edge_done(on_stack@, indices@, lowlinks@, x, #[trigger] adj@[x]@[e]) by {
                                assert(edge_done(on_stack@, indices@, l2, x, adj@[x]@[e]));
                            }
                        } else {
                            assert(edges_done(adj@, on1, i1, l1, x));
                            assert forall|e: int| 0 <= e < adj@[x]@.len() implies edge_done(on_stack@, indices@, lowlinks@, x, #[trigger] adj@[x]@[e]) by {
                                let y = adj@[x]@[e];
                                assert(edge_done(on1, i1, l1, x, y));
                                lemma_edge_done_stable(n as int, on1, i1, l1, on_stack@, indices@, lowlinks@, x, y);
                            }
                        }
                    }
                    assert forall|e: int| 0 <= e < k + 1 implies edge_done(on_stack@, indices@, lowlinks@, v as int, #[trigger] adj@[v as int]@[e]) by {
                        let y = adj@[v as int]@[e];
                        if e < k {
                            assert(edge_done(on1, i1, l1, v as int, y));
                            assert(i1[y as int] is Some);
                            if on_stack@[y as int] {
                                assert(on1[y as int]);
                                assert(l1[v as int] <= i1[y as int]->Some_0);
                            }
                        } else {
                            assert(y == w);
                        }
                    }
                    assert forall|y: int| 0 <= y < n && (#[trigger] indices0[y]) is Some && on_stack@[y] implies on0[y] by {
                        assert(i1[y] is Some);
                        assert(on1[y]);
                    }
                    assert forall|j: int| stack0.len() <= j < stack@.len()
                        implies lowlinks@[v as int] <= lowlinks@[#[trigger] stack@[j] as int] by {
                        if j < s1.len() {
                            assert(stack@.take(s1.len() as int)[j] == s1[j]);
                            assert(stack@[j] == s1[j]);
                            if s1[j] != v {
                                assert(i1[s1[j] as int] is Some);
                                assert(l1[v as int] <= l1[s1[j] as int]);
                            }
                        } else {
                            assert(l2[w as int] <= l2[stack@[j] as int]);
                            assert(i1[stack@[j] as int] is None);
                        }
                    }
                    assert(reach_ok(adj@, stack@, indices@, l2));
                    assert forall|j: int| 0 <= j < stack@.len() implies #[trigger] low_witnessed(adj@, stack@, indices@, lowlinks@, stack@[j] as int) by {
                        let x = stack@[j] as int;
                        assert(low_witnessed(adj@, stack@, indices@, l2, x));
                        if x == v as int && lowlinks@[v as int] != l2[v as int] {
                            assert(lowlinks@[v as int] == l2[w as int]);
                            assert(l2[v as int] <= index0);
                            assert(indices@[w as int] == Some(index1));
                            assert(index0 < index1);
                            if stack@.len() == s1.len() {
                                assert(l2[w as int] == index1);
                                assert(false);
                            }
                            assert(stack@[s1.len() as int] == w);
                            assert(low_witnessed(adj@, stack@, indices@, l2, w as int));
                            let q = choose|q: int| 0 <= q < stack@.len() && indices@[stack@[q] as int]->Some_0 == l2[w as int]
                                && #[trigger] reaches(adj@, w as int, stack@[q] as int);
                            lemma_reach_edge(adj@, v as int, w as int);
                            lemma_reach_trans(adj@, v as int, w as int, stack@[q] as int);
                            assert(reaches(adj@, x, stack@[q] as int));
                        } else {
                            let q = choose|q: int| 0 <= q < stack@.len() && indices@[stack@[q] as int]->Some_0 == l2[x]
                                && #[trigger] reaches(adj@, x, stack@[q] as int);
                            assert(lowlinks@[x] == l2[x]);
                        }
                    }
                    assert forall|j: int| stack0.len() < j < stack@.len()
                        implies lowlinks@[#[trigger] stack@[j] as int] < indices@[stack@[j] as int]->Some_0 by {
                        if j < s1.len() {
                            assert(stack@[j] == s1[j]);
                            assert(i1[s1[j] as int] is Some);
                        } else {
                            assert(i1[stack@[j] as int] is None);
                        }
                        assert(stack@[j] != v);
                    }
                    assert forall|j: int| 0 <= j < stack@.len() implies lowlinks@[#[trigger] stack@[j] as int] <= indices@[stack@[j] as int]->Some_0 by {
                        assert(l2[stack@[j] as int] <= indices@[stack@[j] as int]->Some_0);
                    }
                }
            },
            Some(iw) => {
                let ghost l1 = lowlinks@;
                if on_stack[w] && iw < lowlinks[v] {
                    proof {
                        let kk = choose|kk: int| 0 <= kk < stack@.len() && stack@[kk] == w;
                        assert(indices@[stack@[kk] as int] is Some);
                        if stack0.len() > 0 {
                            assert(stack@[0] == stack@.take(stack0.len() as int)[0]);
                            assert(indices0[stack0[0] as int] is Some);
                        }
                    }
                    lowlinks.set(v, iw);
                }
                proof {
                    assert forall|x: int| 0 <= x < n && (#[trigger] indices0[x]) is None && x != v as int && indices@[x] is Some
                        implies edges_done(adj@, on_stack@, indices@, lowlinks@, x) by {
                        assert(edges_done(adj@, on_stack@, indices@, l1, x));
                        assert forall|e: int| 0 <= e < adj@[x]@.len() implies edge_done(on_stack@, indices@, lowlinks@, x, #[trigger] adj@[x]@[e]) by {
                            assert(edge_done(on_stack@, indices@, l1, x, adj@[x]@[e]));
                        }
                    }
                    assert forall|e: int| 0 <= e < k + 1 implies edge_done(on_stack@, indices@, lowlinks@, v as int, #[trigger] adj@[v as int]@[e]) by {
                        if e < k {
                            assert(edge_done(on_stack@, indices@, l1, v as int, adj@[v as int]@[e]));
                        }
                    }
                    assert forall|j: int| stack0.len() <= j < stack@.len()
                        implies lowlinks@[v as int] <= lowlinks@[#[trigger] stack@[j] as int] by {
                        assert(l1[v as int] <= l1[stack@[j] as int]);
                    }
                    assert forall|j: int| 0 <= j < stack@.len() implies #[trigger] low_witnessed(adj@, stack@, indices@, lowlinks@, stack@[j] as int) by {
                        let x = stack@[j] as int;
                        assert(low_witnessed(adj@, stack@, indices@, l1, x));
                        if x == v as int && lowlinks@[v as int] != l1[v as int] {
                            assert(on_stack@[w as int]);
                            assert(stack@.contains(w));
                            let q = choose|q: int| 0 <= q < stack@.len() && stack@[q] == w;
                            lemma_reach_edge(adj@, v as int, w as int);
                            assert(reaches(adj@, x, stack@[q] as int));
                        } else {
                            let q = choose|q: int| 0 <= q < stack@.len() && indices@[stack@[q] as int]->Some_0 == l1[x]
                                && #[trigger] reaches(adj@, x, stack@[q] as int);
                            assert(lowlinks@[x] == l1[x]);
                        }
                    }
                    assert forall|j: int| stack0.len() < j < stack@.len()
                        implies lowlinks@[#[trigger] stack@[j] as int] < indices@[stack@[j] as int]->Some_0 by {
                        assert(stack@[j] != v);
                    }
                    assert forall|j: int| 0 <= j < stack@.len() implies lowlinks@[#[trigger] stack@[j] as int] <= indices@[stack@[j] as int]->Some_0 by {
                        assert(l1[stack@[j] as int] <= indices@[stack@[j] as int]->Some_0);
                    }
                }
            },
        }
        k = k + 1;
    }
    proof {
        assert forall|e: int| 0 <= e < adj@[v as int]@.len() implies edge_done(on_stack@, indices@, lowlinks@, v as int, #[trigger] adj@[v as int]@[e]) by {}
        assert(edges_done(adj@, on_stack@, indices@, lowlinks@, v as int));
        assert forall|x: int| 0 <= x < n && (#[trigger] indices0[x]) is None && indices@[x] is Some
            implies edges_done(adj@, on_stack@, indices@, lowlinks@, x) by {
            if x != v as int {
                assert(edges_done(adj@, on_stack@, indices@, lowlinks@, x));
            }
        }
    }
    if lowlinks[v] == indices[v].unwrap() {
        let mut component: Vec<usize> = Vec::new();
        let ghost pre_stack = stack@;
        let ghost pre_on = on_stack@;
        let ghost pre_sccs = sccs@;
        let ghost seg = stack@.skip(stack0.len() as int);
        proof {
            assert forall|j: int| stack0.len() < j < stack@.len() implies #[trigger] stack@[j] != v by {
                assert(iv[stack@[j] as int] is None);
            }
            assert forall|x: int| 0 <= x < n && (#[trigger] indices@[x]) is Some && !on_stack@[x] implies in_some_scc(sccs@.push(component), x as usize) by {
                let (c, t) = choose|c: int, t: int| 0 <= c < sccs@.len() && 0 <= t < sccs@[c]@.len() && sccs@[c]@[t] == x as usize;
                assert(sccs@.push(component)[c] == sccs@[c]);
            }
            assert forall|j: int| stack0.len() <= j < stack@.len()
                implies edges_done(adj@, on_stack@, indices@, lowlinks@, #[trigger] stack@[j] as int) by {
                assert(indices0[stack@[j] as int] is None);
            }
            assert(stack@[stack0.len() as int] == v);
            lemma_root_closed(n as int, adj@, *index, stack@, on_stack@, indices@, lowlinks@, sccs@, stack0.len() as int, v);
            assert forall|j: int| stack0.len() <= j < stack@.len() implies #[trigger] reaches(adj@, stack@[j] as int, v as int)
                && reaches(adj@, v as int, stack@[j] as int) by {
                lemma_reaches_base(adj@, n as int, *index, stack@, on_stack@, indices@, lowlinks@, sccs@, stack0.len() as int, j);
                if j == stack0.len() {
                    lemma_reach_refl(adj@, v as int);
                } else {
                    assert(reaches(adj@, stack@[stack0.len() as int] as int, stack@[j] as int));
                }
            }
        }
        let ghost l_end = lowlinks@;
        loop
            invariant_except_break
                stack@.len() >= stack0.len() + 1,
                stack@.take(stack0.len() as int) == stack0,
                stack@[stack0.len() as int] == v,
                forall|j: int| stack0.len() <= j < stack@.len() ==> (#[trigger] indices0[stack@[j] as int]) is None,
                forall|j: int| stack0.len() < j < stack@.len() ==> #[trigger] stack@[j] != v,
            invariant
                n == adj.len(),
                (v as int) < n,
                search_ok(n as int, adj@, *index, stack@, on_stack@, indices@, lowlinks@, sccs@),
                forall|j: int| 0 <= j < component@.len() ==> (#[trigger] component@[j]) < n,
                lowlinks@ == l_end,
                forall|x: int| 0 <= x < n && (#[trigger] indices0[x]) is Some
                    ==> indices@[x] == indices0[x] && lowlinks@[x] == lowlinks0[x],
                forall|x: int| 0 <= x < n && (#[trigger] indices@[x]) is Some ==> indices@[x]->Some_0 < *index,
                forall|k: int| 0 <= k < stack@.len() ==> indices@[#[trigger] stack@[k] as int] is Some
                    && indices@[stack@[k] as int]->Some_0 >= indices@[stack@[0] as int]->Some_0,
                forall|j: int, k: int| 0 <= j < k < stack@.len() ==> (#[trigger] stack@[j]) != (#[trigger] stack@[k]),
                forall|j: int, k: int| 0 <= j < k < stack@.len()
                    ==> indices@[#[trigger] stack@[j] as int]->Some_0 < indices@[#[trigger] stack@[k] as int]->Some_0,
                forall|x: int| 0 <= x < n ==> (#[trigger] on_stack@[x] <==> stack@.contains(x as usize)),
                forall|x: int| 0 <= x < n && (#[trigger] indices@[x]) is Some && !on_stack@[x]
                    ==> in_some_scc(sccs@.push(component), x as usize),
                sccs@ == pre_sccs,
                seg == pre_stack.skip(stack0.len() as int),
                pre_stack.take(stack0.len() as int) == stack0,
                pre_stack.len() >= stack0.len(),
                stack@.len() >= stack0.len(),
                stack@.len() - stack0.len() + component@.len() == seg.len(),
                forall|j: int| stack0.len() <= j < stack@.len() ==> #[trigger] stack@[j] == seg[j - stack0.len()],
                forall|t: int| 0 <= t < component@.len() ==> #[trigger] component@[t] == seg[seg.len() - 1 - t],
                forall|t: int| 0 <= t < component@.len() ==> !on_stack@[#[trigger] component@[t] as int],
                forall|y: int| 0 <= y < n && #[trigger] on_stack@[y] ==> pre_on[y],
            ensures
                stack@ == stack0,
            decreases stack@.len(),
        {
            let ghost before = stack@;
            let ghost comp_before = component@;
            let ghost comp_vec = component;
            let w = stack.pop().unwrap();
            on_stack.set(w, false);
            component.push(w);
            proof {
                assert(stack@ =~= before.drop_last());
                assert forall|x: int| 0 <= x < n implies (#[trigger] on_stack@[x] <==> stack@.contains(x as usize)) by {
                    if x == w as int {
                        if stack@.contains(w) {
                            let j = choose|j: int| 0 <= j < stack@.len() && stack@[j] == w;
                            assert(before[j] == before[before.len() - 1]);
                        }
                    } else {
                        if before.contains(x as usize) {
                            let j = choose|j: int| 0 <= j < before.len() && before[j] == x as usize;
                            assert(j < before.len() - 1);
                            assert(stack@[j] == x as usize);
                        }
                        if stack@.contains(x as usize) {
                            let j = choose|j: int| 0 <= j < stack@.len() && stack@[j] == x as usize;
                            assert(before[j] == x as usize);
                        }
                    }
                }
                assert forall|x: int| 0 <= x < n && (#[trigger] indices@[x]) is Some && !on_stack@[x]
                    implies in_some_scc(sccs@.push(component), x as usize) by {
                    let last = sccs@.len() as int;
                    if x == w as int {
                        assert(sccs@.push(component)[last]@[comp_before.len() as int] == x as usize);
                    } else {
                        let (c, t) = choose|c: int, t: int| 0 <= c < sccs@.push(comp_vec).len() && 0 <= t < sccs@.push(comp_vec)[c]@.len() && sccs@.push(comp_vec)[c]@[t] == x as usize;
                        if c < last {
                            assert(sccs@.push(component)[c] == sccs@[c]);
                        } else {
                            assert(sccs@.push(component)[last]@[t] == x as usize);
                        }
                    }
                }
                assert forall|k: int| 0 <= k < stack@.len() implies indices@[#[trigger] stack@[k] as int] is Some
                    && indices@[stack@[k] as int]->Some_0 >= indices@[stack@[0] as int]->Some_0 by {
                    assert(stack@[k] == before[k] && stack@[0] == before[0]);
                }
                assert forall|j: int, k: int| 0 <= j < k < stack@.len()
                    implies indices@[#[trigger] stack@[j] as int]->Some_0 < indices@[#[trigger] stack@[k] as int]->Some_0 by {
                    assert(stack@[j] == before[j] && stack@[k] == before[k]);
                }
                assert(before.len() - 1 >= stack0.len()) by {
                    if before.len() - 1 < stack0.len() {
                        assert(before.len() == stack0.len());
                    }
                }
                assert(w == seg[before.len() - 1 - stack0.len()]);
                assert forall|j: int| stack0.len() <= j < stack@.len() implies #[trigger] stack@[j] == seg[j - stack0.len()] by {
                    assert(stack@[j] == before[j]);
                }
                assert forall|t: int| 0 <= t < component@.len() implies #[trigger] component@[t] == seg[seg.len() - 1 - t] by {
                    if t < comp_before.len() {
                        assert(component@[t] == comp_before[t]);
                    }
                }
                assert forall|t: int| 0 <= t < component@.len() implies !on_stack@[#[trigger] component@[t] as int] by {
                    if t < comp_before.len() {
                        assert(component@[t] == comp_before[t]);
                    }
                }
            }
            if w == v {
                assert(stack@ =~= stack0);
                break;
            }
            assert(stack@.take(stack0.len() as int) =~= before.take(stack0.len() as int));
        }
        let ghost comp = component;
        let ghost on_end = on_stack@;
        sccs.push(component);
        proof {
            let newc = pre_sccs.len() as int;
            assert(component@.len() == seg.len());
            assert(sccs@[newc] == comp);
            assert forall|c: int| 0 <= c < newc implies #[trigger] sccs@[c] == pre_sccs[c] by {}
            // every node of the new component was on the stack before the pops
            assert forall|t: int| 0 <= t < comp@.len() implies pre_on[#[trigger] comp@[t] as int] by {
                let i = seg.len() - 1 - t;
                assert(seg[i] == pre_stack[stack0.len() + i]);
                assert(pre_stack.contains(seg[i]));
            }
            // scc_ok: visited and off the stack
            assert forall|c: int, kk: int| 0 <= c < sccs@.len() && 0 <= kk < sccs@[c]@.len()
                implies indices@[(#[trigger] sccs@[c]@[kk]) as int] is Some && !on_stack@[sccs@[c]@[kk] as int] by {
                if c < newc {
                    assert(sccs@[c] == pre_sccs[c]);
                    if on_stack@[pre_sccs[c]@[kk] as int] {
                        assert(pre_on[pre_sccs[c]@[kk] as int]);
                    }
                } else {
                    let i = seg.len() - 1 - kk;
                    assert(seg[i] == pre_stack[stack0.len() + i]);
                }
            }
            // scc_ok: no node in two components
            assert forall|c1: int, k1: int, c2: int, k2: int|
                0 <= c1 < sccs@.len() && 0 <= k1 < sccs@[c1]@.len() && 0 <= c2 < sccs@.len() && 0 <= k2 < sccs@[c2]@.len()
                && #[trigger] sccs@[c1]@[k1] == #[trigger] sccs@[c2]@[k2] implies c1 == c2 by {
                if c1 < newc && c2 == newc {
                    assert(sccs@[c1] == pre_sccs[c1]);
                    assert(pre_on[comp@[k2] as int]);
                } else if c2 < newc && c1 == newc {
                    assert(sccs@[c2] == pre_sccs[c2]);
                    assert(pre_on[comp@[k1] as int]);
                } else if c1 < newc && c2 < newc {
                    assert(sccs@[c1] == pre_sccs[c1]);
                    assert(sccs@[c2] == pre_sccs[c2]);
                }
            }
            // scc_ok: successors stay in this component or earlier ones
            assert forall|c: int, kk: int, e: int|
                0 <= c < sccs@.len() && 0 <= kk < sccs@[c]@.len() && 0 <= e < adj@[sccs@[c]@[kk] as int]@.len()
                implies #[trigger] closed_before(sccs@, adj@[sccs@[c]@[kk] as int]@[e], c) by {
                let y = adj@[sccs@[c]@[kk] as int]@[e];
                if c < newc {
                    assert(sccs@[c] == pre_sccs[c]);
                    assert(closed_before(pre_sccs, y, c));
                    let c2 = choose|c2: int| 0 <= c2 <= c && #[trigger] in_scc_at(pre_sccs, y, c2);
                    assert(sccs@[c2] == pre_sccs[c2]);
                    assert(in_scc_at(sccs@, y, c2));
                } else {
                    let i = seg.len() - 1 - kk;
                    let j = stack0.len() + i;
                    assert(seg[i] == pre_stack[j]);
                    assert(comp@[kk] == pre_stack[j]);
                    assert(pre_stack.skip(stack0.len() as int).contains(y) || in_some_scc(pre_sccs, y));
                    if seg.contains(y) {
                        let i2 = choose|i2: int| 0 <= i2 < seg.len() && seg[i2] == y;
                        let t2 = seg.len() - 1 - i2;
                        assert(comp@[t2] == y);
                        assert(in_scc_at(sccs@, y, newc));
                    } else {
                        let (c3, t3) = choose|c3: int, t3: int| 0 <= c3 < pre_sccs.len() && 0 <= t3 < pre_sccs[c3]@.len() && pre_sccs[c3]@[t3] == y;
                        assert(sccs@[c3] == pre_sccs[c3]);
                        assert(in_scc_at(sccs@, y, c3));
                    }
                }
            }
            assert forall|c: int, kk: int| 0 <= c < sccs@.len() && 0 <= kk < sccs@[c]@.len() && sccs@[c]@.len() > 1
                implies on_adj_cycle(adj@, #[trigger] sccs@[c]@[kk] as int) by {
                if c < newc {
                    assert(sccs@[c] == pre_sccs[c]);
                } else {
                    let t2: int = if kk == 0 { 1 } else { 0 };
                    let i1 = seg.len() - 1 - kk;
                    let i2 = seg.len() - 1 - t2;
                    let j1 = stack0.len() + i1;
                    let j2 = stack0.len() + i2;
                    assert(seg[i1] == pre_stack[j1]);
                    assert(seg[i2] == pre_stack[j2]);
                    assert(comp@[kk] == pre_stack[j1]);
                    assert(comp@[t2] == pre_stack[j2]);
                    if j1 < j2 {
                        assert(pre_stack[j1] != pre_stack[j2]);
                    } else {
                        assert(pre_stack[j2] != pre_stack[j1]);
                    }
                    let x = pre_stack[j1] as int;
                    let z = pre_stack[j2] as int;
                    assert(reaches(adj@, x, v as int) && reaches(adj@, v as int, x));
                    assert(reaches(adj@, z, v as int) && reaches(adj@, v as int, z));
                    lemma_reach_trans(adj@, x, v as int, z);
                    lemma_reach_trans(adj@, z, v as int, x);
                    lemma_cycle_through(adj@, x, z);
                }
            }
            assert(scc_ok(adj@, on_stack@, indices@, sccs@));
            assert forall|j: int| 0 <= j < stack@.len() implies #[trigger] low_witnessed(adj@, stack@, indices@, lowlinks@, stack@[j] as int) by {
                let x = stack0[j] as int;
                assert(low_witnessed(adj@, stack0, indices0, lowlinks0, x));
                let q = choose|q: int| 0 <= q < stack0.len() && indices0[stack0[q] as int]->Some_0 == lowlinks0[x]
                    && #[trigger] reaches(adj@, x, stack0[q] as int);
                assert(indices0[x] is Some);
                assert(indices0[stack0[q] as int] is Some);
            }
            assert forall|j: int| 0 <= j < stack@.len() implies lowlinks@[#[trigger] stack@[j] as int] <= indices@[stack@[j] as int]->Some_0 by {
                assert(indices0[stack0[j] as int] is Some);
                assert(lowlinks0[stack0[j] as int] <= indices0[stack0[j] as int]->Some_0);
            }
            assert forall|i: int, j: int| 0 <= i < j < stack@.len() implies #[trigger] reaches(adj@, stack@[i] as int, stack@[j] as int) by {
                assert(reaches(adj@, stack0[i] as int, stack0[j] as int));
            }
            assert forall|x: int| 0 <= x < n && (#[trigger] indices0[x]) is None && indices@[x] is Some
                implies edges_done(adj@, on_stack@, indices@, lowlinks@, x) by {
                assert(edges_done(adj@, pre_on, indices@, lowlinks@, x));
                assert forall|e: int| 0 <= e < adj@[x]@.len() implies edge_done(on_stack@, indices@, lowlinks@, x, #[trigger] adj@[x]@[e]) by {
                    let y = adj@[x]@[e];
                    assert(edge_done(pre_on, indices@, lowlinks@, x, y));
                    if on_stack@[y as int] {
                        assert(pre_on[y as int]);
                    }
                }
            }
        }
    } else {
        assert(stack0.len() > 0);
    }
}

/// When `v` at position `base` of the stack is the root of its component,
/// no edge leaves the nodes from `base` up for a node lower on the stack:
/// each successor is among them or in a component found before.
proof fn lemma_root_closed(
    n: int,
    adj: Seq<Vec<usize>>,
    index: usize,
    stack: Seq<usize>,
    on_stack: Seq<bool>,
    indices: Seq<Option<usize>>,
    lowlinks: Seq<usize>,
    sccs: Seq<Vec<usize>>,
    base: int,
    v: usize,
)
    requires
        stack_ok(n, index, stack, on_stack, indices, sccs),
        adj.len() == n && lowlinks.len() == n && indices.len() == n && on_stack.len() == n,
        forall|x: int, k: int| 0 <= x < n && 0 <= k < adj[x]@.len() ==> (#[trigger] adj[x]@[k]) < n,
        forall|k: int| 0 <= k < stack.len() ==> (#[trigger] stack[k]) < n,
        0 <= base < stack.len(),
        stack[base] == v,
        lowlinks[v as int] == indices[v as int]->Some_0,
        forall|j: int| base <= j < stack.len() ==> lowlinks[v as int] <= lowlinks[#[trigger] stack[j] as int],
        forall|j: int| base <= j < stack.len() ==> edges_done(adj, on_stack, indices, lowlinks, #[trigger] stack[j] as int),
    ensures
        forall|j: int, e: int| base <= j < stack.len() && 0 <= e < adj[stack[j] as int]@.len()
            ==> stack.skip(base).contains(#[trigger] adj[#[trigger] stack[j] as int]@[e])
                || in_some_scc(sccs, adj[stack[j] as int]@[e]),
{
    assert forall|j: int, e: int| base <= j < stack.len() && 0 <= e < adj[stack[j] as int]@.len()
        implies stack.skip(base).contains(#[trigger] adj[#[trigger] stack[j] as int]@[e])
            || in_some_scc(sccs, adj[stack[j] as int]@[e]) by {
        let x = stack[j] as int;
        let y = adj[x]@[e];
        assert(edges_done(adj, on_stack, indices, lowlinks, x));
        assert(edge_done(on_stack, indices, lowlinks, x, y));
        if on_stack[y as int] {
            assert(stack.contains(y));
            let p = choose|p: int| 0 <= p < stack.len() && stack[p] == y;
            if p < base {
                assert(indices[stack[p] as int]->Some_0 < indices[stack[base] as int]->Some_0);
                assert(false);
            } else {
                assert(stack.skip(base)[p - base] == y);
            }
        }
    }
}

/// The arena `b` is `a` with some nodes, and only nodes, marked as cyclic.
pub open spec fn only_marked(a: Seq<NodeModel>, b: Seq<NodeModel>) -> bool {
    &&& a.len() == b.len()
    &&& forall|i: int| 0 <= i < a.len() ==> #[trigger] b[i] == NodeModel { is_cyclic: b[i].is_cyclic, ..a[i] }
    &&& forall|i: int| 0 <= i < a.len() && (#[trigger] a[i]).is_cyclic ==> b[i].is_cyclic
}

fn vec_has(v: &Vec<usize>, x: usize) -> (r: bool)
    ensures
        r == v@.contains(x),
{
    let mut i: usize = 0;
    while i < v.len()
        invariant
            i <= v.len(),
            forall|j: int| 0 <= j < i ==> v@[j] != x,
        decreases v.len() - i,
    {
        if v[i] == x {
            assert(v@[i as int] == x);
            return true;
        }
        i = i + 1;
    }
    false
}

/// Every node of `b` with an edge to itself is marked as cyclic.
pub open spec fn self_loops_marked(b: Seq<NodeModel>, edges: Seq<(NodeId, NodeId)>) -> bool {
    forall|k: int|
        0 <= k < edges.len() && (#[trigger] edges[k]).0 == edges[k].1 && (edges[k].0.0 as int) < b.len()
        ==> b[edges[k].0.0 as int].is_cyclic
}

/// A component that gets marked: it has more than one node, or it is one
/// node with an edge to itself.
pub open spec fn marked_component(adj: Seq<Vec<usize>>, comp: Seq<usize>) -> bool {
    comp.len() > 1 || (comp.len() == 1 && adj[comp[0] as int]@.contains(comp[0]))
}

/// Run Tarjan's strongly-connected-components algorithm on the `$ref` graph
/// and mark every node of a component with more than one node, or with a
/// self-loop: exactly the nodes that lie on a cycle of the graph. Edges that
/// leave the arena are ignored. Only cyclic flags change, and none is
/// cleared.
pub fn tarjan_scc(arena: &mut Arena, edges: &[(NodeId, NodeId)])
    ensures
        only_marked(old(arena)@, final(arena)@),
        self_loops_marked(final(arena)@, edges@),
        forall|v: int| 0 <= v < old(arena)@.len() && #[trigger] on_cycle(edges@, old(arena)@.len() as int, v)
            ==> final(arena)@[v].is_cyclic,
        old(arena)@.len() <= crate::normalize::arena::arena_capacity() ==> forall|v: int|
            0 <= v < old(arena)@.len() && (#[trigger] final(arena)@[v]).is_cyclic
            ==> old(arena)@[v].is_cyclic || on_cycle(edges@, old(arena)@.len() as int, v),
{
    let n = arena.len();
    if n == 0 {
        return;
    }
    let mut adj: Vec<Vec<usize>> = Vec::new();
    let mut on_stack: Vec<bool> = Vec::new();
    let mut indices: Vec<Option<usize>> = Vec::new();
    let mut lowlinks: Vec<usize> = Vec::new();
    let mut i: usize = 0;
    while i < n
        invariant
            i <= n,
            adj.len() == i && on_stack.len() == i && indices.len() == i && lowlinks.len() == i,
            forall|x: int| 0 <= x < i ==> (#[trigger] adj@[x])@.len() == 0,
            forall|x: int| 0 <= x < i ==> !(#[trigger] on_stack@[x]),
            forall|x: int| 0 <= x < i ==> (#[trigger] indices@[x]) is None,
        decreases n - i,
    {
        adj.push(Vec::new());
        on_stack.push(false);
        indices.push(None);
        lowlinks.push(0);
        i = i + 1;
    }
    let mut k: usize = 0;
    while k < edges.len()
        invariant
            k <= edges.len(),
            n == arena@.len(),
            adj.len() == n,
            forall|v: int, j: int| 0 <= v < n && 0 <= j < adj@[v]@.len() ==> (#[trigger] adj@[v]@[j]) < n,
            forall|e: int|
                0 <= e < k && ((#[trigger] edges@[e]).0.0 as int) < n && (edges@[e].1.0 as int) < n
                ==> adj@[edges@[e].0.0 as int]@.contains(edges@[e].1.0 as usize),
            forall|u: int, j: int| 0 <= u < n && 0 <= j < adj@[u]@.len()
                ==> from_edge(edges@, k as int, u, (#[trigger] adj@[u]@[j]) as int),
        decreases edges.len() - k,
    {
        let (u, w) = edges[k];
        let ui = u.0 as usize;
        let wi = w.0 as usize;
        if ui < n && wi < n {
            let ghost before = adj@;
            let mut row = adj[ui].clone();
            row.push(wi);
            adj.set(ui, row);
            proof {
                assert forall|v: int, j: int| 0 <= v < n && 0 <= j < adj@[v]@.len() implies (#[trigger] adj@[v]@[j]) < n by {
                    if v != ui as int {
                        assert(adj@[v] == before[v]);
                    } else if j < before[v]@.len() {
                        assert(adj@[v]@[j] == before[v]@[j]);
                    }
                }
                assert forall|e: int|
                    0 <= e < k + 1 && ((#[trigger] edges@[e]).0.0 as int) < n && (edges@[e].1.0 as int) < n
                    implies adj@[edges@[e].0.0 as int]@.contains(edges@[e].1.0 as usize) by {
                    let a = edges@[e].0.0 as int;
                    let b = edges@[e].1.0 as usize;
                    if e < k {
                        if a == ui as int {
                            let j = choose|j: int| 0 <= j < before[a]@.len() && before[a]@[j] == b;
                            assert(adj@[a]@[j] == b);
                        } else {
                            assert(adj@[a] == before[a]);
                        }
                    } else {
                        assert(adj@[a]@[before[a]@.len() as int] == b);
                    }
                }
                assert forall|u2: int, j: int| 0 <= u2 < n && 0 <= j < adj@[u2]@.len()
                    implies from_edge(edges@, k + 1, u2, (#[trigger] adj@[u2]@[j]) as int) by {
                    if u2 != ui as int {
                        assert(adj@[u2] == before[u2]);
                        assert(from_edge(edges@, k as int, u2, before[u2]@[j] as int));
                        let e = choose|e: int| 0 <= e < k && (#[trigger] edges@[e]).0.0 as int == u2 && edges@[e].1.0 as int == before[u2]@[j] as int;
                        assert(from_edge(edges@, k + 1, u2, adj@[u2]@[j] as int));
                    } else if j < before[u2]@.len() {
                        assert(adj@[u2]@[j] == before[u2]@[j]);
                        assert(from_edge(edges@, k as int, u2, before[u2]@[j] as int));
                        let e = choose|e: int| 0 <= e < k && (#[trigger] edges@[e]).0.0 as int == u2 && edges@[e].1.0 as int == before[u2]@[j] as int;
                        assert(from_edge(edges@, k + 1, u2, adj@[u2]@[j] as int));
                    } else {
                        assert(adj@[u2]@[j] == wi);
                        assert(edges@[k as int].0.0 as int == u2);
                        assert(from_edge(edges@, k + 1, u2, adj@[u2]@[j] as int));
                    }
                }
            }
        } else {
            assert forall|u2: int, j: int| 0 <= u2 < n && 0 <= j < adj@[u2]@.len()
                implies from_edge(edges@, k + 1, u2, (#[trigger] adj@[u2]@[j]) as int) by {
                assert(from_edge(edges@, k as int, u2, adj@[u2]@[j] as int));
                let e = choose|e: int| 0 <= e < k && (#[trigger] edges@[e]).0.0 as int == u2 && edges@[e].1.0 as int == adj@[u2]@[j] as int;
            }
            assert forall|e: int|
                0 <= e < k + 1 && ((#[trigger] edges@[e]).0.0 as int) < n && (edges@[e].1.0 as int) < n
                implies adj@[edges@[e].0.0 as int]@.contains(edges@[e].1.0 as usize) by {
                if e == k {
                    assert(false);
                }
            }
        }
        k = k + 1;
    }
    let ghost adj_edges = adj@;
    proof {
        lemma_unvisited_all_none(indices@);
        assert forall|x: int| 0 <= x < n implies (#[trigger] on_stack@[x] <==> Seq::<usize>::empty().contains(x as usize)) by {}
    }
    let mut index: usize = 0;
    let mut stack: Vec<usize> = Vec::new();
    let mut sccs: Vec<Vec<usize>> = Vec::new();
    assert(scc_ok(adj@, on_stack@, indices@, sccs@));
    let mut v: usize = 0;
    while v < n
        invariant
            v <= n,
            n == adj.len(),
            adj@ == adj_edges,
            search_ok(n as int, adj@, index, stack@, on_stack@, indices@, lowlinks@, sccs@),
            stack_ok(n as int, index, stack@, on_stack@, indices@, sccs@),
            stack@.len() == 0,
            forall|x: int| 0 <= x < v ==> (#[trigger] indices@[x]) is Some,
            scc_ok(adj@, on_stack@, indices@, sccs@),
        decreases n - v,
    {
        if indices[v].is_none() {
            let ghost before = indices@;
            strongconnect(v, &adj, &mut index, &mut stack, &mut on_stack, &mut indices, &mut lowlinks, &mut sccs);
            proof {
                assert forall|x: int| 0 <= x < v + 1 implies (#[trigger] indices@[x]) is Some by {
                    if x < v {
                        assert(before[x] is Some);
                    }
                }
            }
        }
        v = v + 1;
    }
    proof {
        assert forall|x: int| 0 <= x < n implies #[trigger] in_some_scc(sccs@, x as usize) by {
            assert(indices@[x] is Some);
            assert(!stack@.contains(x as usize));
            assert(!on_stack@[x]);
        }
    }
    let ghost a0 = arena@;
    let mut c: usize = 0;
    while c < sccs.len()
        invariant
            c <= sccs.len(),
            n == arena@.len(),
            n == adj.len(),
            a0 == old(arena)@,
            search_ok(n as int, adj@, index, stack@, on_stack@, indices@, lowlinks@, sccs@),
            only_marked(a0, arena@),
            forall|d: int, t: int|
                0 <= d < c && marked_component(adj@, sccs@[d]@) && 0 <= t < sccs@[d]@.len()
                    && sccs@[d]@[t] <= 0xffff_ffff
                ==> arena@[(#[trigger] sccs@[d]@[t]) as int].is_cyclic,
            scc_ok(adj@, on_stack@, indices@, sccs@),
            n <= 0xffff_ffff ==> forall|y: int| 0 <= y < n && (#[trigger] arena@[y]).is_cyclic
                ==> a0[y].is_cyclic || on_adj_cycle(adj@, y),
        decreases sccs.len() - c,
    {
        let component = &sccs[c];
        let size = component.len();
        let has_self_loop = size == 1 && vec_has(&adj[component[0]], component[0]);
        let ghost prev = arena@;
        if size > 1 || has_self_loop {
            proof {
                assert forall|t: int| 0 <= t < component@.len() implies on_adj_cycle(adj@, #[trigger] component@[t] as int) by {
                    if size > 1 {
                        assert(component@[t] == sccs@[c as int]@[t]);
                    } else {
                        let x = component@[0] as int;
                        assert(t == 0);
                        let w = seq![x, x];
                        assert(adj_step(adj@, w, 0));
                        assert(adj_walk(adj@, w));
                    }
                }
            }
            let mut j: usize = 0;
            while j < size
                invariant
                    j <= size,
                    size == component.len(),
                    n == arena@.len(),
                    n == adj@.len(),
                    a0 == old(arena)@,
                    prev.len() == n,
                    forall|t: int| 0 <= t < component@.len() ==> (#[trigger] component@[t]) < n,
                    forall|t: int| 0 <= t < component@.len() ==> on_adj_cycle(adj@, #[trigger] component@[t] as int),
                    n <= 0xffff_ffff ==> forall|y: int| 0 <= y < n && (#[trigger] arena@[y]).is_cyclic
                        ==> a0[y].is_cyclic || on_adj_cycle(adj@, y),
                    only_marked(a0, arena@),
                    forall|x: int| 0 <= x < n && (#[trigger] prev[x]).is_cyclic ==> arena@[x].is_cyclic,
                    forall|t: int| 0 <= t < j && component@[t] <= 0xffff_ffff ==> arena@[(#[trigger] component@[t]) as int].is_cyclic,
                decreases size - j,
            {
                let x = component[j];
                let id = NodeId(x as u32);
                let ghost before = arena@;
                arena.mark_cyclic(id);
                proof {
                    assert forall|t: int| 0 <= t < j + 1 && component@[t] <= 0xffff_ffff implies arena@[(#[trigger] component@[t]) as int].is_cyclic by {
                        if t < j {
                            assert(before[component@[t] as int].is_cyclic);
                        }
                    }
                    assert forall|y: int| 0 <= y < n && (#[trigger] prev[y]).is_cyclic implies arena@[y].is_cyclic by {
                        assert(before[y].is_cyclic);
                    }
                    if n <= 0xffff_ffff {
                        assert forall|y: int| 0 <= y < n && (#[trigger] arena@[y]).is_cyclic
                            implies a0[y].is_cyclic || on_adj_cycle(adj@, y) by {
                            if y != x as int {
                                assert(arena@[y] == before[y]);
                            } else {
                                assert(component@[j as int] == x);
                            }
                        }
                    }
                }
                j = j + 1;
            }
        }
        proof {
            assert(marked_component(adj@, sccs@[c as int]@) == (size > 1 || has_self_loop));
            assert forall|d: int, t: int|
                0 <= d < c + 1 && marked_component(adj@, sccs@[d]@) && 0 <= t < sccs@[d]@.len()
                    && sccs@[d]@[t] <= 0xffff_ffff
                implies arena@[(#[trigger] sccs@[d]@[t]) as int].is_cyclic by {
                if d < c {
                    assert(prev[sccs@[d]@[t] as int].is_cyclic);
                } else {
                    assert(component@[t] == sccs@[d]@[t]);
                }
            }
        }
        c = c + 1;
    }
    proof {
        assert forall|k: int|
            0 <= k < edges@.len() && (#[trigger] edges@[k]).0 == edges@[k].1 && (edges@[k].0.0 as int) < old(arena)@.len()
            implies arena@[edges@[k].0.0 as int].is_cyclic by {
            let u = edges@[k].0.0 as usize;
            assert(adj@[u as int]@.contains(u));
            assert(in_some_scc(sccs@, u));
            let (d, t) = choose|d: int, t: int| 0 <= d < sccs@.len() && 0 <= t < sccs@[d]@.len() && sccs@[d]@[t] == u;
            assert(marked_component(adj@, sccs@[d]@));
        }
        assert(self_loops_marked(arena@, edges@));
        assert forall|x: int| 0 <= x < n && #[trigger] on_cycle(edges@, old(arena)@.len() as int, x)
            implies arena@[x].is_cyclic by {
            let p = choose|p: Seq<int>| #[trigger] cycle_walk(edges@, n as int, p) && p[0] == x;
            assert(walk_step(edges@, p, 0));
            let e = choose|e: int| 0 <= e < edges@.len() && edges@[e] == (id_at(p[0]), id_at(p[1]));
            assert(0 <= p[1] < n && p[1] <= 0xffff_ffff);
            if p[1] == x {
                assert(edges@[e].0 == edges@[e].1);
                assert(edges@[e].0.0 as int == x);
            } else {
                assert(in_some_scc(sccs@, x as usize));
                let (cv, kv) = choose|cv: int, kv: int| 0 <= cv < sccs@.len() && 0 <= kv < sccs@[cv]@.len() && sccs@[cv]@[kv] == x as usize;
                assert(in_scc_at(sccs@, p[0] as usize, cv));
                lemma_walk_closed(adj@, on_stack@, indices@, sccs@, edges@, n as int, p, 0, cv, 1);
                let c1 = choose|c1: int| 0 <= c1 <= cv && #[trigger] in_scc_at(sccs@, p[1] as usize, c1);
                lemma_walk_closed(adj@, on_stack@, indices@, sccs@, edges@, n as int, p, 1, c1, p.len() - 1);
                let c2 = choose|c2: int| 0 <= c2 <= c1 && #[trigger] in_scc_at(sccs@, p[p.len() - 1] as usize, c2);
                let k2 = choose|k2: int| 0 <= k2 < sccs@[c2]@.len() && sccs@[c2]@[k2] == p[p.len() - 1] as usize;
                assert(sccs@[cv]@[kv] == sccs@[c2]@[k2]);
                assert(cv == c2);
                let k1 = choose|k1: int| 0 <= k1 < sccs@[c1]@.len() && sccs@[c1]@[k1] == p[1] as usize;
                assert(sccs@[cv]@[k1] != sccs@[cv]@[kv]);
                assert(sccs@[cv]@.len() > 1);
                assert(marked_component(adj@, sccs@[cv]@));
            }
        }
        if n <= 0xffff_ffff {
            assert forall|x: int| 0 <= x < n && (#[trigger] arena@[x]).is_cyclic
                implies a0[x].is_cyclic || on_cycle(edges@, n as int, x) by {
                if !a0[x].is_cyclic {
                    assert(on_adj_cycle(adj@, x));
                    lemma_adj_cycle_on_edges(adj@, edges@, n as int, x);
                }
            }
        }
    }
}

/// One of the first `k` edges leads from node `u` to node `w`.
pub open spec fn from_edge(edges: Seq<(NodeId, NodeId)>, k: int, u: int, w: int) -> bool {
    exists|e: int| 0 <= e < k && (#[trigger] edges[e]).0.0 as int == u && edges[e].1.0 as int == w
}

proof fn lemma_step_edge(adj: Seq<Vec<usize>>, edges: Seq<(NodeId, NodeId)>, n: int, p: Seq<int>, i: int)
    requires
        adj_walk(adj, p),
        adj.len() == n,
        n <= usize::MAX,
        0 <= i < p.len() - 1,
        p[i] <= 0xffff_ffff,
        forall|u: int, j: int| 0 <= u < n && 0 <= j < adj[u]@.len()
            ==> from_edge(edges, edges.len() as int, u, (#[trigger] adj[u]@[j]) as int),
    ensures
        walk_step(edges, p, i),
        p[i + 1] <= 0xffff_ffff,
{
    assert(adj_step(adj, p, i));
    let a = p[i];
    assert(0 <= p[i] < n);
    assert(0 <= p[i + 1] < n);
    let j = choose|j: int| 0 <= j < adj[a]@.len() && adj[a]@[j] == p[i + 1] as usize;
    assert(from_edge(edges, edges.len() as int, a, adj[a]@[j] as int));
    let e = choose|e: int| 0 <= e < edges.len() && (#[trigger] edges[e]).0.0 as int == a && edges[e].1.0 as int == adj[a]@[j] as int;
    assert(adj[a]@[j] as int == p[i + 1]);
    assert(edges[e] == (id_at(p[i]), id_at(p[i + 1])));
}

proof fn lemma_walk_fits(adj: Seq<Vec<usize>>, edges: Seq<(NodeId, NodeId)>, n: int, p: Seq<int>, i: int)
    requires
        adj_walk(adj, p),
        adj.len() == n,
        n <= usize::MAX,
        0 <= i < p.len(),
        p[0] <= 0xffff_ffff,
        forall|u: int, j: int| 0 <= u < n && 0 <= j < adj[u]@.len()
            ==> from_edge(edges, edges.len() as int, u, (#[trigger] adj[u]@[j]) as int),
    ensures
        p[i] <= 0xffff_ffff,
    decreases i,
{
    if i > 0 {
        lemma_walk_fits(adj, edges, n, p, i - 1);
        lemma_step_edge(adj, edges, n, p, i - 1);
    }
}

/// A cycle of the adjacency lists built from `edges` is a cycle of `edges`.
proof fn lemma_adj_cycle_on_edges(adj: Seq<Vec<usize>>, edges: Seq<(NodeId, NodeId)>, n: int, x: int)
    requires
        on_adj_cycle(adj, x),
        adj.len() == n,
        n <= usize::MAX,
        x <= 0xffff_ffff,
        forall|u: int, j: int| 0 <= u < n && 0 <= j < adj[u]@.len()
            ==> from_edge(edges, edges.len() as int, u, (#[trigger] adj[u]@[j]) as int),
    ensures
        on_cycle(edges, n, x),
{
    let p = choose|p: Seq<int>| #[trigger] adj_walk(adj, p) && p.len() >= 2 && p[0] == x && p[p.len() - 1] == x;
    assert forall|i: int| 0 <= i < p.len() implies 0 <= #[trigger] p[i] < n && p[i] <= 0xffff_ffff by {
        lemma_walk_fits(adj, edges, n, p, i);
    }
    assert forall|i: int| 0 <= i < p.len() - 1 implies #[trigger] walk_step(edges, p, i) by {
        lemma_step_edge(adj, edges, n, p, i);
    }
    assert(cycle_walk(edges, n, p));
}

/// Step `i` of the walk `p` follows an edge.
pub open spec fn walk_step(edges: Seq<(NodeId, NodeId)>, p: Seq<int>, i: int) -> bool {
    edges.contains((id_at(p[i]), id_at(p[i + 1])))
}

/// `p` walks along `edges` from a node back to that node, through nodes
/// below `n` whose ids fit in `u32`.
pub open spec fn cycle_walk(edges: Seq<(NodeId, NodeId)>, n: int, p: Seq<int>) -> bool {
    &&& p.len() >= 2
    &&& p[0] == p[p.len() - 1]
    &&& forall|i: int| 0 <= i < p.len() ==> 0 <= #[trigger] p[i] < n && p[i] <= 0xffff_ffff
    &&& forall|i: int| 0 <= i < p.len() - 1 ==> #[trigger] walk_step(edges, p, i)
}

/// Node `v` lies on a cycle of the graph: some walk along `edges` leads
/// from it back to it.
pub open spec fn on_cycle(edges: Seq<(NodeId, NodeId)>, n: int, v: int) -> bool {
    exists|p: Seq<int>| #[trigger] cycle_walk(edges, n, p) && p[0] == v
}

/// Following the walk `p` from position `from`, which lies in component
/// `c`, never leaves component `c` and those found before it.
proof fn lemma_walk_closed(
    adj: Seq<Vec<usize>>,
    on_stack: Seq<bool>,
    indices: Seq<Option<usize>>,
    sccs: Seq<Vec<usize>>,
    edges: Seq<(NodeId, NodeId)>,
    n: int,
    p: Seq<int>,
    from: int,
    c: int,
    to: int,
)
    requires
        scc_ok(adj, on_stack, indices, sccs),
        adj.len() == n,
        forall|e: int| 0 <= e < edges.len() && ((#[trigger] edges[e]).0.0 as int) < n && (edges[e].1.0 as int) < n
            ==> adj[edges[e].0.0 as int]@.contains(edges[e].1.0 as usize),
        forall|i: int| 0 <= i < p.len() ==> 0 <= #[trigger] p[i] < n && p[i] <= 0xffff_ffff,
        forall|i: int| 0 <= i < p.len() - 1 ==> #[trigger] walk_step(edges, p, i),
        0 <= from <= to < p.len(),
        0 <= c < sccs.len(),
        in_scc_at(sccs, p[from] as usize, c),
    ensures
        closed_before(sccs, p[to] as usize, c),
    decreases to - from,
{
    if to == from {
        assert(in_scc_at(sccs, p[to] as usize, c));
    } else {
        lemma_walk_closed(adj, on_stack, indices, sccs, edges, n, p, from, c, to - 1);
        let a = p[to - 1];
        let b = p[to];
        let c1 = choose|c1: int| 0 <= c1 <= c && #[trigger] in_scc_at(sccs, a as usize, c1);
        let k1 = choose|k1: int| 0 <= k1 < sccs[c1]@.len() && sccs[c1]@[k1] == a as usize;
        assert(walk_step(edges, p, to - 1));
        let e = choose|e: int| 0 <= e < edges.len() && edges[e] == (id_at(p[to - 1]), id_at(p[to]));
        assert(edges[e].0.0 as int == a);
        assert(edges[e].1.0 as int == b);
        assert(adj[a]@.contains(b as usize));
        let e2 = choose|e2: int| 0 <= e2 < adj[a]@.len() && adj[a]@[e2] == b as usize;
        assert(sccs[c1]@[k1] == a as usize);
        assert(closed_before(sccs, adj[sccs[c1]@[k1] as int]@[e2], c1));
        let c2 = choose|c2: int| 0 <= c2 <= c1 && #[trigger] in_scc_at(sccs, b as usize, c2);
        assert(in_scc_at(sccs, b as usize, c2));
    }
}

proof fn lemma_unvisited_all_none(s: Seq<Option<usize>>)
    requires
        forall|x: int| 0 <= x < s.len() ==> (#[trigger] s[x]) is None,
    ensures
        unvisited(s) == s.len(),
    decreases s.len(),
{
    if s.len() > 0 {
        lemma_unvisited_all_none(s.drop_last());
    }
}

} // verus!
