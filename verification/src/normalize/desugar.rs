//! Turning a `type` array into an `anyOf` of single types.
use vstd::prelude::*;

use crate::json::{clone_json, json_get, json_model, json_models, member_models, object_get, JsonModel, JsonValue};
use crate::normalize::arena::{arena_capacity, id_at, Arena, Node, NodeId, NodeKind, NodeModel};
use crate::normalize::traverse::{child_ids, expanded, placed_children};
use crate::text::{concat3, decimal, decimal_text, owned};

verus! {

/// The types of a node whose `type` is an array of more than one.
pub open spec fn type_array(n: NodeModel) -> Option<Seq<JsonModel>> {
    match json_get(n.keywords, "type"@) {
        Some(JsonModel::Array(ts)) => if ts.len() > 1 {
            Some(ts)
        } else {
            None
        },
        _ => None,
    }
}

/// One child per type, each a schema of just that type.
pub open spec fn type_children(ts: Seq<JsonModel>, ptr: Seq<char>) -> Seq<(Seq<char>, NodeModel)> {
    Seq::new(
        ts.len(),
        |i: int|
            (
                ptr + "/type/"@ + decimal(i as nat),
                NodeModel {
                    kind: NodeKind::Object,
                    keywords: seq![("type"@, ts[i])],
                    parent: None,
                    children: Seq::empty(),
                    depth: 0,
                    pointer: Seq::empty(),
                    ref_target: None,
                    is_cyclic: false,
                },
            ),
    )
}

/// The arena after desugaring node `id`: a node whose `type` is an array of
/// more than one becomes an `anyOf` with a child per type.
pub open spec fn desugared(a: Seq<NodeModel>, id: NodeId) -> Seq<NodeModel> {
    match type_array(a[id.0 as int]) {
        Some(ts) => expanded(
            a.update(id.0 as int, NodeModel { kind: NodeKind::AnyOf, ..a[id.0 as int] }),
            id,
            type_children(ts, a[id.0 as int].pointer),
        ),
        None => a,
    }
}

/// Desugaring node `id` keeps every id within `u32`.
pub open spec fn desugar_fits(a: Seq<NodeModel>, id: NodeId) -> bool {
    match type_array(a[id.0 as int]) {
        Some(ts) => a.len() + ts.len() <= arena_capacity(),
        None => true,
    }
}

/// The number of children desugaring node `id` creates.
pub fn desugar_size(arena: &Arena, id: NodeId) -> (r: usize)
    requires
        (id.0 as int) < arena@.len(),
    ensures
        r == match type_array(arena@[id.0 as int]) {
            Some(ts) => ts.len(),
            None => 0,
        },
{
    match object_get(&arena.get(id).keywords, "type") {
        Some(JsonValue::Array(types)) => {
            proof {
                crate::json::lemma_array_model(*types);
            }
            if types.len() > 1 {
                types.len()
            } else {
                0
            }
        },
        _ => 0,
    }
}

/// Convert `type: ["string", "null"]` into `anyOf` with two children, as
/// `desugared` states.
pub fn desugar_type_arrays(arena: &mut Arena, node_id: NodeId)
    requires
        (node_id.0 as int) < old(arena)@.len(),
        old(arena)@[node_id.0 as int].depth < u32::MAX,
        desugar_fits(old(arena)@, node_id),
    ensures
        final(arena)@ == desugared(old(arena)@, node_id),
{
    let ghost a0 = arena@;
    let node = arena.get(node_id);
    let types: Vec<JsonValue> = match object_get(&node.keywords, "type") {
        Some(JsonValue::Array(ts)) => {
            proof {
                crate::json::lemma_array_model(*ts);
            }
            if ts.len() > 1 {
                let mut out: Vec<JsonValue> = Vec::new();
                let mut i: usize = 0;
                while i < ts.len()
                    invariant
                        i <= ts.len(),
                        json_models(out@) =~= json_models(ts@).take(i as int),
                    decreases ts.len() - i,
                {
                    let c = clone_json(&ts[i]);
                    let ghost before = json_models(out@);
                    out.push(c);
                    assert(json_models(out@) =~= before.push(json_model(c)));
                    i = i + 1;
                }
                assert(json_models(out@) =~= json_models(ts@));
                out
            } else {
                return;
            }
        },
        _ => return,
    };
    let ghost ts = json_models(types@);
    assert(type_array(a0[node_id.0 as int]) == Some(ts));
    let ptr = owned(node.json_pointer.as_str());
    let depth = node.depth;
    arena.set_kind(node_id, NodeKind::AnyOf);
    let ghost a1 = arena@;
    let ghost cs = type_children(ts, a0[node_id.0 as int].pointer);
    let ghost placed = placed_children(cs, node_id, depth);
    let start = arena.len();
    let k = types.len();
    let mut i: usize = 0;
    while i < k
        invariant
            i <= k,
            k == types.len(),
            ts == json_models(types@),
            start == a1.len(),
            start + k <= arena_capacity(),
            (node_id.0 as int) < a1.len(),
            depth < u32::MAX,
            depth == a1[node_id.0 as int].depth,
            ptr@ == a1[node_id.0 as int].pointer,
            placed == placed_children(cs, node_id, depth),
            cs == type_children(ts, ptr@),
            arena@ == a1.update(
                node_id.0 as int,
                NodeModel { children: a1[node_id.0 as int].children + child_ids(start as nat, i as nat), ..a1[node_id.0 as int] },
            ) + placed.take(i as int),
        decreases k - i,
    {
        let mut keywords: Vec<(String, JsonValue)> = Vec::new();
        keywords.push((owned("type"), clone_json(&types[i])));
        let mut pointer = concat3(ptr.as_str(), "/type/", decimal_text(i).as_str());
        let child = Node {
            kind: NodeKind::Object,
            keywords,
            parent: Some(node_id),
            children: Vec::new(),
            depth: depth + 1,
            json_pointer: pointer,
            ref_target: None,
            is_cyclic: false,
        };
        assert(member_models(child.keywords@) =~= seq![("type"@, ts[i as int])]);
        assert(child.children@ =~= Seq::<NodeId>::empty());
        assert(child@ == placed[i as int]);
        let cid = arena.allocate(child);
        arena.push_child(node_id, cid);
        assert(child_ids(start as nat, i as nat).push(cid) =~= child_ids(start as nat, (i + 1) as nat));
        assert(placed.take(i as int).push(placed[i as int]) =~= placed.take(i + 1));
        assert(arena@ =~= a1.update(
            node_id.0 as int,
            NodeModel { children: a1[node_id.0 as int].children + child_ids(start as nat, (i + 1) as nat), ..a1[node_id.0 as int] },
        ) + placed.take(i + 1));
        i = i + 1;
    }
    assert(placed.take(k as int) =~= placed);
}

} // verus!
