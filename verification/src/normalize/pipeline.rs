//! The normalization pipeline: root, definitions, expansion, references,
//! cycles, type arrays.
use indexmap::IndexMap;
use vstd::prelude::*;

use crate::json::{json_get, member_models, JsonModel, JsonValue};
use crate::normalize::arena::{arena_capacity, id_at, parse_node, parsed_node, Arena, NodeId, NodeKind, NodeModel};
use crate::normalize::defs::{defs_entries, defs_has, entry_ids, insert_def, name_insert, has_name, new_defs_map};
use crate::normalize::desugar::{desugar_fits, desugar_size, desugar_type_arrays, desugared, type_array, type_children};
use crate::normalize::dialect::{detect, dialect_of, Dialect};
use crate::normalize::error::{NormalizeError, NormalizeFault};
use crate::normalize::refs::{
    first_bad_ref, first_unresolved, on_cycle, only_marked, owner_edges, resolve_refs, tarjan_scc,
    transitive_ref_edges, with_targets,
};
use crate::normalize::traverse::{
    attach_children, attach_outcome, expand_and_dfs, expanded, expansion, fully_expanded, grown_by_expansion,
    keeps_nodes, lemma_expanded_tree, too_many_nodes,
    object_slots, parsed_children, push_object_slots, slot_models, tree_shaped, ChildSlot, Slot,
};
use crate::text::owned;

verus! {

/// A schema normalized into its IR graph.
#[derive(Debug)]
pub struct NormalizedSchema {
    pub arena: Arena,
    pub root_id: NodeId,
    pub defs: IndexMap<String, NodeId>,
    pub dialect: Dialect,
}

/// The definition slots of a root schema: `$defs` entries, then
/// `definitions` entries.
pub open spec fn def_slots(kws: Seq<(Seq<char>, JsonModel)>, ptr: Seq<char>) -> Seq<ChildSlot> {
    object_slots(kws, "$defs"@, ptr) + object_slots(kws, "definitions"@, ptr)
}

/// The names of an object-valued keyword's members.
pub open spec fn member_names(kws: Seq<(Seq<char>, JsonModel)>, key: Seq<char>) -> Seq<Seq<char>> {
    match json_get(kws, key) {
        Some(JsonModel::Object(ms)) => Seq::new(ms.len(), |i: int| ms[i].0),
        _ => Seq::empty(),
    }
}

/// The table after naming nodes `start`, `start + 1`, ... by `names`; with
/// `keep`, a name already present keeps its node.
pub open spec fn named_ids(m: Seq<(Seq<char>, NodeId)>, names: Seq<Seq<char>>, start: nat, keep: bool) -> Seq<(Seq<char>, NodeId)>
    decreases names.len(),
{
    if names.len() == 0 {
        m
    } else {
        let front = named_ids(m, names.drop_last(), start, keep);
        let id = id_at(start + names.len() - 1);
        if keep && has_name(front, names.last()) {
            front
        } else {
            name_insert(front, names.last(), id)
        }
    }
}

/// The lookup table of a root whose definitions start at node `start`:
/// `$defs` names first; a `definitions` name only where `$defs` lacks it.
pub open spec fn defs_table(kws: Seq<(Seq<char>, JsonModel)>, start: nat) -> Seq<(Seq<char>, NodeId)> {
    let n1 = member_names(kws, "$defs"@);
    named_ids(named_ids(Seq::empty(), n1, start, false), member_names(kws, "definitions"@), start + n1.len(), true)
}

proof fn lemma_object_slots_len(kws: Seq<(Seq<char>, JsonModel)>, key: Seq<char>, ptr: Seq<char>)
    ensures
        object_slots(kws, key, ptr).len() == member_names(kws, key).len(),
{
}

fn name_defs(
    defs: &mut IndexMap<String, NodeId>,
    members: &Vec<(String, JsonValue)>,
    start: usize,
    keep: bool,
)
    requires
        start + members.len() <= arena_capacity(),
    ensures
        defs_entries(*final(defs)) == named_ids(
            defs_entries(*old(defs)),
            Seq::new(members@.len(), |i: int| members@[i].0@),
            start as nat,
            keep,
        ),
{
    let ghost names = Seq::new(members@.len(), |i: int| members@[i].0@);
    let ghost m0 = defs_entries(*defs);
    let mut i: usize = 0;
    assert(names.take(0) =~= Seq::<Seq<char>>::empty());
    while i < members.len()
        invariant
            i <= members.len(),
            start + members.len() <= arena_capacity(),
            names == Seq::new(members@.len(), |i: int| members@[i].0@),
            defs_entries(*defs) == named_ids(m0, names.take(i as int), start as nat, keep),
        decreases members.len() - i,
    {
        assert(names.take(i + 1).drop_last() =~= names.take(i as int));
        assert(names.take(i + 1).last() == members@[i as int].0@);
        let id = NodeId((start + i) as u32);
        assert(id == id_at(start + i));
        let name = members[i].0.as_str();
        if !(keep && defs_has(defs, name)) {
            insert_def(defs, owned(name), id);
        }
        i = i + 1;
    }
    assert(names.take(members.len() as int) =~= names);
}

/// Parse `$defs` and `definitions` into definition nodes below the root and
/// fill the lookup table: `$defs` takes precedence on a name conflict, but a
/// colliding `definitions` entry still gets its own node.
pub fn build_defs(arena: &mut Arena, root_id: NodeId, defs: &mut IndexMap<String, NodeId>) -> (r: Result<(), NormalizeError>)
    requires
        root_id.0 == 0,
        old(arena)@.len() == 1,
        old(arena)@[0].depth == 0,
        defs_entries(*old(defs)) == Seq::<(Seq<char>, NodeId)>::empty(),
    ensures
        match attach_outcome(old(arena)@, root_id, def_slots(old(arena)@[0].keywords, old(arena)@[0].pointer)) {
            Ok(a) => r is Ok && final(arena)@ == a && defs_entries(*final(defs)) == defs_table(old(arena)@[0].keywords, 1),
            Err(m) => r matches Err(e) && e@ == NormalizeFault::ParseError(m),
        },
{
    let ghost a0 = arena@;
    let root = arena.get(root_id);
    let ptr = owned(root.json_pointer.as_str());
    let kws = crate::normalize::arena::clone_members(&root.keywords);
    let mut slots: Vec<Slot> = Vec::new();
    assert(slot_models(slots@) =~= Seq::empty());
    push_object_slots(&mut slots, &kws, "$defs", ptr.as_str());
    push_object_slots(&mut slots, &kws, "definitions", ptr.as_str());
    assert(slot_models(slots@) =~= def_slots(a0[0].keywords, a0[0].pointer));
    match attach_children(arena, root_id, &slots) {
        Ok(()) => {},
        Err(e) => return Err(e),
    }
    let ghost cs = parsed_children(slot_models(slots@))->Ok_0;
    proof {
        lemma_object_slots_len(a0[0].keywords, "$defs"@, a0[0].pointer);
        lemma_object_slots_len(a0[0].keywords, "definitions"@, a0[0].pointer);
        lemma_parsed_len(slot_models(slots@));
    }
    let empty: Vec<(String, JsonValue)> = Vec::new();
    let ds = match crate::json::object_get(&kws, "$defs") {
        Some(JsonValue::Object(ms)) => ms,
        _ => &empty,
    };
    let n1 = ds.len();
    proof {
        crate::json::lemma_object_model(*ds);
        assert(Seq::new(ds@.len(), |i: int| ds@[i].0@) =~= member_names(a0[0].keywords, "$defs"@));
    }
    name_defs(defs, ds, 1, false);
    let dn = match crate::json::object_get(&kws, "definitions") {
        Some(JsonValue::Object(ms)) => ms,
        _ => &empty,
    };
    proof {
        crate::json::lemma_object_model(*dn);
        assert(Seq::new(dn@.len(), |i: int| dn@[i].0@) =~= member_names(a0[0].keywords, "definitions"@));
    }
    name_defs(defs, dn, 1 + n1, true);
    Ok(())
}

proof fn lemma_parsed_len(slots: Seq<ChildSlot>)
    requires
        parsed_children(slots) is Ok,
    ensures
        parsed_children(slots)->Ok_0.len() == slots.len(),
    decreases slots.len(),
{
    if slots.len() > 0 {
        lemma_parsed_len(slots.drop_last());
    }
}

/// `b` has the links of `a`: the same parents, depths and children.
pub open spec fn same_links(a: Seq<NodeModel>, b: Seq<NodeModel>) -> bool {
    &&& a.len() == b.len()
    &&& forall|i: int| 0 <= i < a.len() ==> (#[trigger] b[i]).parent == a[i].parent && b[i].depth == a[i].depth
        && b[i].children == a[i].children
}

proof fn lemma_same_links_tree(a: Seq<NodeModel>, b: Seq<NodeModel>)
    requires
        tree_shaped(a),
        same_links(a, b),
    ensures
        tree_shaped(b),
{
    assert forall|x: int| 0 < x < b.len() implies crate::normalize::traverse::parent_before(#[trigger] b[x], x) by {
        assert(crate::normalize::traverse::parent_before(a[x], x));
    }
    assert forall|x: int, k: int| 0 <= x < b.len() && 0 <= k < b[x].children.len() implies {
        let y = #[trigger] b[x].children[k].0 as int;
        &&& y < b.len()
        &&& b[y].parent == Some(id_at(x))
    } by {
        assert(b[x].children[k] == a[x].children[k]);
    }
    assert forall|x: int| 0 < x < b.len() implies crate::normalize::traverse::listed_by_parent(b, #[trigger] b[x], x) by {
        assert(crate::normalize::traverse::listed_by_parent(a, a[x], x));
    }
    assert forall|x: int| 0 <= x < b.len() implies (#[trigger] b[x]).depth <= x by {
        assert(a[x].depth <= x);
    }
    assert forall|x: int, k1: int, k2: int| 0 <= x < b.len() && 0 <= k1 < k2 < b[x].children.len()
        implies #[trigger] b[x].children[k1] != #[trigger] b[x].children[k2] by {
        assert(a[x].children[k1] != a[x].children[k2]);
    }
}

proof fn lemma_desugar_tree(a: Seq<NodeModel>, id: NodeId)
    requires
        tree_shaped(a),
        0 <= id.0 < a.len(),
        desugar_fits(a, id),
    ensures
        tree_shaped(desugared(a, id)),
        desugared(a, id).len() >= a.len(),
{
    match type_array(a[id.0 as int]) {
        Some(ts) => {
            let b = a.update(id.0 as int, NodeModel { kind: NodeKind::AnyOf, ..a[id.0 as int] });
            lemma_same_links_tree(a, b);
            lemma_expanded_tree(b, id, type_children(ts, a[id.0 as int].pointer));
        },
        None => {},
    }
}

proof fn lemma_desugar_keeps_root(a: Seq<NodeModel>, id: NodeId)
    requires
        tree_shaped(a),
        0 <= id.0 < a.len(),
        desugar_fits(a, id),
    ensures
        desugared(a, id)[0].keywords == a[0].keywords,
        desugared(a, id)[0].pointer == a[0].pointer,
{
}

/// The arena after the definitions of `root` were parsed below it.
pub open spec fn defs_stage(root: NodeModel) -> Result<Seq<NodeModel>, Seq<char>> {
    attach_outcome(seq![root], NodeId(0), def_slots(root.keywords, root.pointer))
}

/// `x` is a complete expansion of `a`: a tree holding the nodes of `a`, in
/// which every node is expanded and every further node is a child that an
/// expansion created.
pub open spec fn expanded_from(a: Seq<NodeModel>, x: Seq<NodeModel>) -> bool {
    &&& tree_shaped(x)
    &&& keeps_nodes(a, x)
    &&& grown_by_expansion(a, x)
    &&& fully_expanded(x)
}

/// Expanding `a` reached the arena `x`, in which node `i` cannot be
/// expanded and fails with `m`.
pub open spec fn expansion_fails_at(a: Seq<NodeModel>, x: Seq<NodeModel>, i: int, m: Seq<char>) -> bool {
    &&& tree_shaped(x)
    &&& keeps_nodes(a, x)
    &&& grown_by_expansion(a, x)
    &&& 0 <= i < x.len()
    &&& expansion(x, id_at(i)) == Err::<Seq<NodeModel>, Seq<char>>(m)
}

/// Every reference of `x` is internal and resolves against `d`.
pub open spec fn refs_resolve(x: Seq<NodeModel>, d: Seq<(Seq<char>, NodeId)>) -> bool {
    first_bad_ref(x, d, x.len() as int) is None && first_unresolved(x, d, x.len() as int) is None
}

/// `z` is the resolved arena `y` with cycles marked: only cyclic flags were
/// set, and a node is marked exactly when it was already or it lies on a
/// cycle of the references between owning schemas.
pub open spec fn cycles_marked(y: Seq<NodeModel>, d: Seq<(Seq<char>, NodeId)>, z: Seq<NodeModel>) -> bool {
    &&& only_marked(y, z)
    &&& forall|v: int| 0 <= v < y.len() ==> (#[trigger] z[v]).is_cyclic == (y[v].is_cyclic || on_cycle(
        owner_edges(y, entry_ids(d), y.len() as int),
        y.len() as int,
        v,
    ))
}

/// Desugaring the type arrays of the first `n` nodes of `a`, one node after
/// another; `None` when the ids would no longer fit in `u32`.
pub open spec fn desugar_run(a: Seq<NodeModel>, n: nat) -> Option<Seq<NodeModel>>
    decreases n,
{
    if n == 0 {
        Some(a)
    } else {
        match desugar_run(a, (n - 1) as nat) {
            Some(b) => if desugar_fits(b, id_at(n - 1)) {
                Some(desugared(b, id_at(n - 1)))
            } else {
                None
            },
            None => None,
        }
    }
}

/// The stages after the definitions: `x` expands `a`, its references
/// resolve against `d`, `z` marks its cycles, and desugaring `z` gives
/// `out`.
pub open spec fn normalized_via(
    a: Seq<NodeModel>,
    d: Seq<(Seq<char>, NodeId)>,
    x: Seq<NodeModel>,
    z: Seq<NodeModel>,
    out: Seq<NodeModel>,
) -> bool {
    &&& expanded_from(a, x)
    &&& refs_resolve(x, d)
    &&& cycles_marked(with_targets(x, d), d, z)
    &&& desugar_run(z, z.len()) == Some(out)
}

/// A step after the definitions fails with `e`: expanding a node, an
/// internal reference that is not a definition, a reference that does not
/// resolve, or desugaring past the `u32` ids.
pub open spec fn later_stage_fails(a: Seq<NodeModel>, d: Seq<(Seq<char>, NodeId)>, e: NormalizeFault) -> bool {
    ||| exists|x: Seq<NodeModel>, i: int, m: Seq<char>|
        #[trigger] expansion_fails_at(a, x, i, m) && e == NormalizeFault::ParseError(m)
    ||| exists|x: Seq<NodeModel>| #[trigger] expanded_from(a, x) && match first_bad_ref(x, d, x.len() as int) {
        Some(m) => e == NormalizeFault::ParseError(m),
        None => first_unresolved(x, d, x.len() as int) matches Some(u) && e == NormalizeFault::UnresolvedRef(u),
    }
    ||| exists|x: Seq<NodeModel>, z: Seq<NodeModel>| {
        &&& #[trigger] expanded_from(a, x)
        &&& refs_resolve(x, d)
        &&& #[trigger] cycles_marked(with_targets(x, d), d, z)
        &&& desugar_run(z, z.len()) is None
        &&& e == NormalizeFault::ParseError(too_many_nodes())
    }
}

/// Normalize a raw JSON Schema value into a canonical IR graph.
///
/// In order: parse the root node, detect the dialect, build the `$defs` /
/// `definitions` table, expand the whole tree, resolve `$ref` edges, mark the
/// nodes on reference cycles, and desugar `type` arrays.
pub fn normalize(value: &JsonValue) -> (r: Result<NormalizedSchema, NormalizeError>)
    ensures
        match parsed_node(value@) {
            Err(m) => r matches Err(e) && e@ == NormalizeFault::ParseError(m),
            Ok(root) => match defs_stage(root) {
                Err(m) => r matches Err(e) && e@ == NormalizeFault::ParseError(m),
                Ok(a) => match r {
                    Ok(ns) => {
                        &&& ns.root_id == NodeId(0)
                        &&& ns.dialect == dialect_of(root)
                        &&& defs_entries(ns.defs) == defs_table(root.keywords, 1)
                        &&& tree_shaped(ns.arena@)
                        &&& ns.arena@[0].keywords == root.keywords
                        &&& ns.arena@[0].pointer == root.pointer
                        &&& exists|x: Seq<NodeModel>, z: Seq<NodeModel>|
                            #[trigger] normalized_via(a, defs_table(root.keywords, 1), x, z, ns.arena@)
                    },
                    Err(e) => later_stage_fails(a, defs_table(root.keywords, 1), e@),
                },
            },
        },
{
    let root_node = match parse_node(value) {
        Ok(n) => n,
        Err(m) => return Err(NormalizeError::ParseError(m)),
    };
    let mut arena = Arena::new();
    let root_id = arena.allocate(root_node);
    let ghost root = arena@[0];
    assert(arena@ =~= seq![root]);
    let dialect = detect(arena.get(root_id));
    let mut defs = new_defs_map();
    proof {
        assert(tree_shaped(arena@)) by {
            assert(arena@.len() == 1);
        }
    }
    let ghost a1 = arena@;
    match build_defs(&mut arena, root_id, &mut defs) {
        Ok(()) => {},
        Err(e) => return Err(e),
    }
    let ghost a = arena@;
    let ghost d = defs_table(root.keywords, 1);
    assert(defs_stage(root) == Ok::<Seq<NodeModel>, Seq<char>>(a));
    proof {
        let cs = parsed_children(def_slots(a1[0].keywords, a1[0].pointer))->Ok_0;
        crate::normalize::traverse::lemma_parsed_fresh(def_slots(a1[0].keywords, a1[0].pointer));
        lemma_expanded_tree(a1, root_id, cs);
    }
    match expand_and_dfs(&mut arena, root_id) {
        Ok(()) => {},
        Err(e) => {
            proof {
                let x = arena@;
                let i = choose|i: int|
                    0 <= i < x.len() && (#[trigger] expansion(x, id_at(i)) matches Err(m)
                        && e@ == NormalizeFault::ParseError(m));
                let m = expansion(x, id_at(i))->Err_0;
                assert(expansion_fails_at(a, x, i, m));
            }
            return Err(e);
        },
    }
    let ghost x = arena@;
    assert(expanded_from(a, x));
    let _edges = match resolve_refs(&mut arena, &defs) {
        Ok(edges) => edges,
        Err(e) => {
            assert(expanded_from(a, x));
            return Err(e);
        },
    };
    proof {
        lemma_same_links_tree(x, arena@);
    }
    assert(refs_resolve(x, d));
    let cycle_edges = transitive_ref_edges(&arena, &defs);
    let ghost a3 = arena@;
    tarjan_scc(&mut arena, cycle_edges.as_slice());
    proof {
        lemma_same_links_tree(a3, arena@);
    }
    let ghost z = arena@;
    assert(cycles_marked(with_targets(x, d), d, z));
    let n = arena.len();
    let mut i: usize = 0;
    while i < n
        invariant
            i <= n,
            n == z.len(),
            desugar_run(z, i as nat) == Some(arena@),
            defs_stage(root) == Ok::<Seq<NodeModel>, Seq<char>>(a),
            d == defs_table(root.keywords, 1),
            defs_entries(defs) == d,
            expanded_from(a, x),
            refs_resolve(x, d),
            cycles_marked(with_targets(x, d), d, z),
            n <= arena@.len(),
            tree_shaped(arena@),
            arena@[0].keywords == root.keywords,
            arena@[0].pointer == root.pointer,
            parsed_node(value@) == Ok::<NodeModel, Seq<char>>(root),
            root_id == NodeId(0),
            dialect == dialect_of(root),
        decreases n - i,
    {
        let id = NodeId(i as u32);
        assert(id.0 as int == i);
        assert(id == id_at(i as int));
        let extra = desugar_size(&arena, id);
        let len = arena.len();
        if extra > 0xffff_ffff - len {
            proof {
                assert(!desugar_fits(arena@, id));
                assert(desugar_run(z, (i + 1) as nat) is None);
                lemma_desugar_none(z, (i + 1) as nat, n as nat);
                assert(expanded_from(a, x) && refs_resolve(x, d) && cycles_marked(with_targets(x, d), d, z));
            }
            return Err(NormalizeError::ParseError(owned("schema has too many nodes")));
        }
        let ghost before = arena@;
        assert(before[i as int].depth <= i);
        desugar_type_arrays(&mut arena, id);
        proof {
            lemma_desugar_tree(before, id);
            lemma_desugar_keeps_root(before, id);
        }
        i = i + 1;
    }
    assert(normalized_via(a, d, x, z, arena@));
    Ok(NormalizedSchema { arena, root_id, defs, dialect })
}

proof fn lemma_desugar_none(a: Seq<NodeModel>, i: nat, n: nat)
    requires
        i <= n,
        desugar_run(a, i) is None,
    ensures
        desugar_run(a, n) is None,
    decreases n - i,
{
    if i < n {
        assert(desugar_run(a, i + 1) is None);
        lemma_desugar_none(a, i + 1, n);
    }
}

} // verus!
