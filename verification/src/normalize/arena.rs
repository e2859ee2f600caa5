//! The normalized IR: schema nodes in an arena, addressed by `NodeId`.
use vstd::prelude::*;

use crate::json::{clone_json, json_get, json_model, member_models, object_get, JsonModel, JsonValue};
use crate::text::{concat2, owned, str_eq};

verus! {

/// Unique identifier for a node in the arena.
#[derive(Debug, Clone, Copy, PartialEq, Eq, Structural)]
pub struct NodeId(pub u32);

/// Classification of JSON Schema node kinds.
#[derive(Debug, Clone, Copy, PartialEq, Eq, Structural)]
pub enum NodeKind {
    Object,
    Array,
    String,
    Integer,
    Number,
    Boolean,
    Null,
    Any,
    Ref,
    AnyOf,
    OneOf,
    AllOf,
    Not,
}

/// A node in the normalized IR.
#[derive(Debug)]
pub struct Node {
    pub kind: NodeKind,
    /// The schema's keywords, as written.
    pub keywords: Vec<(String, JsonValue)>,
    pub parent: Option<NodeId>,
    pub children: Vec<NodeId>,
    pub depth: u32,
    pub json_pointer: String,
    pub ref_target: Option<NodeId>,
    pub is_cyclic: bool,
}

/// The content of a node.
pub ghost struct NodeModel {
    pub kind: NodeKind,
    pub keywords: Seq<(Seq<char>, JsonModel)>,
    pub parent: Option<NodeId>,
    pub children: Seq<NodeId>,
    pub depth: u32,
    pub pointer: Seq<char>,
    pub ref_target: Option<NodeId>,
    pub is_cyclic: bool,
}

impl View for Node {
    type V = NodeModel;

    open spec fn view(&self) -> NodeModel {
        NodeModel {
            kind: self.kind,
            keywords: member_models(self.keywords@),
            parent: self.parent,
            children: self.children@,
            depth: self.depth,
            pointer: self.json_pointer@,
            ref_target: self.ref_target,
            is_cyclic: self.is_cyclic,
        }
    }
}

/// Arena allocator for IR nodes.
#[derive(Debug)]
pub struct Arena {
    nodes: Vec<Node>,
}

impl View for Arena {
    type V = Seq<NodeModel>;

    closed spec fn view(&self) -> Seq<NodeModel> {
        Seq::new(self.nodes@.len(), |i: int| self.nodes@[i]@)
    }
}

/// The id of the node at position `i`.
pub open spec fn id_at(i: int) -> NodeId {
    NodeId(i as u32)
}

/// The largest number of nodes an arena holds: every id fits in `u32`.
pub open spec fn arena_capacity() -> nat {
    0xffff_ffff
}

impl Arena {
    pub fn new() -> (r: Arena)
        ensures
            r@ == Seq::<NodeModel>::empty(),
    {
        let r = Arena { nodes: Vec::new() };
        assert(r@ =~= Seq::<NodeModel>::empty());
        r
    }

    pub fn len(&self) -> (r: usize)
        ensures
            r == self@.len(),
    {
        self.nodes.len()
    }

    pub fn is_empty(&self) -> (r: bool)
        ensures
            r == (self@.len() == 0),
    {
        self.nodes.len() == 0
    }

    /// Add a node; its id is its position.
    pub fn allocate(&mut self, node: Node) -> (r: NodeId)
        requires
            old(self)@.len() < arena_capacity(),
        ensures
            final(self)@ == old(self)@.push(node@),
            r == id_at(old(self)@.len() as int),
            r.0 == old(self)@.len(),
    {
        let id = NodeId(self.nodes.len() as u32);
        self.nodes.push(node);
        assert(self@ =~= old(self)@.push(node@));
        id
    }

    /// The node with id `id`.
    pub fn get(&self, id: NodeId) -> (r: &Node)
        requires
            (id.0 as int) < self@.len(),
        ensures
            r@ == self@[id.0 as int],
    {
        &self.nodes[id.0 as usize]
    }

    /// Set the parent, depth and pointer of node `id`.
    pub fn place(&mut self, id: NodeId, parent: Option<NodeId>, depth: u32, pointer: String)
        requires
            (id.0 as int) < old(self)@.len(),
        ensures
            final(self)@ == old(self)@.update(
                id.0 as int,
                NodeModel { parent, depth, pointer: pointer@, ..old(self)@[id.0 as int] },
            ),
    {
        let i = id.0 as usize;
        self.nodes[i].parent = parent;
        self.nodes[i].depth = depth;
        self.nodes[i].json_pointer = pointer;
        assert(self@ =~= old(self)@.update(
            id.0 as int,
            NodeModel { parent, depth, pointer: pointer@, ..old(self)@[id.0 as int] },
        ));
    }

    /// Append `child` to the children of node `id`.
    pub fn push_child(&mut self, id: NodeId, child: NodeId)
        requires
            (id.0 as int) < old(self)@.len(),
        ensures
            final(self)@ == old(self)@.update(
                id.0 as int,
                NodeModel { children: old(self)@[id.0 as int].children.push(child), ..old(self)@[id.0 as int] },
            ),
    {
        let i = id.0 as usize;
        self.nodes[i].children.push(child);
        assert(self@ =~= old(self)@.update(
            id.0 as int,
            NodeModel { children: old(self)@[id.0 as int].children.push(child), ..old(self)@[id.0 as int] },
        ));
    }

    /// Set the kind of node `id`.
    pub fn set_kind(&mut self, id: NodeId, kind: NodeKind)
        requires
            (id.0 as int) < old(self)@.len(),
        ensures
            final(self)@ == old(self)@.update(id.0 as int, NodeModel { kind, ..old(self)@[id.0 as int] }),
    {
        let i = id.0 as usize;
        self.nodes[i].kind = kind;
        assert(self@ =~= old(self)@.update(id.0 as int, NodeModel { kind, ..old(self)@[id.0 as int] }));
    }

    /// Set the `$ref` target of node `id`.
    pub fn set_ref_target(&mut self, id: NodeId, target: Option<NodeId>)
        requires
            (id.0 as int) < old(self)@.len(),
        ensures
            final(self)@ == old(self)@.update(id.0 as int, NodeModel { ref_target: target, ..old(self)@[id.0 as int] }),
    {
        let i = id.0 as usize;
        self.nodes[i].ref_target = target;
        assert(self@ =~= old(self)@.update(id.0 as int, NodeModel { ref_target: target, ..old(self)@[id.0 as int] }));
    }

    /// Mark node `id` as part of a reference cycle.
    pub fn mark_cyclic(&mut self, id: NodeId)
        requires
            (id.0 as int) < old(self)@.len(),
        ensures
            final(self)@ == old(self)@.update(id.0 as int, NodeModel { is_cyclic: true, ..old(self)@[id.0 as int] }),
    {
        let i = id.0 as usize;
        self.nodes[i].is_cyclic = true;
        assert(self@ =~= old(self)@.update(id.0 as int, NodeModel { is_cyclic: true, ..old(self)@[id.0 as int] }));
    }
}

// ---------------------------------------------------------------------------
// Reading a node from JSON
// ---------------------------------------------------------------------------

/// The name of a JSON value's type, for error messages.
pub open spec fn json_type_name(v: JsonModel) -> Seq<char> {
    match v {
        JsonModel::Null => "null"@,
        JsonModel::Array(_) => "array"@,
        JsonModel::Str(_) => "string"@,
        JsonModel::Number(_) => "number"@,
        JsonModel::Bool(_) => "boolean"@,
        JsonModel::Object(_) => "object"@,
    }
}

pub fn json_type_name_of(v: &JsonValue) -> (r: &'static str)
    ensures
        r@ == json_type_name(v@),
{
    match v {
        JsonValue::Null => "null",
        JsonValue::Array(_) => "array",
        JsonValue::String(_) => "string",
        JsonValue::Number(_) => "number",
        JsonValue::Bool(_) => "boolean",
        JsonValue::Object(_) => "object",
    }
}

/// The kind a `type` name stands for.
pub open spec fn kind_named(t: Seq<char>) -> Option<NodeKind> {
    if t == "object"@ {
        Some(NodeKind::Object)
    } else if t == "array"@ {
        Some(NodeKind::Array)
    } else if t == "string"@ {
        Some(NodeKind::String)
    } else if t == "integer"@ {
        Some(NodeKind::Integer)
    } else if t == "number"@ {
        Some(NodeKind::Number)
    } else if t == "boolean"@ {
        Some(NodeKind::Boolean)
    } else if t == "null"@ {
        Some(NodeKind::Null)
    } else {
        None
    }
}

/// The kind of a schema object: its `type` when that names one kind, else
/// a reference or the first composition keyword present, else `Any`.
pub open spec fn kind_of(ms: Seq<(Seq<char>, JsonModel)>) -> NodeKind {
    match json_get(ms, "type"@) {
        Some(JsonModel::Str(t)) if kind_named(t) is Some => kind_named(t).unwrap(),
        _ => if json_get(ms, "$ref"@) is Some {
            NodeKind::Ref
        } else if json_get(ms, "anyOf"@) is Some {
            NodeKind::AnyOf
        } else if json_get(ms, "oneOf"@) is Some {
            NodeKind::OneOf
        } else if json_get(ms, "allOf"@) is Some {
            NodeKind::AllOf
        } else if json_get(ms, "not"@) is Some {
            NodeKind::Not
        } else {
            NodeKind::Any
        },
    }
}

/// A fresh node: not yet placed in the tree.
pub open spec fn fresh_node(kind: NodeKind, ms: Seq<(Seq<char>, JsonModel)>) -> NodeModel {
    NodeModel {
        kind,
        keywords: ms,
        parent: None,
        children: Seq::empty(),
        depth: 0,
        pointer: Seq::empty(),
        ref_target: None,
        is_cyclic: false,
    }
}

/// The node a JSON value makes: an object is a schema with its keywords, a
/// boolean is the schema that accepts everything or nothing; anything else
/// is not a schema.
pub open spec fn parsed_node(v: JsonModel) -> Result<NodeModel, Seq<char>> {
    match v {
        JsonModel::Object(ms) => Ok(fresh_node(kind_of(ms), ms)),
        JsonModel::Bool(_) => Ok(fresh_node(NodeKind::Any, Seq::empty())),
        _ => Err("expected object or boolean, got "@ + json_type_name(v)),
    }
}

fn kind_named_exec(t: &str) -> (r: Option<NodeKind>)
    ensures
        r == kind_named(t@),
{
    if str_eq(t, "object") {
        Some(NodeKind::Object)
    } else if str_eq(t, "array") {
        Some(NodeKind::Array)
    } else if str_eq(t, "string") {
        Some(NodeKind::String)
    } else if str_eq(t, "integer") {
        Some(NodeKind::Integer)
    } else if str_eq(t, "number") {
        Some(NodeKind::Number)
    } else if str_eq(t, "boolean") {
        Some(NodeKind::Boolean)
    } else if str_eq(t, "null") {
        Some(NodeKind::Null)
    } else {
        None
    }
}

fn kind_of_exec(ms: &Vec<(String, JsonValue)>) -> (r: NodeKind)
    ensures
        r == kind_of(member_models(ms@)),
{
    let named = match object_get(ms, "type") {
        Some(JsonValue::String(t)) => kind_named_exec(t.as_str()),
        _ => None,
    };
    match named {
        Some(k) => k,
        None => {
            if object_get(ms, "$ref").is_some() {
                NodeKind::Ref
            } else if object_get(ms, "anyOf").is_some() {
                NodeKind::AnyOf
            } else if object_get(ms, "oneOf").is_some() {
                NodeKind::OneOf
            } else if object_get(ms, "allOf").is_some() {
                NodeKind::AllOf
            } else if object_get(ms, "not").is_some() {
                NodeKind::Not
            } else {
                NodeKind::Any
            }
        },
    }
}

pub(crate) fn clone_members(ms: &Vec<(String, JsonValue)>) -> (r: Vec<(String, JsonValue)>)
    ensures
        member_models(r@) == member_models(ms@),
{
    let mut out: Vec<(String, JsonValue)> = Vec::new();
    let mut i: usize = 0;
    while i < ms.len()
        invariant
            i <= ms.len(),
            member_models(out@) =~= member_models(ms@).take(i as int),
        decreases ms.len() - i,
    {
        let v = clone_json(&ms[i].1);
        let k = owned(ms[i].0.as_str());
        let ghost before = member_models(out@);
        out.push((k, v));
        assert(member_models(out@) =~= before.push((k@, json_model(v))));
        i = i + 1;
    }
    out
}

/// Read a schema node from a JSON value, as `parsed_node` states.
pub fn parse_node(v: &JsonValue) -> (r: Result<Node, String>)
    ensures
        match r {
            Ok(n) => parsed_node(v@) == Ok::<NodeModel, Seq<char>>(n@),
            Err(e) => parsed_node(v@) == Err::<NodeModel, Seq<char>>(e@),
        },
{
    match v {
        JsonValue::Object(ms) => {
            proof {
                crate::json::lemma_object_model(*ms);
            }
            let keywords = clone_members(ms);
            let n = Node {
                kind: kind_of_exec(ms),
                keywords,
                parent: None,
                children: Vec::new(),
                depth: 0,
                json_pointer: String::new(),
                ref_target: None,
                is_cyclic: false,
            };
            assert(n.children@ =~= Seq::<NodeId>::empty());
            assert(n.json_pointer@ =~= Seq::<char>::empty());
            assert(n@ == fresh_node(kind_of(member_models(ms@)), member_models(ms@)));
            Ok(n)
        },
        JsonValue::Bool(_) => {
            let n = Node {
                kind: NodeKind::Any,
                keywords: Vec::new(),
                parent: None,
                children: Vec::new(),
                depth: 0,
                json_pointer: String::new(),
                ref_target: None,
                is_cyclic: false,
            };
            assert(member_models(n.keywords@) =~= Seq::empty());
            assert(n.children@ =~= Seq::<NodeId>::empty());
            assert(n.json_pointer@ =~= Seq::<char>::empty());
            assert(n@ == fresh_node(NodeKind::Any, Seq::empty()));
            Ok(n)
        },
        _ => Err(concat2("expected object or boolean, got ", json_type_name_of(v))),
    }
}

} // verus!
