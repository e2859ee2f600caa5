//! Expanding a schema node into the tree of its subschemas.
use vstd::prelude::*;

use crate::json::{json_get, json_model, member_models, object_get, JsonModel, JsonValue};
use crate::normalize::arena::{
    arena_capacity, clone_members, id_at, json_type_name, json_type_name_of, parse_node, parsed_node, Arena, Node,
    NodeId, NodeModel,
};
use crate::normalize::error::{NormalizeError, NormalizeFault};
use crate::pointer::{escape_pointer_segment, escaped_segment};
use crate::text::{concat2, concat3, decimal, decimal_text, owned};

verus! {

/// A place for a child in a node's expansion: a subschema with its pointer,
/// or a value that cannot hold one, with the message saying so.
pub ghost enum ChildSlot {
    Entry(Seq<char>, JsonModel),
    Bad(Seq<char>),
}

/// One child per member of an object-valued keyword, named by the escaped key.
pub open spec fn keyed_slots(ms: Seq<(Seq<char>, JsonModel)>, prefix: Seq<char>) -> Seq<ChildSlot> {
    Seq::new(ms.len(), |i: int| ChildSlot::Entry(prefix + escaped_segment(ms[i].0), ms[i].1))
}

/// One child per item of an array-valued keyword, named by the index.
pub open spec fn indexed_slots(items: Seq<JsonModel>, prefix: Seq<char>) -> Seq<ChildSlot> {
    Seq::new(items.len(), |i: int| ChildSlot::Entry(prefix + decimal(i as nat), items[i]))
}

/// Whether a value can be a schema: an object or a boolean.
pub open spec fn schema_like(v: JsonModel) -> bool {
    v is Object || v is Bool
}

/// The schema-like items of an array, each named by its index.
pub open spec fn schema_items(items: Seq<JsonModel>, prefix: Seq<char>) -> Seq<ChildSlot>
    decreases items.len(),
{
    if items.len() == 0 {
        Seq::empty()
    } else {
        schema_items(items.drop_last(), prefix) + if schema_like(items.last()) {
            seq![ChildSlot::Entry(prefix + decimal((items.len() - 1) as nat), items.last())]
        } else {
            Seq::empty()
        }
    }
}

/// The schema-like members of an object, each named by its escaped key.
pub open spec fn schema_members(ms: Seq<(Seq<char>, JsonModel)>, prefix: Seq<char>) -> Seq<ChildSlot>
    decreases ms.len(),
{
    if ms.len() == 0 {
        Seq::empty()
    } else {
        schema_members(ms.drop_last(), prefix) + if schema_like(ms.last().1) {
            seq![ChildSlot::Entry(prefix + escaped_segment(ms.last().0), ms.last().1)]
        } else {
            Seq::empty()
        }
    }
}

/// Children of an object-valued keyword.
pub open spec fn object_slots(kws: Seq<(Seq<char>, JsonModel)>, key: Seq<char>, ptr: Seq<char>) -> Seq<ChildSlot> {
    match json_get(kws, key) {
        Some(JsonModel::Object(ms)) => keyed_slots(ms, ptr + "/"@ + key + "/"@),
        _ => Seq::empty(),
    }
}

/// Children of an array-valued keyword.
pub open spec fn array_slots(kws: Seq<(Seq<char>, JsonModel)>, key: Seq<char>, ptr: Seq<char>) -> Seq<ChildSlot> {
    match json_get(kws, key) {
        Some(JsonModel::Array(items)) => indexed_slots(items, ptr + "/"@ + key + "/"@),
        _ => Seq::empty(),
    }
}

/// The child of a keyword whose value is a schema.
pub open spec fn single_slot(kws: Seq<(Seq<char>, JsonModel)>, key: Seq<char>, ptr: Seq<char>) -> Seq<ChildSlot> {
    match json_get(kws, key) {
        Some(v) => seq![ChildSlot::Entry(ptr + "/"@ + key, v)],
        None => Seq::empty(),
    }
}

/// The child of a keyword whose value is a schema unless it is a boolean.
pub open spec fn schema_unless_bool_slot(kws: Seq<(Seq<char>, JsonModel)>, key: Seq<char>, ptr: Seq<char>) -> Seq<ChildSlot> {
    match json_get(kws, key) {
        Some(v) => if v is Bool {
            Seq::empty()
        } else {
            seq![ChildSlot::Entry(ptr + "/"@ + key, v)]
        },
        None => Seq::empty(),
    }
}

/// `items`: a schema, or (in the tuple form) an array of schemas.
pub open spec fn items_slots(kws: Seq<(Seq<char>, JsonModel)>, ptr: Seq<char>) -> Seq<ChildSlot> {
    match json_get(kws, "items"@) {
        None => Seq::empty(),
        Some(JsonModel::Array(items)) => indexed_slots(items, ptr + "/items/"@),
        Some(v) => if schema_like(v) {
            seq![ChildSlot::Entry(ptr + "/items"@, v)]
        } else {
            seq![ChildSlot::Bad(ptr + "/items: expected object, boolean, or array, got "@ + json_type_name(v))]
        },
    }
}

/// A keyword that is not recognized but may hold subschemas: a schema-like
/// value is one child, an array gives its schema-like items.
pub open spec fn applicator_slots(kws: Seq<(Seq<char>, JsonModel)>, key: Seq<char>, ptr: Seq<char>) -> Seq<ChildSlot> {
    match json_get(kws, key) {
        Some(JsonModel::Array(items)) => schema_items(items, ptr + "/"@ + key + "/"@),
        Some(v) => if schema_like(v) {
            seq![ChildSlot::Entry(ptr + "/"@ + key, v)]
        } else {
            Seq::empty()
        },
        None => Seq::empty(),
    }
}

/// `dependencies`: its schema-valued entries.
pub open spec fn dependencies_slots(kws: Seq<(Seq<char>, JsonModel)>, ptr: Seq<char>) -> Seq<ChildSlot> {
    match json_get(kws, "dependencies"@) {
        Some(JsonModel::Object(ms)) => schema_members(ms, ptr + "/dependencies/"@),
        _ => Seq::empty(),
    }
}

/// Every child of a schema whose keywords are `kws` and whose pointer is
/// `ptr`, in the order they are created.
pub open spec fn child_slots(kws: Seq<(Seq<char>, JsonModel)>, ptr: Seq<char>) -> Seq<ChildSlot> {
    object_slots(kws, "properties"@, ptr)
        + items_slots(kws, ptr)
        + array_slots(kws, "prefixItems"@, ptr)
        + array_slots(kws, "anyOf"@, ptr)
        + array_slots(kws, "allOf"@, ptr)
        + array_slots(kws, "oneOf"@, ptr)
        + single_slot(kws, "not"@, ptr)
        + single_slot(kws, "if"@, ptr)
        + single_slot(kws, "then"@, ptr)
        + single_slot(kws, "else"@, ptr)
        + object_slots(kws, "dependentSchemas"@, ptr)
        + object_slots(kws, "patternProperties"@, ptr)
        + single_slot(kws, "propertyNames"@, ptr)
        + single_slot(kws, "contains"@, ptr)
        + schema_unless_bool_slot(kws, "additionalProperties"@, ptr)
        + schema_unless_bool_slot(kws, "unevaluatedProperties"@, ptr)
        + applicator_slots(kws, "unevaluatedItems"@, ptr)
        + applicator_slots(kws, "additionalItems"@, ptr)
        + applicator_slots(kws, "contentSchema"@, ptr)
        + dependencies_slots(kws, ptr)
}

/// The children that the slots make, each with its pointer, or the first
/// failure among them.
pub open spec fn parsed_children(slots: Seq<ChildSlot>) -> Result<Seq<(Seq<char>, NodeModel)>, Seq<char>>
    decreases slots.len(),
{
    if slots.len() == 0 {
        Ok(Seq::empty())
    } else {
        match parsed_children(slots.drop_last()) {
            Err(m) => Err(m),
            Ok(front) => match slots.last() {
                ChildSlot::Entry(p, v) => match parsed_node(v) {
                    Ok(n) => Ok(front.push((p, n))),
                    Err(m) => Err(m),
                },
                ChildSlot::Bad(m) => Err(m),
            },
        }
    }
}

// ---------------------------------------------------------------------------
// Listing the children
// ---------------------------------------------------------------------------

/// A child slot found in a node's keywords.
pub enum Slot<'a> {
    Entry(String, &'a JsonValue),
    Bad(String),
}

pub open spec fn slot_model(s: Slot) -> ChildSlot {
    match s {
        Slot::Entry(p, v) => ChildSlot::Entry(p@, v@),
        Slot::Bad(m) => ChildSlot::Bad(m@),
    }
}

pub open spec fn slot_models(s: Seq<Slot>) -> Seq<ChildSlot> {
    Seq::new(s.len(), |i: int| slot_model(s[i]))
}

fn push_slot<'a>(out: &mut Vec<Slot<'a>>, s: Slot<'a>)
    ensures
        slot_models(final(out)@) == slot_models(old(out)@).push(slot_model(s)),
{
    out.push(s);
    assert(slot_models(out@) =~= slot_models(old(out)@).push(slot_model(s)));
}

fn push_keyed<'a>(out: &mut Vec<Slot<'a>>, ms: &'a Vec<(String, JsonValue)>, prefix: &str)
    ensures
        slot_models(final(out)@) == slot_models(old(out)@) + keyed_slots(member_models(ms@), prefix@),
{
    let ghost start = slot_models(out@);
    let ghost mm = member_models(ms@);
    let mut i: usize = 0;
    assert(start + keyed_slots(mm, prefix@).take(0) =~= start);
    while i < ms.len()
        invariant
            i <= ms.len(),
            mm == member_models(ms@),
            slot_models(out@) == start + keyed_slots(mm, prefix@).take(i as int),
        decreases ms.len() - i,
    {
        let p = concat2(prefix, escape_pointer_segment(ms[i].0.as_str()).as_str());
        push_slot(out, Slot::Entry(p, &ms[i].1));
        assert(start + keyed_slots(mm, prefix@).take(i + 1) =~= (start + keyed_slots(mm, prefix@).take(i as int)).push(
            ChildSlot::Entry(prefix@ + escaped_segment(mm[i as int].0), mm[i as int].1),
        ));
        i = i + 1;
    }
    assert(keyed_slots(mm, prefix@).take(ms.len() as int) =~= keyed_slots(mm, prefix@));
}

fn push_indexed<'a>(out: &mut Vec<Slot<'a>>, items: &'a Vec<JsonValue>, prefix: &str)
    ensures
        slot_models(final(out)@) == slot_models(old(out)@) + indexed_slots(crate::json::json_models(items@), prefix@),
{
    let ghost start = slot_models(out@);
    let ghost im = crate::json::json_models(items@);
    let mut i: usize = 0;
    assert(start + indexed_slots(im, prefix@).take(0) =~= start);
    while i < items.len()
        invariant
            i <= items.len(),
            im == crate::json::json_models(items@),
            slot_models(out@) == start + indexed_slots(im, prefix@).take(i as int),
        decreases items.len() - i,
    {
        let p = concat2(prefix, decimal_text(i).as_str());
        push_slot(out, Slot::Entry(p, &items[i]));
        assert(start + indexed_slots(im, prefix@).take(i + 1) =~= (start + indexed_slots(im, prefix@).take(i as int)).push(
            ChildSlot::Entry(prefix@ + decimal(i as nat), im[i as int]),
        ));
        i = i + 1;
    }
    assert(indexed_slots(im, prefix@).take(items.len() as int) =~= indexed_slots(im, prefix@));
}

fn is_schema_like(v: &JsonValue) -> (r: bool)
    ensures
        r == schema_like(v@),
{
    match v {
        JsonValue::Object(_) | JsonValue::Bool(_) => true,
        _ => false,
    }
}

fn push_schema_items<'a>(out: &mut Vec<Slot<'a>>, items: &'a Vec<JsonValue>, prefix: &str)
    ensures
        slot_models(final(out)@) == slot_models(old(out)@) + schema_items(crate::json::json_models(items@), prefix@),
{
    let ghost start = slot_models(out@);
    let ghost im = crate::json::json_models(items@);
    let mut i: usize = 0;
    assert(im.take(0) =~= Seq::<JsonModel>::empty());
    assert(start + Seq::empty() =~= start);
    while i < items.len()
        invariant
            i <= items.len(),
            im == crate::json::json_models(items@),
            slot_models(out@) == start + schema_items(im.take(i as int), prefix@),
        decreases items.len() - i,
    {
        assert(im.take(i + 1).drop_last() =~= im.take(i as int));
        assert(im.take(i + 1).last() == im[i as int]);
        if is_schema_like(&items[i]) {
            let p = concat2(prefix, decimal_text(i).as_str());
            push_slot(out, Slot::Entry(p, &items[i]));
        }
        assert(slot_models(out@) =~= start + schema_items(im.take(i + 1), prefix@));
        i = i + 1;
    }
    assert(im.take(items.len() as int) =~= im);
}

fn push_schema_members<'a>(out: &mut Vec<Slot<'a>>, ms: &'a Vec<(String, JsonValue)>, prefix: &str)
    ensures
        slot_models(final(out)@) == slot_models(old(out)@) + schema_members(member_models(ms@), prefix@),
{
    let ghost start = slot_models(out@);
    let ghost mm = member_models(ms@);
    let mut i: usize = 0;
    assert(mm.take(0) =~= Seq::<(Seq<char>, JsonModel)>::empty());
    assert(start + Seq::empty() =~= start);
    while i < ms.len()
        invariant
            i <= ms.len(),
            mm == member_models(ms@),
            slot_models(out@) == start + schema_members(mm.take(i as int), prefix@),
        decreases ms.len() - i,
    {
        assert(mm.take(i + 1).drop_last() =~= mm.take(i as int));
        assert(mm.take(i + 1).last() == mm[i as int]);
        if is_schema_like(&ms[i].1) {
            let p = concat2(prefix, escape_pointer_segment(ms[i].0.as_str()).as_str());
            push_slot(out, Slot::Entry(p, &ms[i].1));
        }
        assert(slot_models(out@) =~= start + schema_members(mm.take(i + 1), prefix@));
        i = i + 1;
    }
    assert(mm.take(ms.len() as int) =~= mm);
}

pub(crate) fn push_object_slots<'a>(out: &mut Vec<Slot<'a>>, kws: &'a Vec<(String, JsonValue)>, key: &str, ptr: &str)
    ensures
        slot_models(final(out)@) == slot_models(old(out)@) + object_slots(member_models(kws@), key@, ptr@),
{
    match object_get(kws, key) {
        Some(JsonValue::Object(ms)) => {
            proof {
                crate::json::lemma_object_model(*ms);
            }
            let mut prefix = concat3(ptr, "/", key);
            prefix.append("/");
            push_keyed(out, ms, prefix.as_str());
        },
        _ => {
            assert(slot_models(out@) =~= slot_models(out@) + Seq::empty());
        },
    }
}

fn push_array_slots<'a>(out: &mut Vec<Slot<'a>>, kws: &'a Vec<(String, JsonValue)>, key: &str, ptr: &str)
    ensures
        slot_models(final(out)@) == slot_models(old(out)@) + array_slots(member_models(kws@), key@, ptr@),
{
    match object_get(kws, key) {
        Some(JsonValue::Array(items)) => {
            proof {
                crate::json::lemma_array_model(*items);
            }
            let mut prefix = concat3(ptr, "/", key);
            prefix.append("/");
            push_indexed(out, items, prefix.as_str());
        },
        _ => {
            assert(slot_models(out@) =~= slot_models(out@) + Seq::empty());
        },
    }
}

fn push_single_slot<'a>(out: &mut Vec<Slot<'a>>, kws: &'a Vec<(String, JsonValue)>, key: &str, ptr: &str)
    ensures
        slot_models(final(out)@) == slot_models(old(out)@) + single_slot(member_models(kws@), key@, ptr@),
{
    match object_get(kws, key) {
        Some(v) => {
            let ghost before = slot_models(out@);
            push_slot(out, Slot::Entry(concat3(ptr, "/", key), v));
            assert(slot_models(out@) =~= before + seq![ChildSlot::Entry(ptr@ + "/"@ + key@, v@)]);
        },
        None => {
            assert(slot_models(out@) =~= slot_models(out@) + Seq::empty());
        },
    }
}

fn push_unless_bool_slot<'a>(out: &mut Vec<Slot<'a>>, kws: &'a Vec<(String, JsonValue)>, key: &str, ptr: &str)
    ensures
        slot_models(final(out)@) == slot_models(old(out)@) + schema_unless_bool_slot(member_models(kws@), key@, ptr@),
{
    match object_get(kws, key) {
        Some(v) => {
            let ghost before = slot_models(out@);
            match v {
                JsonValue::Bool(_) => {
                    assert(slot_models(out@) =~= before + Seq::empty());
                },
                _ => {
                    push_slot(out, Slot::Entry(concat3(ptr, "/", key), v));
                    assert(slot_models(out@) =~= before + seq![ChildSlot::Entry(ptr@ + "/"@ + key@, v@)]);
                },
            }
        },
        None => {
            assert(slot_models(out@) =~= slot_models(out@) + Seq::empty());
        },
    }
}

fn push_items_slots<'a>(out: &mut Vec<Slot<'a>>, kws: &'a Vec<(String, JsonValue)>, ptr: &str)
    ensures
        slot_models(final(out)@) == slot_models(old(out)@) + items_slots(member_models(kws@), ptr@),
{
    let ghost before = slot_models(out@);
    match object_get(kws, "items") {
        None => {
            assert(slot_models(out@) =~= before + Seq::empty());
        },
        Some(v) => match v {
            JsonValue::Array(items) => {
                proof {
                    crate::json::lemma_array_model(*items);
                }
                push_indexed(out, items, concat2(ptr, "/items/").as_str());
            },
            JsonValue::Object(_) | JsonValue::Bool(_) => {
                push_slot(out, Slot::Entry(concat2(ptr, "/items"), v));
                assert(slot_models(out@) =~= before + seq![ChildSlot::Entry(ptr@ + "/items"@, v@)]);
            },
            _ => {
                let m = concat3(ptr, "/items: expected object, boolean, or array, got ", json_type_name_of(v));
                push_slot(out, Slot::Bad(m));
                assert(slot_models(out@) =~= before + seq![
                    ChildSlot::Bad(ptr@ + "/items: expected object, boolean, or array, got "@ + json_type_name(v@)),
                ]);
            },
        },
    }
}

fn push_applicator_slots<'a>(out: &mut Vec<Slot<'a>>, kws: &'a Vec<(String, JsonValue)>, key: &str, ptr: &str)
    ensures
        slot_models(final(out)@) == slot_models(old(out)@) + applicator_slots(member_models(kws@), key@, ptr@),
{
    let ghost before = slot_models(out@);
    match object_get(kws, key) {
        None => {
            assert(slot_models(out@) =~= before + Seq::empty());
        },
        Some(v) => match v {
            JsonValue::Array(items) => {
                proof {
                    crate::json::lemma_array_model(*items);
                }
                let mut prefix = concat3(ptr, "/", key);
                prefix.append("/");
                push_schema_items(out, items, prefix.as_str());
            },
            JsonValue::Object(_) | JsonValue::Bool(_) => {
                push_slot(out, Slot::Entry(concat3(ptr, "/", key), v));
                assert(slot_models(out@) =~= before + seq![ChildSlot::Entry(ptr@ + "/"@ + key@, v@)]);
            },
            _ => {
                assert(slot_models(out@) =~= before + Seq::empty());
            },
        },
    }
}

fn push_dependencies_slots<'a>(out: &mut Vec<Slot<'a>>, kws: &'a Vec<(String, JsonValue)>, ptr: &str)
    ensures
        slot_models(final(out)@) == slot_models(old(out)@) + dependencies_slots(member_models(kws@), ptr@),
{
    match object_get(kws, "dependencies") {
        Some(JsonValue::Object(ms)) => {
            proof {
                crate::json::lemma_object_model(*ms);
            }
            push_schema_members(out, ms, concat2(ptr, "/dependencies/").as_str());
        },
        _ => {
            assert(slot_models(out@) =~= slot_models(out@) + Seq::empty());
        },
    }
}

/// Every child slot of a node with keywords `kws` at pointer `ptr`.
pub fn child_slots_exec<'a>(kws: &'a Vec<(String, JsonValue)>, ptr: &str) -> (r: Vec<Slot<'a>>)
    ensures
        slot_models(r@) == child_slots(member_models(kws@), ptr@),
{
    let ghost k = member_models(kws@);
    let mut out: Vec<Slot<'a>> = Vec::new();
    assert(slot_models(out@) =~= Seq::empty());
    push_object_slots(&mut out, kws, "properties", ptr);
    push_items_slots(&mut out, kws, ptr);
    push_array_slots(&mut out, kws, "prefixItems", ptr);
    push_array_slots(&mut out, kws, "anyOf", ptr);
    push_array_slots(&mut out, kws, "allOf", ptr);
    push_array_slots(&mut out, kws, "oneOf", ptr);
    push_single_slot(&mut out, kws, "not", ptr);
    push_single_slot(&mut out, kws, "if", ptr);
    push_single_slot(&mut out, kws, "then", ptr);
    push_single_slot(&mut out, kws, "else", ptr);
    push_object_slots(&mut out, kws, "dependentSchemas", ptr);
    push_object_slots(&mut out, kws, "patternProperties", ptr);
    push_single_slot(&mut out, kws, "propertyNames", ptr);
    push_single_slot(&mut out, kws, "contains", ptr);
    push_unless_bool_slot(&mut out, kws, "additionalProperties", ptr);
    push_unless_bool_slot(&mut out, kws, "unevaluatedProperties", ptr);
    push_applicator_slots(&mut out, kws, "unevaluatedItems", ptr);
    push_applicator_slots(&mut out, kws, "additionalItems", ptr);
    push_applicator_slots(&mut out, kws, "contentSchema", ptr);
    push_dependencies_slots(&mut out, kws, ptr);
    assert(slot_models(out@) =~= child_slots(k, ptr@));
    out
}

// ---------------------------------------------------------------------------
// Expanding one node
// ---------------------------------------------------------------------------

/// The message for an arena that cannot hold more nodes.
pub open spec fn too_many_nodes() -> Seq<char> {
    "schema has too many nodes"@
}

/// The children placed below `id`, at depth `depth + 1`.
pub open spec fn placed_children(cs: Seq<(Seq<char>, NodeModel)>, id: NodeId, depth: u32) -> Seq<NodeModel> {
    Seq::new(
        cs.len(),
        |j: int| NodeModel { parent: Some(id), depth: (depth + 1) as u32, pointer: cs[j].0, ..cs[j].1 },
    )
}

/// The ids `start`, `start + 1`, ... of `k` consecutive nodes.
pub open spec fn child_ids(start: nat, k: nat) -> Seq<NodeId> {
    Seq::new(k, |j: int| id_at(start + j))
}

/// The arena `a` with the children `cs` of node `id` appended.
pub open spec fn expanded(a: Seq<NodeModel>, id: NodeId, cs: Seq<(Seq<char>, NodeModel)>) -> Seq<NodeModel> {
    a.update(id.0 as int, NodeModel { children: a[id.0 as int].children + child_ids(a.len(), cs.len()), ..a[id.0 as int] })
        + placed_children(cs, id, a[id.0 as int].depth)
}

/// What expanding node `id` of arena `a` gives: the arena with its children
/// added, or the message of the first child that is not a schema.
pub open spec fn expansion(a: Seq<NodeModel>, id: NodeId) -> Result<Seq<NodeModel>, Seq<char>> {
    match parsed_children(child_slots(a[id.0 as int].keywords, a[id.0 as int].pointer)) {
        Err(m) => Err(m),
        Ok(cs) => if a.len() + cs.len() > arena_capacity() {
            Err(too_many_nodes())
        } else {
            Ok(expanded(a, id, cs))
        },
    }
}

proof fn lemma_parsed_err_sticks(s: Seq<ChildSlot>, i: int)
    requires
        0 <= i <= s.len(),
        parsed_children(s.take(i)) is Err,
    ensures
        parsed_children(s) == parsed_children(s.take(i)),
    decreases s.len() - i,
{
    if i < s.len() {
        assert(s.take(i + 1).drop_last() =~= s.take(i));
        lemma_parsed_err_sticks(s, i + 1);
    } else {
        assert(s.take(i) =~= s);
    }
}

pub open spec fn node_views(v: Seq<Node>) -> Seq<NodeModel> {
    Seq::new(v.len(), |i: int| v[i]@)
}

/// Parse the children of the slots, placed below `id` at `depth + 1`.
fn parse_children(slots: &Vec<Slot>, id: NodeId, depth: u32) -> (r: Result<Vec<Node>, String>)
    requires
        depth < u32::MAX,
    ensures
        match parsed_children(slot_models(slots@)) {
            Ok(cs) => r matches Ok(v) && node_views(v@) == placed_children(cs, id, depth),
            Err(m) => r matches Err(e) && e@ == m,
        },
{
    let ghost sm = slot_models(slots@);
    let ghost mut cs: Seq<(Seq<char>, NodeModel)> = Seq::empty();
    let mut out: Vec<Node> = Vec::new();
    let mut i: usize = 0;
    assert(sm.take(0) =~= Seq::<ChildSlot>::empty());
    assert(node_views(out@) =~= placed_children(cs, id, depth));
    while i < slots.len()
        invariant
            i <= slots.len(),
            depth < u32::MAX,
            sm == slot_models(slots@),
            parsed_children(sm.take(i as int)) == Ok::<Seq<(Seq<char>, NodeModel)>, Seq<char>>(cs),
            node_views(out@) == placed_children(cs, id, depth),
        decreases slots.len() - i,
    {
        assert(sm.take(i + 1).drop_last() =~= sm.take(i as int));
        assert(sm.take(i + 1).last() == slot_model(slots@[i as int]));
        match &slots[i] {
            Slot::Entry(p, v) => {
                match parse_node(*v) {
                    Ok(n) => {
                        let mut n = n;
                        let ghost parsed = n@;
                        n.parent = Some(id);
                        n.depth = depth + 1;
                        n.json_pointer = owned(p.as_str());
                        let ghost before = node_views(out@);
                        out.push(n);
                        proof {
                            cs = cs.push((p@, parsed));
                        }
                        assert(out@[out@.len() - 1]@ == NodeModel { parent: Some(id), depth: (depth + 1) as u32, pointer: p@, ..parsed });
                        assert(node_views(out@) =~= before.push(NodeModel { parent: Some(id), depth: (depth + 1) as u32, pointer: p@, ..parsed }));
                        assert(node_views(out@) =~= placed_children(cs, id, depth));
                    },
                    Err(m) => {
                        proof {
                            lemma_parsed_err_sticks(sm, i + 1);
                        }
                        return Err(m);
                    },
                }
            },
            Slot::Bad(m) => {
                proof {
                    lemma_parsed_err_sticks(sm, i + 1);
                }
                return Err(owned(m.as_str()));
            },
        }
        i = i + 1;
    }
    assert(sm.take(slots.len() as int) =~= sm);
    Ok(out)
}

/// What attaching the children that `slots` describe to node `id` of arena
/// `a` gives.
pub open spec fn attach_outcome(a: Seq<NodeModel>, id: NodeId, slots: Seq<ChildSlot>) -> Result<Seq<NodeModel>, Seq<char>> {
    match parsed_children(slots) {
        Err(m) => Err(m),
        Ok(cs) => if a.len() + cs.len() > arena_capacity() {
            Err(too_many_nodes())
        } else {
            Ok(expanded(a, id, cs))
        },
    }
}

/// Parse the children that `slots` describe and attach them to node `id`,
/// as `attach_outcome` states; on failure the arena is left as it was.
pub fn attach_children(arena: &mut Arena, id: NodeId, slots: &Vec<Slot>) -> (r: Result<(), NormalizeError>)
    requires
        (id.0 as int) < old(arena)@.len(),
        old(arena)@[id.0 as int].depth < u32::MAX,
    ensures
        match attach_outcome(old(arena)@, id, slot_models(slots@)) {
            Ok(a) => r is Ok && final(arena)@ == a,
            Err(m) => r matches Err(e) && e@ == NormalizeFault::ParseError(m) && final(arena)@ == old(arena)@,
        },
{
    let ghost a0 = arena@;
    let depth = arena.get(id).depth;
    let mut parsed = match parse_children(slots, id, depth) {
        Ok(v) => v,
        Err(m) => return Err(NormalizeError::ParseError(m)),
    };
    let ghost cs = parsed_children(slot_models(slots@))->Ok_0;
    let ghost placed = placed_children(cs, id, depth);
    let k = parsed.len();
    let start = arena.len();
    if start > 0xffff_ffff || k > 0xffff_ffff - start {
        return Err(NormalizeError::ParseError(owned("schema has too many nodes")));
    }
    // Reverse the children, so that popping yields them in order.
    let mut rev: Vec<Node> = Vec::new();
    while parsed.len() > 0
        invariant
            parsed.len() + rev.len() == k,
            node_views(parsed@) == placed.take(parsed.len() as int),
            forall|j: int| 0 <= j < rev.len() ==> (#[trigger] rev@[j])@ == placed[k - 1 - j],
            placed.len() == k,
        decreases parsed.len(),
    {
        let ghost before = node_views(parsed@);
        let n = parsed.pop().unwrap();
        assert(before[parsed.len() as int] == n@);
        assert(n@ == placed[parsed.len() as int]);
        assert(node_views(parsed@) =~= placed.take(parsed.len() as int));
        rev.push(n);
    }
    let mut a: usize = 0;
    while rev.len() > 0
        invariant
            a + rev.len() == k,
            start + k <= 0xffff_ffff,
            start == a0.len(),
            (id.0 as int) < a0.len(),
            placed.len() == k,
            forall|j: int| 0 <= j < rev.len() ==> (#[trigger] rev@[j])@ == placed[k - 1 - j],
            arena@ == a0.update(
                id.0 as int,
                NodeModel { children: a0[id.0 as int].children + child_ids(start as nat, a as nat), ..a0[id.0 as int] },
            ) + placed.take(a as int),
        decreases rev.len(),
    {
        let n = rev.pop().unwrap();
        assert(n@ == placed[a as int]);
        let cid = arena.allocate(n);
        arena.push_child(id, cid);
        assert(child_ids(start as nat, a as nat).push(cid) =~= child_ids(start as nat, (a + 1) as nat));
        assert(placed.take(a as int).push(placed[a as int]) =~= placed.take(a + 1));
        assert(arena@ =~= a0.update(
            id.0 as int,
            NodeModel { children: a0[id.0 as int].children + child_ids(start as nat, (a + 1) as nat), ..a0[id.0 as int] },
        ) + placed.take(a + 1));
        a = a + 1;
    }
    assert(placed.take(k as int) =~= placed);
    Ok(())
}

/// Create child nodes for all nested schemas inside node `id`, as
/// `expansion` states; on failure the arena is left as it was.
pub fn expand_children(arena: &mut Arena, id: NodeId) -> (r: Result<(), NormalizeError>)
    requires
        (id.0 as int) < old(arena)@.len(),
        old(arena)@[id.0 as int].depth < u32::MAX,
    ensures
        match expansion(old(arena)@, id) {
            Ok(a) => r is Ok && final(arena)@ == a,
            Err(m) => r matches Err(e) && e@ == NormalizeFault::ParseError(m) && final(arena)@ == old(arena)@,
        },
{
    let node = arena.get(id);
    let ptr = owned(node.json_pointer.as_str());
    let kws = clone_members(&node.keywords);
    let slots = child_slots_exec(&kws, ptr.as_str());
    attach_children(arena, id, &slots)
}

// ---------------------------------------------------------------------------
// Expanding the whole tree
// ---------------------------------------------------------------------------

/// Two nodes agree on everything but their children.
pub open spec fn agrees(x: NodeModel, y: NodeModel) -> bool {
    &&& x.kind == y.kind
    &&& x.keywords == y.keywords
    &&& x.parent == y.parent
    &&& x.depth == y.depth
    &&& x.pointer == y.pointer
    &&& x.ref_target == y.ref_target
    &&& x.is_cyclic == y.is_cyclic
}

/// Node `i` of `a` has been expanded, its children created from position
/// `c0` on: its last children are those, and they are the schemas its
/// keywords hold, placed below it.
pub open spec fn node_complete_at(a: Seq<NodeModel>, i: int, c0: int) -> bool {
    match parsed_children(child_slots(a[i].keywords, a[i].pointer)) {
        Ok(cs) => {
            &&& 0 <= c0
            &&& c0 + cs.len() <= a.len()
            &&& cs.len() <= a[i].children.len()
            &&& a[i].children.skip(a[i].children.len() - cs.len()) == child_ids(c0 as nat, cs.len())
            &&& forall|j: int| 0 <= j < cs.len() ==> agrees(#[trigger] a[c0 + j], placed_children(cs, id_at(i), a[i].depth)[j])
        },
        Err(_) => false,
    }
}

/// Node `i` of `a` has been expanded.
pub open spec fn node_complete(a: Seq<NodeModel>, i: int) -> bool {
    exists|c0: int| node_complete_at(a, i, c0)
}

/// Every node of the arena has been expanded.
pub open spec fn fully_expanded(a: Seq<NodeModel>) -> bool {
    forall|i: int| 0 <= i < a.len() ==> #[trigger] node_complete(a, i)
}

/// The parent of the node at `x` comes before it.
pub open spec fn parent_before(n: NodeModel, x: int) -> bool {
    n.parent matches Some(p) && (p.0 as int) < x
}

/// The parent of the node `n` at `x` lists it among its children.
pub open spec fn listed_by_parent(a: Seq<NodeModel>, n: NodeModel, x: int) -> bool {
    n.parent matches Some(p) && a[p.0 as int].children.contains(id_at(x))
}

/// The arena is a tree rooted at node 0 whose depths fit their positions:
/// parents come first, and parents and children name each other.
pub open spec fn tree_shaped(a: Seq<NodeModel>) -> bool {
    &&& 1 <= a.len() <= arena_capacity()
    &&& a[0].parent is None
    &&& forall|x: int| 0 <= x < a.len() ==> (#[trigger] a[x]).depth <= x
    &&& forall|x: int| 0 < x < a.len() ==> parent_before(#[trigger] a[x], x)
    &&& forall|x: int, k: int| 0 <= x < a.len() && 0 <= k < a[x].children.len() ==> {
        let y = #[trigger] a[x].children[k].0 as int;
        &&& y < a.len()
        &&& a[y].parent == Some(id_at(x))
    }
    &&& forall|x: int| 0 < x < a.len() ==> listed_by_parent(a, #[trigger] a[x], x)
    &&& forall|x: int, k1: int, k2: int| 0 <= x < a.len() && 0 <= k1 < k2 < a[x].children.len()
        ==> #[trigger] a[x].children[k1] != #[trigger] a[x].children[k2]
}

/// How many entries of the stack are already expanded.
pub open spec fn done_count(s: Seq<(NodeId, bool)>) -> nat
    decreases s.len(),
{
    if s.len() == 0 {
        0
    } else {
        done_count(s.drop_last()) + if s.last().1 { 0nat } else { 1nat }
    }
}

/// The state of the depth-first expansion.
pub open spec fn dfs_ok(a: Seq<NodeModel>, s: Seq<(NodeId, bool)>, e: Set<int>, p: Set<int>, blocks: Map<int, int>) -> bool {
    &&& tree_shaped(a)
    &&& e.subset_of(p)
    &&& p.subset_of(set_range(a.len() as int))
    &&& p.contains(0)
    &&& forall|x: int| #[trigger] e.contains(x) ==> blocks.contains_key(x) && node_complete_at(a, x, blocks[x])
    &&& forall|x: int| 0 <= x < a.len() && !(#[trigger] p.contains(x)) ==> (a[x].parent matches Some(q) && !e.contains(q.0 as int))
    &&& forall|q: int, k: int| 0 <= q < a.len() && !e.contains(q) && 0 <= k < a[q].children.len()
        ==> !p.contains(#[trigger] a[q].children[k].0 as int)
    &&& forall|k: int| 0 <= k < s.len() ==> {
        let id = (#[trigger] s[k]).0.0 as int;
        &&& id < a.len()
        &&& s[k].1 ==> p.contains(id) && !e.contains(id)
        &&& !s[k].1 ==> e.contains(id)
    }
    &&& forall|k1: int, k2: int| 0 <= k1 < k2 < s.len() && (#[trigger] s[k1]).1 && (#[trigger] s[k2]).1 ==> s[k1].0 != s[k2].0
    &&& forall|x: int| #[trigger] p.contains(x) && !e.contains(x) ==> exists|k: int| 0 <= k < s.len() && #[trigger] s[k] == (id_at(x), true)
}

pub open spec fn set_range(n: int) -> Set<int> {
    Set::new(|i: int| 0 <= i < n)
}

/// The stack entries that put the children `ch` on the stack so that they
/// come off it first to last.
pub open spec fn reversed_entries(ch: Seq<NodeId>) -> Seq<(NodeId, bool)> {
    Seq::new(ch.len(), |j: int| (ch[ch.len() - 1 - j], true))
}

pub(crate) proof fn lemma_parsed_fresh(slots: Seq<ChildSlot>)
    requires
        parsed_children(slots) is Ok,
    ensures
        forall|j: int| 0 <= j < parsed_children(slots)->Ok_0.len() ==> (#[trigger] parsed_children(slots)->Ok_0[j]).1.children.len() == 0,
    decreases slots.len(),
{
    if slots.len() > 0 {
        lemma_parsed_fresh(slots.drop_last());
        let front = parsed_children(slots.drop_last())->Ok_0;
        let all = parsed_children(slots)->Ok_0;
        assert forall|j: int| 0 <= j < all.len() implies (#[trigger] all[j]).1.children.len() == 0 by {
            if j < front.len() {
                assert(all[j] == front[j]);
            }
        }
    }
}

proof fn lemma_done_count_push_true(s: Seq<(NodeId, bool)>, x: NodeId)
    ensures
        done_count(s.push((x, true))) == done_count(s),
{
    assert(s.push((x, true)).drop_last() =~= s);
}

proof fn lemma_done_count_push_false(s: Seq<(NodeId, bool)>, x: NodeId)
    ensures
        done_count(s.push((x, false))) == done_count(s) + 1,
{
    assert(s.push((x, false)).drop_last() =~= s);
}

/// Facts about the arena after expanding node `id`.
proof fn lemma_expanded_facts(a: Seq<NodeModel>, id: NodeId, cs: Seq<(Seq<char>, NodeModel)>)
    requires
        tree_shaped(a),
        0 <= id.0 < a.len(),
        forall|j: int| 0 <= j < cs.len() ==> (#[trigger] cs[j]).1.children.len() == 0,
        a.len() + cs.len() <= arena_capacity(),
    ensures
        ({
            let i = id.0 as int;
            let l = a.len() as int;
            let a2 = expanded(a, id, cs);
            &&& a2.len() == l + cs.len()
            &&& a2[i].children == a[i].children + child_ids(l as nat, cs.len())
            &&& agrees(a2[i], a[i])
            &&& forall|x: int| 0 <= x < l && x != i ==> #[trigger] a2[x] == a[x]
            &&& forall|j: int| 0 <= j < cs.len() ==> #[trigger] a2[l + j] == placed_children(cs, id, a[i].depth)[j]
            &&& forall|j: int| 0 <= j < cs.len() ==> (#[trigger] a2[l + j]).children.len() == 0
            &&& forall|j: int| 0 <= j < cs.len() ==> (#[trigger] a2[l + j]).parent == Some(id)
            &&& id_at(i) == id
        }),
{
}

/// Expanding a node keeps the arena tree-shaped.
#[verifier::rlimit(40)]
pub proof fn lemma_expanded_tree(a: Seq<NodeModel>, id: NodeId, cs: Seq<(Seq<char>, NodeModel)>)
    requires
        tree_shaped(a),
        0 <= id.0 < a.len(),
        forall|j: int| 0 <= j < cs.len() ==> (#[trigger] cs[j]).1.children.len() == 0,
        a.len() + cs.len() <= arena_capacity(),
    ensures
        tree_shaped(expanded(a, id, cs)),
{
    let i = id.0 as int;
    let l = a.len() as int;
    let k = cs.len() as int;
    let a2 = expanded(a, id, cs);
    let ch = a2[i].children;
    lemma_expanded_facts(a, id, cs);
    assert(a[i].depth <= i);
    assert forall|x: int| 0 <= x < a2.len() implies (#[trigger] a2[x]).depth <= x by {
        if x >= l {
            assert(a2[l + (x - l)] == placed_children(cs, id, a[i].depth)[x - l]);
        }
    }
    assert forall|x: int| 0 < x < a2.len() implies parent_before(#[trigger] a2[x], x) by {
        if x >= l {
            assert(a2[l + (x - l)].parent == Some(id));
        } else {
            assert(parent_before(a[x], x));
        }
    }
    assert forall|x: int, q: int| 0 <= x < a2.len() && 0 <= q < a2[x].children.len() implies {
        let y = #[trigger] a2[x].children[q].0 as int;
        &&& y < a2.len()
        &&& a2[y].parent == Some(id_at(x))
    } by {
        let y = a2[x].children[q].0 as int;
        if x >= l {
            assert(a2[l + (x - l)].children.len() == 0);
        } else if x == i {
            if q < a[i].children.len() {
                assert(ch[q] == a[i].children[q]);
                assert(y < l && a[y].parent == Some(id_at(x)));
            } else {
                assert(ch[q] == id_at(l + q - a[i].children.len()));
                assert(a2[l + (q - a[i].children.len())].parent == Some(id));
            }
        } else {
            assert(y < l && a[y].parent == Some(id_at(x)));
        }
    }
    assert forall|x: int| 0 < x < a2.len() implies listed_by_parent(a2, #[trigger] a2[x], x) by {
        if x >= l {
            assert(a2[l + (x - l)].parent == Some(id));
            assert(ch[a[i].children.len() + (x - l)] == id_at(x));
        } else {
            assert(listed_by_parent(a, a[x], x));
            let q = a[x].parent.unwrap().0 as int;
            if q == i {
                let w = choose|w: int| 0 <= w < a[i].children.len() && a[i].children[w] == id_at(x);
                assert(ch[w] == id_at(x));
            } else {
                assert(a2[q] == a[q]);
            }
        }
    }
    assert forall|x: int, k1: int, k2: int| 0 <= x < a2.len() && 0 <= k1 < k2 < a2[x].children.len()
        implies #[trigger] a2[x].children[k1] != #[trigger] a2[x].children[k2] by {
        if x >= l {
            assert(a2[l + (x - l)].children.len() == 0);
        } else if x == i {
            let old_n = a[i].children.len() as int;
            if k2 < old_n {
                assert(ch[k1] == a[i].children[k1] && ch[k2] == a[i].children[k2]);
            } else if k1 < old_n {
                assert(ch[k1] == a[i].children[k1]);
                assert((a[i].children[k1].0 as int) < l);
                assert(ch[k2] == id_at(l + k2 - old_n));
            } else {
                assert(ch[k1] == id_at(l + k1 - old_n));
                assert(ch[k2] == id_at(l + k2 - old_n));
            }
        }
    }
}

/// Expanding node `id` completes it and keeps the nodes expanded before
/// complete.
#[verifier::rlimit(40)]
proof fn lemma_expanded_complete(a: Seq<NodeModel>, e: Set<int>, blocks: Map<int, int>, id: NodeId, cs: Seq<(Seq<char>, NodeModel)>)
    requires
        tree_shaped(a),
        0 <= id.0 < a.len(),
        parsed_children(child_slots(a[id.0 as int].keywords, a[id.0 as int].pointer)) == Ok::<Seq<(Seq<char>, NodeModel)>, Seq<char>>(cs),
        a.len() + cs.len() <= arena_capacity(),
        forall|x: int| #[trigger] e.contains(x) ==> blocks.contains_key(x) && node_complete_at(a, x, blocks[x]),
        forall|x: int| #[trigger] e.contains(x) ==> 0 <= x < a.len(),
        !e.contains(id.0 as int),
    ensures
        ({
            let e2 = e.insert(id.0 as int);
            let b2 = blocks.insert(id.0 as int, a.len() as int);
            let a2 = expanded(a, id, cs);
            forall|x: int| #[trigger] e2.contains(x) ==> b2.contains_key(x) && node_complete_at(a2, x, b2[x])
        }),
{
    let i = id.0 as int;
    let l = a.len() as int;
    let k = cs.len() as int;
    let a2 = expanded(a, id, cs);
    let e2 = e.insert(i);
    let b2 = blocks.insert(i, l);
    let ch = a2[i].children;
    lemma_parsed_fresh(child_slots(a[id.0 as int].keywords, a[id.0 as int].pointer));
    lemma_expanded_facts(a, id, cs);
    assert(ch.skip(ch.len() - k) =~= child_ids(l as nat, k as nat));
    assert(node_complete_at(a2, i, l)) by {
        assert forall|j: int| 0 <= j < k implies agrees(#[trigger] a2[l + j], placed_children(cs, id_at(i), a2[i].depth)[j]) by {}
    }
    assert forall|x: int| #[trigger] e2.contains(x) implies b2.contains_key(x) && node_complete_at(a2, x, b2[x]) by {
        if x != i {
            let c0 = blocks[x];
            assert(node_complete_at(a, x, c0));
            assert(a2[x] == a[x]);
            let cx = parsed_children(child_slots(a[x].keywords, a[x].pointer))->Ok_0;
            assert forall|j: int| 0 <= j < cx.len() implies agrees(#[trigger] a2[c0 + j], placed_children(cx, id_at(x), a2[x].depth)[j]) by {
                assert(agrees(a[c0 + j], placed_children(cx, id_at(x), a[x].depth)[j]));
                if c0 + j != i {
                    assert(a2[c0 + j] == a[c0 + j]);
                }
            }
        }
    }
}

/// The set of nodes listed in `ch`.
pub open spec fn listed_set(ch: Seq<NodeId>, n: int) -> Set<int> {
    Set::new(|x: int| ch.contains(id_at(x)) && 0 <= x < n)
}

/// Expanding the node on top of the stack keeps the traversal's invariant.
#[verifier::rlimit(60)]
proof fn lemma_expand_step(
    a: Seq<NodeModel>,
    s: Seq<(NodeId, bool)>,
    e: Set<int>,
    p: Set<int>,
    blocks: Map<int, int>,
    id: NodeId,
    cs: Seq<(Seq<char>, NodeModel)>,
)
    requires
        dfs_ok(a, s, e, p, blocks),
        s.len() > 0,
        s.last() == (id, true),
        parsed_children(child_slots(a[id.0 as int].keywords, a[id.0 as int].pointer)) == Ok::<Seq<(Seq<char>, NodeModel)>, Seq<char>>(cs),
        a.len() + cs.len() <= arena_capacity(),
    ensures
        dfs_ok(
            expanded(a, id, cs),
            s.drop_last().push((id, false)) + reversed_entries(expanded(a, id, cs)[id.0 as int].children),
            e.insert(id.0 as int),
            p.union(listed_set(expanded(a, id, cs)[id.0 as int].children, expanded(a, id, cs).len() as int)),
            blocks.insert(id.0 as int, a.len() as int),
        ),
        expanded(a, id, cs).len() == a.len() + cs.len(),
{
    let i = id.0 as int;
    let l = a.len() as int;
    let k = cs.len() as int;
    let a2 = expanded(a, id, cs);
    let ch = a2[i].children;
    let m = ch.len() as int;
    let e2 = e.insert(i);
    let cset = listed_set(ch, a2.len() as int);
    let p2 = p.union(cset);
    let b2 = blocks.insert(i, l);
    let n = s.len() - 1;
    assert(s[n] == (id, true));
    assert(p.contains(i) && !e.contains(i));
    lemma_parsed_fresh(child_slots(a[id.0 as int].keywords, a[id.0 as int].pointer));
    lemma_expanded_facts(a, id, cs);
    lemma_expanded_tree(a, id, cs);
    assert forall|x: int| #[trigger] e.contains(x) implies 0 <= x < a.len() by {
        assert(p.contains(x));
        assert(set_range(a.len() as int).contains(x));
    }
    lemma_expanded_complete(a, e, blocks, id, cs);
    // The children of `id` are exactly the newly pushed nodes.
    assert forall|x: int| #[trigger] cset.contains(x) implies a2[x].parent == Some(id) && !p.contains(x) by {
        let w = choose|w: int| 0 <= w < ch.len() && ch[w] == id_at(x);
        assert(a2[i].children[w].0 as int == x);
        assert(a2[x].parent == Some(id_at(i)));
        if w < a[i].children.len() {
            assert(ch[w] == a[i].children[w]);
            assert(!p.contains(a[i].children[w].0 as int));
        } else {
            assert(x >= l);
            assert(!set_range(l).contains(x));
        }
    }
    assert(e2.subset_of(p2));
    assert forall|x: int| #[trigger] p2.contains(x) implies set_range(a2.len() as int).contains(x) by {
        if p.contains(x) {
            assert(set_range(l).contains(x));
        }
    }
    assert forall|x: int| 0 <= x < a2.len() && !(#[trigger] p2.contains(x)) implies (a2[x].parent matches Some(q) && !e2.contains(q.0 as int)) by {
        if x >= l {
            assert(ch[a[i].children.len() + (x - l)] == id_at(x));
            assert(cset.contains(x));
        } else {
            assert(!p.contains(x));
            let q = a[x].parent.unwrap().0 as int;
            if q == i {
                assert(listed_by_parent(a, a[x], x));
                let w = choose|w: int| 0 <= w < a[i].children.len() && a[i].children[w] == id_at(x);
                assert(ch[w] == id_at(x));
                assert(cset.contains(x));
            }
        }
    }
    assert forall|q: int, w: int| 0 <= q < a2.len() && !e2.contains(q) && 0 <= w < a2[q].children.len()
        implies !p2.contains(#[trigger] a2[q].children[w].0 as int) by {
        let y = a2[q].children[w].0 as int;
        if q >= l {
            assert(a2[l + (q - l)].children.len() == 0);
        } else {
            assert(a2[q] == a[q]);
            assert(!p.contains(y));
            if cset.contains(y) {
                assert(a2[y].parent == Some(id_at(q)));
            }
        }
    }
    let base = s.drop_last().push((id, false));
    let rev = reversed_entries(ch);
    let s2 = base + rev;
    assert forall|t: int| 0 <= t < s2.len() implies {
        let x = (#[trigger] s2[t]).0.0 as int;
        &&& x < a2.len()
        &&& s2[t].1 ==> p2.contains(x) && !e2.contains(x)
        &&& !s2[t].1 ==> e2.contains(x)
    } by {
        if t < n {
            assert(s2[t] == s[t]);
            if s[t].1 {
                assert(s[t].0 != s[n].0);
            }
        } else if t > n {
            let w = m - 1 - (t - n - 1);
            assert(s2[t] == (ch[w], true));
            let x = ch[w].0 as int;
            assert(a2[i].children[w].0 as int == x);
            assert(ch.contains(id_at(x)));
            assert(cset.contains(x));
        }
    }
    assert forall|t1: int, t2: int| 0 <= t1 < t2 < s2.len() && (#[trigger] s2[t1]).1 && (#[trigger] s2[t2]).1 implies s2[t1].0 != s2[t2].0 by {
        if t2 < n {
            assert(s2[t1] == s[t1] && s2[t2] == s[t2]);
        } else if t1 < n {
            assert(s2[t1] == s[t1]);
            let w = m - 1 - (t2 - n - 1);
            assert(s2[t2] == (ch[w], true));
            let x = ch[w].0 as int;
            assert(a2[i].children[w].0 as int == x);
            assert(ch.contains(id_at(x)));
            assert(cset.contains(x));
        } else if t1 > n {
            let w1 = m - 1 - (t1 - n - 1);
            let w2 = m - 1 - (t2 - n - 1);
            assert(s2[t1] == (ch[w1], true));
            assert(s2[t2] == (ch[w2], true));
            assert(a2[i].children[w2] != a2[i].children[w1]);
        }
    }
    assert forall|x: int| #[trigger] p2.contains(x) && !e2.contains(x) implies exists|t: int| 0 <= t < s2.len() && #[trigger] s2[t] == (id_at(x), true) by {
        if p.contains(x) {
            let t = choose|t: int| 0 <= t < s.len() && #[trigger] s[t] == (id_at(x), true);
            assert(t != n);
            assert(s2[t] == s[t]);
        } else {
            let w = choose|w: int| 0 <= w < ch.len() && ch[w] == id_at(x);
            let t = n + 1 + (m - 1 - w);
            assert(s2[t] == rev[m - 1 - w]);
        }
    }
}

/// Popping an entry whose node was already expanded keeps the invariant.
proof fn lemma_pop_done(a: Seq<NodeModel>, s: Seq<(NodeId, bool)>, e: Set<int>, p: Set<int>, blocks: Map<int, int>)
    requires
        dfs_ok(a, s, e, p, blocks),
        s.len() > 0,
        !s.last().1,
    ensures
        dfs_ok(a, s.drop_last(), e, p, blocks),
{
    let s2 = s.drop_last();
    let n = s.len() - 1;
    assert forall|t: int| 0 <= t < s2.len() implies {
        let x = (#[trigger] s2[t]).0.0 as int;
        &&& x < a.len()
        &&& s2[t].1 ==> p.contains(x) && !e.contains(x)
        &&& !s2[t].1 ==> e.contains(x)
    } by {
        assert(s2[t] == s[t]);
    }
    assert forall|t1: int, t2: int| 0 <= t1 < t2 < s2.len() && (#[trigger] s2[t1]).1 && (#[trigger] s2[t2]).1 implies s2[t1].0 != s2[t2].0 by {
        assert(s2[t1] == s[t1] && s2[t2] == s[t2]);
    }
    assert forall|x: int| #[trigger] p.contains(x) && !e.contains(x) implies exists|t: int| 0 <= t < s2.len() && #[trigger] s2[t] == (id_at(x), true) by {
        let t = choose|t: int| 0 <= t < s.len() && #[trigger] s[t] == (id_at(x), true);
        assert(t != n);
        assert(s2[t] == s[t]);
    }
}

/// When the stack is empty, every node has been expanded.
proof fn lemma_dfs_finished(a: Seq<NodeModel>, e: Set<int>, p: Set<int>, blocks: Map<int, int>)
    requires
        dfs_ok(a, Seq::empty(), e, p, blocks),
    ensures
        fully_expanded(a),
{
    assert forall|x: int| #[trigger] p.contains(x) implies e.contains(x) by {
        if !e.contains(x) {
            let t = choose|t: int| 0 <= t < 0 && #[trigger] Seq::<(NodeId, bool)>::empty()[t] == (id_at(x), true);
        }
    }
    assert forall|x: int| 0 <= x < a.len() implies #[trigger] p.contains(x) by {
        lemma_all_pushed(a, e, p, blocks, x);
    }
    assert forall|x: int| 0 <= x < a.len() implies #[trigger] node_complete(a, x) by {
        assert(p.contains(x));
        assert(node_complete_at(a, x, blocks[x]));
    }
}

proof fn lemma_all_pushed(a: Seq<NodeModel>, e: Set<int>, p: Set<int>, blocks: Map<int, int>, x: int)
    requires
        dfs_ok(a, Seq::empty(), e, p, blocks),
        forall|y: int| #[trigger] p.contains(y) ==> e.contains(y),
        0 <= x < a.len(),
    ensures
        p.contains(x),
    decreases x,
{
    if !p.contains(x) {
        assert(x != 0);
        assert(parent_before(a[x], x));
        let q = a[x].parent.unwrap().0 as int;
        lemma_all_pushed(a, e, p, blocks, q);
    }
}

/// The traversal's invariant at its start.
proof fn lemma_dfs_start(a: Seq<NodeModel>)
    requires
        tree_shaped(a),
    ensures
        dfs_ok(a, seq![(NodeId(0), true)], Set::empty(), Set::empty().insert(0), Map::empty()),
{
    let s = seq![(NodeId(0u32), true)];
    let p = Set::<int>::empty().insert(0);
    assert(id_at(0) == NodeId(0u32));
    assert forall|x: int| 0 <= x < a.len() && !(#[trigger] p.contains(x)) implies (a[x].parent matches Some(q) && !Set::<int>::empty().contains(q.0 as int)) by {
        assert(parent_before(a[x], x));
    }
    assert forall|q: int, k: int| 0 <= q < a.len() && 0 <= k < a[q].children.len() implies !p.contains(#[trigger] a[q].children[k].0 as int) by {
        let y = a[q].children[k].0 as int;
        assert(a[y].parent == Some(id_at(q)));
    }
    assert forall|x: int| #[trigger] p.contains(x) && !Set::<int>::empty().contains(x) implies exists|t: int| 0 <= t < s.len() && #[trigger] s[t] == (id_at(x), true) by {
        assert(s[0] == (id_at(x), true));
    }
}

proof fn lemma_done_bound(a: Seq<NodeModel>, s: Seq<(NodeId, bool)>, e: Set<int>, p: Set<int>, blocks: Map<int, int>)
    requires
        dfs_ok(a, s, e, p, blocks),
    ensures
        e.finite(),
        e.len() <= a.len(),
{
    vstd::set_lib::lemma_int_range(0, a.len() as int);
    assert(set_range(a.len() as int) == vstd::set_lib::set_int_range(0, a.len() as int));
    vstd::set_lib::lemma_len_subset(e, set_range(a.len() as int));
}

/// Position `x` lies in the block of children that expanding node `q` of
/// `b` created from position `c0` on.
pub open spec fn in_block(b: Seq<NodeModel>, q: int, c0: int, x: int) -> bool {
    parsed_children(child_slots(b[q].keywords, b[q].pointer)) matches Ok(cs) && c0 <= x < c0 + cs.len()
}

/// Position `x` lies in the block of children of a node in `e`.
pub open spec fn block_owned(b: Seq<NodeModel>, e: Set<int>, blocks: Map<int, int>, x: int) -> bool {
    exists|q: int| #[trigger] e.contains(q) && #[trigger] in_block(b, q, blocks[q], x)
}

/// Every node of `b` past those of `a` is a child that the expansion of an
/// expanded node of `b` created.
pub open spec fn grown_by_expansion(a: Seq<NodeModel>, b: Seq<NodeModel>) -> bool {
    forall|x: int| a.len() <= x < b.len() ==> #[trigger] created_child(b, x)
}

/// The node at `x` is one of the children that expanding an expanded node
/// of `b` created.
pub open spec fn created_child(b: Seq<NodeModel>, x: int) -> bool {
    exists|q: int, c0: int| 0 <= q < b.len() && #[trigger] node_complete_at(b, q, c0) && #[trigger] in_block(b, q, c0, x)
}

proof fn lemma_grown(
    a: Seq<NodeModel>,
    b: Seq<NodeModel>,
    s: Seq<(NodeId, bool)>,
    e: Set<int>,
    p: Set<int>,
    blocks: Map<int, int>,
)
    requires
        dfs_ok(b, s, e, p, blocks),
        forall|x: int| a.len() <= x < b.len() ==> #[trigger] block_owned(b, e, blocks, x),
    ensures
        grown_by_expansion(a, b),
{
    assert forall|x: int| a.len() <= x < b.len() implies #[trigger] created_child(b, x) by {
        assert(block_owned(b, e, blocks, x));
        let q = choose|q: int| #[trigger] e.contains(q) && #[trigger] in_block(b, q, blocks[q], x);
        assert(p.contains(q));
        assert(set_range(b.len() as int).contains(q));
        assert(node_complete_at(b, q, blocks[q]));
    }
}

/// `b` holds the nodes of `a` first, unchanged but for their children.
pub open spec fn keeps_nodes(a: Seq<NodeModel>, b: Seq<NodeModel>) -> bool {
    a.len() <= b.len() && forall|i: int| 0 <= i < a.len() ==> agrees(#[trigger] b[i], a[i])
}

/// Recursively expand the tree below node `id`, the root of the arena,
/// depth first: every node ends up expanded, its children created right
/// after those of the nodes before it in depth-first order. It stops at the
/// first node that cannot be expanded, with that node's error; the arena
/// then holds the nodes expanded so far.
pub fn expand_and_dfs(arena: &mut Arena, id: NodeId) -> (r: Result<(), NormalizeError>)
    requires
        id.0 == 0,
        tree_shaped(old(arena)@),
    ensures
        tree_shaped(final(arena)@),
        keeps_nodes(old(arena)@, final(arena)@),
        grown_by_expansion(old(arena)@, final(arena)@),
        r is Ok ==> fully_expanded(final(arena)@),
        r matches Err(err) ==> exists|i: int|
            0 <= i < final(arena)@.len() && (#[trigger] expansion(final(arena)@, id_at(i)) matches Err(m)
                && err@ == NormalizeFault::ParseError(m)),
{
    let mut stack: Vec<(NodeId, bool)> = Vec::new();
    stack.push((id, true));
    let ghost mut e: Set<int> = Set::empty();
    let ghost mut p: Set<int> = Set::empty().insert(0);
    let ghost mut blocks: Map<int, int> = Map::empty();
    let ghost start_len = arena@.len();
    let ghost a_start = arena@;
    proof {
        lemma_dfs_start(arena@);
        assert(stack@ =~= seq![(NodeId(0u32), true)]);
    }
    while stack.len() > 0
        invariant
            dfs_ok(arena@, stack@, e, p, blocks),
            arena@.len() >= start_len,
            a_start == old(arena)@,
            keeps_nodes(a_start, arena@),
            forall|x: int| a_start.len() <= x < arena@.len() ==> #[trigger] block_owned(arena@, e, blocks, x),
        decreases 2 * arena_capacity() - 2 * e.len() + done_count(stack@),
    {
        proof {
            lemma_done_bound(arena@, stack@, e, p, blocks);
        }
        let ghost s0 = stack@;
        let (nid, needs_expansion) = stack.pop().unwrap();
        assert(s0.drop_last() =~= stack@);
        assert(s0.last() == (nid, needs_expansion));
        if needs_expansion {
            let ghost a0 = arena@;
            assert(a0[nid.0 as int].depth <= nid.0);
            match expand_children(arena, nid) {
                Ok(()) => {},
                Err(err) => {
                    assert(id_at(nid.0 as int) == nid);
                    assert(expansion(arena@, id_at(nid.0 as int)) is Err);
                    proof {
                        lemma_grown(a_start, arena@, s0, e, p, blocks);
                    }
                    return Err(err);
                },
            }
            let ghost cs = parsed_children(child_slots(a0[nid.0 as int].keywords, a0[nid.0 as int].pointer))->Ok_0;
            proof {
                lemma_expand_step(a0, s0, e, p, blocks, nid, cs);
                lemma_done_count_push_false(s0.drop_last(), nid);
                lemma_parsed_fresh(child_slots(a0[nid.0 as int].keywords, a0[nid.0 as int].pointer));
                lemma_expanded_facts(a0, nid, cs);
                assert forall|x: int| 0 <= x < a_start.len() implies agrees(#[trigger] arena@[x], a_start[x]) by {
                    assert(agrees(a0[x], a_start[x]));
                    if x != nid.0 as int {
                        assert(arena@[x] == a0[x]);
                    }
                }
            }
            stack.push((nid, false));
            let children = arena.get(nid).children.clone();
            let ghost ch = arena@[nid.0 as int].children;
            assert(children@ == ch);
            let ghost base = stack@;
            let mut j: usize = children.len();
            assert(reversed_entries(ch).take(0) =~= Seq::<(NodeId, bool)>::empty());
            assert(base + reversed_entries(ch).take(0) =~= base);
            while j > 0
                invariant
                    j <= children.len(),
                    children@ == ch,
                    stack@ == base + reversed_entries(ch).take((ch.len() - j) as int),
                    done_count(stack@) == done_count(base),
                decreases j,
            {
                let ghost before = stack@;
                stack.push((children[j - 1], true));
                proof {
                    lemma_done_count_push_true(before, children[j - 1]);
                }
                assert(reversed_entries(ch).take((ch.len() - j + 1) as int) =~= reversed_entries(ch).take(
                    (ch.len() - j) as int,
                ).push((ch[j - 1], true)));
                assert(stack@ =~= base + reversed_entries(ch).take((ch.len() - j + 1) as int));
                j = j - 1;
            }
            assert(reversed_entries(ch).take(ch.len() as int) =~= reversed_entries(ch));
            proof {
                let e0 = e;
                let b0 = blocks;
                assert(!e0.contains(nid.0 as int));
                e = e.insert(nid.0 as int);
                assert(e.len() == e0.len() + 1);
                p = p.union(listed_set(ch, arena@.len() as int));
                blocks = blocks.insert(nid.0 as int, a0.len() as int);
                assert forall|x: int| a_start.len() <= x < arena@.len() implies #[trigger] block_owned(arena@, e, blocks, x) by {
                    if x < a0.len() {
                        assert(block_owned(a0, e0, b0, x));
                        let q = choose|q: int| #[trigger] e0.contains(q) && #[trigger] in_block(a0, q, b0[q], x);
                        assert(q != nid.0 as int);
                        assert(arena@[q] == a0[q]);
                        assert(e.contains(q) && in_block(arena@, q, blocks[q], x));
                    } else {
                        assert(agrees(arena@[nid.0 as int], a0[nid.0 as int]));
                        assert(e.contains(nid.0 as int) && in_block(arena@, nid.0 as int, blocks[nid.0 as int], x));
                    }
                }
                assert(done_count(s0) == done_count(s0.drop_last()));
                assert(base =~= s0.drop_last().push((nid, false)));
                assert(stack@ =~= s0.drop_last().push((nid, false)) + reversed_entries(ch));
                lemma_done_bound(arena@, stack@, e, p, blocks);
            }
        } else {
            proof {
                lemma_pop_done(arena@, s0, e, p, blocks);
                assert(done_count(s0) == done_count(s0.drop_last()) + 1);
            }
        }
    }
    proof {
        assert(stack@ =~= Seq::<(NodeId, bool)>::empty());
        lemma_dfs_finished(arena@, e, p, blocks);
        lemma_grown(a_start, arena@, stack@, e, p, blocks);
    }
    Ok(())
}

/// Pointer `p` lies strictly below `ptr`: it is `ptr`, a `/`, and more.
pub open spec fn below_pointer(p: Seq<char>, ptr: Seq<char>) -> bool {
    p.len() > ptr.len() && p.take(ptr.len() as int + 1) == ptr.push('/')
}

/// Every child slot of `slots` has a pointer below `ptr`.
pub open spec fn slots_below(slots: Seq<ChildSlot>, ptr: Seq<char>) -> bool {
    forall|i: int| 0 <= i < slots.len() ==> (#[trigger] slots[i] matches ChildSlot::Entry(p, _) ==> below_pointer(p, ptr))
}

proof fn lemma_below_slash(ptr: Seq<char>)
    ensures
        below_pointer(ptr + "/"@, ptr),
{
    reveal_strlit("/");
    assert((ptr + "/"@).take(ptr.len() as int + 1) =~= ptr.push('/'));
}

proof fn lemma_below_extend(q: Seq<char>, r: Seq<char>, ptr: Seq<char>)
    requires
        below_pointer(q, ptr),
    ensures
        below_pointer(q + r, ptr),
{
    assert((q + r).take(ptr.len() as int + 1) =~= q.take(ptr.len() as int + 1));
}

proof fn lemma_below_lit(ptr: Seq<char>, lit: Seq<char>)
    requires
        lit.len() >= 1,
        lit[0] == '/',
    ensures
        below_pointer(ptr + lit, ptr),
{
    assert((ptr + lit).take(ptr.len() as int + 1) =~= ptr.push('/'));
}

proof fn lemma_slots_concat(a: Seq<ChildSlot>, b: Seq<ChildSlot>, ptr: Seq<char>)
    requires
        slots_below(a, ptr),
        slots_below(b, ptr),
    ensures
        slots_below(a + b, ptr),
{
    assert forall|i: int| 0 <= i < (a + b).len() implies (#[trigger] (a + b)[i] matches ChildSlot::Entry(p, _) ==> below_pointer(p, ptr)) by {
        if i < a.len() {
            assert((a + b)[i] == a[i]);
        } else {
            assert((a + b)[i] == b[i - a.len()]);
        }
    }
}

proof fn lemma_keyed_below(ms: Seq<(Seq<char>, JsonModel)>, q: Seq<char>, ptr: Seq<char>)
    requires
        below_pointer(q, ptr),
    ensures
        slots_below(keyed_slots(ms, q), ptr),
{
    assert forall|i: int| 0 <= i < keyed_slots(ms, q).len() implies (#[trigger] keyed_slots(ms, q)[i] matches ChildSlot::Entry(p, _) ==> below_pointer(p, ptr)) by {
        lemma_below_extend(q, escaped_segment(ms[i].0), ptr);
    }
}

proof fn lemma_indexed_below(items: Seq<JsonModel>, q: Seq<char>, ptr: Seq<char>)
    requires
        below_pointer(q, ptr),
    ensures
        slots_below(indexed_slots(items, q), ptr),
{
    assert forall|i: int| 0 <= i < indexed_slots(items, q).len() implies (#[trigger] indexed_slots(items, q)[i] matches ChildSlot::Entry(p, _) ==> below_pointer(p, ptr)) by {
        lemma_below_extend(q, decimal(i as nat), ptr);
    }
}

proof fn lemma_schema_items_below(items: Seq<JsonModel>, q: Seq<char>, ptr: Seq<char>)
    requires
        below_pointer(q, ptr),
    ensures
        slots_below(schema_items(items, q), ptr),
    decreases items.len(),
{
    if items.len() > 0 {
        lemma_schema_items_below(items.drop_last(), q, ptr);
        lemma_below_extend(q, decimal((items.len() - 1) as nat), ptr);
        let tail = if schema_like(items.last()) {
            seq![ChildSlot::Entry(q + decimal((items.len() - 1) as nat), items.last())]
        } else {
            Seq::empty()
        };
        assert(slots_below(tail, ptr));
        lemma_slots_concat(schema_items(items.drop_last(), q), tail, ptr);
    }
}

proof fn lemma_schema_members_below(ms: Seq<(Seq<char>, JsonModel)>, q: Seq<char>, ptr: Seq<char>)
    requires
        below_pointer(q, ptr),
    ensures
        slots_below(schema_members(ms, q), ptr),
    decreases ms.len(),
{
    if ms.len() > 0 {
        lemma_schema_members_below(ms.drop_last(), q, ptr);
        lemma_below_extend(q, escaped_segment(ms.last().0), ptr);
        let tail = if schema_like(ms.last().1) {
            seq![ChildSlot::Entry(q + escaped_segment(ms.last().0), ms.last().1)]
        } else {
            Seq::empty()
        };
        assert(slots_below(tail, ptr));
        lemma_slots_concat(schema_members(ms.drop_last(), q), tail, ptr);
    }
}

proof fn lemma_keyword_slots_below(kws: Seq<(Seq<char>, JsonModel)>, key: Seq<char>, ptr: Seq<char>)
    ensures
        slots_below(object_slots(kws, key, ptr), ptr),
        slots_below(array_slots(kws, key, ptr), ptr),
        slots_below(single_slot(kws, key, ptr), ptr),
        slots_below(schema_unless_bool_slot(kws, key, ptr), ptr),
        slots_below(applicator_slots(kws, key, ptr), ptr),
{
    lemma_below_slash(ptr);
    lemma_below_extend(ptr + "/"@, key, ptr);
    lemma_below_extend(ptr + "/"@ + key, "/"@, ptr);
    let q = ptr + "/"@ + key + "/"@;
    match json_get(kws, key) {
        Some(JsonModel::Object(ms)) => {
            lemma_keyed_below(ms, q, ptr);
        },
        Some(JsonModel::Array(items)) => {
            lemma_indexed_below(items, q, ptr);
            lemma_schema_items_below(items, q, ptr);
        },
        _ => {},
    }
}

proof fn lemma_child_slots_below(kws: Seq<(Seq<char>, JsonModel)>, ptr: Seq<char>)
    ensures
        slots_below(child_slots(kws, ptr), ptr),
{
    reveal_strlit("/items/");
    reveal_strlit("/items");
    reveal_strlit("/dependencies/");
    lemma_below_lit(ptr, "/items/"@);
    lemma_below_lit(ptr, "/items"@);
    lemma_below_lit(ptr, "/dependencies/"@);
    match json_get(kws, "items"@) {
        Some(JsonModel::Array(items)) => lemma_indexed_below(items, ptr + "/items/"@, ptr),
        _ => {},
    }
    match json_get(kws, "dependencies"@) {
        Some(JsonModel::Object(ms)) => lemma_schema_members_below(ms, ptr + "/dependencies/"@, ptr),
        _ => {},
    }
    lemma_keyword_slots_below(kws, "properties"@, ptr);
    lemma_keyword_slots_below(kws, "prefixItems"@, ptr);
    lemma_keyword_slots_below(kws, "anyOf"@, ptr);
    lemma_keyword_slots_below(kws, "allOf"@, ptr);
    lemma_keyword_slots_below(kws, "oneOf"@, ptr);
    lemma_keyword_slots_below(kws, "not"@, ptr);
    lemma_keyword_slots_below(kws, "if"@, ptr);
    lemma_keyword_slots_below(kws, "then"@, ptr);
    lemma_keyword_slots_below(kws, "else"@, ptr);
    lemma_keyword_slots_below(kws, "dependentSchemas"@, ptr);
    lemma_keyword_slots_below(kws, "patternProperties"@, ptr);
    lemma_keyword_slots_below(kws, "propertyNames"@, ptr);
    lemma_keyword_slots_below(kws, "contains"@, ptr);
    lemma_keyword_slots_below(kws, "additionalProperties"@, ptr);
    lemma_keyword_slots_below(kws, "unevaluatedProperties"@, ptr);
    lemma_keyword_slots_below(kws, "unevaluatedItems"@, ptr);
    lemma_keyword_slots_below(kws, "additionalItems"@, ptr);
    lemma_keyword_slots_below(kws, "contentSchema"@, ptr);
    assert(slots_below(items_slots(kws, ptr), ptr));
    assert(slots_below(dependencies_slots(kws, ptr), ptr));
    let s1 = object_slots(kws, "properties"@, ptr);
    let s2 = s1 + items_slots(kws, ptr);
    lemma_slots_concat(s1, items_slots(kws, ptr), ptr);
    let s3 = s2 + array_slots(kws, "prefixItems"@, ptr);
    lemma_slots_concat(s2, array_slots(kws, "prefixItems"@, ptr), ptr);
    let s4 = s3 + array_slots(kws, "anyOf"@, ptr);
    lemma_slots_concat(s3, array_slots(kws, "anyOf"@, ptr), ptr);
    let s5 = s4 + array_slots(kws, "allOf"@, ptr);
    lemma_slots_concat(s4, array_slots(kws, "allOf"@, ptr), ptr);
    let s6 = s5 + array_slots(kws, "oneOf"@, ptr);
    lemma_slots_concat(s5, array_slots(kws, "oneOf"@, ptr), ptr);
    let s7 = s6 + single_slot(kws, "not"@, ptr);
    lemma_slots_concat(s6, single_slot(kws, "not"@, ptr), ptr);
    let s8 = s7 + single_slot(kws, "if"@, ptr);
    lemma_slots_concat(s7, single_slot(kws, "if"@, ptr), ptr);
    let s9 = s8 + single_slot(kws, "then"@, ptr);
    lemma_slots_concat(s8, single_slot(kws, "then"@, ptr), ptr);
    let s10 = s9 + single_slot(kws, "else"@, ptr);
    lemma_slots_concat(s9, single_slot(kws, "else"@, ptr), ptr);
    let s11 = s10 + object_slots(kws, "dependentSchemas"@, ptr);
    lemma_slots_concat(s10, object_slots(kws, "dependentSchemas"@, ptr), ptr);
    let s12 = s11 + object_slots(kws, "patternProperties"@, ptr);
    lemma_slots_concat(s11, object_slots(kws, "patternProperties"@, ptr), ptr);
    let s13 = s12 + single_slot(kws, "propertyNames"@, ptr);
    lemma_slots_concat(s12, single_slot(kws, "propertyNames"@, ptr), ptr);
    let s14 = s13 + single_slot(kws, "contains"@, ptr);
    lemma_slots_concat(s13, single_slot(kws, "contains"@, ptr), ptr);
    let s15 = s14 + schema_unless_bool_slot(kws, "additionalProperties"@, ptr);
    lemma_slots_concat(s14, schema_unless_bool_slot(kws, "additionalProperties"@, ptr), ptr);
    let s16 = s15 + schema_unless_bool_slot(kws, "unevaluatedProperties"@, ptr);
    lemma_slots_concat(s15, schema_unless_bool_slot(kws, "unevaluatedProperties"@, ptr), ptr);
    let s17 = s16 + applicator_slots(kws, "unevaluatedItems"@, ptr);
    lemma_slots_concat(s16, applicator_slots(kws, "unevaluatedItems"@, ptr), ptr);
    let s18 = s17 + applicator_slots(kws, "additionalItems"@, ptr);
    lemma_slots_concat(s17, applicator_slots(kws, "additionalItems"@, ptr), ptr);
    let s19 = s18 + applicator_slots(kws, "contentSchema"@, ptr);
    lemma_slots_concat(s18, applicator_slots(kws, "contentSchema"@, ptr), ptr);
    lemma_slots_concat(s19, dependencies_slots(kws, ptr), ptr);
}

proof fn lemma_parsed_below(slots: Seq<ChildSlot>, ptr: Seq<char>)
    requires
        slots_below(slots, ptr),
        parsed_children(slots) is Ok,
    ensures
        forall|j: int| 0 <= j < parsed_children(slots)->Ok_0.len()
            ==> below_pointer((#[trigger] parsed_children(slots)->Ok_0[j]).0, ptr),
    decreases slots.len(),
{
    if slots.len() > 0 {
        assert(slots_below(slots.drop_last(), ptr)) by {
            assert forall|i: int| 0 <= i < slots.drop_last().len() implies (#[trigger] slots.drop_last()[i] matches ChildSlot::Entry(p, _) ==> below_pointer(p, ptr)) by {
                assert(slots.drop_last()[i] == slots[i]);
            }
        }
        lemma_parsed_below(slots.drop_last(), ptr);
        assert(slots[slots.len() - 1] == slots.last());
    }
}

/// What `expand_children` does to an arena, as a law: when expanding node
/// `id` succeeds, the node keeps its content and gets the new nodes, in
/// order, appended to its children; every other node is unchanged; each new
/// node has `id` as parent, depth one more, and a pointer made of `id`'s
/// pointer, a `/` and its own segments; and a boolean
/// `additionalProperties` or `unevaluatedProperties` yields no child.
pub proof fn lemma_expand_children_law(a: Seq<NodeModel>, id: NodeId)
    requires
        0 <= id.0 < a.len(),
        expansion(a, id) is Ok,
    ensures
        ({
            let b = expansion(a, id)->Ok_0;
            let i = id.0 as int;
            &&& b.len() >= a.len()
            &&& b[i].children == a[i].children + child_ids(a.len(), (b.len() - a.len()) as nat)
            &&& agrees(b[i], a[i])
            &&& forall|x: int| 0 <= x < a.len() && x != i ==> #[trigger] b[x] == a[x]
            &&& forall|x: int| a.len() <= x < b.len() ==> {
                let c = #[trigger] b[x];
                &&& c.parent == Some(id)
                &&& c.depth == (a[i].depth + 1) as u32
                &&& below_pointer(c.pointer, a[i].pointer)
            }
        }),
        forall|kws: Seq<(Seq<char>, JsonModel)>, key: Seq<char>, ptr: Seq<char>|
            json_get(kws, key) matches Some(JsonModel::Bool(_)) ==> (#[trigger] schema_unless_bool_slot(kws, key, ptr)).len() == 0,
{
    let n = a[id.0 as int];
    let slots = child_slots(n.keywords, n.pointer);
    lemma_child_slots_below(n.keywords, n.pointer);
    lemma_parsed_below(slots, n.pointer);
    let cs = parsed_children(slots)->Ok_0;
    let b = expanded(a, id, cs);
    assert forall|x: int| a.len() <= x < b.len() implies {
        let c = #[trigger] b[x];
        &&& c.parent == Some(id)
        &&& c.depth == (a[id.0 as int].depth + 1) as u32
        &&& below_pointer(c.pointer, a[id.0 as int].pointer)
    } by {
        let j = x - a.len();
        assert(b[x] == placed_children(cs, id, a[id.0 as int].depth)[j]);
        assert(below_pointer(cs[j].0, n.pointer));
    }
    assert(b.len() == a.len() + cs.len());
    assert(((b.len() - a.len()) as nat) == cs.len());
}

} // verus!
