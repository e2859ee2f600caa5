//! Which subschemas of a node become its children.
use vstd::prelude::*;

use crate::json::{json_get, JsonModel};
use crate::normalize::arena::{id_at, parsed_node, NodeId, NodeModel};
use crate::normalize::traverse::{
    applicator_slots, child_ids, placed_children, array_slots, child_slots, dependencies_slots, expansion, indexed_slots, items_slots, keyed_slots,
    object_slots, parsed_children, schema_items, schema_like, schema_members, schema_unless_bool_slot, single_slot,
    ChildSlot,
};
use crate::pointer::escaped_segment;
use crate::text::decimal;

verus! {

proof fn lemma_in_concat(a: Seq<ChildSlot>, b: Seq<ChildSlot>, x: ChildSlot)
    ensures
        a.contains(x) || b.contains(x) ==> (a + b).contains(x),
{
    if a.contains(x) {
        let i = choose|i: int| 0 <= i < a.len() && a[i] == x;
        assert((a + b)[i] == x);
    } else if b.contains(x) {
        let i = choose|i: int| 0 <= i < b.len() && b[i] == x;
        assert((a + b)[a.len() + i] == x);
    }
}

proof fn lemma_indexed_has(items: Seq<JsonModel>, q: Seq<char>, i: int)
    requires
        0 <= i < items.len(),
    ensures
        indexed_slots(items, q).contains(ChildSlot::Entry(q + decimal(i as nat), items[i])),
{
    assert(indexed_slots(items, q)[i] == ChildSlot::Entry(q + decimal(i as nat), items[i]));
}

proof fn lemma_keyed_has(ms: Seq<(Seq<char>, JsonModel)>, q: Seq<char>, i: int)
    requires
        0 <= i < ms.len(),
    ensures
        keyed_slots(ms, q).contains(ChildSlot::Entry(q + escaped_segment(ms[i].0), ms[i].1)),
{
    assert(keyed_slots(ms, q)[i] == ChildSlot::Entry(q + escaped_segment(ms[i].0), ms[i].1));
}

proof fn lemma_schema_items_has(items: Seq<JsonModel>, q: Seq<char>, i: int)
    requires
        0 <= i < items.len(),
        schema_like(items[i]),
    ensures
        schema_items(items, q).contains(ChildSlot::Entry(q + decimal(i as nat), items[i])),
    decreases items.len(),
{
    let x = ChildSlot::Entry(q + decimal(i as nat), items[i]);
    let tail = seq![ChildSlot::Entry(q + decimal((items.len() - 1) as nat), items.last())];
    if i == items.len() - 1 {
        lemma_in_concat(schema_items(items.drop_last(), q), tail, x);
        assert(tail[0] == x);
    } else {
        assert(items.drop_last()[i] == items[i]);
        lemma_schema_items_has(items.drop_last(), q, i);
        if schema_like(items.last()) {
            lemma_in_concat(schema_items(items.drop_last(), q), tail, x);
        } else {
            assert(schema_items(items, q) =~= schema_items(items.drop_last(), q));
        }
    }
}

proof fn lemma_schema_members_has(ms: Seq<(Seq<char>, JsonModel)>, q: Seq<char>, i: int)
    requires
        0 <= i < ms.len(),
        schema_like(ms[i].1),
    ensures
        schema_members(ms, q).contains(ChildSlot::Entry(q + escaped_segment(ms[i].0), ms[i].1)),
    decreases ms.len(),
{
    let x = ChildSlot::Entry(q + escaped_segment(ms[i].0), ms[i].1);
    let tail = seq![ChildSlot::Entry(q + escaped_segment(ms.last().0), ms.last().1)];
    if i == ms.len() - 1 {
        lemma_in_concat(schema_members(ms.drop_last(), q), tail, x);
        assert(tail[0] == x);
    } else {
        assert(ms.drop_last()[i] == ms[i]);
        lemma_schema_members_has(ms.drop_last(), q, i);
        if schema_like(ms.last().1) {
            lemma_in_concat(schema_members(ms.drop_last(), q), tail, x);
        } else {
            assert(schema_members(ms, q) =~= schema_members(ms.drop_last(), q));
        }
    }
}

/// A slot of any one keyword's part is a slot of the node.
proof fn lemma_part_in_child_slots(kws: Seq<(Seq<char>, JsonModel)>, ptr: Seq<char>, x: ChildSlot)
    ensures
        (object_slots(kws, "properties"@, ptr).contains(x)
            || items_slots(kws, ptr).contains(x)
            || array_slots(kws, "prefixItems"@, ptr).contains(x)
            || array_slots(kws, "anyOf"@, ptr).contains(x)
            || array_slots(kws, "allOf"@, ptr).contains(x)
            || array_slots(kws, "oneOf"@, ptr).contains(x)
            || single_slot(kws, "not"@, ptr).contains(x)
            || single_slot(kws, "if"@, ptr).contains(x)
            || single_slot(kws, "then"@, ptr).contains(x)
            || single_slot(kws, "else"@, ptr).contains(x)
            || object_slots(kws, "dependentSchemas"@, ptr).contains(x)
            || object_slots(kws, "patternProperties"@, ptr).contains(x)
            || single_slot(kws, "propertyNames"@, ptr).contains(x)
            || single_slot(kws, "contains"@, ptr).contains(x)
            || schema_unless_bool_slot(kws, "additionalProperties"@, ptr).contains(x)
            || schema_unless_bool_slot(kws, "unevaluatedProperties"@, ptr).contains(x)
            || applicator_slots(kws, "unevaluatedItems"@, ptr).contains(x)
            || applicator_slots(kws, "additionalItems"@, ptr).contains(x)
            || applicator_slots(kws, "contentSchema"@, ptr).contains(x)
            || dependencies_slots(kws, ptr).contains(x)) ==> child_slots(kws, ptr).contains(x),
{
    let s0 = object_slots(kws, "properties"@, ptr);
    let s1 = s0 + items_slots(kws, ptr);
    lemma_in_concat(s0, items_slots(kws, ptr), x);
    let s2 = s1 + array_slots(kws, "prefixItems"@, ptr);
    lemma_in_concat(s1, array_slots(kws, "prefixItems"@, ptr), x);
    let s3 = s2 + array_slots(kws, "anyOf"@, ptr);
    lemma_in_concat(s2, array_slots(kws, "anyOf"@, ptr), x);
    let s4 = s3 + array_slots(kws, "allOf"@, ptr);
    lemma_in_concat(s3, array_slots(kws, "allOf"@, ptr), x);
    let s5 = s4 + array_slots(kws, "oneOf"@, ptr);
    lemma_in_concat(s4, array_slots(kws, "oneOf"@, ptr), x);
    let s6 = s5 + single_slot(kws, "not"@, ptr);
    lemma_in_concat(s5, single_slot(kws, "not"@, ptr), x);
    let s7 = s6 + single_slot(kws, "if"@, ptr);
    lemma_in_concat(s6, single_slot(kws, "if"@, ptr), x);
    let s8 = s7 + single_slot(kws, "then"@, ptr);
    lemma_in_concat(s7, single_slot(kws, "then"@, ptr), x);
    let s9 = s8 + single_slot(kws, "else"@, ptr);
    lemma_in_concat(s8, single_slot(kws, "else"@, ptr), x);
    let s10 = s9 + object_slots(kws, "dependentSchemas"@, ptr);
    lemma_in_concat(s9, object_slots(kws, "dependentSchemas"@, ptr), x);
    let s11 = s10 + object_slots(kws, "patternProperties"@, ptr);
    lemma_in_concat(s10, object_slots(kws, "patternProperties"@, ptr), x);
    let s12 = s11 + single_slot(kws, "propertyNames"@, ptr);
    lemma_in_concat(s11, single_slot(kws, "propertyNames"@, ptr), x);
    let s13 = s12 + single_slot(kws, "contains"@, ptr);
    lemma_in_concat(s12, single_slot(kws, "contains"@, ptr), x);
    let s14 = s13 + schema_unless_bool_slot(kws, "additionalProperties"@, ptr);
    lemma_in_concat(s13, schema_unless_bool_slot(kws, "additionalProperties"@, ptr), x);
    let s15 = s14 + schema_unless_bool_slot(kws, "unevaluatedProperties"@, ptr);
    lemma_in_concat(s14, schema_unless_bool_slot(kws, "unevaluatedProperties"@, ptr), x);
    let s16 = s15 + applicator_slots(kws, "unevaluatedItems"@, ptr);
    lemma_in_concat(s15, applicator_slots(kws, "unevaluatedItems"@, ptr), x);
    let s17 = s16 + applicator_slots(kws, "additionalItems"@, ptr);
    lemma_in_concat(s16, applicator_slots(kws, "additionalItems"@, ptr), x);
    let s18 = s17 + applicator_slots(kws, "contentSchema"@, ptr);
    lemma_in_concat(s17, applicator_slots(kws, "contentSchema"@, ptr), x);
    let s19 = s18 + dependencies_slots(kws, ptr);
    lemma_in_concat(s18, dependencies_slots(kws, ptr), x);
    assert(s19 == child_slots(kws, ptr));
}

proof fn lemma_properties_slots(kws: Seq<(Seq<char>, JsonModel)>, ptr: Seq<char>, i: int)
    ensures
        match json_get(kws, "properties"@) {
            Some(JsonModel::Object(ms)) => 0 <= i < ms.len() ==> child_slots(kws, ptr).contains(
                ChildSlot::Entry(ptr + "/properties/"@ + escaped_segment(ms[i].0), ms[i].1),
            ),
            _ => true,
        },
{
    reveal_strlit("/");
    reveal_strlit("/properties/");
    reveal_strlit("properties");
    match json_get(kws, "properties"@) {
        Some(JsonModel::Object(ms)) => if 0 <= i < ms.len() {
            assert(ptr + "/"@ + "properties"@ + "/"@ =~= ptr + "/properties/"@);
            lemma_keyed_has(ms, ptr + "/properties/"@, i);
            lemma_part_in_child_slots(kws, ptr, ChildSlot::Entry(ptr + "/properties/"@ + escaped_segment(ms[i].0), ms[i].1));
        },
        _ => {},
    }
}

proof fn lemma_items_slots(kws: Seq<(Seq<char>, JsonModel)>, ptr: Seq<char>, i: int)
    ensures
        match json_get(kws, "items"@) {
            Some(v) => (v is Object || v is Bool) ==> child_slots(kws, ptr).contains(
                ChildSlot::Entry(ptr + "/items"@, v),
            ),
            _ => true,
        },
        match json_get(kws, "items"@) {
            Some(JsonModel::Array(items)) => 0 <= i < items.len() ==> child_slots(kws, ptr).contains(
                ChildSlot::Entry(ptr + "/items/"@ + decimal(i as nat), items[i]),
            ),
            _ => true,
        },
{
    reveal_strlit("/items");
    reveal_strlit("/items/");
    reveal_strlit("items");
    match json_get(kws, "items"@) {
        Some(JsonModel::Array(items)) => if 0 <= i < items.len() {
            lemma_indexed_has(items, ptr + "/items/"@, i);
            lemma_part_in_child_slots(kws, ptr, ChildSlot::Entry(ptr + "/items/"@ + decimal(i as nat), items[i]));
        },
        Some(v) => if schema_like(v) {
            assert(items_slots(kws, ptr)[0] == ChildSlot::Entry(ptr + "/items"@, v));
            lemma_part_in_child_slots(kws, ptr, ChildSlot::Entry(ptr + "/items"@, v));
        },
        _ => {},
    }
}

proof fn lemma_prefix_items_slots(kws: Seq<(Seq<char>, JsonModel)>, ptr: Seq<char>, i: int)
    ensures
        match json_get(kws, "prefixItems"@) {
            Some(JsonModel::Array(items)) => 0 <= i < items.len() ==> child_slots(kws, ptr).contains(
                ChildSlot::Entry(ptr + "/prefixItems/"@ + decimal(i as nat), items[i]),
            ),
            _ => true,
        },
{
    reveal_strlit("/");
    reveal_strlit("/prefixItems/");
    reveal_strlit("prefixItems");
    match json_get(kws, "prefixItems"@) {
        Some(JsonModel::Array(items)) => if 0 <= i < items.len() {
            assert(ptr + "/"@ + "prefixItems"@ + "/"@ =~= ptr + "/prefixItems/"@);
            lemma_indexed_has(items, ptr + "/prefixItems/"@, i);
            lemma_part_in_child_slots(kws, ptr, ChildSlot::Entry(ptr + "/prefixItems/"@ + decimal(i as nat), items[i]));
        },
        _ => {},
    }
}

proof fn lemma_any_of_slots(kws: Seq<(Seq<char>, JsonModel)>, ptr: Seq<char>, i: int)
    ensures
        match json_get(kws, "anyOf"@) {
            Some(JsonModel::Array(items)) => 0 <= i < items.len() ==> child_slots(kws, ptr).contains(
                ChildSlot::Entry(ptr + "/anyOf/"@ + decimal(i as nat), items[i]),
            ),
            _ => true,
        },
{
    reveal_strlit("/");
    reveal_strlit("/anyOf/");
    reveal_strlit("anyOf");
    match json_get(kws, "anyOf"@) {
        Some(JsonModel::Array(items)) => if 0 <= i < items.len() {
            assert(ptr + "/"@ + "anyOf"@ + "/"@ =~= ptr + "/anyOf/"@);
            lemma_indexed_has(items, ptr + "/anyOf/"@, i);
            lemma_part_in_child_slots(kws, ptr, ChildSlot::Entry(ptr + "/anyOf/"@ + decimal(i as nat), items[i]));
        },
        _ => {},
    }
}

proof fn lemma_all_of_slots(kws: Seq<(Seq<char>, JsonModel)>, ptr: Seq<char>, i: int)
    ensures
        match json_get(kws, "allOf"@) {
            Some(JsonModel::Array(items)) => 0 <= i < items.len() ==> child_slots(kws, ptr).contains(
                ChildSlot::Entry(ptr + "/allOf/"@ + decimal(i as nat), items[i]),
            ),
            _ => true,
        },
{
    reveal_strlit("/");
    reveal_strlit("/allOf/");
    reveal_strlit("allOf");
    match json_get(kws, "allOf"@) {
        Some(JsonModel::Array(items)) => if 0 <= i < items.len() {
            assert(ptr + "/"@ + "allOf"@ + "/"@ =~= ptr + "/allOf/"@);
            lemma_indexed_has(items, ptr + "/allOf/"@, i);
            lemma_part_in_child_slots(kws, ptr, ChildSlot::Entry(ptr + "/allOf/"@ + decimal(i as nat), items[i]));
        },
        _ => {},
    }
}

proof fn lemma_one_of_slots(kws: Seq<(Seq<char>, JsonModel)>, ptr: Seq<char>, i: int)
    ensures
        match json_get(kws, "oneOf"@) {
            Some(JsonModel::Array(items)) => 0 <= i < items.len() ==> child_slots(kws, ptr).contains(
                ChildSlot::Entry(ptr + "/oneOf/"@ + decimal(i as nat), items[i]),
            ),
            _ => true,
        },
{
    reveal_strlit("/");
    reveal_strlit("/oneOf/");
    reveal_strlit("oneOf");
    match json_get(kws, "oneOf"@) {
        Some(JsonModel::Array(items)) => if 0 <= i < items.len() {
            assert(ptr + "/"@ + "oneOf"@ + "/"@ =~= ptr + "/oneOf/"@);
            lemma_indexed_has(items, ptr + "/oneOf/"@, i);
            lemma_part_in_child_slots(kws, ptr, ChildSlot::Entry(ptr + "/oneOf/"@ + decimal(i as nat), items[i]));
        },
        _ => {},
    }
}

proof fn lemma_not_slots(kws: Seq<(Seq<char>, JsonModel)>, ptr: Seq<char>, i: int)
    ensures
        match json_get(kws, "not"@) {
            Some(v) => child_slots(kws, ptr).contains(
                ChildSlot::Entry(ptr + "/not"@, v),
            ),
            _ => true,
        },
{
    reveal_strlit("/");
    reveal_strlit("/not");
    reveal_strlit("not");
    match json_get(kws, "not"@) {
        Some(v) => {
            assert(ptr + "/"@ + "not"@ =~= ptr + "/not"@);
            assert(single_slot(kws, "not"@, ptr)[0] == ChildSlot::Entry(ptr + "/not"@, v));
            lemma_part_in_child_slots(kws, ptr, ChildSlot::Entry(ptr + "/not"@, v));
        },
        _ => {},
    }
}

proof fn lemma_if_slots(kws: Seq<(Seq<char>, JsonModel)>, ptr: Seq<char>, i: int)
    ensures
        match json_get(kws, "if"@) {
            Some(v) => child_slots(kws, ptr).contains(
                ChildSlot::Entry(ptr + "/if"@, v),
            ),
            _ => true,
        },
{
    reveal_strlit("/");
    reveal_strlit("/if");
    reveal_strlit("if");
    match json_get(kws, "if"@) {
        Some(v) => {
            assert(ptr + "/"@ + "if"@ =~= ptr + "/if"@);
            assert(single_slot(kws, "if"@, ptr)[0] == ChildSlot::Entry(ptr + "/if"@, v));
            lemma_part_in_child_slots(kws, ptr, ChildSlot::Entry(ptr + "/if"@, v));
        },
        _ => {},
    }
}

proof fn lemma_then_slots(kws: Seq<(Seq<char>, JsonModel)>, ptr: Seq<char>, i: int)
    ensures
        match json_get(kws, "then"@) {
            Some(v) => child_slots(kws, ptr).contains(
                ChildSlot::Entry(ptr + "/then"@, v),
            ),
            _ => true,
        },
{
    reveal_strlit("/");
    reveal_strlit("/then");
    reveal_strlit("then");
    match json_get(kws, "then"@) {
        Some(v) => {
            assert(ptr + "/"@ + "then"@ =~= ptr + "/then"@);
            assert(single_slot(kws, "then"@, ptr)[0] == ChildSlot::Entry(ptr + "/then"@, v));
            lemma_part_in_child_slots(kws, ptr, ChildSlot::Entry(ptr + "/then"@, v));
        },
        _ => {},
    }
}

proof fn lemma_else_slots(kws: Seq<(Seq<char>, JsonModel)>, ptr: Seq<char>, i: int)
    ensures
        match json_get(kws, "else"@) {
            Some(v) => child_slots(kws, ptr).contains(
                ChildSlot::Entry(ptr + "/else"@, v),
            ),
            _ => true,
        },
{
    reveal_strlit("/");
    reveal_strlit("/else");
    reveal_strlit("else");
    match json_get(kws, "else"@) {
        Some(v) => {
            assert(ptr + "/"@ + "else"@ =~= ptr + "/else"@);
            assert(single_slot(kws, "else"@, ptr)[0] == ChildSlot::Entry(ptr + "/else"@, v));
            lemma_part_in_child_slots(kws, ptr, ChildSlot::Entry(ptr + "/else"@, v));
        },
        _ => {},
    }
}

proof fn lemma_dependent_schemas_slots(kws: Seq<(Seq<char>, JsonModel)>, ptr: Seq<char>, i: int)
    ensures
        match json_get(kws, "dependentSchemas"@) {
            Some(JsonModel::Object(ms)) => 0 <= i < ms.len() ==> child_slots(kws, ptr).contains(
                ChildSlot::Entry(ptr + "/dependentSchemas/"@ + escaped_segment(ms[i].0), ms[i].1),
            ),
            _ => true,
        },
{
    reveal_strlit("/");
    reveal_strlit("/dependentSchemas/");
    reveal_strlit("dependentSchemas");
    match json_get(kws, "dependentSchemas"@) {
        Some(JsonModel::Object(ms)) => if 0 <= i < ms.len() {
            assert(ptr + "/"@ + "dependentSchemas"@ + "/"@ =~= ptr + "/dependentSchemas/"@);
            lemma_keyed_has(ms, ptr + "/dependentSchemas/"@, i);
            lemma_part_in_child_slots(kws, ptr, ChildSlot::Entry(ptr + "/dependentSchemas/"@ + escaped_segment(ms[i].0), ms[i].1));
        },
        _ => {},
    }
}

proof fn lemma_pattern_properties_slots(kws: Seq<(Seq<char>, JsonModel)>, ptr: Seq<char>, i: int)
    ensures
        match json_get(kws, "patternProperties"@) {
            Some(JsonModel::Object(ms)) => 0 <= i < ms.len() ==> child_slots(kws, ptr).contains(
                ChildSlot::Entry(ptr + "/patternProperties/"@ + escaped_segment(ms[i].0), ms[i].1),
            ),
            _ => true,
        },
{
    reveal_strlit("/");
    reveal_strlit("/patternProperties/");
    reveal_strlit("patternProperties");
    match json_get(kws, "patternProperties"@) {
        Some(JsonModel::Object(ms)) => if 0 <= i < ms.len() {
            assert(ptr + "/"@ + "patternProperties"@ + "/"@ =~= ptr + "/patternProperties/"@);
            lemma_keyed_has(ms, ptr + "/patternProperties/"@, i);
            lemma_part_in_child_slots(kws, ptr, ChildSlot::Entry(ptr + "/patternProperties/"@ + escaped_segment(ms[i].0), ms[i].1));
        },
        _ => {},
    }
}

proof fn lemma_property_names_slots(kws: Seq<(Seq<char>, JsonModel)>, ptr: Seq<char>, i: int)
    ensures
        match json_get(kws, "propertyNames"@) {
            Some(v) => child_slots(kws, ptr).contains(
                ChildSlot::Entry(ptr + "/propertyNames"@, v),
            ),
            _ => true,
        },
{
    reveal_strlit("/");
    reveal_strlit("/propertyNames");
    reveal_strlit("propertyNames");
    match json_get(kws, "propertyNames"@) {
        Some(v) => {
            assert(ptr + "/"@ + "propertyNames"@ =~= ptr + "/propertyNames"@);
            assert(single_slot(kws, "propertyNames"@, ptr)[0] == ChildSlot::Entry(ptr + "/propertyNames"@, v));
            lemma_part_in_child_slots(kws, ptr, ChildSlot::Entry(ptr + "/propertyNames"@, v));
        },
        _ => {},
    }
}

proof fn lemma_contains_slots(kws: Seq<(Seq<char>, JsonModel)>, ptr: Seq<char>, i: int)
    ensures
        match json_get(kws, "contains"@) {
            Some(v) => child_slots(kws, ptr).contains(
                ChildSlot::Entry(ptr + "/contains"@, v),
            ),
            _ => true,
        },
{
    reveal_strlit("/");
    reveal_strlit("/contains");
    reveal_strlit("contains");
    match json_get(kws, "contains"@) {
        Some(v) => {
            assert(ptr + "/"@ + "contains"@ =~= ptr + "/contains"@);
            assert(single_slot(kws, "contains"@, ptr)[0] == ChildSlot::Entry(ptr + "/contains"@, v));
            lemma_part_in_child_slots(kws, ptr, ChildSlot::Entry(ptr + "/contains"@, v));
        },
        _ => {},
    }
}

proof fn lemma_additional_properties_slots(kws: Seq<(Seq<char>, JsonModel)>, ptr: Seq<char>, i: int)
    ensures
        match json_get(kws, "additionalProperties"@) {
            Some(v) => !(v is Bool) ==> child_slots(kws, ptr).contains(
                ChildSlot::Entry(ptr + "/additionalProperties"@, v),
            ),
            _ => true,
        },
{
    reveal_strlit("/");
    reveal_strlit("/additionalProperties");
    reveal_strlit("additionalProperties");
    match json_get(kws, "additionalProperties"@) {
        Some(v) => if true && !(v is Bool) {
            assert(ptr + "/"@ + "additionalProperties"@ =~= ptr + "/additionalProperties"@);
            assert(schema_unless_bool_slot(kws, "additionalProperties"@, ptr)[0] == ChildSlot::Entry(ptr + "/additionalProperties"@, v));
            lemma_part_in_child_slots(kws, ptr, ChildSlot::Entry(ptr + "/additionalProperties"@, v));
        },
        _ => {},
    }
}

proof fn lemma_unevaluated_properties_slots(kws: Seq<(Seq<char>, JsonModel)>, ptr: Seq<char>, i: int)
    ensures
        match json_get(kws, "unevaluatedProperties"@) {
            Some(v) => !(v is Bool) ==> child_slots(kws, ptr).contains(
                ChildSlot::Entry(ptr + "/unevaluatedProperties"@, v),
            ),
            _ => true,
        },
{
    reveal_strlit("/");
    reveal_strlit("/unevaluatedProperties");
    reveal_strlit("unevaluatedProperties");
    match json_get(kws, "unevaluatedProperties"@) {
        Some(v) => if true && !(v is Bool) {
            assert(ptr + "/"@ + "unevaluatedProperties"@ =~= ptr + "/unevaluatedProperties"@);
            assert(schema_unless_bool_slot(kws, "unevaluatedProperties"@, ptr)[0] == ChildSlot::Entry(ptr + "/unevaluatedProperties"@, v));
            lemma_part_in_child_slots(kws, ptr, ChildSlot::Entry(ptr + "/unevaluatedProperties"@, v));
        },
        _ => {},
    }
}

proof fn lemma_unevaluated_items_slots(kws: Seq<(Seq<char>, JsonModel)>, ptr: Seq<char>, i: int)
    ensures
        match json_get(kws, "unevaluatedItems"@) {
            Some(v) => (v is Object || v is Bool) ==> child_slots(kws, ptr).contains(
                ChildSlot::Entry(ptr + "/unevaluatedItems"@, v),
            ),
            _ => true,
        },
        match json_get(kws, "unevaluatedItems"@) {
            Some(JsonModel::Array(items)) => 0 <= i < items.len() && (items[i] is Object || items[i] is Bool) ==> child_slots(kws, ptr).contains(
                ChildSlot::Entry(ptr + "/unevaluatedItems/"@ + decimal(i as nat), items[i]),
            ),
            _ => true,
        },
{
    reveal_strlit("/");
    reveal_strlit("/unevaluatedItems");
    reveal_strlit("/unevaluatedItems/");
    reveal_strlit("unevaluatedItems");
    match json_get(kws, "unevaluatedItems"@) {
        Some(JsonModel::Array(items)) => if 0 <= i < items.len() && schema_like(items[i]) {
            assert(ptr + "/"@ + "unevaluatedItems"@ + "/"@ =~= ptr + "/unevaluatedItems/"@);
            lemma_schema_items_has(items, ptr + "/unevaluatedItems/"@, i);
            lemma_part_in_child_slots(kws, ptr, ChildSlot::Entry(ptr + "/unevaluatedItems/"@ + decimal(i as nat), items[i]));
        },
        Some(v) => if schema_like(v) {
            assert(ptr + "/"@ + "unevaluatedItems"@ =~= ptr + "/unevaluatedItems"@);
            assert(applicator_slots(kws, "unevaluatedItems"@, ptr)[0] == ChildSlot::Entry(ptr + "/unevaluatedItems"@, v));
            lemma_part_in_child_slots(kws, ptr, ChildSlot::Entry(ptr + "/unevaluatedItems"@, v));
        },
        _ => {},
    }
}

proof fn lemma_additional_items_slots(kws: Seq<(Seq<char>, JsonModel)>, ptr: Seq<char>, i: int)
    ensures
        match json_get(kws, "additionalItems"@) {
            Some(v) => (v is Object || v is Bool) ==> child_slots(kws, ptr).contains(
                ChildSlot::Entry(ptr + "/additionalItems"@, v),
            ),
            _ => true,
        },
        match json_get(kws, "additionalItems"@) {
            Some(JsonModel::Array(items)) => 0 <= i < items.len() && (items[i] is Object || items[i] is Bool) ==> child_slots(kws, ptr).contains(
                ChildSlot::Entry(ptr + "/additionalItems/"@ + decimal(i as nat), items[i]),
            ),
            _ => true,
        },
{
    reveal_strlit("/");
    reveal_strlit("/additionalItems");
    reveal_strlit("/additionalItems/");
    reveal_strlit("additionalItems");
    match json_get(kws, "additionalItems"@) {
        Some(JsonModel::Array(items)) => if 0 <= i < items.len() && schema_like(items[i]) {
            assert(ptr + "/"@ + "additionalItems"@ + "/"@ =~= ptr + "/additionalItems/"@);
            lemma_schema_items_has(items, ptr + "/additionalItems/"@, i);
            lemma_part_in_child_slots(kws, ptr, ChildSlot::Entry(ptr + "/additionalItems/"@ + decimal(i as nat), items[i]));
        },
        Some(v) => if schema_like(v) {
            assert(ptr + "/"@ + "additionalItems"@ =~= ptr + "/additionalItems"@);
            assert(applicator_slots(kws, "additionalItems"@, ptr)[0] == ChildSlot::Entry(ptr + "/additionalItems"@, v));
            lemma_part_in_child_slots(kws, ptr, ChildSlot::Entry(ptr + "/additionalItems"@, v));
        },
        _ => {},
    }
}

proof fn lemma_content_schema_slots(kws: Seq<(Seq<char>, JsonModel)>, ptr: Seq<char>, i: int)
    ensures
        match json_get(kws, "contentSchema"@) {
            Some(v) => (v is Object || v is Bool) ==> child_slots(kws, ptr).contains(
                ChildSlot::Entry(ptr + "/contentSchema"@, v),
            ),
            _ => true,
        },
        match json_get(kws, "contentSchema"@) {
            Some(JsonModel::Array(items)) => 0 <= i < items.len() && (items[i] is Object || items[i] is Bool) ==> child_slots(kws, ptr).contains(
                ChildSlot::Entry(ptr + "/contentSchema/"@ + decimal(i as nat), items[i]),
            ),
            _ => true,
        },
{
    reveal_strlit("/");
    reveal_strlit("/contentSchema");
    reveal_strlit("/contentSchema/");
    reveal_strlit("contentSchema");
    match json_get(kws, "contentSchema"@) {
        Some(JsonModel::Array(items)) => if 0 <= i < items.len() && schema_like(items[i]) {
            assert(ptr + "/"@ + "contentSchema"@ + "/"@ =~= ptr + "/contentSchema/"@);
            lemma_schema_items_has(items, ptr + "/contentSchema/"@, i);
            lemma_part_in_child_slots(kws, ptr, ChildSlot::Entry(ptr + "/contentSchema/"@ + decimal(i as nat), items[i]));
        },
        Some(v) => if schema_like(v) {
            assert(ptr + "/"@ + "contentSchema"@ =~= ptr + "/contentSchema"@);
            assert(applicator_slots(kws, "contentSchema"@, ptr)[0] == ChildSlot::Entry(ptr + "/contentSchema"@, v));
            lemma_part_in_child_slots(kws, ptr, ChildSlot::Entry(ptr + "/contentSchema"@, v));
        },
        _ => {},
    }
}

proof fn lemma_dependencies_slots(kws: Seq<(Seq<char>, JsonModel)>, ptr: Seq<char>, i: int)
    ensures
        match json_get(kws, "dependencies"@) {
            Some(JsonModel::Object(ms)) => 0 <= i < ms.len() && (ms[i].1 is Object || ms[i].1 is Bool) ==> child_slots(kws, ptr).contains(
                ChildSlot::Entry(ptr + "/dependencies/"@ + escaped_segment(ms[i].0), ms[i].1),
            ),
            _ => true,
        },
{
    reveal_strlit("/dependencies/");
    reveal_strlit("dependencies");
    match json_get(kws, "dependencies"@) {
        Some(JsonModel::Object(ms)) => if 0 <= i < ms.len() && schema_like(ms[i].1) {
            lemma_schema_members_has(ms, ptr + "/dependencies/"@, i);
            lemma_part_in_child_slots(kws, ptr, ChildSlot::Entry(ptr + "/dependencies/"@ + escaped_segment(ms[i].0), ms[i].1));
        },
        _ => {},
    }
}

/// Every subschema under an applicator keyword is a child slot of its node,
/// with the node's pointer, the keyword and, where the keyword holds several,
/// the subschema's index or escaped member name as its pointer:
/// each item of `anyOf`, `allOf`, `oneOf` and `prefixItems` (and of an
/// array-valued `items`); each member of `properties`, `patternProperties`
/// and `dependentSchemas`; the value of `not`, `if`, `then`, `else`,
/// `propertyNames`, `contains` and a schema-valued `items`; the value of
/// `additionalProperties` and `unevaluatedProperties` unless it is a
/// boolean; the schema-like value, or schema-like items, of
/// `unevaluatedItems`, `additionalItems` and `contentSchema`; and each
/// schema-like member of `dependencies`.
pub proof fn lemma_applicator_slots_law(kws: Seq<(Seq<char>, JsonModel)>, ptr: Seq<char>, i: int)
    ensures
        match json_get(kws, "properties"@) {
            Some(JsonModel::Object(ms)) => 0 <= i < ms.len() ==> child_slots(kws, ptr).contains(
                ChildSlot::Entry(ptr + "/properties/"@ + escaped_segment(ms[i].0), ms[i].1),
            ),
            _ => true,
        },
        match json_get(kws, "items"@) {
            Some(v) => (v is Object || v is Bool) ==> child_slots(kws, ptr).contains(
                ChildSlot::Entry(ptr + "/items"@, v),
            ),
            _ => true,
        },
        match json_get(kws, "items"@) {
            Some(JsonModel::Array(items)) => 0 <= i < items.len() ==> child_slots(kws, ptr).contains(
                ChildSlot::Entry(ptr + "/items/"@ + decimal(i as nat), items[i]),
            ),
            _ => true,
        },
        match json_get(kws, "prefixItems"@) {
            Some(JsonModel::Array(items)) => 0 <= i < items.len() ==> child_slots(kws, ptr).contains(
                ChildSlot::Entry(ptr + "/prefixItems/"@ + decimal(i as nat), items[i]),
            ),
            _ => true,
        },
        match json_get(kws, "anyOf"@) {
            Some(JsonModel::Array(items)) => 0 <= i < items.len() ==> child_slots(kws, ptr).contains(
                ChildSlot::Entry(ptr + "/anyOf/"@ + decimal(i as nat), items[i]),
            ),
            _ => true,
        },
        match json_get(kws, "allOf"@) {
            Some(JsonModel::Array(items)) => 0 <= i < items.len() ==> child_slots(kws, ptr).contains(
                ChildSlot::Entry(ptr + "/allOf/"@ + decimal(i as nat), items[i]),
            ),
            _ => true,
        },
        match json_get(kws, "oneOf"@) {
            Some(JsonModel::Array(items)) => 0 <= i < items.len() ==> child_slots(kws, ptr).contains(
                ChildSlot::Entry(ptr + "/oneOf/"@ + decimal(i as nat), items[i]),
            ),
            _ => true,
        },
        match json_get(kws, "not"@) {
            Some(v) => child_slots(kws, ptr).contains(
                ChildSlot::Entry(ptr + "/not"@, v),
            ),
            _ => true,
        },
        match json_get(kws, "if"@) {
            Some(v) => child_slots(kws, ptr).contains(
                ChildSlot::Entry(ptr + "/if"@, v),
            ),
            _ => true,
        },
        match json_get(kws, "then"@) {
            Some(v) => child_slots(kws, ptr).contains(
                ChildSlot::Entry(ptr + "/then"@, v),
            ),
            _ => true,
        },
        match json_get(kws, "else"@) {
            Some(v) => child_slots(kws, ptr).contains(
                ChildSlot::Entry(ptr + "/else"@, v),
            ),
            _ => true,
        },
        match json_get(kws, "dependentSchemas"@) {
            Some(JsonModel::Object(ms)) => 0 <= i < ms.len() ==> child_slots(kws, ptr).contains(
                ChildSlot::Entry(ptr + "/dependentSchemas/"@ + escaped_segment(ms[i].0), ms[i].1),
            ),
            _ => true,
        },
        match json_get(kws, "patternProperties"@) {
            Some(JsonModel::Object(ms)) => 0 <= i < ms.len() ==> child_slots(kws, ptr).contains(
                ChildSlot::Entry(ptr + "/patternProperties/"@ + escaped_segment(ms[i].0), ms[i].1),
            ),
            _ => true,
        },
        match json_get(kws, "propertyNames"@) {
            Some(v) => child_slots(kws, ptr).contains(
                ChildSlot::Entry(ptr + "/propertyNames"@, v),
            ),
            _ => true,
        },
        match json_get(kws, "contains"@) {
            Some(v) => child_slots(kws, ptr).contains(
                ChildSlot::Entry(ptr + "/contains"@, v),
            ),
            _ => true,
        },
        match json_get(kws, "additionalProperties"@) {
            Some(v) => !(v is Bool) ==> child_slots(kws, ptr).contains(
                ChildSlot::Entry(ptr + "/additionalProperties"@, v),
            ),
            _ => true,
        },
        match json_get(kws, "unevaluatedProperties"@) {
            Some(v) => !(v is Bool) ==> child_slots(kws, ptr).contains(
                ChildSlot::Entry(ptr + "/unevaluatedProperties"@, v),
            ),
            _ => true,
        },
        match json_get(kws, "unevaluatedItems"@) {
            Some(v) => (v is Object || v is Bool) ==> child_slots(kws, ptr).contains(
                ChildSlot::Entry(ptr + "/unevaluatedItems"@, v),
            ),
            _ => true,
        },
        match json_get(kws, "unevaluatedItems"@) {
            Some(JsonModel::Array(items)) => 0 <= i < items.len() && (items[i] is Object || items[i] is Bool) ==> child_slots(kws, ptr).contains(
                ChildSlot::Entry(ptr + "/unevaluatedItems/"@ + decimal(i as nat), items[i]),
            ),
            _ => true,
        },
        match json_get(kws, "additionalItems"@) {
            Some(v) => (v is Object || v is Bool) ==> child_slots(kws, ptr).contains(
                ChildSlot::Entry(ptr + "/additionalItems"@, v),
            ),
            _ => true,
        },
        match json_get(kws, "additionalItems"@) {
            Some(JsonModel::Array(items)) => 0 <= i < items.len() && (items[i] is Object || items[i] is Bool) ==> child_slots(kws, ptr).contains(
                ChildSlot::Entry(ptr + "/additionalItems/"@ + decimal(i as nat), items[i]),
            ),
            _ => true,
        },
        match json_get(kws, "contentSchema"@) {
            Some(v) => (v is Object || v is Bool) ==> child_slots(kws, ptr).contains(
                ChildSlot::Entry(ptr + "/contentSchema"@, v),
            ),
            _ => true,
        },
        match json_get(kws, "contentSchema"@) {
            Some(JsonModel::Array(items)) => 0 <= i < items.len() && (items[i] is Object || items[i] is Bool) ==> child_slots(kws, ptr).contains(
                ChildSlot::Entry(ptr + "/contentSchema/"@ + decimal(i as nat), items[i]),
            ),
            _ => true,
        },
        match json_get(kws, "dependencies"@) {
            Some(JsonModel::Object(ms)) => 0 <= i < ms.len() && (ms[i].1 is Object || ms[i].1 is Bool) ==> child_slots(kws, ptr).contains(
                ChildSlot::Entry(ptr + "/dependencies/"@ + escaped_segment(ms[i].0), ms[i].1),
            ),
            _ => true,
        },
{
    lemma_properties_slots(kws, ptr, i);
    lemma_items_slots(kws, ptr, i);
    lemma_prefix_items_slots(kws, ptr, i);
    lemma_any_of_slots(kws, ptr, i);
    lemma_all_of_slots(kws, ptr, i);
    lemma_one_of_slots(kws, ptr, i);
    lemma_not_slots(kws, ptr, i);
    lemma_if_slots(kws, ptr, i);
    lemma_then_slots(kws, ptr, i);
    lemma_else_slots(kws, ptr, i);
    lemma_dependent_schemas_slots(kws, ptr, i);
    lemma_pattern_properties_slots(kws, ptr, i);
    lemma_property_names_slots(kws, ptr, i);
    lemma_contains_slots(kws, ptr, i);
    lemma_additional_properties_slots(kws, ptr, i);
    lemma_unevaluated_properties_slots(kws, ptr, i);
    lemma_unevaluated_items_slots(kws, ptr, i);
    lemma_additional_items_slots(kws, ptr, i);
    lemma_content_schema_slots(kws, ptr, i);
    lemma_dependencies_slots(kws, ptr, i);
}

/// Parsing slots that all hold schemas gives one child per slot, in order,
/// each with the slot's pointer and the node its value parses to.
pub(crate) proof fn lemma_parsed_entry(slots: Seq<ChildSlot>, j: int)
    requires
        parsed_children(slots) is Ok,
        0 <= j < slots.len(),
    ensures
        parsed_children(slots)->Ok_0.len() == slots.len(),
        slots[j] is Entry,
        parsed_node(slots[j]->Entry_1) is Ok,
        parsed_children(slots)->Ok_0[j] == (slots[j]->Entry_0, parsed_node(slots[j]->Entry_1)->Ok_0),
    decreases slots.len(),
{
    let front = slots.drop_last();
    if j < slots.len() - 1 {
        assert(front[j] == slots[j]);
        lemma_parsed_entry(front, j);
    } else if front.len() > 0 {
        lemma_parsed_entry(front, 0);
    }
}

/// When expanding node `id` succeeds, each of its child slots becomes a new
/// node listed among `id`'s children: its parent is `id`, its depth one
/// more, its pointer the slot's, and the rest what the slot's value parses to.
pub proof fn lemma_slot_child_node(a: Seq<NodeModel>, id: NodeId, p: Seq<char>, v: JsonModel)
    requires
        0 <= id.0 < a.len(),
        expansion(a, id) is Ok,
        child_slots(a[id.0 as int].keywords, a[id.0 as int].pointer).contains(ChildSlot::Entry(p, v)),
    ensures
        parsed_node(v) is Ok,
        exists|x: int|
            a.len() <= x < expansion(a, id)->Ok_0.len() && expansion(a, id)->Ok_0[id.0 as int].children.contains(id_at(x))
                && #[trigger] expansion(a, id)->Ok_0[x] == (NodeModel {
                parent: Some(id),
                depth: (a[id.0 as int].depth + 1) as u32,
                pointer: p,
                ..parsed_node(v)->Ok_0
            }),
{
    let n = a[id.0 as int];
    let slots = child_slots(n.keywords, n.pointer);
    let j = choose|j: int| 0 <= j < slots.len() && slots[j] == ChildSlot::Entry(p, v);
    lemma_parsed_entry(slots, j);
    let cs = parsed_children(slots)->Ok_0;
    let b = expansion(a, id)->Ok_0;
    let x = a.len() + j;
    assert(b[x] == placed_children(cs, id, n.depth)[j]);
    let ch = b[id.0 as int].children;
    assert(ch == n.children + child_ids(a.len(), cs.len()));
    assert(ch[n.children.len() + j] == id_at(x));
}

/// Each item `i` of a node's `anyOf`, `allOf`, `oneOf` or `prefixItems`
/// array becomes, when the node is expanded, a child node of it whose
/// pointer is the node's pointer followed by the keyword and `i`.
pub proof fn lemma_array_applicator_children_law(a: Seq<NodeModel>, id: NodeId, key: Seq<char>, i: int)
    requires
        0 <= id.0 < a.len(),
        expansion(a, id) is Ok,
        key == "anyOf"@ || key == "allOf"@ || key == "oneOf"@ || key == "prefixItems"@,
    ensures
        match json_get(a[id.0 as int].keywords, key) {
            Some(JsonModel::Array(items)) => 0 <= i < items.len() ==> exists|x: int|
                a.len() <= x < expansion(a, id)->Ok_0.len()
                    && expansion(a, id)->Ok_0[id.0 as int].children.contains(id_at(x))
                    && #[trigger] expansion(a, id)->Ok_0[x].pointer == a[id.0 as int].pointer + "/"@ + key + "/"@
                    + decimal(i as nat) && expansion(a, id)->Ok_0[x].parent == Some(id),
            _ => true,
        },
{
    reveal_strlit("/");
    reveal_strlit("anyOf");
    reveal_strlit("allOf");
    reveal_strlit("oneOf");
    reveal_strlit("prefixItems");
    reveal_strlit("/anyOf/");
    reveal_strlit("/allOf/");
    reveal_strlit("/oneOf/");
    reveal_strlit("/prefixItems/");
    let n = a[id.0 as int];
    lemma_applicator_slots_law(n.keywords, n.pointer, i);
    match json_get(n.keywords, key) {
        Some(JsonModel::Array(items)) => if 0 <= i < items.len() {
            let p = n.pointer + "/"@ + key + "/"@ + decimal(i as nat);
            if key == "anyOf"@ {
                assert(p =~= n.pointer + "/anyOf/"@ + decimal(i as nat));
            } else if key == "allOf"@ {
                assert(p =~= n.pointer + "/allOf/"@ + decimal(i as nat));
            } else if key == "oneOf"@ {
                assert(p =~= n.pointer + "/oneOf/"@ + decimal(i as nat));
            } else {
                assert(p =~= n.pointer + "/prefixItems/"@ + decimal(i as nat));
            }
            lemma_slot_child_node(a, id, p, items[i]);
            let b = expansion(a, id)->Ok_0;
            let x = choose|x: int|
                a.len() <= x < b.len() && b[id.0 as int].children.contains(id_at(x)) && #[trigger] b[x] == (NodeModel {
                    parent: Some(id),
                    depth: (n.depth + 1) as u32,
                    pointer: p,
                    ..parsed_node(items[i])->Ok_0
                });
            assert(b[x].pointer == p && b[x].parent == Some(id));
        },
        _ => {},
    }
}

} // verus!
