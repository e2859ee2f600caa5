//! What a local `$ref` resolves to, stated over the definition table.
use vstd::prelude::*;

use crate::json::{json_get, JsonModel};
use crate::normalize::arena::{id_at, NodeId, NodeModel};
use crate::normalize::defs::{has_name, name_insert, name_lookup, name_position};
use crate::normalize::pipeline::{def_slots, defs_stage, defs_table, member_names, named_ids};
use crate::normalize::slot_laws::lemma_parsed_entry;
use crate::normalize::traverse::{object_slots, parsed_children, placed_children, ChildSlot};
use crate::pointer::escaped_segment;
use crate::normalize::refs::{percent_decoded, ref_target_of};

verus! {

/// No two entries of the table share a name.
pub open spec fn names_unique(d: Seq<(Seq<char>, NodeId)>) -> bool {
    forall|i: int, j: int| 0 <= i < j < d.len() ==> d[i].0 != d[j].0
}

/// The position found for `n` is that of its first entry, or the length.
proof fn lemma_position_facts(d: Seq<(Seq<char>, NodeId)>, n: Seq<char>)
    ensures
        0 <= name_position(d, n) <= d.len(),
        name_position(d, n) < d.len() ==> d[name_position(d, n)].0 == n,
        forall|j: int| 0 <= j < name_position(d, n) ==> d[j].0 != n,
        has_name(d, n) <==> exists|i: int| 0 <= i < d.len() && d[i].0 == n,
    decreases d.len(),
{
    if d.len() > 0 && d[0].0 != n {
        lemma_position_facts(d.drop_first(), n);
        assert forall|j: int| 0 <= j < name_position(d, n) implies d[j].0 != n by {
            if j > 0 {
                assert(d[j] == d.drop_first()[j - 1]);
            }
        }
        if exists|i: int| 0 <= i < d.len() && d[i].0 == n {
            let i = choose|i: int| 0 <= i < d.len() && d[i].0 == n;
            assert(d.drop_first()[i - 1] == d[i]);
        }
        if has_name(d, n) {
            assert(d.drop_first()[name_position(d, n) - 1] == d[name_position(d, n)]);
        }
    }
}

/// In a table with unique names, the entry at `k` is the one found for its name.
proof fn lemma_position_of_entry(d: Seq<(Seq<char>, NodeId)>, k: int)
    requires
        names_unique(d),
        0 <= k < d.len(),
    ensures
        name_position(d, d[k].0) == k,
        name_lookup(d, d[k].0) == Some(d[k].1),
{
    lemma_position_facts(d, d[k].0);
}

/// Inserting keeps names unique, adds the inserted name and loses none.
proof fn lemma_insert_keeps_unique(d: Seq<(Seq<char>, NodeId)>, n: Seq<char>, v: NodeId)
    requires
        names_unique(d),
    ensures
        names_unique(name_insert(d, n, v)),
        has_name(name_insert(d, n, v), n),
        forall|x: Seq<char>| has_name(d, x) ==> has_name(name_insert(d, n, v), x),
{
    let r = name_insert(d, n, v);
    lemma_position_facts(d, n);
    if has_name(d, n) {
        let p = name_position(d, n);
        assert forall|i: int, j: int| 0 <= i < j < r.len() implies r[i].0 != r[j].0 by {
            assert(d[i].0 != d[j].0);
        }
        assert(r[p].0 == n);
    } else {
        assert forall|i: int, j: int| 0 <= i < j < r.len() implies r[i].0 != r[j].0 by {
            if j < d.len() {
                assert(d[i].0 != d[j].0);
            }
        }
        assert(r[d.len() as int].0 == n);
    }
    lemma_position_facts(r, n);
    assert forall|x: Seq<char>| has_name(d, x) implies has_name(r, x) by {
        lemma_position_facts(d, x);
        lemma_position_facts(r, x);
        let i = choose|i: int| 0 <= i < d.len() && d[i].0 == x;
        assert(r[i].0 == x);
    }
}

/// Naming nodes keeps names unique, loses no name and adds each given one.
proof fn lemma_named_ids_facts(m: Seq<(Seq<char>, NodeId)>, names: Seq<Seq<char>>, start: nat, keep: bool)
    requires
        names_unique(m),
    ensures
        names_unique(named_ids(m, names, start, keep)),
        forall|x: Seq<char>| has_name(m, x) ==> has_name(named_ids(m, names, start, keep), x),
        forall|i: int| 0 <= i < names.len() ==> has_name(named_ids(m, names, start, keep), #[trigger] names[i]),
    decreases names.len(),
{
    if names.len() > 0 {
        let front = named_ids(m, names.drop_last(), start, keep);
        let id = crate::normalize::arena::id_at(start + names.len() - 1);
        lemma_named_ids_facts(m, names.drop_last(), start, keep);
        assert forall|i: int| 0 <= i < names.len() - 1 implies has_name(front, #[trigger] names[i]) by {
            assert(names.drop_last()[i] == names[i]);
        }
        if !(keep && has_name(front, names.last())) {
            lemma_insert_keeps_unique(front, names.last(), id);
        }
    }
}

/// The definition table of a root has one entry per name, and one for each
/// name under `definitions` (and under `$defs`).
pub proof fn lemma_defs_table_names(kws: Seq<(Seq<char>, JsonModel)>, start: nat)
    ensures
        names_unique(defs_table(kws, start)),
        forall|n: Seq<char>| member_names(kws, "definitions"@).contains(n) ==> has_name(defs_table(kws, start), n),
        forall|n: Seq<char>| member_names(kws, "$defs"@).contains(n) ==> has_name(defs_table(kws, start), n),
{
    let n1 = member_names(kws, "$defs"@);
    let n2 = member_names(kws, "definitions"@);
    let e = Seq::<(Seq<char>, NodeId)>::empty();
    lemma_named_ids_facts(e, n1, start, false);
    let t1 = named_ids(e, n1, start, false);
    lemma_named_ids_facts(t1, n2, start + n1.len(), true);
}

/// A reference `#<p>` whose text decodes to `/definitions/<name>` or
/// `/$defs/<name>`, where `name` is the name of the entry at `k` of a table
/// with unique names, resolves to that entry's node.
pub proof fn lemma_ref_resolves_entry(p: Seq<char>, d: Seq<(Seq<char>, NodeId)>, k: int)
    requires
        names_unique(d),
        0 <= k < d.len(),
    ensures
        percent_decoded(p) == Ok::<Seq<char>, Seq<char>>("/definitions/"@ + d[k].0)
            ==> ref_target_of("#"@ + p, d) == Ok::<Option<NodeId>, Seq<char>>(Some(d[k].1)),
        percent_decoded(p) == Ok::<Seq<char>, Seq<char>>("/$defs/"@ + d[k].0)
            ==> ref_target_of("#"@ + p, d) == Ok::<Option<NodeId>, Seq<char>>(Some(d[k].1)),
{
    reveal_strlit("#");
    reveal_strlit("/definitions/");
    reveal_strlit("/$defs/");
    let r = "#"@ + p;
    assert(r[0] == '#');
    assert(r.drop_first() =~= p);
    lemma_position_of_entry(d, k);
    let name = d[k].0;
    let d1 = "/definitions/"@ + name;
    assert(d1.take(13) =~= "/definitions/"@);
    assert(d1.skip(13) =~= name);
    assert(d1[1] != "/$defs/"@[1]);
    assert(d1.take(7)[1] == d1[1]);
    let d2 = "/$defs/"@ + name;
    assert(d2.take(7) =~= "/$defs/"@);
    assert(d2.skip(7) =~= name);
}

/// Every name under a root's `definitions` is found by a `#/definitions/`
/// reference whose text decodes to it, and resolves to the node that the
/// definition table holds for it.
pub proof fn lemma_definitions_ref_law(kws: Seq<(Seq<char>, JsonModel)>, start: nat, p: Seq<char>, name: Seq<char>)
    requires
        member_names(kws, "definitions"@).contains(name),
        percent_decoded(p) == Ok::<Seq<char>, Seq<char>>("/definitions/"@ + name),
    ensures
        name_lookup(defs_table(kws, start), name) is Some,
        ref_target_of("#"@ + p, defs_table(kws, start)) == Ok::<Option<NodeId>, Seq<char>>(
            name_lookup(defs_table(kws, start), name),
        ),
{
    let d = defs_table(kws, start);
    lemma_defs_table_names(kws, start);
    lemma_position_facts(d, name);
    let k = name_position(d, name);
    lemma_ref_resolves_entry(p, d, k);
}

/// Each entry after naming is one the table had, or a given name with its
/// node; with `keep`, only a name the table lacked.
proof fn lemma_named_ids_origin(m: Seq<(Seq<char>, NodeId)>, names: Seq<Seq<char>>, start: nat, keep: bool, k: int)
    requires
        names_unique(m),
        0 <= k < named_ids(m, names, start, keep).len(),
    ensures
        (exists|k2: int| 0 <= k2 < m.len() && named_ids(m, names, start, keep)[k] == m[k2]) || (exists|j: int|
            0 <= j < names.len() && named_ids(m, names, start, keep)[k] == (names[j], id_at(start + j)) && (keep
                ==> !has_name(m, names[j]))),
    decreases names.len(),
{
    if names.len() == 0 {
        assert(named_ids(m, names, start, keep)[k] == m[k]);
    } else {
        let init = names.drop_last();
        let front = named_ids(m, init, start, keep);
        let last = names.last();
        let id = id_at(start + names.len() - 1);
        let r = named_ids(m, names, start, keep);
        lemma_named_ids_facts(m, init, start, keep);
        lemma_position_facts(front, last);
        let from_front = keep && has_name(front, last) || r[k] != (last, id);
        if from_front {
            if !(keep && has_name(front, last)) && has_name(front, last) {
                assert(k != name_position(front, last));
            }
            assert(r[k] == front[k]);
            lemma_named_ids_origin(m, init, start, keep, k);
            if exists|k2: int| 0 <= k2 < m.len() && front[k] == m[k2] {
                let k2 = choose|k2: int| 0 <= k2 < m.len() && front[k] == m[k2];
                assert(r[k] == m[k2]);
            } else {
                let j = choose|j: int| 0 <= j < init.len() && front[k] == (init[j], id_at(start + j)) && (keep ==> !has_name(m, init[j]));
                assert(init[j] == names[j]);
                assert(r[k] == (names[j], id_at(start + j)));
            }
        } else {
            let j = names.len() - 1;
            assert(names[j] == last);
            assert(r[k] == (names[j], id_at(start + j)));
            if keep {
                assert(!has_name(front, last));
                assert(!has_name(m, names[j]));
            }
        }
    }
}

/// The pointer of the `j`-th definition slot of a root: the `$defs`
/// members first, then the `definitions` members.
proof fn lemma_def_slot(kws: Seq<(Seq<char>, JsonModel)>, ptr: Seq<char>, j: int)
    ensures
        def_slots(kws, ptr).len() == member_names(kws, "$defs"@).len() + member_names(kws, "definitions"@).len(),
        0 <= j < def_slots(kws, ptr).len() ==> def_slots(kws, ptr)[j] is Entry && def_slots(kws, ptr)[j]->Entry_0 == if j
            < member_names(kws, "$defs"@).len() {
            ptr + "/$defs/"@ + escaped_segment(member_names(kws, "$defs"@)[j])
        } else {
            ptr + "/definitions/"@ + escaped_segment(member_names(kws, "definitions"@)[j - member_names(kws, "$defs"@).len()])
        },
{
    reveal_strlit("/");
    reveal_strlit("$defs");
    reveal_strlit("definitions");
    reveal_strlit("/$defs/");
    reveal_strlit("/definitions/");
    assert(ptr + "/"@ + "$defs"@ + "/"@ =~= ptr + "/$defs/"@);
    assert(ptr + "/"@ + "definitions"@ + "/"@ =~= ptr + "/definitions/"@);
    let s1 = object_slots(kws, "$defs"@, ptr);
    let s2 = object_slots(kws, "definitions"@, ptr);
    assert(s1.len() == member_names(kws, "$defs"@).len());
    assert(s2.len() == member_names(kws, "definitions"@).len());
    if 0 <= j < s1.len() {
        assert((s1 + s2)[j] == s1[j]);
    } else if s1.len() <= j < s1.len() + s2.len() {
        assert((s1 + s2)[j] == s2[j - s1.len()]);
    }
}

/// What the definition table of a root points at: each entry's node is one
/// of the definition nodes parsed below the root, and it is the node of the
/// `$defs` member of that name when there is one (`$defs` wins a conflict),
/// else the node of the `definitions` member of that name.
pub proof fn lemma_defs_table_law(root: NodeModel, a: Seq<NodeModel>, k: int)
    requires
        defs_stage(root) == Ok::<Seq<NodeModel>, Seq<char>>(a),
        0 <= k < defs_table(root.keywords, 1).len(),
    ensures
        ({
            let name = defs_table(root.keywords, 1)[k].0;
            let id = defs_table(root.keywords, 1)[k].1;
            &&& 1 <= id.0 < a.len()
            &&& a[id.0 as int].parent == Some(NodeId(0))
            &&& member_names(root.keywords, "$defs"@).contains(name) ==> a[id.0 as int].pointer == root.pointer
                + "/$defs/"@ + escaped_segment(name)
            &&& !member_names(root.keywords, "$defs"@).contains(name) ==> a[id.0 as int].pointer == root.pointer
                + "/definitions/"@ + escaped_segment(name)
        }),
{
    let kws = root.keywords;
    let ptr = root.pointer;
    let n1 = member_names(kws, "$defs"@);
    let n2 = member_names(kws, "definitions"@);
    let e = Seq::<(Seq<char>, NodeId)>::empty();
    let t1 = named_ids(e, n1, 1, false);
    let d = defs_table(kws, 1);
    let slots = def_slots(kws, ptr);
    let cs = parsed_children(slots)->Ok_0;
    lemma_def_slot(kws, ptr, 0);
    lemma_named_ids_facts(e, n1, 1, false);
    lemma_named_ids_origin(t1, n2, 1 + n1.len(), true, k);
    // the position `j` among the definition slots that entry `k` came from
    let j: int = if exists|k2: int| 0 <= k2 < t1.len() && d[k] == t1[k2] {
        let k2 = choose|k2: int| 0 <= k2 < t1.len() && d[k] == t1[k2];
        lemma_named_ids_origin(e, n1, 1, false, k2);
        let j1 = choose|j1: int| 0 <= j1 < n1.len() && t1[k2] == (n1[j1], id_at(1 + j1));
        assert(n1.contains(d[k].0));
        j1
    } else {
        let j2 = choose|j2: int|
            0 <= j2 < n2.len() && d[k] == (n2[j2], id_at(1 + n1.len() + j2)) && !has_name(t1, n2[j2]);
        assert(!n1.contains(d[k].0)) by {
            if n1.contains(d[k].0) {
                let i = choose|i: int| 0 <= i < n1.len() && n1[i] == d[k].0;
                assert(has_name(t1, n1[i]));
            }
        }
        n1.len() + j2
    };
    lemma_parsed_entry(slots, j);
    lemma_def_slot(kws, ptr, j);
    assert(a.len() == 1 + cs.len());
    assert(d[k].1 == id_at(1 + j));
    assert(a[1 + j] == placed_children(cs, NodeId(0), root.depth)[j]);
}

} // verus!
