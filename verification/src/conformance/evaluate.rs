//! Evaluating a JSON schema against a provider's keyword declarations.
use vstd::prelude::*;

use crate::conformance::truth::{KeywordBehavior, KeywordTruth, ProviderTruth};
use crate::json::{
    clone_json, json_document, json_model, json_models, lemma_array_model, lemma_object_model,
    member_models, parse_json_text, JsonModel, JsonValue,
};
use crate::text::{concat3, decimal, decimal_text, owned, str_eq};

verus! {

/// A conformance error produced by the truth engine.
#[derive(Debug)]
pub struct TruthError {
    pub message: String,
    pub pointer: String,
    pub keyword: String,
}

impl View for TruthError {
    /// Message, pointer and keyword.
    type V = (Seq<char>, Seq<char>, Seq<char>);

    open spec fn view(&self) -> (Seq<char>, Seq<char>, Seq<char>) {
        (self.message@, self.pointer@, self.keyword@)
    }
}

/// The views of a sequence of errors.
pub open spec fn error_views(errors: Seq<TruthError>) -> Seq<(Seq<char>, Seq<char>, Seq<char>)> {
    Seq::new(errors.len(), |i: int| errors[i]@)
}

/// Result of evaluating a schema against a truth file.
#[derive(Debug)]
pub enum TruthResult {
    Accepted { transformed: JsonValue },
    Rejected { errors: Vec<TruthError> },
}

/// The mathematical content of a `TruthResult`.
pub ghost enum TruthOutcome {
    Accepted(JsonModel),
    Rejected(Seq<(Seq<char>, Seq<char>, Seq<char>)>),
}

impl View for TruthResult {
    type V = TruthOutcome;

    open spec fn view(&self) -> TruthOutcome {
        match self {
            TruthResult::Accepted { transformed } => TruthOutcome::Accepted(transformed@),
            TruthResult::Rejected { errors } => TruthOutcome::Rejected(error_views(errors@)),
        }
    }
}

impl TruthResult {
    pub fn is_accepted(&self) -> (r: bool)
        ensures
            r == (self is Accepted),
    {
        matches!(self, TruthResult::Accepted { .. })
    }

    pub fn is_rejected(&self) -> (r: bool)
        ensures
            r == (self is Rejected),
    {
        matches!(self, TruthResult::Rejected { .. })
    }

    /// The errors of a rejection; none for an acceptance.
    pub fn errors(&self) -> (r: &[TruthError])
        ensures
            match self {
                TruthResult::Rejected { errors } => r@ == errors@,
                TruthResult::Accepted { .. } => r@.len() == 0,
            },
    {
        match self {
            TruthResult::Rejected { errors } => errors.as_slice(),
            _ => &[],
        }
    }
}

/// The declaration in force for a keyword name: like a map built from the
/// declarations in order, the last one with that name.
pub open spec fn keyword_entry(kws: Seq<KeywordTruth>, name: Seq<char>) -> Option<KeywordTruth>
    decreases kws.len(),
{
    if kws.len() == 0 {
        None
    } else if kws.last().name@ == name {
        Some(kws.last())
    } else {
        keyword_entry(kws.drop_last(), name)
    }
}

/// The pointer of a member or an item below `ptr`.
pub open spec fn child_pointer(ptr: Seq<char>, segment: Seq<char>) -> Seq<char> {
    ptr + "/"@ + segment
}

/// The error reported for a rejected keyword found at `ptr`.
pub open spec fn reject_error(t: KeywordTruth, key: Seq<char>, ptr: Seq<char>) -> (Seq<char>, Seq<char>, Seq<char>) {
    (
        match t.expected_error {
            Some(m) => m@,
            None => "keyword '"@ + key + "' is not supported"@,
        },
        match t.expected_error_path {
            Some(p) => p@,
            None => ptr,
        },
        key,
    )
}

/// What evaluation makes of a value at `ptr`: the transformed value and the
/// errors, in document order.
pub open spec fn eval_json(kws: Seq<KeywordTruth>, v: JsonModel, ptr: Seq<char>) -> (JsonModel, Seq<(Seq<char>, Seq<char>, Seq<char>)>)
    decreases v, 0nat,
{
    match v {
        JsonModel::Object(ms) => {
            let r = eval_members(kws, ms, ptr);
            (JsonModel::Object(r.0), r.1)
        },
        JsonModel::Array(items) => {
            let r = eval_items(kws, items, ptr);
            (JsonModel::Array(r.0), r.1)
        },
        _ => (v, Seq::empty()),
    }
}

/// What evaluation makes of the members of an object at `ptr`.
pub open spec fn eval_members(kws: Seq<KeywordTruth>, ms: Seq<(Seq<char>, JsonModel)>, ptr: Seq<char>) -> (Seq<(Seq<char>, JsonModel)>, Seq<(Seq<char>, Seq<char>, Seq<char>)>)
    decreases ms, 1nat,
{
    if ms.len() == 0 {
        (Seq::empty(), Seq::empty())
    } else {
        let front = eval_members(kws, ms.drop_last(), ptr);
        let key = ms.last().0;
        let val = ms.last().1;
        let kp = child_pointer(ptr, key);
        match keyword_entry(kws, key) {
            Some(t) => match t.behavior {
                KeywordBehavior::Strip => match t.expected_transformed {
                    Some(x) => match json_document(x@) {
                        Ok(m) => (front.0.push((key, m)), front.1),
                        Err(_) => front,
                    },
                    None => front,
                },
                KeywordBehavior::Reject => {
                    let nested = eval_json(kws, val, kp);
                    (front.0.push((key, nested.0)), front.1.push(reject_error(t, key, kp)) + nested.1)
                },
                KeywordBehavior::Accept => {
                    let nested = eval_json(kws, val, kp);
                    (front.0.push((key, nested.0)), front.1 + nested.1)
                },
            },
            None => {
                let nested = eval_json(kws, val, kp);
                (front.0.push((key, nested.0)), front.1 + nested.1)
            },
        }
    }
}

/// What evaluation makes of the items of an array at `ptr`.
pub open spec fn eval_items(kws: Seq<KeywordTruth>, items: Seq<JsonModel>, ptr: Seq<char>) -> (Seq<JsonModel>, Seq<(Seq<char>, Seq<char>, Seq<char>)>)
    decreases items, 1nat,
{
    if items.len() == 0 {
        (Seq::empty(), Seq::empty())
    } else {
        let front = eval_items(kws, items.drop_last(), ptr);
        let nested = eval_json(kws, items.last(), child_pointer(ptr, decimal((items.len() - 1) as nat)));
        (front.0.push(nested.0), front.1 + nested.1)
    }
}

/// The outcome of evaluating a schema: accepted with the transformed schema
/// when no error arose, rejected with the errors otherwise.
pub open spec fn truth_outcome(kws: Seq<KeywordTruth>, schema: JsonModel) -> TruthOutcome {
    let r = eval_json(kws, schema, Seq::empty());
    if r.1.len() == 0 {
        TruthOutcome::Accepted(r.0)
    } else {
        TruthOutcome::Rejected(r.1)
    }
}

/// Whether a keyword declared `reject` occurs in `v` outside stripped keywords.
pub open spec fn rejects_in(kws: Seq<KeywordTruth>, v: JsonModel) -> bool
    decreases v, 0nat,
{
    match v {
        JsonModel::Object(ms) => rejects_in_members(kws, ms),
        JsonModel::Array(items) => rejects_in_items(kws, items),
        _ => false,
    }
}

pub open spec fn rejects_in_members(kws: Seq<KeywordTruth>, ms: Seq<(Seq<char>, JsonModel)>) -> bool
    decreases ms, 1nat,
{
    if ms.len() == 0 {
        false
    } else {
        rejects_in_members(kws, ms.drop_last()) || match keyword_entry(kws, ms.last().0) {
            Some(t) => match t.behavior {
                KeywordBehavior::Reject => true,
                KeywordBehavior::Strip => false,
                KeywordBehavior::Accept => rejects_in(kws, ms.last().1),
            },
            None => rejects_in(kws, ms.last().1),
        }
    }
}

pub open spec fn rejects_in_items(kws: Seq<KeywordTruth>, items: Seq<JsonModel>) -> bool
    decreases items, 1nat,
{
    if items.len() == 0 {
        false
    } else {
        rejects_in_items(kws, items.drop_last()) || rejects_in(kws, items.last())
    }
}

/// A schema is rejected exactly when a keyword declared `reject` occurs in it
/// outside stripped keywords, wherever the evaluation starts.
pub proof fn lemma_rejected_iff_rejected_keyword(kws: Seq<KeywordTruth>, v: JsonModel, ptr: Seq<char>)
    ensures
        (eval_json(kws, v, ptr).1.len() == 0) == !rejects_in(kws, v),
    decreases v, 0nat,
{
    match v {
        JsonModel::Object(ms) => lemma_members_rejected(kws, ms, ptr),
        JsonModel::Array(items) => lemma_items_rejected(kws, items, ptr),
        _ => {},
    }
}

proof fn lemma_members_rejected(kws: Seq<KeywordTruth>, ms: Seq<(Seq<char>, JsonModel)>, ptr: Seq<char>)
    ensures
        (eval_members(kws, ms, ptr).1.len() == 0) == !rejects_in_members(kws, ms),
    decreases ms, 1nat,
{
    if ms.len() > 0 {
        lemma_members_rejected(kws, ms.drop_last(), ptr);
        lemma_rejected_iff_rejected_keyword(kws, ms.last().1, child_pointer(ptr, ms.last().0));
    }
}

proof fn lemma_items_rejected(kws: Seq<KeywordTruth>, items: Seq<JsonModel>, ptr: Seq<char>)
    ensures
        (eval_items(kws, items, ptr).1.len() == 0) == !rejects_in_items(kws, items),
    decreases items, 1nat,
{
    if items.len() > 0 {
        lemma_items_rejected(kws, items.drop_last(), ptr);
        lemma_rejected_iff_rejected_keyword(kws, items.last(), child_pointer(ptr, decimal((items.len() - 1) as nat)));
    }
}

/// Whether the declaration in force for `name` is `reject`.
pub open spec fn declared_reject(kws: Seq<KeywordTruth>, name: Seq<char>) -> bool {
    keyword_entry(kws, name) matches Some(t) && t.behavior == KeywordBehavior::Reject
}

/// Every error names a keyword whose declaration in force is `reject`.
pub proof fn lemma_errors_name_rejected_keywords(kws: Seq<KeywordTruth>, v: JsonModel, ptr: Seq<char>)
    ensures
        forall|i: int| 0 <= i < eval_json(kws, v, ptr).1.len() ==>
            #[trigger] declared_reject(kws, eval_json(kws, v, ptr).1[i].2),
    decreases v, 0nat,
{
    match v {
        JsonModel::Object(ms) => {
            lemma_member_errors_rejected(kws, ms, ptr);
            assert(eval_json(kws, v, ptr).1 == eval_members(kws, ms, ptr).1);
        },
        JsonModel::Array(items) => {
            lemma_item_errors_rejected(kws, items, ptr);
            assert(eval_json(kws, v, ptr).1 == eval_items(kws, items, ptr).1);
        },
        _ => {},
    }
}

proof fn lemma_member_errors_rejected(kws: Seq<KeywordTruth>, ms: Seq<(Seq<char>, JsonModel)>, ptr: Seq<char>)
    ensures
        forall|i: int| 0 <= i < eval_members(kws, ms, ptr).1.len() ==>
            #[trigger] declared_reject(kws, eval_members(kws, ms, ptr).1[i].2),
    decreases ms, 1nat,
{
    if ms.len() > 0 {
        let kp = child_pointer(ptr, ms.last().0);
        lemma_member_errors_rejected(kws, ms.drop_last(), ptr);
        lemma_errors_name_rejected_keywords(kws, ms.last().1, kp);
        let front = eval_members(kws, ms.drop_last(), ptr).1;
        let nested = eval_json(kws, ms.last().1, kp).1;
        let all = eval_members(kws, ms, ptr).1;
        assert forall|i: int| 0 <= i < all.len() implies
            #[trigger] declared_reject(kws, all[i].2) by {
            match keyword_entry(kws, ms.last().0) {
                Some(t) => {
                    if t.behavior == KeywordBehavior::Reject {
                        let with = front.push(reject_error(t, ms.last().0, kp));
                        assert(all == with + nested);
                        if i < front.len() {
                            assert(all[i] == front[i]);
                        } else if i == front.len() {
                            assert(all[i] == reject_error(t, ms.last().0, kp));
                        } else {
                            assert(all[i] == nested[i - with.len()]);
                        }
                    } else if t.behavior == KeywordBehavior::Accept {
                        assert(all == front + nested);
                        if i < front.len() {
                            assert(all[i] == front[i]);
                        } else {
                            assert(all[i] == nested[i - front.len()]);
                        }
                    } else {
                        assert(all == front);
                    }
                },
                None => {
                    assert(all == front + nested);
                    if i < front.len() {
                        assert(all[i] == front[i]);
                    } else {
                        assert(all[i] == nested[i - front.len()]);
                    }
                },
            }
        }
    }
}

proof fn lemma_item_errors_rejected(kws: Seq<KeywordTruth>, items: Seq<JsonModel>, ptr: Seq<char>)
    ensures
        forall|i: int| 0 <= i < eval_items(kws, items, ptr).1.len() ==>
            #[trigger] declared_reject(kws, eval_items(kws, items, ptr).1[i].2),
    decreases items, 1nat,
{
    if items.len() > 0 {
        let ip = child_pointer(ptr, decimal((items.len() - 1) as nat));
        lemma_item_errors_rejected(kws, items.drop_last(), ptr);
        lemma_errors_name_rejected_keywords(kws, items.last(), ip);
        let front = eval_items(kws, items.drop_last(), ptr).1;
        let nested = eval_json(kws, items.last(), ip).1;
        let all = eval_items(kws, items, ptr).1;
        assert(all == front + nested);
        assert forall|i: int| 0 <= i < all.len() implies
            #[trigger] declared_reject(kws, all[i].2) by {
            if i < front.len() {
                assert(all[i] == front[i]);
            } else {
                assert(all[i] == nested[i - front.len()]);
            }
        }
    }
}

/// Whether every keyword in `v` is undeclared or declared `accept`.
pub open spec fn only_accepted(kws: Seq<KeywordTruth>, v: JsonModel) -> bool
    decreases v, 0nat,
{
    match v {
        JsonModel::Object(ms) => only_accepted_members(kws, ms),
        JsonModel::Array(items) => only_accepted_items(kws, items),
        _ => true,
    }
}

pub open spec fn only_accepted_members(kws: Seq<KeywordTruth>, ms: Seq<(Seq<char>, JsonModel)>) -> bool
    decreases ms, 1nat,
{
    if ms.len() == 0 {
        true
    } else {
        &&& only_accepted_members(kws, ms.drop_last())
        &&& match keyword_entry(kws, ms.last().0) {
            Some(t) => t.behavior == KeywordBehavior::Accept,
            None => true,
        }
        &&& only_accepted(kws, ms.last().1)
    }
}

pub open spec fn only_accepted_items(kws: Seq<KeywordTruth>, items: Seq<JsonModel>) -> bool
    decreases items, 1nat,
{
    if items.len() == 0 {
        true
    } else {
        only_accepted_items(kws, items.drop_last()) && only_accepted(kws, items.last())
    }
}

/// A schema whose keywords are all undeclared or accepted passes through
/// unchanged and without errors.
pub proof fn lemma_accepted_keywords_pass_through(kws: Seq<KeywordTruth>, v: JsonModel, ptr: Seq<char>)
    requires
        only_accepted(kws, v),
    ensures
        eval_json(kws, v, ptr) == (v, Seq::<(Seq<char>, Seq<char>, Seq<char>)>::empty()),
    decreases v, 0nat,
{
    match v {
        JsonModel::Object(ms) => lemma_members_pass_through(kws, ms, ptr),
        JsonModel::Array(items) => lemma_items_pass_through(kws, items, ptr),
        _ => {},
    }
}

proof fn lemma_members_pass_through(kws: Seq<KeywordTruth>, ms: Seq<(Seq<char>, JsonModel)>, ptr: Seq<char>)
    requires
        only_accepted_members(kws, ms),
    ensures
        eval_members(kws, ms, ptr) == (ms, Seq::<(Seq<char>, Seq<char>, Seq<char>)>::empty()),
    decreases ms, 1nat,
{
    if ms.len() > 0 {
        lemma_members_pass_through(kws, ms.drop_last(), ptr);
        lemma_accepted_keywords_pass_through(kws, ms.last().1, child_pointer(ptr, ms.last().0));
        assert(ms.drop_last().push(ms.last()) =~= ms);
        assert(Seq::<(Seq<char>, Seq<char>, Seq<char>)>::empty() + Seq::empty() =~= Seq::empty());
    } else {
        assert(ms =~= Seq::empty());
    }
}

proof fn lemma_items_pass_through(kws: Seq<KeywordTruth>, items: Seq<JsonModel>, ptr: Seq<char>)
    requires
        only_accepted_items(kws, items),
    ensures
        eval_items(kws, items, ptr) == (items, Seq::<(Seq<char>, Seq<char>, Seq<char>)>::empty()),
    decreases items, 1nat,
{
    if items.len() > 0 {
        lemma_items_pass_through(kws, items.drop_last(), ptr);
        lemma_accepted_keywords_pass_through(kws, items.last(), child_pointer(ptr, decimal((items.len() - 1) as nat)));
        assert(items.drop_last().push(items.last()) =~= items);
        assert(Seq::<(Seq<char>, Seq<char>, Seq<char>)>::empty() + Seq::empty() =~= Seq::empty());
    } else {
        assert(items =~= Seq::empty());
    }
}

/// The position of the declaration in force for `name`.
fn find_keyword(kws: &Vec<KeywordTruth>, name: &str) -> (r: Option<usize>)
    ensures
        match r {
            Some(i) => i < kws.len() && keyword_entry(kws@, name@) == Some(kws@[i as int]),
            None => keyword_entry(kws@, name@) is None,
        },
{
    let mut j: usize = kws.len();
    assert(kws@.take(j as int) =~= kws@);
    while j > 0
        invariant
            j <= kws.len(),
            keyword_entry(kws@, name@) == keyword_entry(kws@.take(j as int), name@),
        decreases j,
    {
        let ghost front = kws@.take(j as int);
        assert(front.last() == kws@[j - 1]);
        assert(front.drop_last() =~= kws@.take(j - 1));
        if str_eq(kws[j - 1].name.as_str(), name) {
            return Some(j - 1);
        }
        j = j - 1;
    }
    None
}

/// The error for a rejected keyword `key` found at `kp`.
fn make_reject_error(t: &KeywordTruth, key: &str, kp: &str) -> (r: TruthError)
    ensures
        r@ == reject_error(*t, key@, kp@),
{
    let message = match &t.expected_error {
        Some(m) => owned(m.as_str()),
        None => concat3("keyword '", key, "' is not supported"),
    };
    let pointer = match &t.expected_error_path {
        Some(p) => owned(p.as_str()),
        None => owned(kp),
    };
    TruthError { message, pointer, keyword: owned(key) }
}

/// Evaluate a value at `pointer`, appending its errors to `errors`.
fn evaluate_value(kws: &Vec<KeywordTruth>, value: &JsonValue, pointer: &str, errors: &mut Vec<TruthError>) -> (r: JsonValue)
    ensures
        r@ == eval_json(kws@, value@, pointer@).0,
        error_views(final(errors)@) == error_views(old(errors)@) + eval_json(kws@, value@, pointer@).1,
    decreases value,
{
    match value {
        JsonValue::Object(members) => {
            proof {
                lemma_object_model(*members);
            }
            let out = evaluate_members(kws, members, pointer, errors);
            proof {
                lemma_object_model(out);
            }
            JsonValue::Object(out)
        },
        JsonValue::Array(items) => {
            proof {
                lemma_array_model(*items);
            }
            let out = evaluate_items(kws, items, pointer, errors);
            proof {
                lemma_array_model(out);
            }
            JsonValue::Array(out)
        },
        _ => {
            assert(error_views(errors@) =~= error_views(errors@) + Seq::empty());
            clone_json(value)
        },
    }
}

/// Evaluate the members of an object at `pointer`.
fn evaluate_members(
    kws: &Vec<KeywordTruth>,
    members: &Vec<(String, JsonValue)>,
    pointer: &str,
    errors: &mut Vec<TruthError>,
) -> (r: Vec<(String, JsonValue)>)
    ensures
        member_models(r@) == eval_members(kws@, member_models(members@), pointer@).0,
        error_views(final(errors)@) == error_views(old(errors)@) + eval_members(kws@, member_models(members@), pointer@).1,
    decreases members,
{
    let ghost ms = member_models(members@);
    let ghost start = error_views(errors@);
    let mut out: Vec<(String, JsonValue)> = Vec::new();
    let mut i: usize = 0;
    assert(ms.take(0) =~= Seq::<(Seq<char>, JsonModel)>::empty());
    assert(member_models(out@) =~= Seq::<(Seq<char>, JsonModel)>::empty());
    assert(start + Seq::empty() =~= start);
    while i < members.len()
        invariant
            i <= members.len(),
            ms == member_models(members@),
            member_models(out@) == eval_members(kws@, ms.take(i as int), pointer@).0,
            error_views(errors@) == start + eval_members(kws@, ms.take(i as int), pointer@).1,
        decreases members.len() - i,
    {
        let ghost front = eval_members(kws@, ms.take(i as int), pointer@);
        let ghost before_out = out@;
        let ghost before_errs = error_views(errors@);
        assert(ms.take(i + 1).drop_last() =~= ms.take(i as int));
        assert(ms.take(i + 1).last() == ms[i as int]);
        proof {
            assert(decreases_to!(members => members@[i as int]));
            assert(decreases_to!(members@[i as int] => members@[i as int].1));
        }
        let key = members[i].0.as_str();
        let kp = concat3(pointer, "/", key);
        assert(kp@ == child_pointer(pointer@, key@));
        match find_keyword(kws, key) {
            Some(idx) => {
                let t = &kws[idx];
                match t.behavior {
                    KeywordBehavior::Strip => {
                        match &t.expected_transformed {
                            Some(x) => match parse_json_text(x.as_str()) {
                                Ok(v) => {
                                    out.push((owned(key), v));
                                    assert(member_models(out@) =~= member_models(before_out).push((key@, json_model(v))));
                                },
                                Err(_) => {},
                            },
                            None => {},
                        }
                    },
                    KeywordBehavior::Reject => {
                        let e = make_reject_error(t, key, kp.as_str());
                        errors.push(e);
                        assert(error_views(errors@) =~= before_errs.push(e@));
                        let ghost mid = error_views(errors@);
                        let nested = evaluate_value(kws, &members[i].1, kp.as_str(), errors);
                        assert(error_views(errors@) == mid + eval_json(kws@, ms[i as int].1, kp@).1);
                        out.push((owned(key), nested));
                        assert(member_models(out@) =~= member_models(before_out).push((key@, json_model(nested))));
                        assert(error_views(errors@) =~= start + (front.1.push(e@) + eval_json(kws@, ms[i as int].1, kp@).1));
                    },
                    KeywordBehavior::Accept => {
                        let nested = evaluate_value(kws, &members[i].1, kp.as_str(), errors);
                        out.push((owned(key), nested));
                        assert(member_models(out@) =~= member_models(before_out).push((key@, json_model(nested))));
                        assert(error_views(errors@) =~= start + (front.1 + eval_json(kws@, ms[i as int].1, kp@).1));
                    },
                }
            },
            None => {
                let nested = evaluate_value(kws, &members[i].1, kp.as_str(), errors);
                out.push((owned(key), nested));
                assert(member_models(out@) =~= member_models(before_out).push((key@, json_model(nested))));
                assert(error_views(errors@) =~= start + (front.1 + eval_json(kws@, ms[i as int].1, kp@).1));
            },
        }
        i = i + 1;
    }
    assert(ms.take(members.len() as int) =~= ms);
    out
}

/// Evaluate the items of an array at `pointer`.
fn evaluate_items(
    kws: &Vec<KeywordTruth>,
    items: &Vec<JsonValue>,
    pointer: &str,
    errors: &mut Vec<TruthError>,
) -> (r: Vec<JsonValue>)
    ensures
        json_models(r@) == eval_items(kws@, json_models(items@), pointer@).0,
        error_views(final(errors)@) == error_views(old(errors)@) + eval_items(kws@, json_models(items@), pointer@).1,
    decreases items,
{
    let ghost ms = json_models(items@);
    let ghost start = error_views(errors@);
    let mut out: Vec<JsonValue> = Vec::new();
    let mut i: usize = 0;
    assert(ms.take(0) =~= Seq::<JsonModel>::empty());
    assert(json_models(out@) =~= Seq::<JsonModel>::empty());
    assert(start + Seq::empty() =~= start);
    while i < items.len()
        invariant
            i <= items.len(),
            ms == json_models(items@),
            json_models(out@) == eval_items(kws@, ms.take(i as int), pointer@).0,
            error_views(errors@) == start + eval_items(kws@, ms.take(i as int), pointer@).1,
        decreases items.len() - i,
    {
        let ghost front = eval_items(kws@, ms.take(i as int), pointer@);
        let ghost before_out = out@;
        assert(ms.take(i + 1).drop_last() =~= ms.take(i as int));
        assert(ms.take(i + 1).last() == ms[i as int]);
        proof {
            assert(decreases_to!(items => items@[i as int]));
        }
        let index = decimal_text(i);
        let ip = concat3(pointer, "/", index.as_str());
        assert(ip@ == child_pointer(pointer@, decimal(i as nat)));
        let nested = evaluate_value(kws, &items[i], ip.as_str(), errors);
        out.push(nested);
        assert(json_models(out@) =~= json_models(before_out).push(json_model(nested)));
        assert(error_views(errors@) =~= start + (front.1 + eval_json(kws@, ms[i as int], ip@).1));
        i = i + 1;
    }
    assert(ms.take(items.len() as int) =~= ms);
    out
}

/// Evaluate a JSON schema against a provider's truth declarations.
///
/// Returns `Accepted` if all keywords pass, or `Rejected` with errors
/// for any keyword declared as `reject` that is present.
/// Keywords declared as `strip` are removed from the transformed schema.
/// Keywords not declared are passed through (conservative unknown = allow).
pub fn evaluate(truth: &ProviderTruth, schema: &JsonValue) -> (r: TruthResult)
    ensures
        r@ == truth_outcome(truth.keywords@, schema@),
{
    let mut errors: Vec<TruthError> = Vec::new();
    let transformed = evaluate_value(&truth.keywords, schema, "", &mut errors);
    proof {
        reveal_strlit("");
        assert(""@ =~= Seq::<char>::empty());
        assert(error_views(Seq::<TruthError>::empty()) =~= Seq::empty());
        assert(error_views(errors@) =~= eval_json(truth.keywords@, schema@, Seq::empty()).1);
    }
    if errors.len() == 0 {
        assert(error_views(errors@).len() == 0);
        TruthResult::Accepted { transformed }
    } else {
        TruthResult::Rejected { errors }
    }
}

} // verus!
