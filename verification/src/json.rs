//! A plain-data model of JSON documents.
use vstd::prelude::*;

verus! {

#[verifier::external_type_specification]
#[verifier::external_body]
pub struct ExSerdeJsonValue(serde_json::Value);

#[verifier::external_type_specification]
#[verifier::external_body]
pub struct ExSerdeJsonNumber(serde_json::Number);

/// A JSON number, kept in the three shapes a JSON parser distinguishes.
/// A fractional number is kept as the text `serde_json` writes for it.
#[derive(Debug)]
pub enum JsonNumber {
    PosInt(u64),
    NegInt(i64),
    Float(String),
}

/// The mathematical content of a JSON number.
pub ghost enum NumberModel {
    PosInt(u64),
    NegInt(i64),
    Float(Seq<char>),
}

pub open spec fn number_model(n: JsonNumber) -> NumberModel {
    match n {
        JsonNumber::PosInt(u) => NumberModel::PosInt(u),
        JsonNumber::NegInt(i) => NumberModel::NegInt(i),
        JsonNumber::Float(t) => NumberModel::Float(t@),
    }
}

/// A JSON value. Object members keep the order in which they were read.
#[derive(Debug)]
pub enum JsonValue {
    Null,
    Bool(bool),
    Number(JsonNumber),
    String(String),
    Array(Vec<JsonValue>),
    Object(Vec<(String, JsonValue)>),
}

/// The mathematical content of a JSON value.
pub ghost enum JsonModel {
    Null,
    Bool(bool),
    Number(NumberModel),
    Str(Seq<char>),
    Array(Seq<JsonModel>),
    Object(Seq<(Seq<char>, JsonModel)>),
}

pub open spec fn json_model(v: JsonValue) -> JsonModel
    decreases v,
{
    match v {
        JsonValue::Null => JsonModel::Null,
        JsonValue::Bool(b) => JsonModel::Bool(b),
        JsonValue::Number(n) => JsonModel::Number(number_model(n)),
        JsonValue::String(s) => JsonModel::Str(s@),
        JsonValue::Array(items) => JsonModel::Array(
            Seq::new(items.len() as nat, |i: int|
                if 0 <= i < items.len() { json_model(items@[i]) } else { JsonModel::Null },
            ),
        ),
        JsonValue::Object(members) => JsonModel::Object(
            Seq::new(members.len() as nat, |i: int|
                if 0 <= i < members.len() {
                    (members@[i].0@, json_model(members@[i].1))
                } else {
                    (Seq::empty(), JsonModel::Null)
                },
            ),
        ),
    }
}

impl View for JsonValue {
    type V = JsonModel;

    open spec fn view(&self) -> JsonModel {
        json_model(*self)
    }
}

/// The models of a vector of values, element by element.
pub open spec fn json_models(items: Seq<JsonValue>) -> Seq<JsonModel> {
    Seq::new(items.len(), |i: int| json_model(items[i]))
}

/// The models of object members, member by member.
pub open spec fn member_models(members: Seq<(String, JsonValue)>) -> Seq<(Seq<char>, JsonModel)> {
    Seq::new(members.len(), |i: int| (members[i].0@, json_model(members[i].1)))
}

pub proof fn lemma_array_model(items: Vec<JsonValue>)
    ensures
        json_model(JsonValue::Array(items)) == JsonModel::Array(json_models(items@)),
{
    let m = match json_model(JsonValue::Array(items)) {
        JsonModel::Array(m) => m,
        _ => Seq::empty(),
    };
    assert(m =~= json_models(items@));
}

pub proof fn lemma_object_model(members: Vec<(String, JsonValue)>)
    ensures
        json_model(JsonValue::Object(members)) == JsonModel::Object(member_models(members@)),
{
    let m = match json_model(JsonValue::Object(members)) {
        JsonModel::Object(m) => m,
        _ => Seq::empty(),
    };
    assert(m =~= member_models(members@));
}

/// The value stored under `key` in an object's members: the first member
/// with that key.
pub open spec fn json_get(members: Seq<(Seq<char>, JsonModel)>, key: Seq<char>) -> Option<JsonModel>
    decreases members.len(),
{
    if members.len() == 0 {
        None
    } else if members[0].0 == key {
        Some(members[0].1)
    } else {
        json_get(members.drop_first(), key)
    }
}

/// Look up `key` among an object's members.
pub fn object_get<'a>(members: &'a Vec<(String, JsonValue)>, key: &str) -> (r: Option<&'a JsonValue>)
    ensures
        match r {
            Some(v) => json_get(member_models(members@), key@) == Some(json_model(*v)),
            None => json_get(member_models(members@), key@) is None,
        },
{
    let mut i: usize = 0;
    assert(member_models(members@).skip(0) =~= member_models(members@));
    while i < members.len()
        invariant
            i <= members.len(),
            json_get(member_models(members@), key@) == json_get(member_models(members@).skip(i as int), key@),
        decreases members.len() - i,
    {
        let ghost rest = member_models(members@).skip(i as int);
        assert(rest[0] == (members@[i as int].0@, json_model(members@[i as int].1)));
        if crate::text::str_eq(members[i].0.as_str(), key) {
            return Some(&members[i].1);
        }
        assert(rest.drop_first() =~= member_models(members@).skip(i + 1));
        i = i + 1;
    }
    None
}

/// A JSON string holding `s`.
pub fn json_string(s: &str) -> (r: JsonValue)
    ensures
        r@ == JsonModel::Str(s@),
{
    JsonValue::String(s.to_string())
}

/// A JSON number holding `n`.
pub fn json_uint(n: u64) -> (r: JsonValue)
    ensures
        r@ == JsonModel::Number(NumberModel::PosInt(n)),
{
    JsonValue::Number(JsonNumber::PosInt(n))
}

/// A JSON object with `members`, in order.
pub fn json_object(members: Vec<(String, JsonValue)>) -> (r: JsonValue)
    ensures
        r@ == JsonModel::Object(member_models(members@)),
{
    proof {
        lemma_object_model(members);
    }
    JsonValue::Object(members)
}

/// A JSON array with `items`, in order.
pub fn json_array(items: Vec<JsonValue>) -> (r: JsonValue)
    ensures
        r@ == JsonModel::Array(json_models(items@)),
{
    proof {
        lemma_array_model(items);
    }
    JsonValue::Array(items)
}

/// A copy of a JSON number.
pub fn clone_number(n: &JsonNumber) -> (r: JsonNumber)
    ensures
        number_model(r) == number_model(*n),
{
    match n {
        JsonNumber::PosInt(u) => JsonNumber::PosInt(*u),
        JsonNumber::NegInt(i) => JsonNumber::NegInt(*i),
        JsonNumber::Float(t) => JsonNumber::Float(t.clone()),
    }
}

/// A deep copy of a JSON value.
pub fn clone_json(v: &JsonValue) -> (r: JsonValue)
    ensures
        r@ == v@,
    decreases v,
{
    match v {
        JsonValue::Null => JsonValue::Null,
        JsonValue::Bool(b) => JsonValue::Bool(*b),
        JsonValue::Number(n) => JsonValue::Number(clone_number(n)),
        JsonValue::String(s) => JsonValue::String(s.clone()),
        JsonValue::Array(items) => {
            proof {
                lemma_array_model(*items);
            }
            let out = clone_items(items);
            proof {
                lemma_array_model(out);
            }
            JsonValue::Array(out)
        },
        JsonValue::Object(members) => {
            proof {
                lemma_object_model(*members);
            }
            let out = clone_members(members);
            proof {
                lemma_object_model(out);
            }
            JsonValue::Object(out)
        },
    }
}

fn clone_items(items: &Vec<JsonValue>) -> (r: Vec<JsonValue>)
    ensures
        json_models(r@) == json_models(items@),
    decreases items,
{
    let mut out: Vec<JsonValue> = Vec::new();
    let mut i: usize = 0;
    while i < items.len()
        invariant
            i <= items.len(),
            json_models(out@) =~= json_models(items@).take(i as int),
        decreases items.len() - i,
    {
        proof {
            assert(decreases_to!(items => items@[i as int]));
        }
        let c = clone_json(&items[i]);
        let ghost before = out@;
        out.push(c);
        assert(json_models(out@) =~= json_models(before).push(json_model(c)));
        i = i + 1;
    }
    out
}

fn clone_members(members: &Vec<(String, JsonValue)>) -> (r: Vec<(String, JsonValue)>)
    ensures
        member_models(r@) == member_models(members@),
    decreases members,
{
    let mut out: Vec<(String, JsonValue)> = Vec::new();
    let mut i: usize = 0;
    while i < members.len()
        invariant
            i <= members.len(),
            member_models(out@) =~= member_models(members@).take(i as int),
        decreases members.len() - i,
    {
        proof {
            assert(decreases_to!(members => members@[i as int]));
            assert(decreases_to!(members@[i as int] => members@[i as int].1));
        }
        let c = clone_json(&members[i].1);
        let k = members[i].0.clone();
        let ghost before = out@;
        out.push((k, c));
        assert(member_models(out@) =~= member_models(before).push((k@, json_model(c))));
        i = i + 1;
    }
    out
}

/// What `serde_json` reads from a JSON text: the document's value, or the
/// text of the error it reports.
pub uninterp spec fn json_document(text: Seq<char>) -> Result<JsonModel, Seq<char>>;

/// Reads a JSON text with `serde_json::from_str::<serde_json::Value>`. The
/// contract claims only that the outcome is a function of the text, named
/// `json_document`: the parsed value on success, the error's display text on
/// failure.
#[verifier::external_body]
pub fn parse_json_text(text: &str) -> (r: Result<JsonValue, String>)
    ensures
        match r {
            Ok(v) => json_document(text@) == Ok::<JsonModel, Seq<char>>(v@),
            Err(m) => json_document(text@) == Err::<JsonModel, Seq<char>>(m@),
        },
{
    match serde_json::from_str::<serde_json::Value>(text) {
        Ok(value) => Ok(json_value_from(value)),
        Err(error) => Err(error.to_string()),
    }
}

/// What `serde_json::to_string_pretty` writes for a JSON value.
pub uninterp spec fn json_pretty_text(v: JsonModel) -> Seq<char>;

/// Writes a JSON value with `serde_json::to_string_pretty`. The contract
/// claims that the text is a function of the value, named `json_pretty_text`.
#[verifier::external_body]
pub fn pretty_json_text(v: &JsonValue) -> (r: String)
    ensures
        r@ == json_pretty_text(v@),
{
    serde_json::to_string_pretty(&json_value_into(v)).unwrap_or_default()
}

/// What `serde_json::to_string` writes for a JSON value.
pub uninterp spec fn json_compact_text(v: JsonModel) -> Seq<char>;

/// Writes a JSON value with `serde_json::to_string`. The contract claims that
/// the text is a function of the value, named `json_compact_text`.
#[verifier::external_body]
pub fn compact_json_text(v: &JsonValue) -> (r: String)
    ensures
        r@ == json_compact_text(v@),
{
    serde_json::to_string(&json_value_into(v)).unwrap_or_default()
}

/// Moves a `serde_json::Value` into the library's `JsonValue`, variant for
/// variant; members keep the order in which the map yields them.
#[verifier::external_body]
fn json_value_from(value: serde_json::Value) -> JsonValue {
    match value {
        serde_json::Value::Null => JsonValue::Null,
        serde_json::Value::Bool(b) => JsonValue::Bool(b),
        serde_json::Value::Number(n) => JsonValue::Number(json_number_from(n)),
        serde_json::Value::String(s) => JsonValue::String(s),
        serde_json::Value::Array(items) => JsonValue::Array(items.into_iter().map(json_value_from).collect()),
        serde_json::Value::Object(m) => JsonValue::Object(m.into_iter().map(|(k, v)| (k, json_value_from(v))).collect()),
    }
}

/// Moves a `serde_json::Number` into the library's `JsonNumber`, telling
/// its three shapes apart.
#[verifier::external_body]
fn json_number_from(n: serde_json::Number) -> JsonNumber {
    match (n.as_u64(), n.as_i64()) {
        (Some(u), _) => JsonNumber::PosInt(u),
        (None, Some(i)) => JsonNumber::NegInt(i),
        (None, None) => JsonNumber::Float(n.to_string()),
    }
}

/// Builds the `serde_json::Value` of a library `JsonNumber`; a fractional
/// number is read back from its text.
#[verifier::external_body]
fn json_number_into(n: &JsonNumber) -> serde_json::Value {
    match n {
        JsonNumber::PosInt(u) => serde_json::Value::from(*u),
        JsonNumber::NegInt(i) => serde_json::Value::from(*i),
        JsonNumber::Float(t) => match t.parse::<serde_json::Number>() {
            Ok(n) => serde_json::Value::Number(n),
            Err(_) => serde_json::Value::Null,
        },
    }
}

/// Builds the `serde_json::Value` of a library `JsonValue`, variant for variant.
#[verifier::external_body]
fn json_value_into(value: &JsonValue) -> serde_json::Value {
    match value {
        JsonValue::Null => serde_json::Value::Null,
        JsonValue::Bool(b) => serde_json::Value::Bool(*b),
        JsonValue::Number(n) => json_number_into(n),
        JsonValue::String(s) => serde_json::Value::String(s.clone()),
        JsonValue::Array(items) => serde_json::Value::Array(items.iter().map(json_value_into).collect()),
        JsonValue::Object(m) => serde_json::Value::Object(m.iter().map(|(k, v)| (k.clone(), json_value_into(v))).collect()),
    }
}

} // verus!
