//! A plain-data model of TOML documents, read through the `toml` crate.
use vstd::prelude::*;

use crate::text::str_eq;

verus! {

#[verifier::external_type_specification]
#[verifier::external_body]
pub struct ExTomlValue(toml::Value);

/// A TOML value. Table entries keep the order in which `toml` yields them;
/// a datetime is kept as its TOML text. A float is kept as its display text
/// and, where JSON can hold it, the text `serde_json` writes for the same
/// number.
#[derive(Debug)]
pub enum TomlValue {
    String(String),
    Integer(i64),
    Float(String, Option<String>),
    Boolean(bool),
    Datetime(String),
    Array(Vec<TomlValue>),
    Table(Vec<(String, TomlValue)>),
}

/// The mathematical content of a TOML value.
pub ghost enum TomlModel {
    Str(Seq<char>),
    Integer(i64),
    Float(Seq<char>, Option<Seq<char>>),
    Boolean(bool),
    Datetime(Seq<char>),
    Array(Seq<TomlModel>),
    Table(Seq<(Seq<char>, TomlModel)>),
}

pub open spec fn toml_model(v: TomlValue) -> TomlModel
    decreases v,
{
    match v {
        TomlValue::String(s) => TomlModel::Str(s@),
        TomlValue::Integer(i) => TomlModel::Integer(i),
        TomlValue::Float(d, j) => TomlModel::Float(d@, match j {
            Some(t) => Some(t@),
            None => None,
        }),
        TomlValue::Boolean(b) => TomlModel::Boolean(b),
        TomlValue::Datetime(s) => TomlModel::Datetime(s@),
        TomlValue::Array(items) => TomlModel::Array(
            Seq::new(
                items.len() as nat,
                |i: int|
                    if 0 <= i < items.len() {
                        toml_model(items@[i])
                    } else {
                        TomlModel::Boolean(false)
                    },
            ),
        ),
        TomlValue::Table(entries) => TomlModel::Table(
            Seq::new(
                entries.len() as nat,
                |i: int|
                    if 0 <= i < entries.len() {
                        (entries@[i].0@, toml_model(entries@[i].1))
                    } else {
                        (Seq::empty(), TomlModel::Boolean(false))
                    },
            ),
        ),
    }
}

impl View for TomlValue {
    type V = TomlModel;

    open spec fn view(&self) -> TomlModel {
        toml_model(*self)
    }
}

/// The entries of a table's model, one per entry of the exec table.
pub open spec fn entries_model(entries: Seq<(String, TomlValue)>) -> Seq<(Seq<char>, TomlModel)> {
    Seq::new(entries.len(), |i: int| (entries[i].0@, toml_model(entries[i].1)))
}

pub proof fn lemma_table_model(entries: Vec<(String, TomlValue)>)
    ensures
        toml_model(TomlValue::Table(entries)) == TomlModel::Table(entries_model(entries@)),
{
    let m = match toml_model(TomlValue::Table(entries)) {
        TomlModel::Table(m) => m,
        _ => Seq::empty(),
    };
    assert(m =~= entries_model(entries@));
}

/// The models of the elements of a TOML array.
pub open spec fn toml_models(items: Seq<TomlValue>) -> Seq<TomlModel> {
    Seq::new(items.len(), |i: int| toml_model(items[i]))
}

pub proof fn lemma_array_model(items: Vec<TomlValue>)
    ensures
        toml_model(TomlValue::Array(items)) == TomlModel::Array(
            Seq::new(items.len() as nat, |i: int| toml_model(items@[i])),
        ),
{
    let m = match toml_model(TomlValue::Array(items)) {
        TomlModel::Array(m) => m,
        _ => Seq::empty(),
    };
    assert(m =~= Seq::new(items.len() as nat, |i: int| toml_model(items@[i])));
}

/// The value stored under `key`: the first entry with that key.
pub open spec fn toml_get(entries: Seq<(Seq<char>, TomlModel)>, key: Seq<char>) -> Option<TomlModel>
    decreases entries.len(),
{
    if entries.len() == 0 {
        None
    } else if entries[0].0 == key {
        Some(entries[0].1)
    } else {
        toml_get(entries.drop_first(), key)
    }
}

/// The text of a string value.
pub open spec fn toml_str(v: Option<TomlModel>) -> Option<Seq<char>> {
    match v {
        Some(TomlModel::Str(s)) => Some(s),
        _ => None,
    }
}

/// Look up `key` in a table.
pub fn table_get<'a>(entries: &'a Vec<(String, TomlValue)>, key: &str) -> (r: Option<&'a TomlValue>)
    ensures
        match r {
            Some(v) => toml_get(entries_model(entries@), key@) == Some(toml_model(*v)),
            None => toml_get(entries_model(entries@), key@) is None,
        },
{
    let mut i: usize = 0;
    assert(entries_model(entries@).skip(0) =~= entries_model(entries@));
    while i < entries.len()
        invariant
            i <= entries.len(),
            toml_get(entries_model(entries@), key@) == toml_get(entries_model(entries@).skip(i as int), key@),
        decreases entries.len() - i,
    {
        let ghost rest = entries_model(entries@).skip(i as int);
        assert(rest[0] == (entries@[i as int].0@, toml_model(entries@[i as int].1)));
        if str_eq(entries[i].0.as_str(), key) {
            return Some(&entries[i].1);
        }
        assert(rest.drop_first() =~= entries_model(entries@).skip(i + 1));
        i = i + 1;
    }
    None
}

/// The text of a string value, if `v` is one.
pub fn value_as_str<'a>(v: Option<&'a TomlValue>) -> (r: Option<&'a str>)
    ensures
        match v {
            Some(x) => match r {
                Some(s) => toml_str(Some(toml_model(*x))) == Some(s@),
                None => toml_str(Some(toml_model(*x))) is None,
            },
            None => r is None,
        },
{
    match v {
        Some(TomlValue::String(s)) => Some(s.as_str()),
        _ => None,
    }
}

/// What the `toml` crate reads from the text of a TOML document: the
/// document's root value, or the text of the error it reports.
pub uninterp spec fn toml_document(text: Seq<char>) -> Result<TomlModel, Seq<char>>;

/// Reads a TOML document with `toml::from_str::<toml::Value>` (the
/// `FromStr` impl of `toml::Value`). The contract claims only that the
/// outcome is a function of the text, named `toml_document`: the parsed
/// value on success, the error's display text on failure.
#[verifier::external_body]
pub fn parse_toml_document(text: &str) -> (r: Result<TomlValue, String>)
    ensures
        match r {
            Ok(v) => toml_document(text@) == Ok::<TomlModel, Seq<char>>(v@),
            Err(m) => toml_document(text@) == Err::<TomlModel, Seq<char>>(m@),
        },
{
    match text.parse::<toml::Value>() {
        Ok(value) => Ok(toml_value_from(value)),
        Err(error) => Err(error.to_string()),
    }
}

/// Moves a `toml::Value` into the library's `TomlValue`, variant for variant;
/// a float also gets the text of its `serde_json::Number::from_f64`, which
/// exists for finite floats only.
#[verifier::external_body]
fn toml_value_from(value: toml::Value) -> TomlValue {
    match value {
        toml::Value::String(s) => TomlValue::String(s),
        toml::Value::Integer(i) => TomlValue::Integer(i),
        toml::Value::Float(x) => TomlValue::Float(x.to_string(), serde_json::Number::from_f64(x).map(|n| n.to_string())),
        toml::Value::Boolean(b) => TomlValue::Boolean(b),
        toml::Value::Datetime(d) => TomlValue::Datetime(d.to_string()),
        toml::Value::Array(items) => TomlValue::Array(items.into_iter().map(toml_value_from).collect()),
        toml::Value::Table(t) => TomlValue::Table(t.into_iter().map(|(k, v)| (k, toml_value_from(v))).collect()),
    }
}

} // verus!
