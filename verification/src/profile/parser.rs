//! Loading a capability profile from its TOML text.
use indexmap::IndexMap;
use vstd::prelude::*;

use super::keyword::{keyword_named, lemma_keyword_named, Keyword};
use super::tables::{
    entry_insert, has_key, insert_restriction, insert_severity, key_position,
    lemma_key_position_bounds, new_restriction_map, new_severity_map, restriction_entries,
    severity_entries, severity_map_has,
};
use crate::json::{json_model, json_models, lemma_array_model, lemma_object_model, member_models, JsonModel, JsonNumber, JsonValue, NumberModel};
use crate::text::{chars_of, concat2, concat3, owned, push_char, str_eq, utf8_text};
use crate::toml_doc::{
    parse_toml_document, toml_document, entries_model, lemma_array_model as lemma_toml_array_model, lemma_table_model, table_get, toml_get,
    toml_model, toml_models, toml_str, value_as_str, TomlModel, TomlValue,
};

verus! {

/// Severity levels for keyword and structural rules in a profile.
#[derive(Debug, Clone, Copy, PartialEq, Eq, Hash, Structural)]
pub enum Severity {
    Allow,
    Warn,
    Strip,
    Forbid,
    Unknown,
}

/// The severity spelled `s` in a profile, if any.
pub open spec fn severity_named(s: Seq<char>) -> Option<Severity> {
    if s == "allow"@ {
        Some(Severity::Allow)
    } else if s == "warn"@ {
        Some(Severity::Warn)
    } else if s == "strip"@ {
        Some(Severity::Strip)
    } else if s == "forbid"@ {
        Some(Severity::Forbid)
    } else if s == "unknown"@ {
        Some(Severity::Unknown)
    } else {
        None
    }
}

/// Policy for a keyword the engine does not recognize at all.
///
/// This is a separate type from `Severity`: `Severity::Unknown` states that
/// the engine knows a keyword but not the provider's stance on it, while this
/// policy governs keywords the engine does not know.
#[derive(Debug, Clone, Copy, PartialEq, Eq, Structural)]
pub enum UnknownKeywordPolicy {
    Allow,
    Warn,
    Forbid,
}

impl Default for UnknownKeywordPolicy {
    fn default() -> (r: Self)
        ensures
            r == UnknownKeywordPolicy::Warn,
    {
        UnknownKeywordPolicy::Warn
    }
}

/// Value restriction for a keyword.
#[derive(Debug)]
pub struct Restriction {
    pub allowed_values: Vec<JsonValue>,
}

/// The models of the allowed values of a restriction.
pub open spec fn restriction_model(r: Restriction) -> Seq<JsonModel> {
    json_models(r.allowed_values@)
}

/// The models of restriction entries, entry by entry.
pub open spec fn restriction_models(m: Seq<(Keyword, Restriction)>) -> Seq<(Keyword, Seq<JsonModel>)> {
    Seq::new(m.len(), |i: int| (m[i].0, restriction_model(m[i].1)))
}

pub proof fn lemma_key_position_models(m: Seq<(Keyword, Restriction)>, k: Keyword)
    ensures
        key_position(restriction_models(m), k) == key_position(m, k),
    decreases m.len(),
{
    if m.len() > 0 && m[0].0 != k {
        assert(restriction_models(m).drop_first() =~= restriction_models(m.drop_first()));
        lemma_key_position_models(m.drop_first(), k);
    }
}

/// Inserting commutes with taking models.
pub proof fn lemma_restriction_insert(m: Seq<(Keyword, Restriction)>, k: Keyword, v: Restriction)
    ensures
        restriction_models(entry_insert(m, k, v)) == entry_insert(restriction_models(m), k, restriction_model(v)),
{
    lemma_key_position_models(m, k);
    lemma_key_position_bounds(m, k);
    assert(restriction_models(entry_insert(m, k, v)) =~= entry_insert(restriction_models(m), k, restriction_model(v)));
}

/// Structural limits from the profile `[structural]` section.
#[derive(Debug, Clone, Copy, PartialEq, Eq, Structural)]
pub struct StructuralLimits {
    pub require_object_root: bool,
    pub require_additional_properties_false: bool,
    pub require_all_properties_in_required: bool,
    pub require_array_items: bool,
    pub forbid_root_any_of: bool,
    pub forbid_root_enum: bool,
    /// Treat an object with `additionalProperties: false` and no usable
    /// `properties` as an error rather than a warning.
    pub forbid_empty_object: bool,
    pub max_object_depth: u32,
    pub max_total_properties: u32,
    pub max_total_enum_values: u32,
    pub max_string_length_total: u32,
    /// Apply the per-enum string budget only when an enum has more values
    /// than this threshold. Zero disables the conditional budget.
    pub enum_string_length_threshold: u32,
    /// Maximum character count for one enum after the threshold is
    /// exceeded. Zero disables the conditional budget.
    pub max_enum_string_length: u32,
    pub max_optional_properties: u32,
    pub max_union_properties: u32,
    pub external_refs: bool,
    /// Reject schemas that combine `allOf` with a `$ref` in its branches.
    pub forbid_allof_with_ref: bool,
    /// Policy for a keyword the engine does not recognize at all.
    pub unknown_keyword_policy: UnknownKeywordPolicy,
}

/// Every switch off, every limit zero, unknown keywords warned about.
pub open spec fn default_limits() -> StructuralLimits {
    StructuralLimits {
        require_object_root: false,
        require_additional_properties_false: false,
        require_all_properties_in_required: false,
        require_array_items: false,
        forbid_root_any_of: false,
        forbid_root_enum: false,
        forbid_empty_object: false,
        max_object_depth: 0,
        max_total_properties: 0,
        max_total_enum_values: 0,
        max_string_length_total: 0,
        enum_string_length_threshold: 0,
        max_enum_string_length: 0,
        max_optional_properties: 0,
        max_union_properties: 0,
        external_refs: false,
        forbid_allof_with_ref: false,
        unknown_keyword_policy: UnknownKeywordPolicy::Warn,
    }
}

impl Default for StructuralLimits {
    fn default() -> (r: Self)
        ensures
            r == default_limits(),
    {
        StructuralLimits {
            require_object_root: false,
            require_additional_properties_false: false,
            require_all_properties_in_required: false,
            require_array_items: false,
            forbid_root_any_of: false,
            forbid_root_enum: false,
            forbid_empty_object: false,
            max_object_depth: 0,
            max_total_properties: 0,
            max_total_enum_values: 0,
            max_string_length_total: 0,
            enum_string_length_threshold: 0,
            max_enum_string_length: 0,
            max_optional_properties: 0,
            max_union_properties: 0,
            external_refs: false,
            forbid_allof_with_ref: false,
            unknown_keyword_policy: UnknownKeywordPolicy::Warn,
        }
    }
}

/// A loaded capability profile.
#[derive(Debug)]
pub struct Profile {
    pub name: String,
    pub version: String,
    pub code_prefix: String,
    /// Keyword → severity mapping in profile declaration order.
    pub keyword_map: IndexMap<Keyword, Severity>,
    /// Keyword → allowed values mapping for restricted keywords.
    pub restrictions: IndexMap<Keyword, Restriction>,
    pub structural: StructuralLimits,
}

/// The content of a profile.
pub ghost struct ProfileModel {
    pub name: Seq<char>,
    pub version: Seq<char>,
    pub code_prefix: Seq<char>,
    pub keywords: Seq<(Keyword, Severity)>,
    pub restrictions: Seq<(Keyword, Seq<JsonModel>)>,
    pub structural: StructuralLimits,
}

impl View for Profile {
    type V = ProfileModel;

    open spec fn view(&self) -> ProfileModel {
        ProfileModel {
            name: self.name@,
            version: self.version@,
            code_prefix: self.code_prefix@,
            keywords: severity_entries(self.keyword_map),
            restrictions: restriction_models(restriction_entries(self.restrictions)),
            structural: self.structural,
        }
    }
}

/// Errors that can occur when loading a profile.
#[derive(Debug)]
pub enum ProfileError {
    InvalidToml(String),
    MissingField(&'static str),
    InvalidSeverity(String),
    UnknownKeyword(String),
    InvalidKeywordValue(String),
    InvalidRestrictionsContainer,
    InvalidRestriction(String),
    ConflictingKeyword(String),
}

/// The content of a profile error.
pub ghost enum ProfileFault {
    InvalidToml(Seq<char>),
    MissingField(Seq<char>),
    InvalidSeverity(Seq<char>),
    UnknownKeyword(Seq<char>),
    InvalidKeywordValue(Seq<char>),
    InvalidRestrictionsContainer,
    InvalidRestriction(Seq<char>),
    ConflictingKeyword(Seq<char>),
}

impl View for ProfileError {
    type V = ProfileFault;

    open spec fn view(&self) -> ProfileFault {
        match self {
            ProfileError::InvalidToml(m) => ProfileFault::InvalidToml(m@),
            ProfileError::MissingField(f) => ProfileFault::MissingField(f@),
            ProfileError::InvalidSeverity(s) => ProfileFault::InvalidSeverity(s@),
            ProfileError::UnknownKeyword(s) => ProfileFault::UnknownKeyword(s@),
            ProfileError::InvalidKeywordValue(s) => ProfileFault::InvalidKeywordValue(s@),
            ProfileError::InvalidRestrictionsContainer => ProfileFault::InvalidRestrictionsContainer,
            ProfileError::InvalidRestriction(s) => ProfileFault::InvalidRestriction(s@),
            ProfileError::ConflictingKeyword(s) => ProfileFault::ConflictingKeyword(s@),
        }
    }
}

impl Severity {
    /// Parse a severity string from a profile.
    pub fn parse(s: &str) -> (r: Result<Severity, ProfileError>)
        ensures
            match r {
                Ok(v) => severity_named(s@) == Some(v),
                Err(e) => severity_named(s@) is None && e@ == ProfileFault::InvalidSeverity(s@),
            },
    {
        if str_eq(s, "allow") {
            Ok(Severity::Allow)
        } else if str_eq(s, "warn") {
            Ok(Severity::Warn)
        } else if str_eq(s, "strip") {
            Ok(Severity::Strip)
        } else if str_eq(s, "forbid") {
            Ok(Severity::Forbid)
        } else if str_eq(s, "unknown") {
            Ok(Severity::Unknown)
        } else {
            Err(ProfileError::InvalidSeverity(s.to_string()))
        }
    }
}

// ---------------------------------------------------------------------------
// What loading a profile document computes
// ---------------------------------------------------------------------------

/// The JSON number for a TOML integer.
pub open spec fn integer_number(i: i64) -> NumberModel {
    if i >= 0 {
        NumberModel::PosInt(i as u64)
    } else {
        NumberModel::NegInt(i)
    }
}

/// The JSON value for a TOML value: strings, integers, booleans, arrays and
/// tables carry over; a datetime becomes its text; a non-finite float is
/// refused.
pub open spec fn json_of_toml(v: TomlModel) -> Result<JsonModel, ProfileFault>
    decreases v,
{
    match v {
        TomlModel::Str(s) => Ok(JsonModel::Str(s)),
        TomlModel::Integer(i) => Ok(JsonModel::Number(integer_number(i))),
        TomlModel::Float(display, json) => match json {
            Some(t) => Ok(JsonModel::Number(NumberModel::Float(t))),
            None => Err(ProfileFault::InvalidSeverity("invalid float value: "@ + display)),
        },
        TomlModel::Boolean(b) => Ok(JsonModel::Bool(b)),
        TomlModel::Datetime(t) => Ok(JsonModel::Str(t)),
        TomlModel::Array(items) => match json_of_tomls(items) {
            Ok(js) => Ok(JsonModel::Array(js)),
            Err(e) => Err(e),
        },
        TomlModel::Table(entries) => match json_of_entries(entries) {
            Ok(ms) => Ok(JsonModel::Object(ms)),
            Err(e) => Err(e),
        },
    }
}

/// Element-wise `json_of_toml`, failing with the first element that fails.
pub open spec fn json_of_tomls(items: Seq<TomlModel>) -> Result<Seq<JsonModel>, ProfileFault>
    decreases items,
{
    if items.len() == 0 {
        Ok(Seq::empty())
    } else {
        match json_of_tomls(items.drop_last()) {
            Err(e) => Err(e),
            Ok(front) => match json_of_toml(items.last()) {
                Err(e) => Err(e),
                Ok(j) => Ok(front.push(j)),
            },
        }
    }
}

/// Entry-wise `json_of_toml`, failing with the first entry that fails.
pub open spec fn json_of_entries(entries: Seq<(Seq<char>, TomlModel)>) -> Result<Seq<(Seq<char>, JsonModel)>, ProfileFault>
    decreases entries,
{
    if entries.len() == 0 {
        Ok(Seq::empty())
    } else {
        match json_of_entries(entries.drop_last()) {
            Err(e) => Err(e),
            Ok(front) => match json_of_toml(entries.last().1) {
                Err(e) => Err(e),
                Ok(j) => Ok(front.push((entries.last().0, j))),
            },
        }
    }
}

/// The allowed values of a restriction table: its `allowed` array, or
/// `InvalidRestriction` naming the keyword.
pub open spec fn restriction_of(t: Seq<(Seq<char>, TomlModel)>, keyword: Seq<char>) -> Result<Seq<JsonModel>, ProfileFault> {
    match toml_get(t, "allowed"@) {
        Some(TomlModel::Array(items)) => json_of_tomls(items),
        _ => Err(ProfileFault::InvalidRestriction(keyword)),
    }
}

/// The keyword tables built so far.
pub ghost struct KeywordTables {
    pub severities: Seq<(Keyword, Severity)>,
    pub restrictions: Seq<(Keyword, Seq<JsonModel>)>,
}

/// Top-level keys that are not keywords.
pub open spec fn reserved_key(k: Seq<char>) -> bool {
    k == "name"@ || k == "version"@ || k == "code_prefix"@ || k == "structural"@ || k == "restrictions"@
}

/// A table whose `kind` is the string `restricted`.
pub open spec fn is_restricted_table(v: TomlModel) -> bool {
    match v {
        TomlModel::Table(t) => toml_str(toml_get(t, "kind"@)) == Some("restricted"@),
        _ => false,
    }
}

/// One top-level entry of a profile document.
pub open spec fn keyword_entry_step(acc: KeywordTables, key: Seq<char>, val: TomlModel) -> Result<KeywordTables, ProfileFault> {
    if reserved_key(key) {
        Ok(acc)
    } else {
        match keyword_named(key) {
            None => Err(ProfileFault::UnknownKeyword(key)),
            Some(kw) => match val {
                TomlModel::Str(s) => match severity_named(s) {
                    Some(sev) => Ok(KeywordTables { severities: entry_insert(acc.severities, kw, sev), ..acc }),
                    None => Err(ProfileFault::InvalidSeverity(s)),
                },
                TomlModel::Table(t) => if is_restricted_table(val) {
                    match restriction_of(t, key) {
                        Ok(values) => Ok(KeywordTables { restrictions: entry_insert(acc.restrictions, kw, values), ..acc }),
                        Err(e) => Err(e),
                    }
                } else {
                    Err(ProfileFault::InvalidKeywordValue(key))
                },
                _ => Err(ProfileFault::InvalidKeywordValue(key)),
            },
        }
    }
}

/// All top-level entries, in document order, from empty tables.
pub open spec fn keyword_entries_scan(entries: Seq<(Seq<char>, TomlModel)>) -> Result<KeywordTables, ProfileFault>
    decreases entries.len(),
{
    if entries.len() == 0 {
        Ok(KeywordTables { severities: Seq::empty(), restrictions: Seq::empty() })
    } else {
        match keyword_entries_scan(entries.drop_last()) {
            Err(e) => Err(e),
            Ok(acc) => keyword_entry_step(acc, entries.last().0, entries.last().1),
        }
    }
}

/// One entry of the `[[restrictions]]` array.
pub open spec fn restriction_entry_step(acc: KeywordTables, entry: TomlModel) -> Result<KeywordTables, ProfileFault> {
    match entry {
        TomlModel::Table(t) => match toml_str(toml_get(t, "keyword"@)) {
            None => Err(ProfileFault::MissingField("restrictions.keyword"@)),
            Some(text) => match keyword_named(text) {
                None => Err(ProfileFault::UnknownKeyword(text)),
                Some(kw) => if has_key(acc.severities, kw) {
                    Err(ProfileFault::ConflictingKeyword(text))
                } else {
                    match restriction_of(t, text) {
                        Ok(values) => Ok(KeywordTables { restrictions: entry_insert(acc.restrictions, kw, values), ..acc }),
                        Err(e) => Err(e),
                    }
                },
            },
        },
        _ => Err(ProfileFault::MissingField("restrictions entry"@)),
    }
}

/// The `[[restrictions]]` entries, in order, starting from `start`.
pub open spec fn restriction_entries_scan(items: Seq<TomlModel>, start: KeywordTables) -> Result<KeywordTables, ProfileFault>
    decreases items.len(),
{
    if items.len() == 0 {
        Ok(start)
    } else {
        match restriction_entries_scan(items.drop_last(), start) {
            Err(e) => Err(e),
            Ok(acc) => restriction_entry_step(acc, items.last()),
        }
    }
}

/// The message for a `[structural]` key that `StructuralLimits` has no field for.
pub open spec fn unknown_field_text(name: Seq<char>) -> Seq<char> {
    "unknown field `"@ + name + "`"@
}

/// The message for a `[structural]` value of the wrong type or out of range.
pub open spec fn invalid_field_text(name: Seq<char>) -> Seq<char> {
    "invalid value for field `"@ + name + "`"@
}

/// A boolean setting.
pub open spec fn bool_setting(name: Seq<char>, v: TomlModel) -> Result<bool, ProfileFault> {
    match v {
        TomlModel::Boolean(b) => Ok(b),
        _ => Err(ProfileFault::InvalidToml(invalid_field_text(name))),
    }
}

/// A limit that fits in `u32`.
pub open spec fn limit_setting(name: Seq<char>, v: TomlModel) -> Result<u32, ProfileFault> {
    match v {
        TomlModel::Integer(i) => if 0 <= i <= u32::MAX {
            Ok(i as u32)
        } else {
            Err(ProfileFault::InvalidToml(invalid_field_text(name)))
        },
        _ => Err(ProfileFault::InvalidToml(invalid_field_text(name))),
    }
}

/// The unknown-keyword policy spelled in lower case.
pub open spec fn policy_setting(name: Seq<char>, v: TomlModel) -> Result<UnknownKeywordPolicy, ProfileFault> {
    match v {
        TomlModel::Str(s) => if s == "allow"@ {
            Ok(UnknownKeywordPolicy::Allow)
        } else if s == "warn"@ {
            Ok(UnknownKeywordPolicy::Warn)
        } else if s == "forbid"@ {
            Ok(UnknownKeywordPolicy::Forbid)
        } else {
            Err(ProfileFault::InvalidToml(invalid_field_text(name)))
        },
        _ => Err(ProfileFault::InvalidToml(invalid_field_text(name))),
    }
}

/// One `[structural]` entry applied to the limits read so far.
pub open spec fn structural_step(lim: StructuralLimits, name: Seq<char>, v: TomlModel) -> Result<StructuralLimits, ProfileFault> {
    if name == "require_object_root"@ {
        match bool_setting(name, v) { Ok(b) => Ok(StructuralLimits { require_object_root: b, ..lim }), Err(e) => Err(e) }
    } else if name == "require_additional_properties_false"@ {
        match bool_setting(name, v) { Ok(b) => Ok(StructuralLimits { require_additional_properties_false: b, ..lim }), Err(e) => Err(e) }
    } else if name == "require_all_properties_in_required"@ {
        match bool_setting(name, v) { Ok(b) => Ok(StructuralLimits { require_all_properties_in_required: b, ..lim }), Err(e) => Err(e) }
    } else if name == "require_array_items"@ {
        match bool_setting(name, v) { Ok(b) => Ok(StructuralLimits { require_array_items: b, ..lim }), Err(e) => Err(e) }
    } else if name == "forbid_root_any_of"@ {
        match bool_setting(name, v) { Ok(b) => Ok(StructuralLimits { forbid_root_any_of: b, ..lim }), Err(e) => Err(e) }
    } else if name == "forbid_root_enum"@ {
        match bool_setting(name, v) { Ok(b) => Ok(StructuralLimits { forbid_root_enum: b, ..lim }), Err(e) => Err(e) }
    } else if name == "forbid_empty_object"@ {
        match bool_setting(name, v) { Ok(b) => Ok(StructuralLimits { forbid_empty_object: b, ..lim }), Err(e) => Err(e) }
    } else if name == "max_object_depth"@ {
        match limit_setting(name, v) { Ok(n) => Ok(StructuralLimits { max_object_depth: n, ..lim }), Err(e) => Err(e) }
    } else if name == "max_total_properties"@ {
        match limit_setting(name, v) { Ok(n) => Ok(StructuralLimits { max_total_properties: n, ..lim }), Err(e) => Err(e) }
    } else if name == "max_total_enum_values"@ {
        match limit_setting(name, v) { Ok(n) => Ok(StructuralLimits { max_total_enum_values: n, ..lim }), Err(e) => Err(e) }
    } else if name == "max_string_length_total"@ {
        match limit_setting(name, v) { Ok(n) => Ok(StructuralLimits { max_string_length_total: n, ..lim }), Err(e) => Err(e) }
    } else if name == "enum_string_length_threshold"@ {
        match limit_setting(name, v) { Ok(n) => Ok(StructuralLimits { enum_string_length_threshold: n, ..lim }), Err(e) => Err(e) }
    } else if name == "max_enum_string_length"@ {
        match limit_setting(name, v) { Ok(n) => Ok(StructuralLimits { max_enum_string_length: n, ..lim }), Err(e) => Err(e) }
    } else if name == "max_optional_properties"@ {
        match limit_setting(name, v) { Ok(n) => Ok(StructuralLimits { max_optional_properties: n, ..lim }), Err(e) => Err(e) }
    } else if name == "max_union_properties"@ {
        match limit_setting(name, v) { Ok(n) => Ok(StructuralLimits { max_union_properties: n, ..lim }), Err(e) => Err(e) }
    } else if name == "external_refs"@ {
        match bool_setting(name, v) { Ok(b) => Ok(StructuralLimits { external_refs: b, ..lim }), Err(e) => Err(e) }
    } else if name == "forbid_allof_with_ref"@ {
        match bool_setting(name, v) { Ok(b) => Ok(StructuralLimits { forbid_allof_with_ref: b, ..lim }), Err(e) => Err(e) }
    } else if name == "unknown_keyword_policy"@ {
        match policy_setting(name, v) { Ok(p) => Ok(StructuralLimits { unknown_keyword_policy: p, ..lim }), Err(e) => Err(e) }
    } else {
        Err(ProfileFault::InvalidToml(unknown_field_text(name)))
    }
}

/// The `[structural]` entries, in order, over the defaults.
pub open spec fn structural_scan(entries: Seq<(Seq<char>, TomlModel)>) -> Result<StructuralLimits, ProfileFault>
    decreases entries.len(),
{
    if entries.len() == 0 {
        Ok(default_limits())
    } else {
        match structural_scan(entries.drop_last()) {
            Err(e) => Err(e),
            Ok(lim) => structural_step(lim, entries.last().0, entries.last().1),
        }
    }
}

/// The `[structural]` section, which must be a table.
pub open spec fn structural_of(v: Option<TomlModel>) -> Result<StructuralLimits, ProfileFault> {
    match v {
        Some(TomlModel::Table(t)) => structural_scan(t),
        _ => Err(ProfileFault::MissingField("[structural] section"@)),
    }
}

/// The text before the first `.` of `name` (all of it when there is none).
pub open spec fn first_segment(name: Seq<char>) -> Seq<char>
    decreases name.len(),
{
    if name.len() == 0 {
        name
    } else if name[0] == '.' {
        Seq::empty()
    } else {
        seq![name[0]] + first_segment(name.drop_first())
    }
}

/// The profile that a TOML document describes, or the first fault in it.
pub open spec fn profile_of_document(doc: TomlModel) -> Result<ProfileModel, ProfileFault> {
    match doc {
        TomlModel::Table(t) => match toml_str(toml_get(t, "name"@)) {
            None => Err(ProfileFault::MissingField("name"@)),
            Some(name) => {
                let version = match toml_str(toml_get(t, "version"@)) {
                    Some(v) => v,
                    None => "unknown"@,
                };
                let code_prefix = match toml_str(toml_get(t, "code_prefix"@)) {
                    Some(p) => p,
                    None => uppercase_text(first_segment(name)),
                };
                match keyword_entries_scan(t) {
                    Err(e) => Err(e),
                    Ok(tables) => {
                        let with_array = match toml_get(t, "restrictions"@) {
                            None => Ok(tables),
                            Some(TomlModel::Array(items)) => restriction_entries_scan(items, tables),
                            Some(_) => Err(ProfileFault::InvalidRestrictionsContainer),
                        };
                        match with_array {
                            Err(e) => Err(e),
                            Ok(all) => match structural_of(toml_get(t, "structural"@)) {
                                Err(e) => Err(e),
                                Ok(structural) => Ok(ProfileModel {
                                    name,
                                    version,
                                    code_prefix,
                                    keywords: all.severities,
                                    restrictions: all.restrictions,
                                    structural,
                                }),
                            },
                        }
                    },
                }
            },
        },
        _ => Err(ProfileFault::MissingField("root table"@)),
    }
}

/// The content of a load outcome.
pub open spec fn profile_outcome(r: Result<Profile, ProfileError>) -> Result<ProfileModel, ProfileFault> {
    match r {
        Ok(p) => Ok(p@),
        Err(e) => Err(e@),
    }
}

/// What `str::to_uppercase` makes of a text.
pub uninterp spec fn uppercase_text(s: Seq<char>) -> Seq<char>;

/// `str::to_uppercase`: the contract names the result `uppercase_text` of
/// the argument and claims nothing more about Unicode case mapping.
#[verifier::external_body]
fn to_uppercase(s: &str) -> (r: String)
    ensures
        r@ == uppercase_text(s@),
{
    s.to_uppercase()
}

// ---------------------------------------------------------------------------
// Converting TOML values to JSON values
// ---------------------------------------------------------------------------

/// The content of a conversion outcome.
pub open spec fn json_outcome(r: Result<JsonValue, ProfileError>) -> Result<JsonModel, ProfileFault> {
    match r {
        Ok(j) => Ok(j@),
        Err(e) => Err(e@),
    }
}

proof fn lemma_tomls_err_sticks(s: Seq<TomlModel>, i: int)
    requires
        0 <= i <= s.len(),
        json_of_tomls(s.take(i)) is Err,
    ensures
        json_of_tomls(s) == json_of_tomls(s.take(i)),
    decreases s.len() - i,
{
    if i < s.len() {
        assert(s.take(i + 1).drop_last() =~= s.take(i));
        lemma_tomls_err_sticks(s, i + 1);
    } else {
        assert(s.take(i) =~= s);
    }
}

proof fn lemma_entries_err_sticks(s: Seq<(Seq<char>, TomlModel)>, i: int)
    requires
        0 <= i <= s.len(),
        json_of_entries(s.take(i)) is Err,
    ensures
        json_of_entries(s) == json_of_entries(s.take(i)),
    decreases s.len() - i,
{
    if i < s.len() {
        assert(s.take(i + 1).drop_last() =~= s.take(i));
        lemma_entries_err_sticks(s, i + 1);
    } else {
        assert(s.take(i) =~= s);
    }
}

/// Convert the elements of a TOML array.
fn tomls_to_json(items: &Vec<TomlValue>) -> (r: Result<Vec<JsonValue>, ProfileError>)
    ensures
        match r {
            Ok(out) => json_of_tomls(toml_models(items@)) == Ok::<Seq<JsonModel>, ProfileFault>(json_models(out@)),
            Err(e) => json_of_tomls(toml_models(items@)) == Err::<Seq<JsonModel>, ProfileFault>(e@),
        },
    decreases items,
{
    let ghost models = toml_models(items@);
    let mut out: Vec<JsonValue> = Vec::new();
    let mut i: usize = 0;
    assert(models.take(0) =~= Seq::<TomlModel>::empty());
    assert(json_models(out@) =~= Seq::<JsonModel>::empty());
    while i < items.len()
        invariant
            i <= items.len(),
            models == toml_models(items@),
            json_of_tomls(models.take(i as int)) == Ok::<Seq<JsonModel>, ProfileFault>(json_models(out@)),
        decreases items.len() - i,
    {
        assert(models.take(i + 1).drop_last() =~= models.take(i as int));
        assert(models.take(i + 1).last() == toml_model(items@[i as int]));
        proof {
            assert(decreases_to!(items => items@[i as int]));
        }
        match toml_to_json(&items[i]) {
            Ok(j) => {
                let ghost before = out@;
                out.push(j);
                assert(json_models(out@) =~= json_models(before).push(json_model(j)));
            },
            Err(e) => {
                proof {
                    lemma_tomls_err_sticks(models, i + 1);
                    assert(models.take(items.len() as int) =~= models);
                }
                return Err(e);
            },
        }
        i = i + 1;
    }
    assert(models.take(items.len() as int) =~= models);
    Ok(out)
}

/// Convert the entries of a TOML table.
fn entries_to_json(entries: &Vec<(String, TomlValue)>) -> (r: Result<Vec<(String, JsonValue)>, ProfileError>)
    ensures
        match r {
            Ok(out) => json_of_entries(entries_model(entries@)) == Ok::<Seq<(Seq<char>, JsonModel)>, ProfileFault>(member_models(out@)),
            Err(e) => json_of_entries(entries_model(entries@)) == Err::<Seq<(Seq<char>, JsonModel)>, ProfileFault>(e@),
        },
    decreases entries,
{
    let ghost models = entries_model(entries@);
    let mut out: Vec<(String, JsonValue)> = Vec::new();
    let mut i: usize = 0;
    assert(models.take(0) =~= Seq::<(Seq<char>, TomlModel)>::empty());
    assert(member_models(out@) =~= Seq::<(Seq<char>, JsonModel)>::empty());
    while i < entries.len()
        invariant
            i <= entries.len(),
            models == entries_model(entries@),
            json_of_entries(models.take(i as int)) == Ok::<Seq<(Seq<char>, JsonModel)>, ProfileFault>(member_models(out@)),
        decreases entries.len() - i,
    {
        assert(models.take(i + 1).drop_last() =~= models.take(i as int));
        assert(models.take(i + 1).last() == (entries@[i as int].0@, toml_model(entries@[i as int].1)));
        proof {
            assert(decreases_to!(entries => entries@[i as int]));
        }
        match toml_to_json(&entries[i].1) {
            Ok(j) => {
                let ghost before = out@;
                out.push((owned(entries[i].0.as_str()), j));
                assert(member_models(out@) =~= member_models(before).push((entries@[i as int].0@, json_model(j))));
            },
            Err(e) => {
                proof {
                    lemma_entries_err_sticks(models, i + 1);
                    assert(models.take(entries.len() as int) =~= models);
                }
                return Err(e);
            },
        }
        i = i + 1;
    }
    assert(models.take(entries.len() as int) =~= models);
    Ok(out)
}

/// Convert a TOML value to a JSON value, as `json_of_toml` states.
pub fn toml_to_json(v: &TomlValue) -> (r: Result<JsonValue, ProfileError>)
    ensures
        json_outcome(r) == json_of_toml(v@),
    decreases v,
{
    match v {
        TomlValue::String(s) => Ok(JsonValue::String(owned(s.as_str()))),
        TomlValue::Integer(i) => {
            if *i >= 0 {
                Ok(JsonValue::Number(JsonNumber::PosInt(*i as u64)))
            } else {
                Ok(JsonValue::Number(JsonNumber::NegInt(*i)))
            }
        },
        TomlValue::Float(display, json) => match json {
            Some(t) => Ok(JsonValue::Number(JsonNumber::Float(owned(t.as_str())))),
            None => Err(ProfileError::InvalidSeverity(concat2("invalid float value: ", display.as_str()))),
        },
        TomlValue::Boolean(b) => Ok(JsonValue::Bool(*b)),
        TomlValue::Datetime(s) => Ok(JsonValue::String(owned(s.as_str()))),
        TomlValue::Array(items) => {
            proof {
                lemma_toml_array_model(*items);
                assert(Seq::new(items.len() as nat, |i: int| toml_model(items@[i])) =~= toml_models(items@));
            }
            match tomls_to_json(items) {
                Ok(out) => {
                    proof {
                        lemma_array_model(out);
                    }
                    Ok(JsonValue::Array(out))
                },
                Err(e) => Err(e),
            }
        },
        TomlValue::Table(entries) => {
            proof {
                lemma_table_model(*entries);
            }
            match entries_to_json(entries) {
                Ok(out) => {
                    proof {
                        lemma_object_model(out);
                    }
                    Ok(JsonValue::Object(out))
                },
                Err(e) => Err(e),
            }
        },
    }
}

// ---------------------------------------------------------------------------
// Restrictions and structural limits
// ---------------------------------------------------------------------------

/// The allowed values of a restriction table, as `restriction_of` states.
fn parse_restriction(t: &Vec<(String, TomlValue)>, keyword: &str) -> (r: Result<Restriction, ProfileError>)
    ensures
        match r {
            Ok(rs) => restriction_of(entries_model(t@), keyword@) == Ok::<Seq<JsonModel>, ProfileFault>(restriction_model(rs)),
            Err(e) => restriction_of(entries_model(t@), keyword@) == Err::<Seq<JsonModel>, ProfileFault>(e@),
        },
{
    match table_get(t, "allowed") {
        Some(TomlValue::Array(items)) => {
            proof {
                lemma_toml_array_model(*items);
                assert(Seq::new(items.len() as nat, |i: int| toml_model(items@[i])) =~= toml_models(items@));
            }
            match tomls_to_json(items) {
                Ok(values) => Ok(Restriction { allowed_values: values }),
                Err(e) => Err(e),
            }
        },
        _ => Err(ProfileError::InvalidRestriction(owned(keyword))),
    }
}

/// A boolean `[structural]` setting.
fn bool_field(name: &str, v: &TomlValue) -> (r: Result<bool, ProfileError>)
    ensures
        match r {
            Ok(b) => bool_setting(name@, v@) == Ok::<bool, ProfileFault>(b),
            Err(e) => bool_setting(name@, v@) == Err::<bool, ProfileFault>(e@),
        },
{
    match v {
        TomlValue::Boolean(b) => Ok(*b),
        _ => Err(ProfileError::InvalidToml(concat3("invalid value for field `", name, "`"))),
    }
}

/// A `[structural]` limit that fits in `u32`.
fn limit_field(name: &str, v: &TomlValue) -> (r: Result<u32, ProfileError>)
    ensures
        match r {
            Ok(n) => limit_setting(name@, v@) == Ok::<u32, ProfileFault>(n),
            Err(e) => limit_setting(name@, v@) == Err::<u32, ProfileFault>(e@),
        },
{
    match v {
        TomlValue::Integer(i) => {
            if 0 <= *i && *i <= 0xffff_ffffi64 {
                Ok(*i as u32)
            } else {
                Err(ProfileError::InvalidToml(concat3("invalid value for field `", name, "`")))
            }
        },
        _ => Err(ProfileError::InvalidToml(concat3("invalid value for field `", name, "`"))),
    }
}

/// The `[structural]` unknown-keyword policy.
fn policy_field(name: &str, v: &TomlValue) -> (r: Result<UnknownKeywordPolicy, ProfileError>)
    ensures
        match r {
            Ok(p) => policy_setting(name@, v@) == Ok::<UnknownKeywordPolicy, ProfileFault>(p),
            Err(e) => policy_setting(name@, v@) == Err::<UnknownKeywordPolicy, ProfileFault>(e@),
        },
{
    match v {
        TomlValue::String(s) => {
            if str_eq(s.as_str(), "allow") {
                Ok(UnknownKeywordPolicy::Allow)
            } else if str_eq(s.as_str(), "warn") {
                Ok(UnknownKeywordPolicy::Warn)
            } else if str_eq(s.as_str(), "forbid") {
                Ok(UnknownKeywordPolicy::Forbid)
            } else {
                Err(ProfileError::InvalidToml(concat3("invalid value for field `", name, "`")))
            }
        },
        _ => Err(ProfileError::InvalidToml(concat3("invalid value for field `", name, "`"))),
    }
}

/// One `[structural]` entry applied to `lim`, as `structural_step` states.
fn apply_structural(lim: StructuralLimits, name: &str, v: &TomlValue) -> (r: Result<StructuralLimits, ProfileError>)
    ensures
        match r {
            Ok(l) => structural_step(lim, name@, v@) == Ok::<StructuralLimits, ProfileFault>(l),
            Err(e) => structural_step(lim, name@, v@) == Err::<StructuralLimits, ProfileFault>(e@),
        },
{
    if str_eq(name, "require_object_root") {
        match bool_field(name, v) {
            Ok(x) => Ok(StructuralLimits { require_object_root: x, ..lim }),
            Err(e) => Err(e),
        }
    } else if str_eq(name, "require_additional_properties_false") {
        match bool_field(name, v) {
            Ok(x) => Ok(StructuralLimits { require_additional_properties_false: x, ..lim }),
            Err(e) => Err(e),
        }
    } else if str_eq(name, "require_all_properties_in_required") {
        match bool_field(name, v) {
            Ok(x) => Ok(StructuralLimits { require_all_properties_in_required: x, ..lim }),
            Err(e) => Err(e),
        }
    } else if str_eq(name, "require_array_items") {
        match bool_field(name, v) {
            Ok(x) => Ok(StructuralLimits { require_array_items: x, ..lim }),
            Err(e) => Err(e),
        }
    } else if str_eq(name, "forbid_root_any_of") {
        match bool_field(name, v) {
            Ok(x) => Ok(StructuralLimits { forbid_root_any_of: x, ..lim }),
            Err(e) => Err(e),
        }
    } else if str_eq(name, "forbid_root_enum") {
        match bool_field(name, v) {
            Ok(x) => Ok(StructuralLimits { forbid_root_enum: x, ..lim }),
            Err(e) => Err(e),
        }
    } else if str_eq(name, "forbid_empty_object") {
        match bool_field(name, v) {
            Ok(x) => Ok(StructuralLimits { forbid_empty_object: x, ..lim }),
            Err(e) => Err(e),
        }
    } else if str_eq(name, "max_object_depth") {
        match limit_field(name, v) {
            Ok(x) => Ok(StructuralLimits { max_object_depth: x, ..lim }),
            Err(e) => Err(e),
        }
    } else if str_eq(name, "max_total_properties") {
        match limit_field(name, v) {
            Ok(x) => Ok(StructuralLimits { max_total_properties: x, ..lim }),
            Err(e) => Err(e),
        }
    } else if str_eq(name, "max_total_enum_values") {
        match limit_field(name, v) {
            Ok(x) => Ok(StructuralLimits { max_total_enum_values: x, ..lim }),
            Err(e) => Err(e),
        }
    } else if str_eq(name, "max_string_length_total") {
        match limit_field(name, v) {
            Ok(x) => Ok(StructuralLimits { max_string_length_total: x, ..lim }),
            Err(e) => Err(e),
        }
    } else if str_eq(name, "enum_string_length_threshold") {
        match limit_field(name, v) {
            Ok(x) => Ok(StructuralLimits { enum_string_length_threshold: x, ..lim }),
            Err(e) => Err(e),
        }
    } else if str_eq(name, "max_enum_string_length") {
        match limit_field(name, v) {
            Ok(x) => Ok(StructuralLimits { max_enum_string_length: x, ..lim }),
            Err(e) => Err(e),
        }
    } else if str_eq(name, "max_optional_properties") {
        match limit_field(name, v) {
            Ok(x) => Ok(StructuralLimits { max_optional_properties: x, ..lim }),
            Err(e) => Err(e),
        }
    } else if str_eq(name, "max_union_properties") {
        match limit_field(name, v) {
            Ok(x) => Ok(StructuralLimits { max_union_properties: x, ..lim }),
            Err(e) => Err(e),
        }
    } else if str_eq(name, "external_refs") {
        match bool_field(name, v) {
            Ok(x) => Ok(StructuralLimits { external_refs: x, ..lim }),
            Err(e) => Err(e),
        }
    } else if str_eq(name, "forbid_allof_with_ref") {
        match bool_field(name, v) {
            Ok(x) => Ok(StructuralLimits { forbid_allof_with_ref: x, ..lim }),
            Err(e) => Err(e),
        }
    } else if str_eq(name, "unknown_keyword_policy") {
        match policy_field(name, v) {
            Ok(x) => Ok(StructuralLimits { unknown_keyword_policy: x, ..lim }),
            Err(e) => Err(e),
        }
    } else {
        Err(ProfileError::InvalidToml(concat3("unknown field `", name, "`")))
    }
}

proof fn lemma_structural_err_sticks(s: Seq<(Seq<char>, TomlModel)>, i: int)
    requires
        0 <= i <= s.len(),
        structural_scan(s.take(i)) is Err,
    ensures
        structural_scan(s) == structural_scan(s.take(i)),
    decreases s.len() - i,
{
    if i < s.len() {
        assert(s.take(i + 1).drop_last() =~= s.take(i));
        lemma_structural_err_sticks(s, i + 1);
    } else {
        assert(s.take(i) =~= s);
    }
}

/// The `[structural]` section, as `structural_of` states.
fn parse_structural(v: Option<&TomlValue>) -> (r: Result<StructuralLimits, ProfileError>)
    ensures
        match r {
            Ok(l) => structural_of(match v { Some(x) => Some(x@), None => None }) == Ok::<StructuralLimits, ProfileFault>(l),
            Err(e) => structural_of(match v { Some(x) => Some(x@), None => None }) == Err::<StructuralLimits, ProfileFault>(e@),
        },
{
    let entries = match v {
        Some(TomlValue::Table(t)) => t,
        _ => {
            return Err(ProfileError::MissingField("[structural] section"));
        },
    };
    proof {
        lemma_table_model(*entries);
    }
    let ghost models = entries_model(entries@);
    let mut lim = StructuralLimits::default();
    let mut i: usize = 0;
    assert(models.take(0) =~= Seq::<(Seq<char>, TomlModel)>::empty());
    while i < entries.len()
        invariant
            i <= entries.len(),
            models == entries_model(entries@),
            v is Some && v.unwrap()@ == TomlModel::Table(models),
            structural_scan(models.take(i as int)) == Ok::<StructuralLimits, ProfileFault>(lim),
        decreases entries.len() - i,
    {
        assert(models.take(i + 1).drop_last() =~= models.take(i as int));
        assert(models.take(i + 1).last() == (entries@[i as int].0@, toml_model(entries@[i as int].1)));
        match apply_structural(lim, entries[i].0.as_str(), &entries[i].1) {
            Ok(next) => {
                lim = next;
            },
            Err(e) => {
                proof {
                    lemma_structural_err_sticks(models, i + 1);
                    assert(models.take(entries.len() as int) =~= models);
                }
                return Err(e);
            },
        }
        i = i + 1;
    }
    assert(models.take(entries.len() as int) =~= models);
    Ok(lim)
}

// ---------------------------------------------------------------------------
// The keyword tables
// ---------------------------------------------------------------------------

/// The keyword tables that two maps hold.
pub open spec fn tables_of(sev: IndexMap<Keyword, Severity>, res: IndexMap<Keyword, Restriction>) -> KeywordTables {
    KeywordTables {
        severities: severity_entries(sev),
        restrictions: restriction_models(restriction_entries(res)),
    }
}

/// One top-level entry of a profile document, as `keyword_entry_step` states.
fn keyword_entry(
    key: &str,
    val: &TomlValue,
    severities: &mut IndexMap<Keyword, Severity>,
    restrictions: &mut IndexMap<Keyword, Restriction>,
) -> (r: Result<(), ProfileError>)
    ensures
        match r {
            Ok(_) => keyword_entry_step(tables_of(*old(severities), *old(restrictions)), key@, val@)
                == Ok::<KeywordTables, ProfileFault>(tables_of(*final(severities), *final(restrictions))),
            Err(e) => keyword_entry_step(tables_of(*old(severities), *old(restrictions)), key@, val@)
                == Err::<KeywordTables, ProfileFault>(e@),
        },
{
    if str_eq(key, "name") || str_eq(key, "version") || str_eq(key, "code_prefix") || str_eq(key, "structural")
        || str_eq(key, "restrictions") {
        return Ok(());
    }
    let kw = match Keyword::from_name(key) {
        Ok(k) => k,
        Err(_) => {
            return Err(ProfileError::UnknownKeyword(owned(key)));
        },
    };
    proof {
        lemma_keyword_named(key@, kw);
    }
    match val {
        TomlValue::String(s) => match Severity::parse(s.as_str()) {
            Ok(sev) => {
                insert_severity(severities, kw, sev);
                Ok(())
            },
            Err(e) => Err(e),
        },
        TomlValue::Table(t) => {
            proof {
                lemma_table_model(*t);
            }
            let kind = value_as_str(table_get(t, "kind"));
            let restricted = match kind {
                Some(k) => str_eq(k, "restricted"),
                None => false,
            };
            if restricted {
                match parse_restriction(t, key) {
                    Ok(rs) => {
                        proof {
                            lemma_restriction_insert(restriction_entries(*restrictions), kw, rs);
                        }
                        insert_restriction(restrictions, kw, rs);
                        Ok(())
                    },
                    Err(e) => Err(e),
                }
            } else {
                Err(ProfileError::InvalidKeywordValue(owned(key)))
            }
        },
        _ => Err(ProfileError::InvalidKeywordValue(owned(key))),
    }
}

proof fn lemma_keyword_scan_err_sticks(s: Seq<(Seq<char>, TomlModel)>, i: int)
    requires
        0 <= i <= s.len(),
        keyword_entries_scan(s.take(i)) is Err,
    ensures
        keyword_entries_scan(s) == keyword_entries_scan(s.take(i)),
    decreases s.len() - i,
{
    if i < s.len() {
        assert(s.take(i + 1).drop_last() =~= s.take(i));
        lemma_keyword_scan_err_sticks(s, i + 1);
    } else {
        assert(s.take(i) =~= s);
    }
}

/// All top-level entries, in order, into the two (empty) maps.
fn scan_keywords(
    entries: &Vec<(String, TomlValue)>,
    severities: &mut IndexMap<Keyword, Severity>,
    restrictions: &mut IndexMap<Keyword, Restriction>,
) -> (r: Result<(), ProfileError>)
    requires
        severity_entries(*old(severities)) == Seq::<(Keyword, Severity)>::empty(),
        restriction_entries(*old(restrictions)) == Seq::<(Keyword, Restriction)>::empty(),
    ensures
        match r {
            Ok(_) => keyword_entries_scan(entries_model(entries@))
                == Ok::<KeywordTables, ProfileFault>(tables_of(*final(severities), *final(restrictions))),
            Err(e) => keyword_entries_scan(entries_model(entries@)) == Err::<KeywordTables, ProfileFault>(e@),
        },
{
    let ghost models = entries_model(entries@);
    let mut i: usize = 0;
    assert(models.take(0) =~= Seq::<(Seq<char>, TomlModel)>::empty());
    assert(restriction_models(restriction_entries(*restrictions)) =~= Seq::<(Keyword, Seq<JsonModel>)>::empty());
    while i < entries.len()
        invariant
            i <= entries.len(),
            models == entries_model(entries@),
            keyword_entries_scan(models.take(i as int)) == Ok::<KeywordTables, ProfileFault>(
                tables_of(*severities, *restrictions),
            ),
        decreases entries.len() - i,
    {
        assert(models.take(i + 1).drop_last() =~= models.take(i as int));
        assert(models.take(i + 1).last() == (entries@[i as int].0@, toml_model(entries@[i as int].1)));
        match keyword_entry(entries[i].0.as_str(), &entries[i].1, severities, restrictions) {
            Ok(_) => {},
            Err(e) => {
                proof {
                    lemma_keyword_scan_err_sticks(models, i + 1);
                    assert(models.take(entries.len() as int) =~= models);
                }
                return Err(e);
            },
        }
        i = i + 1;
    }
    assert(models.take(entries.len() as int) =~= models);
    Ok(())
}

/// One entry of the `[[restrictions]]` array, as `restriction_entry_step` states.
fn restriction_entry(
    entry: &TomlValue,
    severities: &IndexMap<Keyword, Severity>,
    restrictions: &mut IndexMap<Keyword, Restriction>,
) -> (r: Result<(), ProfileError>)
    ensures
        match r {
            Ok(_) => restriction_entry_step(tables_of(*severities, *old(restrictions)), entry@)
                == Ok::<KeywordTables, ProfileFault>(tables_of(*severities, *final(restrictions))),
            Err(e) => restriction_entry_step(tables_of(*severities, *old(restrictions)), entry@)
                == Err::<KeywordTables, ProfileFault>(e@),
        },
{
    let t = match entry {
        TomlValue::Table(t) => t,
        _ => {
            return Err(ProfileError::MissingField("restrictions entry"));
        },
    };
    proof {
        lemma_table_model(*t);
    }
    let text = match value_as_str(table_get(t, "keyword")) {
        Some(x) => x,
        None => {
            return Err(ProfileError::MissingField("restrictions.keyword"));
        },
    };
    let kw = match Keyword::from_name(text) {
        Ok(k) => k,
        Err(_) => {
            return Err(ProfileError::UnknownKeyword(owned(text)));
        },
    };
    proof {
        lemma_keyword_named(text@, kw);
    }
    if severity_map_has(severities, &kw) {
        return Err(ProfileError::ConflictingKeyword(owned(text)));
    }
    match parse_restriction(t, text) {
        Ok(rs) => {
            proof {
                lemma_restriction_insert(restriction_entries(*restrictions), kw, rs);
            }
            insert_restriction(restrictions, kw, rs);
            Ok(())
        },
        Err(e) => Err(e),
    }
}

proof fn lemma_restriction_scan_err_sticks(s: Seq<TomlModel>, start: KeywordTables, i: int)
    requires
        0 <= i <= s.len(),
        restriction_entries_scan(s.take(i), start) is Err,
    ensures
        restriction_entries_scan(s, start) == restriction_entries_scan(s.take(i), start),
    decreases s.len() - i,
{
    if i < s.len() {
        assert(s.take(i + 1).drop_last() =~= s.take(i));
        lemma_restriction_scan_err_sticks(s, start, i + 1);
    } else {
        assert(s.take(i) =~= s);
    }
}

/// The `[[restrictions]]` entries, in order.
fn scan_restrictions(
    items: &Vec<TomlValue>,
    severities: &IndexMap<Keyword, Severity>,
    restrictions: &mut IndexMap<Keyword, Restriction>,
) -> (r: Result<(), ProfileError>)
    ensures
        match r {
            Ok(_) => restriction_entries_scan(toml_models(items@), tables_of(*severities, *old(restrictions)))
                == Ok::<KeywordTables, ProfileFault>(tables_of(*severities, *final(restrictions))),
            Err(e) => restriction_entries_scan(toml_models(items@), tables_of(*severities, *old(restrictions)))
                == Err::<KeywordTables, ProfileFault>(e@),
        },
{
    let ghost models = toml_models(items@);
    let ghost start = tables_of(*severities, *restrictions);
    let mut i: usize = 0;
    assert(models.take(0) =~= Seq::<TomlModel>::empty());
    while i < items.len()
        invariant
            i <= items.len(),
            models == toml_models(items@),
            start == tables_of(*severities, *old(restrictions)),
            restriction_entries_scan(models.take(i as int), start) == Ok::<KeywordTables, ProfileFault>(
                tables_of(*severities, *restrictions),
            ),
        decreases items.len() - i,
    {
        assert(models.take(i + 1).drop_last() =~= models.take(i as int));
        assert(models.take(i + 1).last() == toml_model(items@[i as int]));
        match restriction_entry(&items[i], severities, restrictions) {
            Ok(_) => {},
            Err(e) => {
                proof {
                    lemma_restriction_scan_err_sticks(models, start, i + 1);
                    assert(models.take(items.len() as int) =~= models);
                }
                return Err(e);
            },
        }
        i = i + 1;
    }
    assert(models.take(items.len() as int) =~= models);
    Ok(())
}

proof fn lemma_first_segment(name: Seq<char>, i: int)
    requires
        0 <= i <= name.len(),
        forall|j: int| 0 <= j < i ==> name[j] != '.',
        i == name.len() || name[i] == '.',
    ensures
        first_segment(name) == name.take(i),
    decreases name.len(),
{
    if name.len() == 0 {
        assert(name.take(i) =~= name);
    } else if name[0] == '.' {
        assert(name.take(i) =~= Seq::<char>::empty());
    } else {
        lemma_first_segment(name.drop_first(), i - 1);
        assert(name.take(i) =~= seq![name[0]] + name.drop_first().take(i - 1));
    }
}

/// The text of `name` before its first `.`.
fn text_before_dot(name: &str) -> (r: String)
    ensures
        r@ == first_segment(name@),
{
    let chars = chars_of(name);
    let mut r = String::new();
    let mut i: usize = 0;
    while i < chars.len() && chars[i] != '.'
        invariant
            i <= chars.len(),
            chars@ == name@,
            r@ == chars@.take(i as int),
            forall|j: int| 0 <= j < i ==> chars@[j] != '.',
        decreases chars.len() - i,
    {
        push_char(&mut r, chars[i]);
        assert(chars@.take(i + 1) =~= chars@.take(i as int).push(chars@[i as int]));
        i = i + 1;
    }
    proof {
        lemma_first_segment(name@, i as int);
    }
    r
}

// ---------------------------------------------------------------------------
// Loading
// ---------------------------------------------------------------------------

/// Build a profile from a parsed TOML document, as `profile_of_document`
/// states: `name` is required; `version` defaults to `unknown`;
/// `code_prefix` defaults to the upper-cased text before the first `.` of
/// the name; every other top-level key must be a keyword with a severity or
/// a restricted table; `[[restrictions]]` entries may not redefine a keyword
/// that has a severity; `[structural]` is required.
pub fn load_document(doc: &TomlValue) -> (r: Result<Profile, ProfileError>)
    ensures
        profile_outcome(r) == profile_of_document(doc@),
{
    let t = match doc {
        TomlValue::Table(t) => t,
        _ => {
            return Err(ProfileError::MissingField("root table"));
        },
    };
    proof {
        lemma_table_model(*t);
    }
    let name = match value_as_str(table_get(t, "name")) {
        Some(n) => owned(n),
        None => {
            return Err(ProfileError::MissingField("name"));
        },
    };
    let version = match value_as_str(table_get(t, "version")) {
        Some(v) => owned(v),
        None => owned("unknown"),
    };
    let code_prefix = match value_as_str(table_get(t, "code_prefix")) {
        Some(p) => owned(p),
        None => {
            let segment = text_before_dot(name.as_str());
            to_uppercase(segment.as_str())
        },
    };
    let mut keyword_map = new_severity_map();
    let mut restrictions = new_restriction_map();
    match scan_keywords(t, &mut keyword_map, &mut restrictions) {
        Ok(_) => {},
        Err(e) => {
            return Err(e);
        },
    }
    match table_get(t, "restrictions") {
        None => {},
        Some(TomlValue::Array(items)) => {
            proof {
                lemma_toml_array_model(*items);
                assert(Seq::new(items.len() as nat, |i: int| toml_model(items@[i])) =~= toml_models(items@));
            }
            match scan_restrictions(items, &keyword_map, &mut restrictions) {
                Ok(_) => {},
                Err(e) => {
                    return Err(e);
                },
            }
        },
        Some(_) => {
            return Err(ProfileError::InvalidRestrictionsContainer);
        },
    }
    let structural = match parse_structural(table_get(t, "structural")) {
        Ok(s) => s,
        Err(e) => {
            return Err(e);
        },
    };
    Ok(Profile { name, version, code_prefix, keyword_map, restrictions, structural })
}

/// The profile that the bytes of a profile file describe: the bytes must be
/// UTF-8 and a TOML document.
pub open spec fn profile_of_bytes(bytes: Seq<u8>) -> Result<ProfileModel, ProfileFault> {
    if !vstd::utf8::valid_utf8(bytes) {
        Err(ProfileFault::InvalidSeverity("invalid UTF-8 in profile"@))
    } else {
        match toml_document(vstd::utf8::decode_utf8(bytes)) {
            Err(m) => Err(ProfileFault::InvalidToml(m)),
            Ok(doc) => profile_of_document(doc),
        }
    }
}

/// Load a profile from raw TOML bytes.
pub fn load(bytes: &[u8]) -> (r: Result<Profile, ProfileError>)
    ensures
        profile_outcome(r) == profile_of_bytes(bytes@),
{
    let text = match utf8_text(bytes) {
        Some(t) => t,
        None => {
            return Err(ProfileError::InvalidSeverity(owned("invalid UTF-8 in profile")));
        },
    };
    let doc = match parse_toml_document(text) {
        Ok(d) => d,
        Err(m) => {
            return Err(ProfileError::InvalidToml(m));
        },
    };
    load_document(&doc)
}

/// The message of a profile error.
pub open spec fn profile_error_text(e: ProfileFault) -> Seq<char> {
    match e {
        ProfileFault::InvalidToml(m) => "invalid TOML: "@ + m,
        ProfileFault::MissingField(f) => "missing required field: "@ + f,
        ProfileFault::InvalidSeverity(s) => "invalid severity '"@ + s
            + "'; expected one of: allow, warn, strip, forbid, unknown"@,
        ProfileFault::UnknownKeyword(k) => "unknown JSON Schema keyword '"@ + k + "' in profile"@,
        ProfileFault::InvalidKeywordValue(k) => "invalid value for keyword '"@ + k
            + "'; expected a severity string or restricted table"@,
        ProfileFault::InvalidRestrictionsContainer => "invalid restrictions container; expected an array of tables"@,
        ProfileFault::InvalidRestriction(k) => "invalid restriction for keyword '"@ + k
            + "': missing 'allowed' array"@,
        ProfileFault::ConflictingKeyword(k) => "keyword '"@ + k + "' cannot define both a severity and a restriction"@,
    }
}

impl ProfileError {
    /// The error's message.
    pub fn message(&self) -> (r: String)
        ensures
            r@ == profile_error_text(self@),
    {
        match self {
            ProfileError::InvalidToml(m) => concat2("invalid TOML: ", m.as_str()),
            ProfileError::MissingField(f) => concat2("missing required field: ", f),
            ProfileError::InvalidSeverity(s) => concat3(
                "invalid severity '",
                s.as_str(),
                "'; expected one of: allow, warn, strip, forbid, unknown",
            ),
            ProfileError::UnknownKeyword(k) => concat3("unknown JSON Schema keyword '", k.as_str(), "' in profile"),
            ProfileError::InvalidKeywordValue(k) => concat3(
                "invalid value for keyword '",
                k.as_str(),
                "'; expected a severity string or restricted table",
            ),
            ProfileError::InvalidRestrictionsContainer => owned("invalid restrictions container; expected an array of tables"),
            ProfileError::InvalidRestriction(k) => concat3(
                "invalid restriction for keyword '",
                k.as_str(),
                "': missing 'allowed' array",
            ),
            ProfileError::ConflictingKeyword(k) => concat3(
                "keyword '",
                k.as_str(),
                "' cannot define both a severity and a restriction",
            ),
        }
    }
}

/// Each `[structural]` setting lands on the limit of its own name: a boolean
/// switch set to `b`, a limit set to any `n` that fits in `u32`, or the
/// unknown-keyword policy spelled `allow`, `warn` or `forbid`, changes that
/// one field of the limits read so far to the value given and leaves every
/// other field as it was.
pub proof fn lemma_structural_setting_law(lim: StructuralLimits, b: bool, n: i64)
    ensures
        structural_step(lim, "require_object_root"@, TomlModel::Boolean(b)) == Ok::<StructuralLimits, ProfileFault>(StructuralLimits { require_object_root: b, ..lim }),
        structural_step(lim, "require_additional_properties_false"@, TomlModel::Boolean(b)) == Ok::<StructuralLimits, ProfileFault>(StructuralLimits { require_additional_properties_false: b, ..lim }),
        structural_step(lim, "require_all_properties_in_required"@, TomlModel::Boolean(b)) == Ok::<StructuralLimits, ProfileFault>(StructuralLimits { require_all_properties_in_required: b, ..lim }),
        structural_step(lim, "require_array_items"@, TomlModel::Boolean(b)) == Ok::<StructuralLimits, ProfileFault>(StructuralLimits { require_array_items: b, ..lim }),
        structural_step(lim, "forbid_root_any_of"@, TomlModel::Boolean(b)) == Ok::<StructuralLimits, ProfileFault>(StructuralLimits { forbid_root_any_of: b, ..lim }),
        structural_step(lim, "forbid_root_enum"@, TomlModel::Boolean(b)) == Ok::<StructuralLimits, ProfileFault>(StructuralLimits { forbid_root_enum: b, ..lim }),
        structural_step(lim, "forbid_empty_object"@, TomlModel::Boolean(b)) == Ok::<StructuralLimits, ProfileFault>(StructuralLimits { forbid_empty_object: b, ..lim }),
        structural_step(lim, "external_refs"@, TomlModel::Boolean(b)) == Ok::<StructuralLimits, ProfileFault>(StructuralLimits { external_refs: b, ..lim }),
        structural_step(lim, "forbid_allof_with_ref"@, TomlModel::Boolean(b)) == Ok::<StructuralLimits, ProfileFault>(StructuralLimits { forbid_allof_with_ref: b, ..lim }),
        0 <= n <= u32::MAX ==> structural_step(lim, "max_object_depth"@, TomlModel::Integer(n)) == Ok::<StructuralLimits, ProfileFault>(StructuralLimits { max_object_depth: n as u32, ..lim }),
        0 <= n <= u32::MAX ==> structural_step(lim, "max_total_properties"@, TomlModel::Integer(n)) == Ok::<StructuralLimits, ProfileFault>(StructuralLimits { max_total_properties: n as u32, ..lim }),
        0 <= n <= u32::MAX ==> structural_step(lim, "max_total_enum_values"@, TomlModel::Integer(n)) == Ok::<StructuralLimits, ProfileFault>(StructuralLimits { max_total_enum_values: n as u32, ..lim }),
        0 <= n <= u32::MAX ==> structural_step(lim, "max_string_length_total"@, TomlModel::Integer(n)) == Ok::<StructuralLimits, ProfileFault>(StructuralLimits { max_string_length_total: n as u32, ..lim }),
        0 <= n <= u32::MAX ==> structural_step(lim, "enum_string_length_threshold"@, TomlModel::Integer(n)) == Ok::<StructuralLimits, ProfileFault>(StructuralLimits { enum_string_length_threshold: n as u32, ..lim }),
        0 <= n <= u32::MAX ==> structural_step(lim, "max_enum_string_length"@, TomlModel::Integer(n)) == Ok::<StructuralLimits, ProfileFault>(StructuralLimits { max_enum_string_length: n as u32, ..lim }),
        0 <= n <= u32::MAX ==> structural_step(lim, "max_optional_properties"@, TomlModel::Integer(n)) == Ok::<StructuralLimits, ProfileFault>(StructuralLimits { max_optional_properties: n as u32, ..lim }),
        0 <= n <= u32::MAX ==> structural_step(lim, "max_union_properties"@, TomlModel::Integer(n)) == Ok::<StructuralLimits, ProfileFault>(StructuralLimits { max_union_properties: n as u32, ..lim }),
        structural_step(lim, "unknown_keyword_policy"@, TomlModel::Str("allow"@)) == Ok::<StructuralLimits, ProfileFault>(StructuralLimits { unknown_keyword_policy: UnknownKeywordPolicy::Allow, ..lim }),
        structural_step(lim, "unknown_keyword_policy"@, TomlModel::Str("warn"@)) == Ok::<StructuralLimits, ProfileFault>(StructuralLimits { unknown_keyword_policy: UnknownKeywordPolicy::Warn, ..lim }),
        structural_step(lim, "unknown_keyword_policy"@, TomlModel::Str("forbid"@)) == Ok::<StructuralLimits, ProfileFault>(StructuralLimits { unknown_keyword_policy: UnknownKeywordPolicy::Forbid, ..lim }),
{
    reveal_strlit("require_object_root");
    reveal_strlit("require_additional_properties_false");
    reveal_strlit("require_all_properties_in_required");
    reveal_strlit("require_array_items");
    reveal_strlit("forbid_root_any_of");
    reveal_strlit("forbid_root_enum");
    reveal_strlit("forbid_empty_object");
    reveal_strlit("external_refs");
    reveal_strlit("forbid_allof_with_ref");
    reveal_strlit("max_object_depth");
    reveal_strlit("max_total_properties");
    reveal_strlit("max_total_enum_values");
    reveal_strlit("max_string_length_total");
    reveal_strlit("enum_string_length_threshold");
    reveal_strlit("max_enum_string_length");
    reveal_strlit("max_optional_properties");
    reveal_strlit("max_union_properties");
    reveal_strlit("unknown_keyword_policy");
    reveal_strlit("allow");
    reveal_strlit("warn");
    reveal_strlit("forbid");
    assert("warn"@.len() != "allow"@.len());
    assert("forbid"@.len() != "allow"@.len());
    assert("forbid"@.len() != "warn"@.len());
    assert("require_additional_properties_false"@.len() != "require_object_root"@.len());
    assert("require_all_properties_in_required"@.len() != "require_object_root"@.len());
    assert("require_all_properties_in_required"@.len() != "require_additional_properties_false"@.len());
    assert("require_array_items"@[8] != "require_object_root"@[8]);
    assert("require_array_items"@.len() != "require_additional_properties_false"@.len());
    assert("require_array_items"@.len() != "require_all_properties_in_required"@.len());
    assert("forbid_root_any_of"@.len() != "require_object_root"@.len());
    assert("forbid_root_any_of"@.len() != "require_additional_properties_false"@.len());
    assert("forbid_root_any_of"@.len() != "require_all_properties_in_required"@.len());
    assert("forbid_root_any_of"@.len() != "require_array_items"@.len());
    assert("forbid_root_enum"@.len() != "require_object_root"@.len());
    assert("forbid_root_enum"@.len() != "require_additional_properties_false"@.len());
    assert("forbid_root_enum"@.len() != "require_all_properties_in_required"@.len());
    assert("forbid_root_enum"@.len() != "require_array_items"@.len());
    assert("forbid_root_enum"@.len() != "forbid_root_any_of"@.len());
    assert("forbid_empty_object"@[0] != "require_object_root"@[0]);
    assert("forbid_empty_object"@.len() != "require_additional_properties_false"@.len());
    assert("forbid_empty_object"@.len() != "require_all_properties_in_required"@.len());
    assert("forbid_empty_object"@[0] != "require_array_items"@[0]);
    assert("forbid_empty_object"@.len() != "forbid_root_any_of"@.len());
    assert("forbid_empty_object"@.len() != "forbid_root_enum"@.len());
    assert("max_object_depth"@.len() != "require_object_root"@.len());
    assert("max_object_depth"@.len() != "require_additional_properties_false"@.len());
    assert("max_object_depth"@.len() != "require_all_properties_in_required"@.len());
    assert("max_object_depth"@.len() != "require_array_items"@.len());
    assert("max_object_depth"@.len() != "forbid_root_any_of"@.len());
    assert("max_object_depth"@[0] != "forbid_root_enum"@[0]);
    assert("max_object_depth"@.len() != "forbid_empty_object"@.len());
    assert("max_total_properties"@.len() != "require_object_root"@.len());
    assert("max_total_properties"@.len() != "require_additional_properties_false"@.len());
    assert("max_total_properties"@.len() != "require_all_properties_in_required"@.len());
    assert("max_total_properties"@.len() != "require_array_items"@.len());
    assert("max_total_properties"@.len() != "forbid_root_any_of"@.len());
    assert("max_total_properties"@.len() != "forbid_root_enum"@.len());
    assert("max_total_properties"@.len() != "forbid_empty_object"@.len());
    assert("max_total_properties"@.len() != "max_object_depth"@.len());
    assert("max_total_enum_values"@.len() != "require_object_root"@.len());
    assert("max_total_enum_values"@.len() != "require_additional_properties_false"@.len());
    assert("max_total_enum_values"@.len() != "require_all_properties_in_required"@.len());
    assert("max_total_enum_values"@.len() != "require_array_items"@.len());
    assert("max_total_enum_values"@.len() != "forbid_root_any_of"@.len());
    assert("max_total_enum_values"@.len() != "forbid_root_enum"@.len());
    assert("max_total_enum_values"@.len() != "forbid_empty_object"@.len());
    assert("max_total_enum_values"@.len() != "max_object_depth"@.len());
    assert("max_total_enum_values"@.len() != "max_total_properties"@.len());
    assert("max_string_length_total"@.len() != "require_object_root"@.len());
    assert("max_string_length_total"@.len() != "require_additional_properties_false"@.len());
    assert("max_string_length_total"@.len() != "require_all_properties_in_required"@.len());
    assert("max_string_length_total"@.len() != "require_array_items"@.len());
    assert("max_string_length_total"@.len() != "forbid_root_any_of"@.len());
    assert("max_string_length_total"@.len() != "forbid_root_enum"@.len());
    assert("max_string_length_total"@.len() != "forbid_empty_object"@.len());
    assert("max_string_length_total"@.len() != "max_object_depth"@.len());
    assert("max_string_length_total"@.len() != "max_total_properties"@.len());
    assert("max_string_length_total"@.len() != "max_total_enum_values"@.len());
    assert("enum_string_length_threshold"@.len() != "require_object_root"@.len());
    assert("enum_string_length_threshold"@.len() != "require_additional_properties_false"@.len());
    assert("enum_string_length_threshold"@.len() != "require_all_properties_in_required"@.len());
    assert("enum_string_length_threshold"@.len() != "require_array_items"@.len());
    assert("enum_string_length_threshold"@.len() != "forbid_root_any_of"@.len());
    assert("enum_string_length_threshold"@.len() != "forbid_root_enum"@.len());
    assert("enum_string_length_threshold"@.len() != "forbid_empty_object"@.len());
    assert("enum_string_length_threshold"@.len() != "max_object_depth"@.len());
    assert("enum_string_length_threshold"@.len() != "max_total_properties"@.len());
    assert("enum_string_length_threshold"@.len() != "max_total_enum_values"@.len());
    assert("enum_string_length_threshold"@.len() != "max_string_length_total"@.len());
    assert("max_enum_string_length"@.len() != "require_object_root"@.len());
    assert("max_enum_string_length"@.len() != "require_additional_properties_false"@.len());
    assert("max_enum_string_length"@.len() != "require_all_properties_in_required"@.len());
    assert("max_enum_string_length"@.len() != "require_array_items"@.len());
    assert("max_enum_string_length"@.len() != "forbid_root_any_of"@.len());
    assert("max_enum_string_length"@.len() != "forbid_root_enum"@.len());
    assert("max_enum_string_length"@.len() != "forbid_empty_object"@.len());
    assert("max_enum_string_length"@.len() != "max_object_depth"@.len());
    assert("max_enum_string_length"@.len() != "max_total_properties"@.len());
    assert("max_enum_string_length"@.len() != "max_total_enum_values"@.len());
    assert("max_enum_string_length"@.len() != "max_string_length_total"@.len());
    assert("max_enum_string_length"@.len() != "enum_string_length_threshold"@.len());
    assert("max_optional_properties"@.len() != "require_object_root"@.len());
    assert("max_optional_properties"@.len() != "require_additional_properties_false"@.len());
    assert("max_optional_properties"@.len() != "require_all_properties_in_required"@.len());
    assert("max_optional_properties"@.len() != "require_array_items"@.len());
    assert("max_optional_properties"@.len() != "forbid_root_any_of"@.len());
    assert("max_optional_properties"@.len() != "forbid_root_enum"@.len());
    assert("max_optional_properties"@.len() != "forbid_empty_object"@.len());
    assert("max_optional_properties"@.len() != "max_object_depth"@.len());
    assert("max_optional_properties"@.len() != "max_total_properties"@.len());
    assert("max_optional_properties"@.len() != "max_total_enum_values"@.len());
    assert("max_optional_properties"@[4] != "max_string_length_total"@[4]);
    assert("max_optional_properties"@.len() != "enum_string_length_threshold"@.len());
    assert("max_optional_properties"@.len() != "max_enum_string_length"@.len());
    assert("max_union_properties"@.len() != "require_object_root"@.len());
    assert("max_union_properties"@.len() != "require_additional_properties_false"@.len());
    assert("max_union_properties"@.len() != "require_all_properties_in_required"@.len());
    assert("max_union_properties"@.len() != "require_array_items"@.len());
    assert("max_union_properties"@.len() != "forbid_root_any_of"@.len());
    assert("max_union_properties"@.len() != "forbid_root_enum"@.len());
    assert("max_union_properties"@.len() != "forbid_empty_object"@.len());
    assert("max_union_properties"@.len() != "max_object_depth"@.len());
    assert("max_union_properties"@[4] != "max_total_properties"@[4]);
    assert("max_union_properties"@.len() != "max_total_enum_values"@.len());
    assert("max_union_properties"@.len() != "max_string_length_total"@.len());
    assert("max_union_properties"@.len() != "enum_string_length_threshold"@.len());
    assert("max_union_properties"@.len() != "max_enum_string_length"@.len());
    assert("max_union_properties"@.len() != "max_optional_properties"@.len());
    assert("external_refs"@.len() != "require_object_root"@.len());
    assert("external_refs"@.len() != "require_additional_properties_false"@.len());
    assert("external_refs"@.len() != "require_all_properties_in_required"@.len());
    assert("external_refs"@.len() != "require_array_items"@.len());
    assert("external_refs"@.len() != "forbid_root_any_of"@.len());
    assert("external_refs"@.len() != "forbid_root_enum"@.len());
    assert("external_refs"@.len() != "forbid_empty_object"@.len());
    assert("external_refs"@.len() != "max_object_depth"@.len());
    assert("external_refs"@.len() != "max_total_properties"@.len());
    assert("external_refs"@.len() != "max_total_enum_values"@.len());
    assert("external_refs"@.len() != "max_string_length_total"@.len());
    assert("external_refs"@.len() != "enum_string_length_threshold"@.len());
    assert("external_refs"@.len() != "max_enum_string_length"@.len());
    assert("external_refs"@.len() != "max_optional_properties"@.len());
    assert("external_refs"@.len() != "max_union_properties"@.len());
    assert("forbid_allof_with_ref"@.len() != "require_object_root"@.len());
    assert("forbid_allof_with_ref"@.len() != "require_additional_properties_false"@.len());
    assert("forbid_allof_with_ref"@.len() != "require_all_properties_in_required"@.len());
    assert("forbid_allof_with_ref"@.len() != "require_array_items"@.len());
    assert("forbid_allof_with_ref"@.len() != "forbid_root_any_of"@.len());
    assert("forbid_allof_with_ref"@.len() != "forbid_root_enum"@.len());
    assert("forbid_allof_with_ref"@.len() != "forbid_empty_object"@.len());
    assert("forbid_allof_with_ref"@.len() != "max_object_depth"@.len());
    assert("forbid_allof_with_ref"@.len() != "max_total_properties"@.len());
    assert("forbid_allof_with_ref"@[0] != "max_total_enum_values"@[0]);
    assert("forbid_allof_with_ref"@.len() != "max_string_length_total"@.len());
    assert("forbid_allof_with_ref"@.len() != "enum_string_length_threshold"@.len());
    assert("forbid_allof_with_ref"@.len() != "max_enum_string_length"@.len());
    assert("forbid_allof_with_ref"@.len() != "max_optional_properties"@.len());
    assert("forbid_allof_with_ref"@.len() != "max_union_properties"@.len());
    assert("forbid_allof_with_ref"@.len() != "external_refs"@.len());
    assert("unknown_keyword_policy"@.len() != "require_object_root"@.len());
    assert("unknown_keyword_policy"@.len() != "require_additional_properties_false"@.len());
    assert("unknown_keyword_policy"@.len() != "require_all_properties_in_required"@.len());
    assert("unknown_keyword_policy"@.len() != "require_array_items"@.len());
    assert("unknown_keyword_policy"@.len() != "forbid_root_any_of"@.len());
    assert("unknown_keyword_policy"@.len() != "forbid_root_enum"@.len());
    assert("unknown_keyword_policy"@.len() != "forbid_empty_object"@.len());
    assert("unknown_keyword_policy"@.len() != "max_object_depth"@.len());
    assert("unknown_keyword_policy"@.len() != "max_total_properties"@.len());
    assert("unknown_keyword_policy"@.len() != "max_total_enum_values"@.len());
    assert("unknown_keyword_policy"@.len() != "max_string_length_total"@.len());
    assert("unknown_keyword_policy"@.len() != "enum_string_length_threshold"@.len());
    assert("unknown_keyword_policy"@[0] != "max_enum_string_length"@[0]);
    assert("unknown_keyword_policy"@.len() != "max_optional_properties"@.len());
    assert("unknown_keyword_policy"@.len() != "max_union_properties"@.len());
    assert("unknown_keyword_policy"@.len() != "external_refs"@.len());
    assert("unknown_keyword_policy"@.len() != "forbid_allof_with_ref"@.len());
}

/// A `[structural]` section with a single setting gives the defaults with
/// that one setting applied, or the setting's error.
pub proof fn lemma_structural_section_law(name: Seq<char>, v: TomlModel)
    ensures
        structural_of(Some(TomlModel::Table(seq![(name, v)]))) == structural_step(default_limits(), name, v),
{
    let t = seq![(name, v)];
    assert(t.drop_last() =~= Seq::<(Seq<char>, TomlModel)>::empty());
    assert(t.last() == (name, v));
    assert(structural_scan(t.drop_last()) == Ok::<StructuralLimits, ProfileFault>(default_limits()));
    assert(structural_scan(t) == structural_step(default_limits(), name, v));
}

} // verus!
