//! Stable identities of the structural rules.
use vstd::prelude::*;

use super::parser::{StructuralLimits, UnknownKeywordPolicy};
use crate::text::{chars_of, str_eq, string_from_chars};

verus! {

/// Stable identity shared by profile configuration, production diagnostics,
/// and executable provider truth.
#[derive(Debug, Clone, Copy, PartialEq, Eq, PartialOrd, Ord, Structural)]
pub enum StructuralRuleId {
    ObjectRoot,
    AdditionalPropertiesFalse,
    AllPropertiesRequired,
    ArrayItems,
    RootAnyOf,
    RootEnum,
    EmptyObject,
    MaxDepth,
    MaxTotalProperties,
    MaxTotalEnumValues,
    StringLengthBudget,
    EnumStringLengthBudget,
    MaxOptionalProperties,
    MaxUnionProperties,
    ExternalRefs,
    AllOfWithRef,
}

impl StructuralRuleId {
    /// The rule's configuration name.
    pub open spec fn spec_name(self) -> Seq<char> {
        match self {
            StructuralRuleId::ObjectRoot => "require_object_root"@,
            StructuralRuleId::AdditionalPropertiesFalse => "require_additional_properties_false"@,
            StructuralRuleId::AllPropertiesRequired => "require_all_properties_in_required"@,
            StructuralRuleId::ArrayItems => "require_array_items"@,
            StructuralRuleId::RootAnyOf => "forbid_root_any_of"@,
            StructuralRuleId::RootEnum => "forbid_root_enum"@,
            StructuralRuleId::EmptyObject => "forbid_empty_object"@,
            StructuralRuleId::MaxDepth => "max_object_depth"@,
            StructuralRuleId::MaxTotalProperties => "max_total_properties"@,
            StructuralRuleId::MaxTotalEnumValues => "max_total_enum_values"@,
            StructuralRuleId::StringLengthBudget => "max_string_length_total"@,
            StructuralRuleId::EnumStringLengthBudget => "enum_string_length_budget"@,
            StructuralRuleId::MaxOptionalProperties => "max_optional_properties"@,
            StructuralRuleId::MaxUnionProperties => "max_union_properties"@,
            StructuralRuleId::ExternalRefs => "external_refs"@,
            StructuralRuleId::AllOfWithRef => "forbid_allof_with_ref"@,
        }
    }

    /// The tail of the rule's diagnostic codes.
    pub open spec fn spec_suffix(self) -> Seq<char> {
        match self {
            StructuralRuleId::ObjectRoot => "-S-object-root"@,
            StructuralRuleId::AdditionalPropertiesFalse => "-S-additional-properties-false"@,
            StructuralRuleId::AllPropertiesRequired => "-S-all-properties-required"@,
            StructuralRuleId::ArrayItems => "-S-array-items"@,
            StructuralRuleId::RootAnyOf => "-S-root-anyof"@,
            StructuralRuleId::RootEnum => "-S-root-enum"@,
            StructuralRuleId::EmptyObject => "-S-empty-object"@,
            StructuralRuleId::MaxDepth => "-S-max-depth"@,
            StructuralRuleId::MaxTotalProperties => "-S-max-total-properties"@,
            StructuralRuleId::MaxTotalEnumValues => "-S-max-enum-values"@,
            StructuralRuleId::StringLengthBudget => "-S-string-length-budget"@,
            StructuralRuleId::EnumStringLengthBudget => "-S-enum-string-length-budget"@,
            StructuralRuleId::MaxOptionalProperties => "-S-max-optional-properties"@,
            StructuralRuleId::MaxUnionProperties => "-S-max-union-properties"@,
            StructuralRuleId::ExternalRefs => "-S-external-refs"@,
            StructuralRuleId::AllOfWithRef => "-S-allof-with-ref"@,
        }
    }

    /// The rule's configuration name.
    pub fn name(self) -> (r: &'static str)
        ensures
            r@ == self.spec_name(),
    {
        match self {
            StructuralRuleId::ObjectRoot => "require_object_root",
            StructuralRuleId::AdditionalPropertiesFalse => "require_additional_properties_false",
            StructuralRuleId::AllPropertiesRequired => "require_all_properties_in_required",
            StructuralRuleId::ArrayItems => "require_array_items",
            StructuralRuleId::RootAnyOf => "forbid_root_any_of",
            StructuralRuleId::RootEnum => "forbid_root_enum",
            StructuralRuleId::EmptyObject => "forbid_empty_object",
            StructuralRuleId::MaxDepth => "max_object_depth",
            StructuralRuleId::MaxTotalProperties => "max_total_properties",
            StructuralRuleId::MaxTotalEnumValues => "max_total_enum_values",
            StructuralRuleId::StringLengthBudget => "max_string_length_total",
            StructuralRuleId::EnumStringLengthBudget => "enum_string_length_budget",
            StructuralRuleId::MaxOptionalProperties => "max_optional_properties",
            StructuralRuleId::MaxUnionProperties => "max_union_properties",
            StructuralRuleId::ExternalRefs => "external_refs",
            StructuralRuleId::AllOfWithRef => "forbid_allof_with_ref",
        }
    }

    /// The tail of the rule's diagnostic codes (after the profile prefix).
    pub fn diagnostic_suffix(self) -> (r: &'static str)
        ensures
            r@ == self.spec_suffix(),
    {
        match self {
            StructuralRuleId::ObjectRoot => "-S-object-root",
            StructuralRuleId::AdditionalPropertiesFalse => "-S-additional-properties-false",
            StructuralRuleId::AllPropertiesRequired => "-S-all-properties-required",
            StructuralRuleId::ArrayItems => "-S-array-items",
            StructuralRuleId::RootAnyOf => "-S-root-anyof",
            StructuralRuleId::RootEnum => "-S-root-enum",
            StructuralRuleId::EmptyObject => "-S-empty-object",
            StructuralRuleId::MaxDepth => "-S-max-depth",
            StructuralRuleId::MaxTotalProperties => "-S-max-total-properties",
            StructuralRuleId::MaxTotalEnumValues => "-S-max-enum-values",
            StructuralRuleId::StringLengthBudget => "-S-string-length-budget",
            StructuralRuleId::EnumStringLengthBudget => "-S-enum-string-length-budget",
            StructuralRuleId::MaxOptionalProperties => "-S-max-optional-properties",
            StructuralRuleId::MaxUnionProperties => "-S-max-union-properties",
            StructuralRuleId::ExternalRefs => "-S-external-refs",
            StructuralRuleId::AllOfWithRef => "-S-allof-with-ref",
        }
    }

    /// The rule named `name`, where only the text before the first `__`
    /// counts and a few older spellings are accepted.
    pub fn from_name(name: &str) -> (r: Option<StructuralRuleId>)
        ensures
            r == rule_named(text_before_double_underscore(name@)),
    {
        let base_chars = before_double_underscore(&chars_of(name));
        let base = string_from_chars(&base_chars);
        let b = base.as_str();
        if str_eq(b, "require_object_root") {
            Some(StructuralRuleId::ObjectRoot)
        } else if str_eq(b, "additional_properties_false") {
            Some(StructuralRuleId::AdditionalPropertiesFalse)
        } else if str_eq(b, "require_additional_properties_false") {
            Some(StructuralRuleId::AdditionalPropertiesFalse)
        } else if str_eq(b, "require_all_properties_in_required") {
            Some(StructuralRuleId::AllPropertiesRequired)
        } else if str_eq(b, "require_array_items") {
            Some(StructuralRuleId::ArrayItems)
        } else if str_eq(b, "forbid_root_any_of") {
            Some(StructuralRuleId::RootAnyOf)
        } else if str_eq(b, "forbid_root_enum") {
            Some(StructuralRuleId::RootEnum)
        } else if str_eq(b, "forbid_empty_object") {
            Some(StructuralRuleId::EmptyObject)
        } else if str_eq(b, "max_object_depth") {
            Some(StructuralRuleId::MaxDepth)
        } else if str_eq(b, "max_total_properties") {
            Some(StructuralRuleId::MaxTotalProperties)
        } else if str_eq(b, "max_total_enum_values") {
            Some(StructuralRuleId::MaxTotalEnumValues)
        } else if str_eq(b, "max_string_length_total") {
            Some(StructuralRuleId::StringLengthBudget)
        } else if str_eq(b, "enum_string_length_budget") {
            Some(StructuralRuleId::EnumStringLengthBudget)
        } else if str_eq(b, "max_optional_properties") {
            Some(StructuralRuleId::MaxOptionalProperties)
        } else if str_eq(b, "max_union_properties") {
            Some(StructuralRuleId::MaxUnionProperties)
        } else if str_eq(b, "external_refs") {
            Some(StructuralRuleId::ExternalRefs)
        } else if str_eq(b, "allof_with_ref") {
            Some(StructuralRuleId::AllOfWithRef)
        } else if str_eq(b, "forbid_allof_with_ref") {
            Some(StructuralRuleId::AllOfWithRef)
        } else {
            None
        }
    }
}

/// The rule that a base name (or an older spelling) names.
pub open spec fn rule_named(base: Seq<char>) -> Option<StructuralRuleId> {
    if base == "require_object_root"@ {
        Some(StructuralRuleId::ObjectRoot)
    } else if base == "additional_properties_false"@ {
        Some(StructuralRuleId::AdditionalPropertiesFalse)
    } else if base == "require_additional_properties_false"@ {
        Some(StructuralRuleId::AdditionalPropertiesFalse)
    } else if base == "require_all_properties_in_required"@ {
        Some(StructuralRuleId::AllPropertiesRequired)
    } else if base == "require_array_items"@ {
        Some(StructuralRuleId::ArrayItems)
    } else if base == "forbid_root_any_of"@ {
        Some(StructuralRuleId::RootAnyOf)
    } else if base == "forbid_root_enum"@ {
        Some(StructuralRuleId::RootEnum)
    } else if base == "forbid_empty_object"@ {
        Some(StructuralRuleId::EmptyObject)
    } else if base == "max_object_depth"@ {
        Some(StructuralRuleId::MaxDepth)
    } else if base == "max_total_properties"@ {
        Some(StructuralRuleId::MaxTotalProperties)
    } else if base == "max_total_enum_values"@ {
        Some(StructuralRuleId::MaxTotalEnumValues)
    } else if base == "max_string_length_total"@ {
        Some(StructuralRuleId::StringLengthBudget)
    } else if base == "enum_string_length_budget"@ {
        Some(StructuralRuleId::EnumStringLengthBudget)
    } else if base == "max_optional_properties"@ {
        Some(StructuralRuleId::MaxOptionalProperties)
    } else if base == "max_union_properties"@ {
        Some(StructuralRuleId::MaxUnionProperties)
    } else if base == "external_refs"@ {
        Some(StructuralRuleId::ExternalRefs)
    } else if base == "allof_with_ref"@ {
        Some(StructuralRuleId::AllOfWithRef)
    } else if base == "forbid_allof_with_ref"@ {
        Some(StructuralRuleId::AllOfWithRef)
    } else {
        None
    }
}

/// The text before the first `__` (all of it when there is none).
pub open spec fn text_before_double_underscore(s: Seq<char>) -> Seq<char>
    decreases s.len(),
{
    if s.len() < 2 {
        s
    } else if s[0] == '_' && s[1] == '_' {
        Seq::empty()
    } else {
        seq![s[0]] + text_before_double_underscore(s.drop_first())
    }
}

/// `s` has `__` at position `j`.
pub open spec fn double_at(s: Seq<char>, j: int) -> bool {
    0 <= j && j + 1 < s.len() && s[j] == '_' && s[j + 1] == '_'
}

proof fn lemma_before_at(s: Seq<char>, i: int)
    requires
        0 <= i <= s.len(),
        forall|j: int| 0 <= j < i ==> !#[trigger] double_at(s, j),
        i == s.len() || double_at(s, i) || (i + 1 == s.len()),
    ensures
        text_before_double_underscore(s) == if i + 1 == s.len() { s } else { s.take(i) },
    decreases s.len(),
{
    if s.len() < 2 {
        assert(s.take(i) =~= s || i + 1 == s.len() || s.len() == i);
        if i == s.len() {
            assert(s.take(i) =~= s);
        }
    } else if s[0] == '_' && s[1] == '_' {
        assert(double_at(s, 0));
        assert(i == 0);
        assert(s.take(0) =~= Seq::<char>::empty());
    } else {
        if i == 0 {
            assert(double_at(s, 0));
        }
        assert forall|j: int| 0 <= j < i - 1 implies !#[trigger] double_at(s.drop_first(), j) by {
            assert(!double_at(s, j + 1));
        }
        lemma_before_at(s.drop_first(), i - 1);
        if i + 1 == s.len() {
            assert(s =~= seq![s[0]] + s.drop_first());
        } else {
            assert(s.take(i) =~= seq![s[0]] + s.drop_first().take(i - 1));
        }
    }
}

/// The characters before the first `__`.
pub(crate) fn before_double_underscore(s: &Vec<char>) -> (r: Vec<char>)
    ensures
        r@ == text_before_double_underscore(s@),
{
    let mut i: usize = 0;
    while i < s.len() && i + 1 < s.len() && !(s[i] == '_' && s[i + 1] == '_')
        invariant
            i <= s.len(),
            forall|j: int| 0 <= j < i ==> !#[trigger] double_at(s@, j),
        decreases s.len() - i,
    {
        i = i + 1;
    }
    let end = if i < s.len() && i + 1 < s.len() { i } else { s.len() };
    proof {
        if i < s.len() && i + 1 < s.len() {
            lemma_before_at(s@, i as int);
        } else if i + 1 == s.len() {
            lemma_before_at(s@, i as int);
        } else {
            lemma_before_at(s@, s.len() as int);
        }
    }
    let mut r: Vec<char> = Vec::new();
    let mut k: usize = 0;
    while k < end
        invariant
            k <= end <= s.len(),
            r@ == s@.take(k as int),
        decreases end - k,
    {
        r.push(s[k]);
        assert(s@.take(k + 1) =~= s@.take(k as int).push(s@[k as int]));
        k = k + 1;
    }
    assert(s@.take(s.len() as int) =~= s@);
    r
}

/// The rule `r` when `enabled`, else nothing.
pub open spec fn rule_if(enabled: bool, r: StructuralRuleId) -> Seq<StructuralRuleId> {
    if enabled {
        seq![r]
    } else {
        Seq::empty()
    }
}

/// The rules that a profile's limits enable, in declaration order.
pub open spec fn enabled_rules(l: StructuralLimits) -> Seq<StructuralRuleId> {
    Seq::<StructuralRuleId>::empty()
        + rule_if(l.require_object_root, StructuralRuleId::ObjectRoot)
        + rule_if(l.require_additional_properties_false, StructuralRuleId::AdditionalPropertiesFalse)
        + rule_if(l.require_all_properties_in_required, StructuralRuleId::AllPropertiesRequired)
        + rule_if(l.require_array_items, StructuralRuleId::ArrayItems)
        + rule_if(l.forbid_root_any_of, StructuralRuleId::RootAnyOf)
        + rule_if(l.forbid_root_enum, StructuralRuleId::RootEnum)
        + rule_if(l.forbid_empty_object, StructuralRuleId::EmptyObject)
        + rule_if(l.max_object_depth > 0, StructuralRuleId::MaxDepth)
        + rule_if(l.max_total_properties > 0, StructuralRuleId::MaxTotalProperties)
        + rule_if(l.max_total_enum_values > 0, StructuralRuleId::MaxTotalEnumValues)
        + rule_if(l.max_string_length_total > 0, StructuralRuleId::StringLengthBudget)
        + rule_if(l.enum_string_length_threshold > 0 && l.max_enum_string_length > 0, StructuralRuleId::EnumStringLengthBudget)
        + rule_if(l.max_optional_properties > 0, StructuralRuleId::MaxOptionalProperties)
        + rule_if(l.max_union_properties > 0, StructuralRuleId::MaxUnionProperties)
        + rule_if(l.external_refs, StructuralRuleId::ExternalRefs)
        + rule_if(l.forbid_allof_with_ref, StructuralRuleId::AllOfWithRef)
}

/// Append `r` to `out` when `enabled`.
fn push_if(out: &mut Vec<StructuralRuleId>, enabled: bool, r: StructuralRuleId)
    ensures
        final(out)@ == old(out)@ + rule_if(enabled, r),
{
    if enabled {
        out.push(r);
    }
    assert(out@ =~= old(out)@ + rule_if(enabled, r));
}

impl StructuralLimits {
    /// Every production structural rule enabled by this profile, in
    /// declaration order. A switch enables its rule; a limit enables its
    /// rule when it is non-zero; the enum string budget needs both its
    /// threshold and its length. The unknown-keyword policy is no rule here.
    pub fn enabled_rule_ids(&self) -> (r: Vec<StructuralRuleId>)
        ensures
            r@ == enabled_rules(*self),
    {
        let l = self;
        let mut out: Vec<StructuralRuleId> = Vec::new();
        push_if(&mut out, l.require_object_root, StructuralRuleId::ObjectRoot);
        push_if(&mut out, l.require_additional_properties_false, StructuralRuleId::AdditionalPropertiesFalse);
        push_if(&mut out, l.require_all_properties_in_required, StructuralRuleId::AllPropertiesRequired);
        push_if(&mut out, l.require_array_items, StructuralRuleId::ArrayItems);
        push_if(&mut out, l.forbid_root_any_of, StructuralRuleId::RootAnyOf);
        push_if(&mut out, l.forbid_root_enum, StructuralRuleId::RootEnum);
        push_if(&mut out, l.forbid_empty_object, StructuralRuleId::EmptyObject);
        push_if(&mut out, l.max_object_depth > 0, StructuralRuleId::MaxDepth);
        push_if(&mut out, l.max_total_properties > 0, StructuralRuleId::MaxTotalProperties);
        push_if(&mut out, l.max_total_enum_values > 0, StructuralRuleId::MaxTotalEnumValues);
        push_if(&mut out, l.max_string_length_total > 0, StructuralRuleId::StringLengthBudget);
        push_if(&mut out, l.enum_string_length_threshold > 0 && l.max_enum_string_length > 0, StructuralRuleId::EnumStringLengthBudget);
        push_if(&mut out, l.max_optional_properties > 0, StructuralRuleId::MaxOptionalProperties);
        push_if(&mut out, l.max_union_properties > 0, StructuralRuleId::MaxUnionProperties);
        push_if(&mut out, l.external_refs, StructuralRuleId::ExternalRefs);
        push_if(&mut out, l.forbid_allof_with_ref, StructuralRuleId::AllOfWithRef);
        out
    }
}

/// The position of a rule in declaration order.
pub open spec fn rule_rank(r: StructuralRuleId) -> int {
    match r {
        StructuralRuleId::ObjectRoot => 0,
        StructuralRuleId::AdditionalPropertiesFalse => 1,
        StructuralRuleId::AllPropertiesRequired => 2,
        StructuralRuleId::ArrayItems => 3,
        StructuralRuleId::RootAnyOf => 4,
        StructuralRuleId::RootEnum => 5,
        StructuralRuleId::EmptyObject => 6,
        StructuralRuleId::MaxDepth => 7,
        StructuralRuleId::MaxTotalProperties => 8,
        StructuralRuleId::MaxTotalEnumValues => 9,
        StructuralRuleId::StringLengthBudget => 10,
        StructuralRuleId::EnumStringLengthBudget => 11,
        StructuralRuleId::MaxOptionalProperties => 12,
        StructuralRuleId::MaxUnionProperties => 13,
        StructuralRuleId::ExternalRefs => 14,
        StructuralRuleId::AllOfWithRef => 15,
    }
}

/// The ranks of `s` strictly increase and all stay below `bound`, which
/// bounds the length of `s` too.
#[verifier::opaque]
pub open spec fn ranked_below(s: Seq<StructuralRuleId>, bound: int) -> bool {
    &&& forall|i: int, j: int| 0 <= i < j < s.len() ==> rule_rank(#[trigger] s[i]) < rule_rank(#[trigger] s[j])
    &&& forall|i: int| 0 <= i < s.len() ==> rule_rank(#[trigger] s[i]) < bound
    &&& s.len() <= bound
}

proof fn lemma_append_rule(s: Seq<StructuralRuleId>, enabled: bool, r: StructuralRuleId)
    requires
        ranked_below(s, rule_rank(r)),
    ensures
        ranked_below(s + rule_if(enabled, r), rule_rank(r) + 1),
{
    reveal(ranked_below);
    let t = s + rule_if(enabled, r);
    assert forall|i: int| 0 <= i < t.len() implies rule_rank(#[trigger] t[i]) < rule_rank(r) + 1 by {
        if i < s.len() {
            assert(t[i] == s[i]);
        }
    }
    assert forall|i: int, j: int| 0 <= i < j < t.len() implies rule_rank(#[trigger] t[i]) < rule_rank(#[trigger] t[j]) by {
        assert(t[i] == s[i]);
        if j < s.len() {
            assert(t[j] == s[j]);
        }
    }
}

/// The enabled rules come in strictly increasing declaration order, so no
/// rule is listed twice and there are at most sixteen; and the
/// unknown-keyword policy has no part in them.
pub proof fn lemma_enabled_rules_ordered(l: StructuralLimits, policy: UnknownKeywordPolicy)
    ensures
        forall|i: int, j: int| 0 <= i < j < enabled_rules(l).len()
            ==> rule_rank(#[trigger] enabled_rules(l)[i]) < rule_rank(#[trigger] enabled_rules(l)[j]),
        enabled_rules(l).len() <= 16,
        enabled_rules(StructuralLimits { unknown_keyword_policy: policy, ..l }) == enabled_rules(l),
{
    lemma_enabled_ranked(l);
    reveal(ranked_below);
}

#[verifier::rlimit(40)]
proof fn lemma_enabled_ranked(l: StructuralLimits)
    ensures
        ranked_below(enabled_rules(l), 16),
{
    let s0 = Seq::<StructuralRuleId>::empty();
    assert(ranked_below(s0, 0)) by {
        reveal(ranked_below);
    }
    lemma_append_rule(s0, l.require_object_root, StructuralRuleId::ObjectRoot);
    let s1 = s0 + rule_if(l.require_object_root, StructuralRuleId::ObjectRoot);
    lemma_append_rule(s1, l.require_additional_properties_false, StructuralRuleId::AdditionalPropertiesFalse);
    let s2 = s1 + rule_if(l.require_additional_properties_false, StructuralRuleId::AdditionalPropertiesFalse);
    lemma_append_rule(s2, l.require_all_properties_in_required, StructuralRuleId::AllPropertiesRequired);
    let s3 = s2 + rule_if(l.require_all_properties_in_required, StructuralRuleId::AllPropertiesRequired);
    lemma_append_rule(s3, l.require_array_items, StructuralRuleId::ArrayItems);
    let s4 = s3 + rule_if(l.require_array_items, StructuralRuleId::ArrayItems);
    lemma_append_rule(s4, l.forbid_root_any_of, StructuralRuleId::RootAnyOf);
    let s5 = s4 + rule_if(l.forbid_root_any_of, StructuralRuleId::RootAnyOf);
    lemma_append_rule(s5, l.forbid_root_enum, StructuralRuleId::RootEnum);
    let s6 = s5 + rule_if(l.forbid_root_enum, StructuralRuleId::RootEnum);
    lemma_append_rule(s6, l.forbid_empty_object, StructuralRuleId::EmptyObject);
    let s7 = s6 + rule_if(l.forbid_empty_object, StructuralRuleId::EmptyObject);
    lemma_append_rule(s7, l.max_object_depth > 0, StructuralRuleId::MaxDepth);
    let s8 = s7 + rule_if(l.max_object_depth > 0, StructuralRuleId::MaxDepth);
    lemma_append_rule(s8, l.max_total_properties > 0, StructuralRuleId::MaxTotalProperties);
    let s9 = s8 + rule_if(l.max_total_properties > 0, StructuralRuleId::MaxTotalProperties);
    lemma_append_rule(s9, l.max_total_enum_values > 0, StructuralRuleId::MaxTotalEnumValues);
    let s10 = s9 + rule_if(l.max_total_enum_values > 0, StructuralRuleId::MaxTotalEnumValues);
    lemma_append_rule(s10, l.max_string_length_total > 0, StructuralRuleId::StringLengthBudget);
    let s11 = s10 + rule_if(l.max_string_length_total > 0, StructuralRuleId::StringLengthBudget);
    lemma_append_rule(s11, l.enum_string_length_threshold > 0 && l.max_enum_string_length > 0, StructuralRuleId::EnumStringLengthBudget);
    let s12 = s11 + rule_if(l.enum_string_length_threshold > 0 && l.max_enum_string_length > 0, StructuralRuleId::EnumStringLengthBudget);
    lemma_append_rule(s12, l.max_optional_properties > 0, StructuralRuleId::MaxOptionalProperties);
    let s13 = s12 + rule_if(l.max_optional_properties > 0, StructuralRuleId::MaxOptionalProperties);
    lemma_append_rule(s13, l.max_union_properties > 0, StructuralRuleId::MaxUnionProperties);
    let s14 = s13 + rule_if(l.max_union_properties > 0, StructuralRuleId::MaxUnionProperties);
    lemma_append_rule(s14, l.external_refs, StructuralRuleId::ExternalRefs);
    let s15 = s14 + rule_if(l.external_refs, StructuralRuleId::ExternalRefs);
    lemma_append_rule(s15, l.forbid_allof_with_ref, StructuralRuleId::AllOfWithRef);
    let s16 = s15 + rule_if(l.forbid_allof_with_ref, StructuralRuleId::AllOfWithRef);
    assert(s16 == enabled_rules(l));
}

/// `a` has no `__` and does not end in `_`.
pub open spec fn clean_base(a: Seq<char>) -> bool {
    a.len() > 0 && a.last() != '_' && forall|j: int| 0 <= j < a.len() ==> !#[trigger] double_at(a, j)
}

proof fn lemma_clean_base(a: Seq<char>, tail: Seq<char>)
    requires
        clean_base(a),
    ensures
        text_before_double_underscore(a) == a,
        text_before_double_underscore(a + seq!['_', '_'] + tail) == a,
{
    lemma_before_at(a, a.len() as int);
    assert(a.take(a.len() as int) =~= a);
    let s = a + seq!['_', '_'] + tail;
    assert forall|j: int| 0 <= j < a.len() implies !#[trigger] double_at(s, j) by {
        if j + 1 < a.len() {
            assert(!double_at(a, j));
        }
    }
    assert(double_at(s, a.len() as int));
    lemma_before_at(s, a.len() as int);
    assert(s.take(a.len() as int) =~= a);
}

proof fn lemma_rule_names_clean(r: StructuralRuleId)
    ensures
        clean_base(r.spec_name()),
{
    reveal_strlit("require_object_root");
    reveal_strlit("require_additional_properties_false");
    reveal_strlit("require_all_properties_in_required");
    reveal_strlit("require_array_items");
    reveal_strlit("forbid_root_any_of");
    reveal_strlit("forbid_root_enum");
    reveal_strlit("forbid_empty_object");
    reveal_strlit("max_object_depth");
    reveal_strlit("max_total_properties");
    reveal_strlit("max_total_enum_values");
    reveal_strlit("max_string_length_total");
    reveal_strlit("enum_string_length_budget");
    reveal_strlit("max_optional_properties");
    reveal_strlit("max_union_properties");
    reveal_strlit("external_refs");
    reveal_strlit("forbid_allof_with_ref");
    match r {
        StructuralRuleId::ObjectRoot => {
            let a = "require_object_root"@;
            assert(a.len() == 19);
            assert forall|j: int| 0 <= j < a.len() implies !#[trigger] double_at(a, j) by {
                if j == 0 { assert(!double_at(a, 0)); } else if j == 1 { assert(!double_at(a, 1)); } else if j == 2 { assert(!double_at(a, 2)); } else if j == 3 { assert(!double_at(a, 3)); } else if j == 4 { assert(!double_at(a, 4)); } else if j == 5 { assert(!double_at(a, 5)); } else if j == 6 { assert(!double_at(a, 6)); } else if j == 7 { assert(!double_at(a, 7)); } else if j == 8 { assert(!double_at(a, 8)); } else if j == 9 { assert(!double_at(a, 9)); } else if j == 10 { assert(!double_at(a, 10)); } else if j == 11 { assert(!double_at(a, 11)); } else if j == 12 { assert(!double_at(a, 12)); } else if j == 13 { assert(!double_at(a, 13)); } else if j == 14 { assert(!double_at(a, 14)); } else if j == 15 { assert(!double_at(a, 15)); } else if j == 16 { assert(!double_at(a, 16)); } else if j == 17 { assert(!double_at(a, 17)); } else if j == 18 { assert(!double_at(a, 18)); }
            }
        },
        StructuralRuleId::AdditionalPropertiesFalse => {
            let a = "require_additional_properties_false"@;
            assert(a.len() == 35);
            assert forall|j: int| 0 <= j < a.len() implies !#[trigger] double_at(a, j) by {
                if j == 0 { assert(!double_at(a, 0)); } else if j == 1 { assert(!double_at(a, 1)); } else if j == 2 { assert(!double_at(a, 2)); } else if j == 3 { assert(!double_at(a, 3)); } else if j == 4 { assert(!double_at(a, 4)); } else if j == 5 { assert(!double_at(a, 5)); } else if j == 6 { assert(!double_at(a, 6)); } else if j == 7 { assert(!double_at(a, 7)); } else if j == 8 { assert(!double_at(a, 8)); } else if j == 9 { assert(!double_at(a, 9)); } else if j == 10 { assert(!double_at(a, 10)); } else if j == 11 { assert(!double_at(a, 11)); } else if j == 12 { assert(!double_at(a, 12)); } else if j == 13 { assert(!double_at(a, 13)); } else if j == 14 { assert(!double_at(a, 14)); } else if j == 15 { assert(!double_at(a, 15)); } else if j == 16 { assert(!double_at(a, 16)); } else if j == 17 { assert(!double_at(a, 17)); } else if j == 18 { assert(!double_at(a, 18)); } else if j == 19 { assert(!double_at(a, 19)); } else if j == 20 { assert(!double_at(a, 20)); } else if j == 21 { assert(!double_at(a, 21)); } else if j == 22 { assert(!double_at(a, 22)); } else if j == 23 { assert(!double_at(a, 23)); } else if j == 24 { assert(!double_at(a, 24)); } else if j == 25 { assert(!double_at(a, 25)); } else if j == 26 { assert(!double_at(a, 26)); } else if j == 27 { assert(!double_at(a, 27)); } else if j == 28 { assert(!double_at(a, 28)); } else if j == 29 { assert(!double_at(a, 29)); } else if j == 30 { assert(!double_at(a, 30)); } else if j == 31 { assert(!double_at(a, 31)); } else if j == 32 { assert(!double_at(a, 32)); } else if j == 33 { assert(!double_at(a, 33)); } else if j == 34 { assert(!double_at(a, 34)); }
            }
        },
        StructuralRuleId::AllPropertiesRequired => {
            let a = "require_all_properties_in_required"@;
            assert(a.len() == 34);
            assert forall|j: int| 0 <= j < a.len() implies !#[trigger] double_at(a, j) by {
                if j == 0 { assert(!double_at(a, 0)); } else if j == 1 { assert(!double_at(a, 1)); } else if j == 2 { assert(!double_at(a, 2)); } else if j == 3 { assert(!double_at(a, 3)); } else if j == 4 { assert(!double_at(a, 4)); } else if j == 5 { assert(!double_at(a, 5)); } else if j == 6 { assert(!double_at(a, 6)); } else if j == 7 { assert(!double_at(a, 7)); } else if j == 8 { assert(!double_at(a, 8)); } else if j == 9 { assert(!double_at(a, 9)); } else if j == 10 { assert(!double_at(a, 10)); } else if j == 11 { assert(!double_at(a, 11)); } else if j == 12 { assert(!double_at(a, 12)); } else if j == 13 { assert(!double_at(a, 13)); } else if j == 14 { assert(!double_at(a, 14)); } else if j == 15 { assert(!double_at(a, 15)); } else if j == 16 { assert(!double_at(a, 16)); } else if j == 17 { assert(!double_at(a, 17)); } else if j == 18 { assert(!double_at(a, 18)); } else if j == 19 { assert(!double_at(a, 19)); } else if j == 20 { assert(!double_at(a, 20)); } else if j == 21 { assert(!double_at(a, 21)); } else if j == 22 { assert(!double_at(a, 22)); } else if j == 23 { assert(!double_at(a, 23)); } else if j == 24 { assert(!double_at(a, 24)); } else if j == 25 { assert(!double_at(a, 25)); } else if j == 26 { assert(!double_at(a, 26)); } else if j == 27 { assert(!double_at(a, 27)); } else if j == 28 { assert(!double_at(a, 28)); } else if j == 29 { assert(!double_at(a, 29)); } else if j == 30 { assert(!double_at(a, 30)); } else if j == 31 { assert(!double_at(a, 31)); } else if j == 32 { assert(!double_at(a, 32)); } else if j == 33 { assert(!double_at(a, 33)); }
            }
        },
        StructuralRuleId::ArrayItems => {
            let a = "require_array_items"@;
            assert(a.len() == 19);
            assert forall|j: int| 0 <= j < a.len() implies !#[trigger] double_at(a, j) by {
                if j == 0 { assert(!double_at(a, 0)); } else if j == 1 { assert(!double_at(a, 1)); } else if j == 2 { assert(!double_at(a, 2)); } else if j == 3 { assert(!double_at(a, 3)); } else if j == 4 { assert(!double_at(a, 4)); } else if j == 5 { assert(!double_at(a, 5)); } else if j == 6 { assert(!double_at(a, 6)); } else if j == 7 { assert(!double_at(a, 7)); } else if j == 8 { assert(!double_at(a, 8)); } else if j == 9 { assert(!double_at(a, 9)); } else if j == 10 { assert(!double_at(a, 10)); } else if j == 11 { assert(!double_at(a, 11)); } else if j == 12 { assert(!double_at(a, 12)); } else if j == 13 { assert(!double_at(a, 13)); } else if j == 14 { assert(!double_at(a, 14)); } else if j == 15 { assert(!double_at(a, 15)); } else if j == 16 { assert(!double_at(a, 16)); } else if j == 17 { assert(!double_at(a, 17)); } else if j == 18 { assert(!double_at(a, 18)); }
            }
        },
        StructuralRuleId::RootAnyOf => {
            let a = "forbid_root_any_of"@;
            assert(a.len() == 18);
            assert forall|j: int| 0 <= j < a.len() implies !#[trigger] double_at(a, j) by {
                if j == 0 { assert(!double_at(a, 0)); } else if j == 1 { assert(!double_at(a, 1)); } else if j == 2 { assert(!double_at(a, 2)); } else if j == 3 { assert(!double_at(a, 3)); } else if j == 4 { assert(!double_at(a, 4)); } else if j == 5 { assert(!double_at(a, 5)); } else if j == 6 { assert(!double_at(a, 6)); } else if j == 7 { assert(!double_at(a, 7)); } else if j == 8 { assert(!double_at(a, 8)); } else if j == 9 { assert(!double_at(a, 9)); } else if j == 10 { assert(!double_at(a, 10)); } else if j == 11 { assert(!double_at(a, 11)); } else if j == 12 { assert(!double_at(a, 12)); } else if j == 13 { assert(!double_at(a, 13)); } else if j == 14 { assert(!double_at(a, 14)); } else if j == 15 { assert(!double_at(a, 15)); } else if j == 16 { assert(!double_at(a, 16)); } else if j == 17 { assert(!double_at(a, 17)); }
            }
        },
        StructuralRuleId::RootEnum => {
            let a = "forbid_root_enum"@;
            assert(a.len() == 16);
            assert forall|j: int| 0 <= j < a.len() implies !#[trigger] double_at(a, j) by {
                if j == 0 { assert(!double_at(a, 0)); } else if j == 1 { assert(!double_at(a, 1)); } else if j == 2 { assert(!double_at(a, 2)); } else if j == 3 { assert(!double_at(a, 3)); } else if j == 4 { assert(!double_at(a, 4)); } else if j == 5 { assert(!double_at(a, 5)); } else if j == 6 { assert(!double_at(a, 6)); } else if j == 7 { assert(!double_at(a, 7)); } else if j == 8 { assert(!double_at(a, 8)); } else if j == 9 { assert(!double_at(a, 9)); } else if j == 10 { assert(!double_at(a, 10)); } else if j == 11 { assert(!double_at(a, 11)); } else if j == 12 { assert(!double_at(a, 12)); } else if j == 13 { assert(!double_at(a, 13)); } else if j == 14 { assert(!double_at(a, 14)); } else if j == 15 { assert(!double_at(a, 15)); }
            }
        },
        StructuralRuleId::EmptyObject => {
            let a = "forbid_empty_object"@;
            assert(a.len() == 19);
            assert forall|j: int| 0 <= j < a.len() implies !#[trigger] double_at(a, j) by {
                if j == 0 { assert(!double_at(a, 0)); } else if j == 1 { assert(!double_at(a, 1)); } else if j == 2 { assert(!double_at(a, 2)); } else if j == 3 { assert(!double_at(a, 3)); } else if j == 4 { assert(!double_at(a, 4)); } else if j == 5 { assert(!double_at(a, 5)); } else if j == 6 { assert(!double_at(a, 6)); } else if j == 7 { assert(!double_at(a, 7)); } else if j == 8 { assert(!double_at(a, 8)); } else if j == 9 { assert(!double_at(a, 9)); } else if j == 10 { assert(!double_at(a, 10)); } else if j == 11 { assert(!double_at(a, 11)); } else if j == 12 { assert(!double_at(a, 12)); } else if j == 13 { assert(!double_at(a, 13)); } else if j == 14 { assert(!double_at(a, 14)); } else if j == 15 { assert(!double_at(a, 15)); } else if j == 16 { assert(!double_at(a, 16)); } else if j == 17 { assert(!double_at(a, 17)); } else if j == 18 { assert(!double_at(a, 18)); }
            }
        },
        StructuralRuleId::MaxDepth => {
            let a = "max_object_depth"@;
            assert(a.len() == 16);
            assert forall|j: int| 0 <= j < a.len() implies !#[trigger] double_at(a, j) by {
                if j == 0 { assert(!double_at(a, 0)); } else if j == 1 { assert(!double_at(a, 1)); } else if j == 2 { assert(!double_at(a, 2)); } else if j == 3 { assert(!double_at(a, 3)); } else if j == 4 { assert(!double_at(a, 4)); } else if j == 5 { assert(!double_at(a, 5)); } else if j == 6 { assert(!double_at(a, 6)); } else if j == 7 { assert(!double_at(a, 7)); } else if j == 8 { assert(!double_at(a, 8)); } else if j == 9 { assert(!double_at(a, 9)); } else if j == 10 { assert(!double_at(a, 10)); } else if j == 11 { assert(!double_at(a, 11)); } else if j == 12 { assert(!double_at(a, 12)); } else if j == 13 { assert(!double_at(a, 13)); } else if j == 14 { assert(!double_at(a, 14)); } else if j == 15 { assert(!double_at(a, 15)); }
            }
        },
        StructuralRuleId::MaxTotalProperties => {
            let a = "max_total_properties"@;
            assert(a.len() == 20);
            assert forall|j: int| 0 <= j < a.len() implies !#[trigger] double_at(a, j) by {
                if j == 0 { assert(!double_at(a, 0)); } else if j == 1 { assert(!double_at(a, 1)); } else if j == 2 { assert(!double_at(a, 2)); } else if j == 3 { assert(!double_at(a, 3)); } else if j == 4 { assert(!double_at(a, 4)); } else if j == 5 { assert(!double_at(a, 5)); } else if j == 6 { assert(!double_at(a, 6)); } else if j == 7 { assert(!double_at(a, 7)); } else if j == 8 { assert(!double_at(a, 8)); } else if j == 9 { assert(!double_at(a, 9)); } else if j == 10 { assert(!double_at(a, 10)); } else if j == 11 { assert(!double_at(a, 11)); } else if j == 12 { assert(!double_at(a, 12)); } else if j == 13 { assert(!double_at(a, 13)); } else if j == 14 { assert(!double_at(a, 14)); } else if j == 15 { assert(!double_at(a, 15)); } else if j == 16 { assert(!double_at(a, 16)); } else if j == 17 { assert(!double_at(a, 17)); } else if j == 18 { assert(!double_at(a, 18)); } else if j == 19 { assert(!double_at(a, 19)); }
            }
        },
        StructuralRuleId::MaxTotalEnumValues => {
            let a = "max_total_enum_values"@;
            assert(a.len() == 21);
            assert forall|j: int| 0 <= j < a.len() implies !#[trigger] double_at(a, j) by {
                if j == 0 { assert(!double_at(a, 0)); } else if j == 1 { assert(!double_at(a, 1)); } else if j == 2 { assert(!double_at(a, 2)); } else if j == 3 { assert(!double_at(a, 3)); } else if j == 4 { assert(!double_at(a, 4)); } else if j == 5 { assert(!double_at(a, 5)); } else if j == 6 { assert(!double_at(a, 6)); } else if j == 7 { assert(!double_at(a, 7)); } else if j == 8 { assert(!double_at(a, 8)); } else if j == 9 { assert(!double_at(a, 9)); } else if j == 10 { assert(!double_at(a, 10)); } else if j == 11 { assert(!double_at(a, 11)); } else if j == 12 { assert(!double_at(a, 12)); } else if j == 13 { assert(!double_at(a, 13)); } else if j == 14 { assert(!double_at(a, 14)); } else if j == 15 { assert(!double_at(a, 15)); } else if j == 16 { assert(!double_at(a, 16)); } else if j == 17 { assert(!double_at(a, 17)); } else if j == 18 { assert(!double_at(a, 18)); } else if j == 19 { assert(!double_at(a, 19)); } else if j == 20 { assert(!double_at(a, 20)); }
            }
        },
        StructuralRuleId::StringLengthBudget => {
            let a = "max_string_length_total"@;
            assert(a.len() == 23);
            assert forall|j: int| 0 <= j < a.len() implies !#[trigger] double_at(a, j) by {
                if j == 0 { assert(!double_at(a, 0)); } else if j == 1 { assert(!double_at(a, 1)); } else if j == 2 { assert(!double_at(a, 2)); } else if j == 3 { assert(!double_at(a, 3)); } else if j == 4 { assert(!double_at(a, 4)); } else if j == 5 { assert(!double_at(a, 5)); } else if j == 6 { assert(!double_at(a, 6)); } else if j == 7 { assert(!double_at(a, 7)); } else if j == 8 { assert(!double_at(a, 8)); } else if j == 9 { assert(!double_at(a, 9)); } else if j == 10 { assert(!double_at(a, 10)); } else if j == 11 { assert(!double_at(a, 11)); } else if j == 12 { assert(!double_at(a, 12)); } else if j == 13 { assert(!double_at(a, 13)); } else if j == 14 { assert(!double_at(a, 14)); } else if j == 15 { assert(!double_at(a, 15)); } else if j == 16 { assert(!double_at(a, 16)); } else if j == 17 { assert(!double_at(a, 17)); } else if j == 18 { assert(!double_at(a, 18)); } else if j == 19 { assert(!double_at(a, 19)); } else if j == 20 { assert(!double_at(a, 20)); } else if j == 21 { assert(!double_at(a, 21)); } else if j == 22 { assert(!double_at(a, 22)); }
            }
        },
        StructuralRuleId::EnumStringLengthBudget => {
            let a = "enum_string_length_budget"@;
            assert(a.len() == 25);
            assert forall|j: int| 0 <= j < a.len() implies !#[trigger] double_at(a, j) by {
                if j == 0 { assert(!double_at(a, 0)); } else if j == 1 { assert(!double_at(a, 1)); } else if j == 2 { assert(!double_at(a, 2)); } else if j == 3 { assert(!double_at(a, 3)); } else if j == 4 { assert(!double_at(a, 4)); } else if j == 5 { assert(!double_at(a, 5)); } else if j == 6 { assert(!double_at(a, 6)); } else if j == 7 { assert(!double_at(a, 7)); } else if j == 8 { assert(!double_at(a, 8)); } else if j == 9 { assert(!double_at(a, 9)); } else if j == 10 { assert(!double_at(a, 10)); } else if j == 11 { assert(!double_at(a, 11)); } else if j == 12 { assert(!double_at(a, 12)); } else if j == 13 { assert(!double_at(a, 13)); } else if j == 14 { assert(!double_at(a, 14)); } else if j == 15 { assert(!double_at(a, 15)); } else if j == 16 { assert(!double_at(a, 16)); } else if j == 17 { assert(!double_at(a, 17)); } else if j == 18 { assert(!double_at(a, 18)); } else if j == 19 { assert(!double_at(a, 19)); } else if j == 20 { assert(!double_at(a, 20)); } else if j == 21 { assert(!double_at(a, 21)); } else if j == 22 { assert(!double_at(a, 22)); } else if j == 23 { assert(!double_at(a, 23)); } else if j == 24 { assert(!double_at(a, 24)); }
            }
        },
        StructuralRuleId::MaxOptionalProperties => {
            let a = "max_optional_properties"@;
            assert(a.len() == 23);
            assert forall|j: int| 0 <= j < a.len() implies !#[trigger] double_at(a, j) by {
                if j == 0 { assert(!double_at(a, 0)); } else if j == 1 { assert(!double_at(a, 1)); } else if j == 2 { assert(!double_at(a, 2)); } else if j == 3 { assert(!double_at(a, 3)); } else if j == 4 { assert(!double_at(a, 4)); } else if j == 5 { assert(!double_at(a, 5)); } else if j == 6 { assert(!double_at(a, 6)); } else if j == 7 { assert(!double_at(a, 7)); } else if j == 8 { assert(!double_at(a, 8)); } else if j == 9 { assert(!double_at(a, 9)); } else if j == 10 { assert(!double_at(a, 10)); } else if j == 11 { assert(!double_at(a, 11)); } else if j == 12 { assert(!double_at(a, 12)); } else if j == 13 { assert(!double_at(a, 13)); } else if j == 14 { assert(!double_at(a, 14)); } else if j == 15 { assert(!double_at(a, 15)); } else if j == 16 { assert(!double_at(a, 16)); } else if j == 17 { assert(!double_at(a, 17)); } else if j == 18 { assert(!double_at(a, 18)); } else if j == 19 { assert(!double_at(a, 19)); } else if j == 20 { assert(!double_at(a, 20)); } else if j == 21 { assert(!double_at(a, 21)); } else if j == 22 { assert(!double_at(a, 22)); }
            }
        },
        StructuralRuleId::MaxUnionProperties => {
            let a = "max_union_properties"@;
            assert(a.len() == 20);
            assert forall|j: int| 0 <= j < a.len() implies !#[trigger] double_at(a, j) by {
                if j == 0 { assert(!double_at(a, 0)); } else if j == 1 { assert(!double_at(a, 1)); } else if j == 2 { assert(!double_at(a, 2)); } else if j == 3 { assert(!double_at(a, 3)); } else if j == 4 { assert(!double_at(a, 4)); } else if j == 5 { assert(!double_at(a, 5)); } else if j == 6 { assert(!double_at(a, 6)); } else if j == 7 { assert(!double_at(a, 7)); } else if j == 8 { assert(!double_at(a, 8)); } else if j == 9 { assert(!double_at(a, 9)); } else if j == 10 { assert(!double_at(a, 10)); } else if j == 11 { assert(!double_at(a, 11)); } else if j == 12 { assert(!double_at(a, 12)); } else if j == 13 { assert(!double_at(a, 13)); } else if j == 14 { assert(!double_at(a, 14)); } else if j == 15 { assert(!double_at(a, 15)); } else if j == 16 { assert(!double_at(a, 16)); } else if j == 17 { assert(!double_at(a, 17)); } else if j == 18 { assert(!double_at(a, 18)); } else if j == 19 { assert(!double_at(a, 19)); }
            }
        },
        StructuralRuleId::ExternalRefs => {
            let a = "external_refs"@;
            assert(a.len() == 13);
            assert forall|j: int| 0 <= j < a.len() implies !#[trigger] double_at(a, j) by {
                if j == 0 { assert(!double_at(a, 0)); } else if j == 1 { assert(!double_at(a, 1)); } else if j == 2 { assert(!double_at(a, 2)); } else if j == 3 { assert(!double_at(a, 3)); } else if j == 4 { assert(!double_at(a, 4)); } else if j == 5 { assert(!double_at(a, 5)); } else if j == 6 { assert(!double_at(a, 6)); } else if j == 7 { assert(!double_at(a, 7)); } else if j == 8 { assert(!double_at(a, 8)); } else if j == 9 { assert(!double_at(a, 9)); } else if j == 10 { assert(!double_at(a, 10)); } else if j == 11 { assert(!double_at(a, 11)); } else if j == 12 { assert(!double_at(a, 12)); }
            }
        },
        StructuralRuleId::AllOfWithRef => {
            let a = "forbid_allof_with_ref"@;
            assert(a.len() == 21);
            assert forall|j: int| 0 <= j < a.len() implies !#[trigger] double_at(a, j) by {
                if j == 0 { assert(!double_at(a, 0)); } else if j == 1 { assert(!double_at(a, 1)); } else if j == 2 { assert(!double_at(a, 2)); } else if j == 3 { assert(!double_at(a, 3)); } else if j == 4 { assert(!double_at(a, 4)); } else if j == 5 { assert(!double_at(a, 5)); } else if j == 6 { assert(!double_at(a, 6)); } else if j == 7 { assert(!double_at(a, 7)); } else if j == 8 { assert(!double_at(a, 8)); } else if j == 9 { assert(!double_at(a, 9)); } else if j == 10 { assert(!double_at(a, 10)); } else if j == 11 { assert(!double_at(a, 11)); } else if j == 12 { assert(!double_at(a, 12)); } else if j == 13 { assert(!double_at(a, 13)); } else if j == 14 { assert(!double_at(a, 14)); } else if j == 15 { assert(!double_at(a, 15)); } else if j == 16 { assert(!double_at(a, 16)); } else if j == 17 { assert(!double_at(a, 17)); } else if j == 18 { assert(!double_at(a, 18)); } else if j == 19 { assert(!double_at(a, 19)); } else if j == 20 { assert(!double_at(a, 20)); }
            }
        },
    }
}

/// The name round trip, as a law: `StructuralRuleId::from_name` inverts
/// `StructuralRuleId::name`. For every rule `r` and every text `tail`,
/// `from_name(r.name())` and `from_name(r.name() + "__" + tail)` both give
/// `Some(r)`: `from_name` answers `rule_named` of the text before the first
/// `__`, and that text is the rule's name in both cases.
pub proof fn lemma_rule_name_roundtrip(r: StructuralRuleId, tail: Seq<char>)
    ensures
        rule_named(text_before_double_underscore(r.spec_name())) == Some(r),
        rule_named(text_before_double_underscore(r.spec_name() + "__"@ + tail)) == Some(r),
{
    lemma_rule_names_clean(r);
    reveal_strlit("__");
    assert("__"@ =~= seq!['_', '_']);
    lemma_clean_base(r.spec_name(), tail);
    reveal_strlit("require_object_root");
    reveal_strlit("additional_properties_false");
    reveal_strlit("require_additional_properties_false");
    reveal_strlit("require_all_properties_in_required");
    reveal_strlit("require_array_items");
    reveal_strlit("forbid_root_any_of");
    reveal_strlit("forbid_root_enum");
    reveal_strlit("forbid_empty_object");
    reveal_strlit("max_object_depth");
    reveal_strlit("max_total_properties");
    reveal_strlit("max_total_enum_values");
    reveal_strlit("max_string_length_total");
    reveal_strlit("enum_string_length_budget");
    reveal_strlit("max_optional_properties");
    reveal_strlit("max_union_properties");
    reveal_strlit("external_refs");
    reveal_strlit("allof_with_ref");
    reveal_strlit("forbid_allof_with_ref");
    assert("require_object_root"@.len() == 19);
    assert("additional_properties_false"@.len() == 27);
    assert("require_additional_properties_false"@.len() == 35);
    assert("require_all_properties_in_required"@.len() == 34);
    assert("require_array_items"@.len() == 19);
    assert("forbid_root_any_of"@.len() == 18);
    assert("forbid_root_enum"@.len() == 16);
    assert("forbid_empty_object"@.len() == 19);
    assert("max_object_depth"@.len() == 16);
    assert("max_total_properties"@.len() == 20);
    assert("max_total_enum_values"@.len() == 21);
    assert("max_string_length_total"@.len() == 23);
    assert("enum_string_length_budget"@.len() == 25);
    assert("max_optional_properties"@.len() == 23);
    assert("max_union_properties"@.len() == 20);
    assert("external_refs"@.len() == 13);
    assert("allof_with_ref"@.len() == 14);
    assert("forbid_allof_with_ref"@.len() == 21);
    assert("require_object_root"@[8] != "require_array_items"@[8]);
    assert("require_object_root"@[0] != "forbid_empty_object"@[0]);
    assert("require_array_items"@[0] != "forbid_empty_object"@[0]);
    assert("forbid_root_enum"@[0] != "max_object_depth"@[0]);
    assert("max_total_properties"@[4] != "max_union_properties"@[4]);
    assert("max_total_enum_values"@[0] != "forbid_allof_with_ref"@[0]);
    assert("max_string_length_total"@[4] != "max_optional_properties"@[4]);
    match r {
        StructuralRuleId::ObjectRoot => {},
        StructuralRuleId::AdditionalPropertiesFalse => {},
        StructuralRuleId::AllPropertiesRequired => {},
        StructuralRuleId::ArrayItems => {},
        StructuralRuleId::RootAnyOf => {},
        StructuralRuleId::RootEnum => {},
        StructuralRuleId::EmptyObject => {},
        StructuralRuleId::MaxDepth => {},
        StructuralRuleId::MaxTotalProperties => {},
        StructuralRuleId::MaxTotalEnumValues => {},
        StructuralRuleId::StringLengthBudget => {},
        StructuralRuleId::EnumStringLengthBudget => {},
        StructuralRuleId::MaxOptionalProperties => {},
        StructuralRuleId::MaxUnionProperties => {},
        StructuralRuleId::ExternalRefs => {},
        StructuralRuleId::AllOfWithRef => {},
    }
}

} // verus!
