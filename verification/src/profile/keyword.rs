//! JSON Schema keywords understood by the profile format.
use vstd::prelude::*;

use crate::json::{json_get, object_get, JsonValue};
use crate::normalize::arena::Node;
use crate::text::str_eq;

verus! {

/// JSON Schema keywords understood by the normalized IR and profile format.
#[derive(Debug, Clone, Copy, PartialEq, Eq, Hash, Structural)]
pub enum Keyword {
    Type,
    Properties,
    Required,
    AdditionalProperties,
    Items,
    PrefixItems,
    MinItems,
    MaxItems,
    UniqueItems,
    Contains,
    Minimum,
    Maximum,
    ExclusiveMinimum,
    ExclusiveMaximum,
    MultipleOf,
    MinLength,
    MaxLength,
    Pattern,
    Format,
    Enum,
    Const,
    PatternProperties,
    UnevaluatedProperties,
    PropertyNames,
    MinProperties,
    MaxProperties,
    Description,
    Title,
    Default,
    Discriminator,
    Ref,
    Defs,
    Definitions,
    AnyOf,
    AllOf,
    OneOf,
    Not,
    If,
    Then,
    Else,
    DependentRequired,
    DependentSchemas,
}

impl Keyword {
    /// The keyword's spelling in a JSON Schema.
    pub open spec fn spec_name(self) -> Seq<char> {
        match self {
            Keyword::Type => "type"@,
            Keyword::Properties => "properties"@,
            Keyword::Required => "required"@,
            Keyword::AdditionalProperties => "additionalProperties"@,
            Keyword::Items => "items"@,
            Keyword::PrefixItems => "prefixItems"@,
            Keyword::MinItems => "minItems"@,
            Keyword::MaxItems => "maxItems"@,
            Keyword::UniqueItems => "uniqueItems"@,
            Keyword::Contains => "contains"@,
            Keyword::Minimum => "minimum"@,
            Keyword::Maximum => "maximum"@,
            Keyword::ExclusiveMinimum => "exclusiveMinimum"@,
            Keyword::ExclusiveMaximum => "exclusiveMaximum"@,
            Keyword::MultipleOf => "multipleOf"@,
            Keyword::MinLength => "minLength"@,
            Keyword::MaxLength => "maxLength"@,
            Keyword::Pattern => "pattern"@,
            Keyword::Format => "format"@,
            Keyword::Enum => "enum"@,
            Keyword::Const => "const"@,
            Keyword::PatternProperties => "patternProperties"@,
            Keyword::UnevaluatedProperties => "unevaluatedProperties"@,
            Keyword::PropertyNames => "propertyNames"@,
            Keyword::MinProperties => "minProperties"@,
            Keyword::MaxProperties => "maxProperties"@,
            Keyword::Description => "description"@,
            Keyword::Title => "title"@,
            Keyword::Default => "default"@,
            Keyword::Discriminator => "discriminator"@,
            Keyword::Ref => "$ref"@,
            Keyword::Defs => "$defs"@,
            Keyword::Definitions => "definitions"@,
            Keyword::AnyOf => "anyOf"@,
            Keyword::AllOf => "allOf"@,
            Keyword::OneOf => "oneOf"@,
            Keyword::Not => "not"@,
            Keyword::If => "if"@,
            Keyword::Then => "then"@,
            Keyword::Else => "else"@,
            Keyword::DependentRequired => "dependentRequired"@,
            Keyword::DependentSchemas => "dependentSchemas"@,
        }
    }

    /// The keyword's spelling in a JSON Schema.
    pub fn as_str(self) -> (r: &'static str)
        ensures
            r@ == self.spec_name(),
    {
        match self {
            Keyword::Type => "type",
            Keyword::Properties => "properties",
            Keyword::Required => "required",
            Keyword::AdditionalProperties => "additionalProperties",
            Keyword::Items => "items",
            Keyword::PrefixItems => "prefixItems",
            Keyword::MinItems => "minItems",
            Keyword::MaxItems => "maxItems",
            Keyword::UniqueItems => "uniqueItems",
            Keyword::Contains => "contains",
            Keyword::Minimum => "minimum",
            Keyword::Maximum => "maximum",
            Keyword::ExclusiveMinimum => "exclusiveMinimum",
            Keyword::ExclusiveMaximum => "exclusiveMaximum",
            Keyword::MultipleOf => "multipleOf",
            Keyword::MinLength => "minLength",
            Keyword::MaxLength => "maxLength",
            Keyword::Pattern => "pattern",
            Keyword::Format => "format",
            Keyword::Enum => "enum",
            Keyword::Const => "const",
            Keyword::PatternProperties => "patternProperties",
            Keyword::UnevaluatedProperties => "unevaluatedProperties",
            Keyword::PropertyNames => "propertyNames",
            Keyword::MinProperties => "minProperties",
            Keyword::MaxProperties => "maxProperties",
            Keyword::Description => "description",
            Keyword::Title => "title",
            Keyword::Default => "default",
            Keyword::Discriminator => "discriminator",
            Keyword::Ref => "$ref",
            Keyword::Defs => "$defs",
            Keyword::Definitions => "definitions",
            Keyword::AnyOf => "anyOf",
            Keyword::AllOf => "allOf",
            Keyword::OneOf => "oneOf",
            Keyword::Not => "not",
            Keyword::If => "if",
            Keyword::Then => "then",
            Keyword::Else => "else",
            Keyword::DependentRequired => "dependentRequired",
            Keyword::DependentSchemas => "dependentSchemas",
        }
    }

    /// The value this keyword has in a node's schema, when the schema
    /// writes it.
    pub fn accessor(self, node: &Node) -> (r: Option<&JsonValue>)
        ensures
            match r {
                Some(v) => json_get(node@.keywords, self.spec_name()) == Some(v@),
                None => json_get(node@.keywords, self.spec_name()) is None,
            },
    {
        object_get(&node.keywords, self.as_str())
    }

    /// The keyword spelled `value`, or `Err(())` when no keyword is spelled so.
    pub fn from_name(value: &str) -> (r: Result<Keyword, ()>)
        ensures
            match r {
                Ok(k) => keyword_named(value@) == Some(k),
                Err(_) => keyword_named(value@) is None,
            },
    {
        if str_eq(value, "type") {
            proof {
                lemma_keyword_named(value@, Keyword::Type);
            }
            return Ok(Keyword::Type);
        }
        if str_eq(value, "properties") {
            proof {
                lemma_keyword_named(value@, Keyword::Properties);
            }
            return Ok(Keyword::Properties);
        }
        if str_eq(value, "required") {
            proof {
                lemma_keyword_named(value@, Keyword::Required);
            }
            return Ok(Keyword::Required);
        }
        if str_eq(value, "additionalProperties") {
            proof {
                lemma_keyword_named(value@, Keyword::AdditionalProperties);
            }
            return Ok(Keyword::AdditionalProperties);
        }
        if str_eq(value, "items") {
            proof {
                lemma_keyword_named(value@, Keyword::Items);
            }
            return Ok(Keyword::Items);
        }
        if str_eq(value, "prefixItems") {
            proof {
                lemma_keyword_named(value@, Keyword::PrefixItems);
            }
            return Ok(Keyword::PrefixItems);
        }
        if str_eq(value, "minItems") {
            proof {
                lemma_keyword_named(value@, Keyword::MinItems);
            }
            return Ok(Keyword::MinItems);
        }
        if str_eq(value, "maxItems") {
            proof {
                lemma_keyword_named(value@, Keyword::MaxItems);
            }
            return Ok(Keyword::MaxItems);
        }
        if str_eq(value, "uniqueItems") {
            proof {
                lemma_keyword_named(value@, Keyword::UniqueItems);
            }
            return Ok(Keyword::UniqueItems);
        }
        if str_eq(value, "contains") {
            proof {
                lemma_keyword_named(value@, Keyword::Contains);
            }
            return Ok(Keyword::Contains);
        }
        if str_eq(value, "minimum") {
            proof {
                lemma_keyword_named(value@, Keyword::Minimum);
            }
            return Ok(Keyword::Minimum);
        }
        if str_eq(value, "maximum") {
            proof {
                lemma_keyword_named(value@, Keyword::Maximum);
            }
            return Ok(Keyword::Maximum);
        }
        if str_eq(value, "exclusiveMinimum") {
            proof {
                lemma_keyword_named(value@, Keyword::ExclusiveMinimum);
            }
            return Ok(Keyword::ExclusiveMinimum);
        }
        if str_eq(value, "exclusiveMaximum") {
            proof {
                lemma_keyword_named(value@, Keyword::ExclusiveMaximum);
            }
            return Ok(Keyword::ExclusiveMaximum);
        }
        if str_eq(value, "multipleOf") {
            proof {
                lemma_keyword_named(value@, Keyword::MultipleOf);
            }
            return Ok(Keyword::MultipleOf);
        }
        if str_eq(value, "minLength") {
            proof {
                lemma_keyword_named(value@, Keyword::MinLength);
            }
            return Ok(Keyword::MinLength);
        }
        if str_eq(value, "maxLength") {
            proof {
                lemma_keyword_named(value@, Keyword::MaxLength);
            }
            return Ok(Keyword::MaxLength);
        }
        if str_eq(value, "pattern") {
            proof {
                lemma_keyword_named(value@, Keyword::Pattern);
            }
            return Ok(Keyword::Pattern);
        }
        if str_eq(value, "format") {
            proof {
                lemma_keyword_named(value@, Keyword::Format);
            }
            return Ok(Keyword::Format);
        }
        if str_eq(value, "enum") {
            proof {
                lemma_keyword_named(value@, Keyword::Enum);
            }
            return Ok(Keyword::Enum);
        }
        if str_eq(value, "const") {
            proof {
                lemma_keyword_named(value@, Keyword::Const);
            }
            return Ok(Keyword::Const);
        }
        if str_eq(value, "patternProperties") {
            proof {
                lemma_keyword_named(value@, Keyword::PatternProperties);
            }
            return Ok(Keyword::PatternProperties);
        }
        if str_eq(value, "unevaluatedProperties") {
            proof {
                lemma_keyword_named(value@, Keyword::UnevaluatedProperties);
            }
            return Ok(Keyword::UnevaluatedProperties);
        }
        if str_eq(value, "propertyNames") {
            proof {
                lemma_keyword_named(value@, Keyword::PropertyNames);
            }
            return Ok(Keyword::PropertyNames);
        }
        if str_eq(value, "minProperties") {
            proof {
                lemma_keyword_named(value@, Keyword::MinProperties);
            }
            return Ok(Keyword::MinProperties);
        }
        if str_eq(value, "maxProperties") {
            proof {
                lemma_keyword_named(value@, Keyword::MaxProperties);
            }
            return Ok(Keyword::MaxProperties);
        }
        if str_eq(value, "description") {
            proof {
                lemma_keyword_named(value@, Keyword::Description);
            }
            return Ok(Keyword::Description);
        }
        if str_eq(value, "title") {
            proof {
                lemma_keyword_named(value@, Keyword::Title);
            }
            return Ok(Keyword::Title);
        }
        if str_eq(value, "default") {
            proof {
                lemma_keyword_named(value@, Keyword::Default);
            }
            return Ok(Keyword::Default);
        }
        if str_eq(value, "discriminator") {
            proof {
                lemma_keyword_named(value@, Keyword::Discriminator);
            }
            return Ok(Keyword::Discriminator);
        }
        if str_eq(value, "$ref") {
            proof {
                lemma_keyword_named(value@, Keyword::Ref);
            }
            return Ok(Keyword::Ref);
        }
        if str_eq(value, "$defs") {
            proof {
                lemma_keyword_named(value@, Keyword::Defs);
            }
            return Ok(Keyword::Defs);
        }
        if str_eq(value, "definitions") {
            proof {
                lemma_keyword_named(value@, Keyword::Definitions);
            }
            return Ok(Keyword::Definitions);
        }
        if str_eq(value, "anyOf") {
            proof {
                lemma_keyword_named(value@, Keyword::AnyOf);
            }
            return Ok(Keyword::AnyOf);
        }
        if str_eq(value, "allOf") {
            proof {
                lemma_keyword_named(value@, Keyword::AllOf);
            }
            return Ok(Keyword::AllOf);
        }
        if str_eq(value, "oneOf") {
            proof {
                lemma_keyword_named(value@, Keyword::OneOf);
            }
            return Ok(Keyword::OneOf);
        }
        if str_eq(value, "not") {
            proof {
                lemma_keyword_named(value@, Keyword::Not);
            }
            return Ok(Keyword::Not);
        }
        if str_eq(value, "if") {
            proof {
                lemma_keyword_named(value@, Keyword::If);
            }
            return Ok(Keyword::If);
        }
        if str_eq(value, "then") {
            proof {
                lemma_keyword_named(value@, Keyword::Then);
            }
            return Ok(Keyword::Then);
        }
        if str_eq(value, "else") {
            proof {
                lemma_keyword_named(value@, Keyword::Else);
            }
            return Ok(Keyword::Else);
        }
        if str_eq(value, "dependentRequired") {
            proof {
                lemma_keyword_named(value@, Keyword::DependentRequired);
            }
            return Ok(Keyword::DependentRequired);
        }
        if str_eq(value, "dependentSchemas") {
            proof {
                lemma_keyword_named(value@, Keyword::DependentSchemas);
            }
            return Ok(Keyword::DependentSchemas);
        }
        proof {
            assert forall|k: Keyword| k.spec_name() != value@ by {
                match k {
                    Keyword::Type => {},
                    Keyword::Properties => {},
                    Keyword::Required => {},
                    Keyword::AdditionalProperties => {},
                    Keyword::Items => {},
                    Keyword::PrefixItems => {},
                    Keyword::MinItems => {},
                    Keyword::MaxItems => {},
                    Keyword::UniqueItems => {},
                    Keyword::Contains => {},
                    Keyword::Minimum => {},
                    Keyword::Maximum => {},
                    Keyword::ExclusiveMinimum => {},
                    Keyword::ExclusiveMaximum => {},
                    Keyword::MultipleOf => {},
                    Keyword::MinLength => {},
                    Keyword::MaxLength => {},
                    Keyword::Pattern => {},
                    Keyword::Format => {},
                    Keyword::Enum => {},
                    Keyword::Const => {},
                    Keyword::PatternProperties => {},
                    Keyword::UnevaluatedProperties => {},
                    Keyword::PropertyNames => {},
                    Keyword::MinProperties => {},
                    Keyword::MaxProperties => {},
                    Keyword::Description => {},
                    Keyword::Title => {},
                    Keyword::Default => {},
                    Keyword::Discriminator => {},
                    Keyword::Ref => {},
                    Keyword::Defs => {},
                    Keyword::Definitions => {},
                    Keyword::AnyOf => {},
                    Keyword::AllOf => {},
                    Keyword::OneOf => {},
                    Keyword::Not => {},
                    Keyword::If => {},
                    Keyword::Then => {},
                    Keyword::Else => {},
                    Keyword::DependentRequired => {},
                    Keyword::DependentSchemas => {},
                }
            }
        }
        Err(())
    }
}

/// The keyword spelled `s`, if any.
pub open spec fn keyword_named(s: Seq<char>) -> Option<Keyword> {
    if exists|k: Keyword| k.spec_name() == s {
        Some(choose|k: Keyword| k.spec_name() == s)
    } else {
        None
    }
}

/// A keyword's spelling names that keyword: `Keyword::from_name` inverts
/// `Keyword::as_str`.
pub proof fn lemma_keyword_named(s: Seq<char>, k: Keyword)
    requires
        k.spec_name() == s,
    ensures
        keyword_named(s) == Some(k),
{
    let c = choose|j: Keyword| j.spec_name() == s;
    lemma_keyword_names_distinct(c, k);
}

/// Distinct keywords are spelled differently, so a keyword's spelling names
/// it alone.
pub proof fn lemma_keyword_names_distinct(a: Keyword, b: Keyword)
    ensures
        a.spec_name() == b.spec_name() ==> a == b,
{
    reveal_strlit("type");
    reveal_strlit("properties");
    reveal_strlit("required");
    reveal_strlit("additionalProperties");
    reveal_strlit("items");
    reveal_strlit("prefixItems");
    reveal_strlit("minItems");
    reveal_strlit("maxItems");
    reveal_strlit("uniqueItems");
    reveal_strlit("contains");
    reveal_strlit("minimum");
    reveal_strlit("maximum");
    reveal_strlit("exclusiveMinimum");
    reveal_strlit("exclusiveMaximum");
    reveal_strlit("multipleOf");
    reveal_strlit("minLength");
    reveal_strlit("maxLength");
    reveal_strlit("pattern");
    reveal_strlit("format");
    reveal_strlit("enum");
    reveal_strlit("const");
    reveal_strlit("patternProperties");
    reveal_strlit("unevaluatedProperties");
    reveal_strlit("propertyNames");
    reveal_strlit("minProperties");
    reveal_strlit("maxProperties");
    reveal_strlit("description");
    reveal_strlit("title");
    reveal_strlit("default");
    reveal_strlit("discriminator");
    reveal_strlit("$ref");
    reveal_strlit("$defs");
    reveal_strlit("definitions");
    reveal_strlit("anyOf");
    reveal_strlit("allOf");
    reveal_strlit("oneOf");
    reveal_strlit("not");
    reveal_strlit("if");
    reveal_strlit("then");
    reveal_strlit("else");
    reveal_strlit("dependentRequired");
    reveal_strlit("dependentSchemas");
    assert("type"@.len() == 4);
    assert("properties"@.len() == 10);
    assert("required"@.len() == 8);
    assert("additionalProperties"@.len() == 20);
    assert("items"@.len() == 5);
    assert("prefixItems"@.len() == 11);
    assert("minItems"@.len() == 8);
    assert("maxItems"@.len() == 8);
    assert("uniqueItems"@.len() == 11);
    assert("contains"@.len() == 8);
    assert("minimum"@.len() == 7);
    assert("maximum"@.len() == 7);
    assert("exclusiveMinimum"@.len() == 16);
    assert("exclusiveMaximum"@.len() == 16);
    assert("multipleOf"@.len() == 10);
    assert("minLength"@.len() == 9);
    assert("maxLength"@.len() == 9);
    assert("pattern"@.len() == 7);
    assert("format"@.len() == 6);
    assert("enum"@.len() == 4);
    assert("const"@.len() == 5);
    assert("patternProperties"@.len() == 17);
    assert("unevaluatedProperties"@.len() == 21);
    assert("propertyNames"@.len() == 13);
    assert("minProperties"@.len() == 13);
    assert("maxProperties"@.len() == 13);
    assert("description"@.len() == 11);
    assert("title"@.len() == 5);
    assert("default"@.len() == 7);
    assert("discriminator"@.len() == 13);
    assert("$ref"@.len() == 4);
    assert("$defs"@.len() == 5);
    assert("definitions"@.len() == 11);
    assert("anyOf"@.len() == 5);
    assert("allOf"@.len() == 5);
    assert("oneOf"@.len() == 5);
    assert("not"@.len() == 3);
    assert("if"@.len() == 2);
    assert("then"@.len() == 4);
    assert("else"@.len() == 4);
    assert("dependentRequired"@.len() == 17);
    assert("dependentSchemas"@.len() == 16);
    assert("type"@[0] != "enum"@[0]);
    assert("type"@[0] != "$ref"@[0]);
    assert("type"@[1] != "then"@[1]);
    assert("type"@[0] != "else"@[0]);
    assert("properties"@[0] != "multipleOf"@[0]);
    assert("required"@[0] != "minItems"@[0]);
    assert("required"@[0] != "maxItems"@[0]);
    assert("required"@[0] != "contains"@[0]);
    assert("items"@[0] != "const"@[0]);
    assert("items"@[0] != "title"@[0]);
    assert("items"@[0] != "$defs"@[0]);
    assert("items"@[0] != "anyOf"@[0]);
    assert("items"@[0] != "allOf"@[0]);
    assert("items"@[0] != "oneOf"@[0]);
    assert("prefixItems"@[0] != "uniqueItems"@[0]);
    assert("prefixItems"@[0] != "description"@[0]);
    assert("prefixItems"@[0] != "definitions"@[0]);
    assert("minItems"@[1] != "maxItems"@[1]);
    assert("minItems"@[0] != "contains"@[0]);
    assert("maxItems"@[0] != "contains"@[0]);
    assert("uniqueItems"@[0] != "description"@[0]);
    assert("uniqueItems"@[0] != "definitions"@[0]);
    assert("minimum"@[1] != "maximum"@[1]);
    assert("minimum"@[0] != "pattern"@[0]);
    assert("minimum"@[0] != "default"@[0]);
    assert("maximum"@[0] != "pattern"@[0]);
    assert("maximum"@[0] != "default"@[0]);
    assert("exclusiveMinimum"@[10] != "exclusiveMaximum"@[10]);
    assert("exclusiveMinimum"@[0] != "dependentSchemas"@[0]);
    assert("exclusiveMaximum"@[0] != "dependentSchemas"@[0]);
    assert("minLength"@[1] != "maxLength"@[1]);
    assert("pattern"@[0] != "default"@[0]);
    assert("enum"@[0] != "$ref"@[0]);
    assert("enum"@[0] != "then"@[0]);
    assert("enum"@[1] != "else"@[1]);
    assert("const"@[0] != "title"@[0]);
    assert("const"@[0] != "$defs"@[0]);
    assert("const"@[0] != "anyOf"@[0]);
    assert("const"@[0] != "allOf"@[0]);
    assert("const"@[0] != "oneOf"@[0]);
    assert("patternProperties"@[0] != "dependentRequired"@[0]);
    assert("propertyNames"@[0] != "minProperties"@[0]);
    assert("propertyNames"@[0] != "maxProperties"@[0]);
    assert("propertyNames"@[0] != "discriminator"@[0]);
    assert("minProperties"@[1] != "maxProperties"@[1]);
    assert("minProperties"@[0] != "discriminator"@[0]);
    assert("maxProperties"@[0] != "discriminator"@[0]);
    assert("description"@[2] != "definitions"@[2]);
    assert("title"@[0] != "$defs"@[0]);
    assert("title"@[0] != "anyOf"@[0]);
    assert("title"@[0] != "allOf"@[0]);
    assert("title"@[0] != "oneOf"@[0]);
    assert("$ref"@[0] != "then"@[0]);
    assert("$ref"@[0] != "else"@[0]);
    assert("$defs"@[0] != "anyOf"@[0]);
    assert("$defs"@[0] != "allOf"@[0]);
    assert("$defs"@[0] != "oneOf"@[0]);
    assert("anyOf"@[1] != "allOf"@[1]);
    assert("anyOf"@[0] != "oneOf"@[0]);
    assert("allOf"@[0] != "oneOf"@[0]);
    assert("then"@[0] != "else"@[0]);
}

} // verus!
