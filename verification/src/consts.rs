//! The keyword tables that drive conversion.
use vstd::prelude::*;

verus! {

/// The `$schema` value written on the root of every converted schema.
pub open spec fn draft_04_uri() -> Seq<char> {
    "http://json-schema.org/draft-04/schema#"@
}

/// OpenAPI-only keywords stripped after transform, in strip order.
pub open spec fn not_supported_keywords() -> Seq<Seq<char>> {
    seq![
        "nullable"@,
        "discriminator"@,
        "readOnly"@,
        "writeOnly"@,
        "xml"@,
        "externalDocs"@,
        "example"@,
        "deprecated"@,
    ]
}

/// Keywords recursed into as sub-schemas, in recursion order.
pub open spec fn struct_keywords() -> Seq<Seq<char>> {
    seq!["allOf"@, "anyOf"@, "oneOf"@, "not"@, "items"@, "additionalProperties"@]
}

/// Formats already valid in JSON Schema draft-04; they pass through.
pub open spec fn valid_formats() -> Seq<Seq<char>> {
    seq!["date-time"@, "email"@, "hostname"@, "ipv4"@, "ipv6"@, "uri"@, "uri-reference"@]
}

/// The draft-04 type set accepted in strict mode.
pub open spec fn valid_types() -> Seq<Seq<char>> {
    seq!["integer"@, "number"@, "string"@, "boolean"@, "object"@, "array"@, "null"@]
}

/// The base64 pattern written for `format: "byte"`.
pub open spec fn byte_pattern() -> Seq<char> {
    "^[\\w\\d+\\/=]*$"@
}

/// The `$schema` value written on the root of every converted schema.
pub fn draft_04() -> (r: &'static str)
    ensures
        r@ == draft_04_uri(),
{
    "http://json-schema.org/draft-04/schema#"
}

/// The base64 pattern written for `format: "byte"`.
pub fn byte_pattern_str() -> (r: &'static str)
    ensures
        r@ == byte_pattern(),
{
    "^[\\w\\d+\\/=]*$"
}

/// The `i`-th keyword stripped after transform.
pub fn not_supported_keyword(i: usize) -> (r: &'static str)
    requires
        i < not_supported_keywords().len(),
    ensures
        r@ == not_supported_keywords()[i as int],
{
    if i == 0 {
        "nullable"
    } else if i == 1 {
        "discriminator"
    } else if i == 2 {
        "readOnly"
    } else if i == 3 {
        "writeOnly"
    } else if i == 4 {
        "xml"
    } else if i == 5 {
        "externalDocs"
    } else if i == 6 {
        "example"
    } else {
        "deprecated"
    }
}

/// The `i`-th keyword recursed into as a sub-schema.
pub fn struct_keyword(i: usize) -> (r: &'static str)
    requires
        i < struct_keywords().len(),
    ensures
        r@ == struct_keywords()[i as int],
{
    if i == 0 {
        "allOf"
    } else if i == 1 {
        "anyOf"
    } else if i == 2 {
        "oneOf"
    } else if i == 3 {
        "not"
    } else if i == 4 {
        "items"
    } else {
        "additionalProperties"
    }
}

/// The `i`-th format that passes through unchanged.
pub fn valid_format(i: usize) -> (r: &'static str)
    requires
        i < valid_formats().len(),
    ensures
        r@ == valid_formats()[i as int],
{
    if i == 0 {
        "date-time"
    } else if i == 1 {
        "email"
    } else if i == 2 {
        "hostname"
    } else if i == 3 {
        "ipv4"
    } else if i == 4 {
        "ipv6"
    } else if i == 5 {
        "uri"
    } else {
        "uri-reference"
    }
}

/// The `i`-th valid draft-04 type.
pub fn valid_type(i: usize) -> (r: &'static str)
    requires
        i < valid_types().len(),
    ensures
        r@ == valid_types()[i as int],
{
    if i == 0 {
        "integer"
    } else if i == 1 {
        "number"
    } else if i == 2 {
        "string"
    } else if i == 3 {
        "boolean"
    } else if i == 4 {
        "object"
    } else if i == 5 {
        "array"
    } else {
        "null"
    }
}

/// Whether `s` is a format that passes through unchanged.
pub fn is_valid_format(s: &str) -> (r: bool)
    ensures
        r == valid_formats().contains(s@),
{
    let mut i: usize = 0;
    while i < 7
        invariant
            i <= 7,
            valid_formats().len() == 7,
            forall|j: int| 0 <= j < i ==> valid_formats()[j] != s@,
        decreases 7 - i,
    {
        if crate::text::str_eq(valid_format(i), s) {
            assert(valid_formats()[i as int] == s@);
            return true;
        }
        i += 1;
    }
    false
}

/// Whether `s` is a valid draft-04 type.
pub fn is_valid_type(s: &str) -> (r: bool)
    ensures
        r == valid_types().contains(s@),
{
    let mut i: usize = 0;
    while i < 7
        invariant
            i <= 7,
            valid_types().len() == 7,
            forall|j: int| 0 <= j < i ==> valid_types()[j] != s@,
        decreases 7 - i,
    {
        if crate::text::str_eq(valid_type(i), s) {
            assert(valid_types()[i as int] == s@);
            return true;
        }
        i += 1;
    }
    false
}

} // verus!
