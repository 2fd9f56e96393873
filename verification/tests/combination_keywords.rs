//! allOf, anyOf, oneOf, not recursion and the `not` property vs struct case.

#![allow(dead_code)]

use openapi_schema_to_json_schema::error::Error;
use openapi_schema_to_json_schema::json::{Float, Json, Member, Number};
use openapi_schema_to_json_schema::options::Options;
use serde_json::Value;

const DRAFT4: &str = "http://json-schema.org/draft-04/schema#";

/// Parse JSON text.
fn j(text: &str) -> Value {
    serde_json::from_str(text).unwrap()
}

/// Parse JSON text in which `$0`, `$1`, ... stand for the given values.
fn jx(template: &str, values: &[Value]) -> Value {
    let mut text = template.to_string();
    for (i, v) in values.iter().enumerate().rev() {
        text = text.replace(&format!("${}", i), &serde_json::to_string(v).unwrap());
    }
    serde_json::from_str(&text).unwrap()
}

/// A float as `mantissa * 2^exponent` in lowest terms, with its JSON text.
fn float_number(f: f64) -> Number {
    let bits = f.to_bits();
    let negative = bits >> 63 == 1;
    let biased = ((bits >> 52) & 0x7ff) as i32;
    let fraction = (bits & ((1u64 << 52) - 1)) as i64;
    let (mut m, mut e) = if biased == 0 {
        (fraction, -1074)
    } else {
        (fraction | (1i64 << 52), biased - 1075)
    };
    if m == 0 {
        e = 0;
    } else {
        while m % 2 == 0 {
            m /= 2;
            e += 1;
        }
    }
    if negative {
        m = -m;
    }
    Number::Float(Float {
        mantissa: m,
        exponent: e,
        text: serde_json::to_string(&f).unwrap(),
    })
}

fn to_json(v: &Value) -> Json {
    match v {
        Value::Null => Json::Null,
        Value::Bool(b) => Json::Bool(*b),
        Value::Number(n) => Json::Number(if let Some(u) = n.as_u64() {
            Number::PosInt(u)
        } else if let Some(i) = n.as_i64() {
            Number::NegInt(i)
        } else {
            float_number(n.as_f64().unwrap())
        }),
        Value::String(s) => Json::String(s.clone()),
        Value::Array(a) => Json::Array(a.iter().map(to_json).collect()),
        Value::Object(m) => Json::Object(
            m.iter()
                .map(|(k, v)| Member { key: k.clone(), value: to_json(v) })
                .collect(),
        ),
    }
}

fn to_value(j: &Json) -> Value {
    match j {
        Json::Null => Value::Null,
        Json::Bool(b) => Value::Bool(*b),
        Json::Number(Number::PosInt(u)) => Value::from(*u),
        Json::Number(Number::NegInt(i)) => Value::from(*i),
        Json::Number(Number::Float(f)) => Value::from(f.text.parse::<f64>().unwrap()),
        Json::String(s) => Value::String(s.clone()),
        Json::Array(a) => Value::Array(a.iter().map(to_value).collect()),
        Json::Object(m) => Value::Object(
            m.iter().map(|mb| (mb.key.clone(), to_value(&mb.value))).collect(),
        ),
    }
}

fn from_schema(input: Value, options: &Options) -> Result<Value, Error> {
    openapi_schema_to_json_schema::from_schema(to_json(&input), options).map(|r| to_value(&r))
}

fn from_parameter(input: Value, options: &Options) -> Result<Value, Error> {
    openapi_schema_to_json_schema::from_parameter(to_json(&input), options).map(|r| to_value(&r))
}

fn assert_schema(input: Value, options: &Options, expected: Value) {
    let got = from_schema(input, options).expect("conversion should succeed");
    assert_eq!(got, expected);
}

fn assert_schema_default(input: Value, expected: Value) {
    assert_schema(input, &Options::new(), expected);
}

fn assert_schema_err(input: Value, options: &Options, substr: &str) {
    let err = from_schema(input, options).expect_err("conversion should fail");
    assert!(
        err.message().contains(substr),
        "error {:?} should contain {:?}",
        err,
        substr
    );
}

fn is_invalid_type(err: &Error) -> bool {
    matches!(err, Error::InvalidType(_))
}

#[test]
fn iterates_all_ofs() {
    let input = j(r#"{ "allOf": [ { "type": "object", "required": ["foo"], "properties": { "foo": { "type": "integer" } } }, { "allOf": [{ "type": "number" }] } ] }"#);
    let mut expected = input.clone();
    expected["$schema"] = j(r#""http://json-schema.org/draft-04/schema#""#);
    assert_schema_default(input, expected);
}

#[test]
fn iterates_any_ofs() {
    let input = j(r#"{ "anyOf": [ { "type": "object", "required": ["foo"], "properties": { "foo": { "type": "integer" } } }, { "anyOf": [ { "type": "object", "properties": { "bar": { "type": "number" } } } ] } ] }"#);
    let mut expected = input.clone();
    expected["$schema"] = j(r#""http://json-schema.org/draft-04/schema#""#);
    assert_schema_default(input, expected);
}

#[test]
fn iterates_one_ofs() {
    let input = j(r#"{ "oneOf": [ { "type": "object", "required": ["foo"], "properties": { "foo": { "type": "integer" } } }, { "oneOf": [ { "type": "object", "properties": { "bar": { "type": "number" } } } ] } ] }"#);
    let mut expected = input.clone();
    expected["$schema"] = j(r#""http://json-schema.org/draft-04/schema#""#);
    assert_schema_default(input, expected);
}

#[test]
fn not_as_property_name() {
    // `not` under properties is an ordinary property, not the struct keyword.
    assert_schema_default(
        j(r#"{ "type": "object", "properties": { "not": { "type": "string", "minLength": 8} } }"#),
        j(r#"{ "$schema": "http://json-schema.org/draft-04/schema#", "type": "object", "properties": { "not": { "type": "string", "minLength": 8} } }"#),
    );
}

#[test]
fn not_as_struct_keyword() {
    assert_schema_default(
        j(r#"{ "not": { "type": "string", "minLength": 8} }"#),
        j(r#"{ "$schema": "http://json-schema.org/draft-04/schema#", "not": { "type": "string", "minLength": 8} }"#),
    );
}

#[test]
fn nested_combination_keywords() {
    assert_schema_default(
        j(r#"{ "anyOf": [ { "allOf": [ { "type": "object", "properties": { "foo": { "type": "string", "nullable": true} } }, { "type": "object", "properties": { "bar": { "type": "integer", "nullable": true} } } ] }, { "type": "object", "properties": { "foo": { "type": "string" } } }, { "not": { "type": "string", "example": "foobar" } } ] }"#),
        j(r#"{ "$schema": "http://json-schema.org/draft-04/schema#", "anyOf": [ { "allOf": [ { "type": "object", "properties": { "foo": { "type": ["string", "null"] } } }, { "type": "object", "properties": { "bar": { "type": ["integer", "null"] } } } ] }, { "type": "object", "properties": { "foo": { "type": "string" } } }, { "not": { "type": "string" } } ] }"#),
    );
}
