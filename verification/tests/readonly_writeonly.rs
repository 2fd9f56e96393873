//! remove_read_only and remove_write_only with required pruning.

#![allow(dead_code)]

use openapi_schema_to_json_schema::error::Error;
use openapi_schema_to_json_schema::json::{Float, Json, Member, Number};
use openapi_schema_to_json_schema::options::Options;
use serde_json::Value;

const DRAFT4: &str = "http://json-schema.org/draft-04/schema#";

/// Parse JSON text.
fn j(text: &str) -> Value {
    serde_json::from_str(text).unwrap()
}

/// Parse JSON text in which `$0`, `$1`, ... stand for the given values.
fn jx(template: &str, values: &[Value]) -> Value {
    let mut text = template.to_string();
    for (i, v) in values.iter().enumerate().rev() {
        text = text.replace(&format!("${}", i), &serde_json::to_string(v).unwrap());
    }
    serde_json::from_str(&text).unwrap()
}

/// A float as `mantissa * 2^exponent` in lowest terms, with its JSON text.
fn float_number(f: f64) -> Number {
    let bits = f.to_bits();
    let negative = bits >> 63 == 1;
    let biased = ((bits >> 52) & 0x7ff) as i32;
    let fraction = (bits & ((1u64 << 52) - 1)) as i64;
    let (mut m, mut e) = if biased == 0 {
        (fraction, -1074)
    } else {
        (fraction | (1i64 << 52), biased - 1075)
    };
    if m == 0 {
        e = 0;
    } else {
        while m % 2 == 0 {
            m /= 2;
            e += 1;
        }
    }
    if negative {
        m = -m;
    }
    Number::Float(Float {
        mantissa: m,
        exponent: e,
        text: serde_json::to_string(&f).unwrap(),
    })
}

fn to_json(v: &Value) -> Json {
    match v {
        Value::Null => Json::Null,
        Value::Bool(b) => Json::Bool(*b),
        Value::Number(n) => Json::Number(if let Some(u) = n.as_u64() {
            Number::PosInt(u)
        } else if let Some(i) = n.as_i64() {
            Number::NegInt(i)
        } else {
            float_number(n.as_f64().unwrap())
        }),
        Value::String(s) => Json::String(s.clone()),
        Value::Array(a) => Json::Array(a.iter().map(to_json).collect()),
        Value::Object(m) => Json::Object(
            m.iter()
                .map(|(k, v)| Member { key: k.clone(), value: to_json(v) })
                .collect(),
        ),
    }
}

fn to_value(j: &Json) -> Value {
    match j {
        Json::Null => Value::Null,
        Json::Bool(b) => Value::Bool(*b),
        Json::Number(Number::PosInt(u)) => Value::from(*u),
        Json::Number(Number::NegInt(i)) => Value::from(*i),
        Json::Number(Number::Float(f)) => Value::from(f.text.parse::<f64>().unwrap()),
        Json::String(s) => Value::String(s.clone()),
        Json::Array(a) => Value::Array(a.iter().map(to_value).collect()),
        Json::Object(m) => Value::Object(
            m.iter().map(|mb| (mb.key.clone(), to_value(&mb.value))).collect(),
        ),
    }
}

fn from_schema(input: Value, options: &Options) -> Result<Value, Error> {
    openapi_schema_to_json_schema::from_schema(to_json(&input), options).map(|r| to_value(&r))
}

fn from_parameter(input: Value, options: &Options) -> Result<Value, Error> {
    openapi_schema_to_json_schema::from_parameter(to_json(&input), options).map(|r| to_value(&r))
}

fn assert_schema(input: Value, options: &Options, expected: Value) {
    let got = from_schema(input, options).expect("conversion should succeed");
    assert_eq!(got, expected);
}

fn assert_schema_default(input: Value, expected: Value) {
    assert_schema(input, &Options::new(), expected);
}

fn assert_schema_err(input: Value, options: &Options, substr: &str) {
    let err = from_schema(input, options).expect_err("conversion should fail");
    assert!(
        err.message().contains(substr),
        "error {:?} should contain {:?}",
        err,
        substr
    );
}

fn is_invalid_type(err: &Error) -> bool {
    matches!(err, Error::InvalidType(_))
}

fn remove_read_only() -> Options {
    Options {
        remove_read_only: Some(true),
        ..Options::new()
    }
}

fn remove_write_only() -> Options {
    Options {
        remove_write_only: Some(true),
        ..Options::new()
    }
}

#[test]
fn removing_read_only_prop() {
    assert_schema(
        j(r#"{ "type": "object", "properties": { "prop1": { "type": "string", "readOnly": true}, "prop2": { "type": "string" } } }"#),
        &remove_read_only(),
        j(r#"{ "$schema": "http://json-schema.org/draft-04/schema#", "type": "object", "properties": { "prop2": { "type": "string" } } }"#),
    );
}

#[test]
fn removing_read_only_prop_even_if_keeping() {
    let options = Options {
        remove_read_only: Some(true),
        keep_not_supported: Some(vec!["readOnly".to_string()]),
        ..Options::new()
    };
    assert_schema(
        j(r#"{ "type": "object", "properties": { "prop1": { "type": "string", "readOnly": true}, "prop2": { "type": "string" } } }"#),
        &options,
        j(r#"{ "$schema": "http://json-schema.org/draft-04/schema#", "type": "object", "properties": { "prop2": { "type": "string" } } }"#),
    );
}

#[test]
fn removing_write_only_prop_and_required() {
    assert_schema(
        j(r#"{ "type": "object", "required": ["prop1", "prop2", "prop3", "prop4"], "properties": { "prop1": { "type": "string", "writeOnly": true}, "prop2": { "type": "string", "writeOnly": true}, "prop3": { "type": "string", "writeOnly": true}, "prop4": { "type": "string" } } }"#),
        &remove_write_only(),
        j(r#"{ "$schema": "http://json-schema.org/draft-04/schema#", "type": "object", "required": ["prop4"], "properties": { "prop4": { "type": "string" } } }"#),
    );
}

#[test]
fn removing_read_only_from_required() {
    assert_schema(
        j(r#"{ "type": "object", "required": ["prop1", "prop2", "prop3", "prop4"], "properties": { "prop1": { "type": "string" }, "prop2": { "type": "string", "readOnly": true}, "prop3": { "type": "string", "readOnly": true}, "prop4": { "type": "string" } } }"#),
        &remove_read_only(),
        j(r#"{ "$schema": "http://json-schema.org/draft-04/schema#", "type": "object", "required": ["prop1", "prop4"], "properties": { "prop1": { "type": "string" }, "prop4": { "type": "string" } } }"#),
    );
}

#[test]
fn deleting_required_if_empty() {
    assert_schema(
        j(r#"{ "type": "object", "required": ["prop1"], "properties": { "prop1": { "type": "string", "readOnly": true}, "prop2": { "type": "string" } } }"#),
        &remove_read_only(),
        j(r#"{ "$schema": "http://json-schema.org/draft-04/schema#", "type": "object", "properties": { "prop2": { "type": "string" } } }"#),
    );
}

#[test]
fn deleting_properties_if_empty() {
    assert_schema(
        j(r#"{ "type": "object", "required": ["prop1"], "properties": { "prop1": { "type": "string", "readOnly": true} } }"#),
        &remove_read_only(),
        j(r#"{ "$schema": "http://json-schema.org/draft-04/schema#", "type": "object" }"#),
    );
}

#[test]
fn not_removing_read_only_props_by_default() {
    assert_schema_default(
        j(r#"{ "type": "object", "required": ["prop1", "prop2"], "properties": { "prop1": { "type": "string", "readOnly": true}, "prop2": { "type": "string" } } }"#),
        j(r#"{ "$schema": "http://json-schema.org/draft-04/schema#", "type": "object", "required": ["prop1", "prop2"], "properties": { "prop1": { "type": "string" }, "prop2": { "type": "string" } } }"#),
    );
}

#[test]
fn not_removing_write_only_props_by_default() {
    assert_schema_default(
        j(r#"{ "type": "object", "required": ["prop1", "prop2"], "properties": { "prop1": { "type": "string", "writeOnly": true}, "prop2": { "type": "string" } } }"#),
        j(r#"{ "$schema": "http://json-schema.org/draft-04/schema#", "type": "object", "required": ["prop1", "prop2"], "properties": { "prop1": { "type": "string" }, "prop2": { "type": "string" } } }"#),
    );
}

#[test]
fn non_true_read_only_value_keeps_the_property() {
    // The removal check compares against boolean true. A string readOnly does
    // not remove the property, and the readOnly key is then stripped.
    assert_schema(
        j(r#"{ "type": "object", "properties": { "a": { "type": "string", "readOnly": "yes" } } }"#),
        &remove_read_only(),
        j(r#"{ "$schema": "http://json-schema.org/draft-04/schema#", "type": "object", "properties": { "a": { "type": "string" } } }"#),
    );
}

#[test]
fn remove_read_only_and_write_only_together() {
    let options = Options {
        remove_read_only: Some(true),
        remove_write_only: Some(true),
        ..Options::new()
    };
    assert_schema(
        j(r#"{ "type": "object", "properties": { "a": { "type": "string", "readOnly": true}, "b": { "type": "string", "writeOnly": true}, "c": { "type": "string" } } }"#),
        &options,
        j(r#"{ "$schema": "http://json-schema.org/draft-04/schema#", "type": "object", "properties": { "c": { "type": "string" } } }"#),
    );
}

#[test]
fn deep_schema() {
    assert_schema(
        j(r#"{ "type": "object", "required": ["prop1", "prop2"], "properties": { "prop1": { "type": "string", "readOnly": true}, "prop2": { "allOf": [ { "type": "object", "required": ["prop3"], "properties": { "prop3": { "type": "object", "readOnly": true} } }, { "type": "object", "properties": { "prop4": { "type": "object", "readOnly": true} } } ] } } }"#),
        &remove_read_only(),
        j(r#"{ "$schema": "http://json-schema.org/draft-04/schema#", "type": "object", "required": ["prop2"], "properties": { "prop2": { "allOf": [ { "type": "object" }, { "type": "object" } ] } } }"#),
    );
}
