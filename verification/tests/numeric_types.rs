//! Numeric format range injection.
//!
//! The int32 and int64 limits are written as exact integers. The float limits
//! are the finite binary32 limits and the double limits the finite f64 limits,
//! both written as floats. A bound the caller supplies is kept as written.

#![allow(dead_code)]

use openapi_schema_to_json_schema::error::Error;
use openapi_schema_to_json_schema::json::{Float, Json, Member, Number};
use openapi_schema_to_json_schema::options::Options;
use serde_json::Value;

const DRAFT4: &str = "http://json-schema.org/draft-04/schema#";

/// Parse JSON text.
fn j(text: &str) -> Value {
    serde_json::from_str(text).unwrap()
}

/// Parse JSON text in which `$0`, `$1`, ... stand for the given values.
fn jx(template: &str, values: &[Value]) -> Value {
    let mut text = template.to_string();
    for (i, v) in values.iter().enumerate().rev() {
        text = text.replace(&format!("${}", i), &serde_json::to_string(v).unwrap());
    }
    serde_json::from_str(&text).unwrap()
}

/// A float as `mantissa * 2^exponent` in lowest terms, with its JSON text.
fn float_number(f: f64) -> Number {
    let bits = f.to_bits();
    let negative = bits >> 63 == 1;
    let biased = ((bits >> 52) & 0x7ff) as i32;
    let fraction = (bits & ((1u64 << 52) - 1)) as i64;
    let (mut m, mut e) = if biased == 0 {
        (fraction, -1074)
    } else {
        (fraction | (1i64 << 52), biased - 1075)
    };
    if m == 0 {
        e = 0;
    } else {
        while m % 2 == 0 {
            m /= 2;
            e += 1;
        }
    }
    if negative {
        m = -m;
    }
    Number::Float(Float {
        mantissa: m,
        exponent: e,
        text: serde_json::to_string(&f).unwrap(),
    })
}

fn to_json(v: &Value) -> Json {
    match v {
        Value::Null => Json::Null,
        Value::Bool(b) => Json::Bool(*b),
        Value::Number(n) => Json::Number(if let Some(u) = n.as_u64() {
            Number::PosInt(u)
        } else if let Some(i) = n.as_i64() {
            Number::NegInt(i)
        } else {
            float_number(n.as_f64().unwrap())
        }),
        Value::String(s) => Json::String(s.clone()),
        Value::Array(a) => Json::Array(a.iter().map(to_json).collect()),
        Value::Object(m) => Json::Object(
            m.iter()
                .map(|(k, v)| Member { key: k.clone(), value: to_json(v) })
                .collect(),
        ),
    }
}

fn to_value(j: &Json) -> Value {
    match j {
        Json::Null => Value::Null,
        Json::Bool(b) => Value::Bool(*b),
        Json::Number(Number::PosInt(u)) => Value::from(*u),
        Json::Number(Number::NegInt(i)) => Value::from(*i),
        Json::Number(Number::Float(f)) => Value::from(f.text.parse::<f64>().unwrap()),
        Json::String(s) => Value::String(s.clone()),
        Json::Array(a) => Value::Array(a.iter().map(to_value).collect()),
        Json::Object(m) => Value::Object(
            m.iter().map(|mb| (mb.key.clone(), to_value(&mb.value))).collect(),
        ),
    }
}

fn from_schema(input: Value, options: &Options) -> Result<Value, Error> {
    openapi_schema_to_json_schema::from_schema(to_json(&input), options).map(|r| to_value(&r))
}

fn from_parameter(input: Value, options: &Options) -> Result<Value, Error> {
    openapi_schema_to_json_schema::from_parameter(to_json(&input), options).map(|r| to_value(&r))
}

fn assert_schema(input: Value, options: &Options, expected: Value) {
    let got = from_schema(input, options).expect("conversion should succeed");
    assert_eq!(got, expected);
}

fn assert_schema_default(input: Value, expected: Value) {
    assert_schema(input, &Options::new(), expected);
}

fn assert_schema_err(input: Value, options: &Options, substr: &str) {
    let err = from_schema(input, options).expect_err("conversion should fail");
    assert!(
        err.message().contains(substr),
        "error {:?} should contain {:?}",
        err,
        substr
    );
}

fn is_invalid_type(err: &Error) -> bool {
    matches!(err, Error::InvalidType(_))
}

// Integral i64-range limits emit as integers.
fn min_i31() -> Value {
    j(r#"-2147483648"#)
}
fn max_i31() -> Value {
    j(r#"2147483647"#)
}
fn min_i63() -> Value {
    jx(r#"$0"#, &[serde_json::to_value(&i64::MIN).unwrap()])
}

fn max_i63() -> Value {
    jx(r#"$0"#, &[serde_json::to_value(&i64::MAX).unwrap()])
}

// The float limits are the finite binary32 limits, written as floats.
fn min_f128() -> Value {
    jx(r#"$0"#, &[serde_json::to_value(&-(f32::MAX as f64)).unwrap()])
}
fn max_f128() -> Value {
    jx(r#"$0"#, &[serde_json::to_value(&(f32::MAX as f64)).unwrap()])
}

fn num(v: f64) -> Value {
    jx(r#"$0"#, &[serde_json::to_value(&v).unwrap()])
}

// ---- int32 ----------------------------------------------------------------

#[test]
fn handles_int32_format() {
    assert_schema_default(
        j(r#"{ "type": "integer", "format": "int32" }"#),
        jx(r#"{ "$schema": "http://json-schema.org/draft-04/schema#", "type": "integer", "format": "int32", "minimum": $0, "maximum": $1}"#, &[serde_json::to_value(&min_i31()).unwrap(), serde_json::to_value(&max_i31()).unwrap()]),
    );
}

#[test]
fn int32_with_specified_minimum() {
    assert_schema_default(
        j(r#"{ "type": "integer", "format": "int32", "minimum": 500}"#),
        jx(r#"{ "$schema": "http://json-schema.org/draft-04/schema#", "type": "integer", "format": "int32", "minimum": 500, "maximum": $0}"#, &[serde_json::to_value(&max_i31()).unwrap()]),
    );
}

#[test]
fn int32_with_minimum_too_small() {
    assert_schema_default(
        jx(r#"{ "type": "integer", "format": "int32", "minimum": $0}"#, &[serde_json::to_value(&num(-(2f64.powi(32)))).unwrap()]),
        jx(r#"{ "$schema": "http://json-schema.org/draft-04/schema#", "type": "integer", "format": "int32", "minimum": $0, "maximum": $1}"#, &[serde_json::to_value(&min_i31()).unwrap(), serde_json::to_value(&max_i31()).unwrap()]),
    );
}

#[test]
fn int32_with_specified_maximum() {
    assert_schema_default(
        j(r#"{ "type": "integer", "format": "int32", "maximum": 500}"#),
        jx(r#"{ "$schema": "http://json-schema.org/draft-04/schema#", "type": "integer", "format": "int32", "minimum": $0, "maximum": 500}"#, &[serde_json::to_value(&min_i31()).unwrap()]),
    );
}

#[test]
fn int32_with_maximum_too_big() {
    assert_schema_default(
        jx(r#"{ "type": "integer", "format": "int32", "maximum": $0}"#, &[serde_json::to_value(&num(2f64.powi(32))).unwrap()]),
        jx(r#"{ "$schema": "http://json-schema.org/draft-04/schema#", "type": "integer", "format": "int32", "minimum": $0, "maximum": $1}"#, &[serde_json::to_value(&min_i31()).unwrap(), serde_json::to_value(&max_i31()).unwrap()]),
    );
}

// ---- int64 ----------------------------------------------------------------

#[test]
fn handles_int64_format() {
    assert_schema_default(
        j(r#"{ "type": "integer", "format": "int64" }"#),
        jx(r#"{ "$schema": "http://json-schema.org/draft-04/schema#", "type": "integer", "format": "int64", "minimum": $0, "maximum": $1}"#, &[serde_json::to_value(&min_i63()).unwrap(), serde_json::to_value(&max_i63()).unwrap()]),
    );
}

#[test]
fn int64_with_specified_minimum() {
    assert_schema_default(
        j(r#"{ "type": "integer", "format": "int64", "minimum": 500}"#),
        jx(r#"{ "$schema": "http://json-schema.org/draft-04/schema#", "type": "integer", "format": "int64", "minimum": 500, "maximum": $0}"#, &[serde_json::to_value(&max_i63()).unwrap()]),
    );
}

#[test]
fn int64_with_minimum_too_small() {
    assert_schema_default(
        jx(r#"{ "type": "integer", "format": "int64", "minimum": $0}"#, &[serde_json::to_value(&num(-(2f64.powi(64)))).unwrap()]),
        jx(r#"{ "$schema": "http://json-schema.org/draft-04/schema#", "type": "integer", "format": "int64", "minimum": $0, "maximum": $1}"#, &[serde_json::to_value(&min_i63()).unwrap(), serde_json::to_value(&max_i63()).unwrap()]),
    );
}

#[test]
fn int64_with_specified_maximum() {
    assert_schema_default(
        j(r#"{ "type": "integer", "format": "int64", "maximum": 500}"#),
        jx(r#"{ "$schema": "http://json-schema.org/draft-04/schema#", "type": "integer", "format": "int64", "minimum": $0, "maximum": 500}"#, &[serde_json::to_value(&min_i63()).unwrap()]),
    );
}

#[test]
fn int64_with_maximum_too_big() {
    assert_schema_default(
        jx(r#"{ "type": "integer", "format": "int64", "maximum": $0}"#, &[serde_json::to_value(&num(2f64.powi(64))).unwrap()]),
        jx(r#"{ "$schema": "http://json-schema.org/draft-04/schema#", "type": "integer", "format": "int64", "minimum": $0, "maximum": $1}"#, &[serde_json::to_value(&min_i63()).unwrap(), serde_json::to_value(&max_i63()).unwrap()]),
    );
}

// ---- float ----------------------------------------------------------------

#[test]
fn handles_float_format() {
    assert_schema_default(
        j(r#"{ "type": "number", "format": "float" }"#),
        jx(r#"{ "$schema": "http://json-schema.org/draft-04/schema#", "type": "number", "format": "float", "minimum": $0, "maximum": $1}"#, &[serde_json::to_value(&min_f128()).unwrap(), serde_json::to_value(&max_f128()).unwrap()]),
    );
}

#[test]
fn float_with_specified_minimum() {
    assert_schema_default(
        j(r#"{ "type": "number", "format": "float", "minimum": 500}"#),
        jx(r#"{ "$schema": "http://json-schema.org/draft-04/schema#", "type": "number", "format": "float", "minimum": 500, "maximum": $0}"#, &[serde_json::to_value(&max_f128()).unwrap()]),
    );
}

#[test]
fn float_with_minimum_too_small() {
    assert_schema_default(
        jx(r#"{ "type": "number", "format": "float", "minimum": $0}"#, &[serde_json::to_value(&num(-(2f64.powi(129)))).unwrap()]),
        jx(r#"{ "$schema": "http://json-schema.org/draft-04/schema#", "type": "number", "format": "float", "minimum": $0, "maximum": $1}"#, &[serde_json::to_value(&min_f128()).unwrap(), serde_json::to_value(&max_f128()).unwrap()]),
    );
}

#[test]
fn float_with_specified_maximum() {
    assert_schema_default(
        j(r#"{ "type": "number", "format": "float", "maximum": 500}"#),
        jx(r#"{ "$schema": "http://json-schema.org/draft-04/schema#", "type": "number", "format": "float", "minimum": $0, "maximum": 500}"#, &[serde_json::to_value(&min_f128()).unwrap()]),
    );
}

#[test]
fn float_with_maximum_too_big() {
    assert_schema_default(
        jx(r#"{ "type": "number", "format": "float", "maximum": $0}"#, &[serde_json::to_value(&num(2f64.powi(129))).unwrap()]),
        jx(r#"{ "$schema": "http://json-schema.org/draft-04/schema#", "type": "number", "format": "float", "minimum": $0, "maximum": $1}"#, &[serde_json::to_value(&min_f128()).unwrap(), serde_json::to_value(&max_f128()).unwrap()]),
    );
}

// ---- double ---------------------------------------------------------------

#[test]
fn handles_double_format() {
    assert_schema_default(
        j(r#"{ "type": "number", "format": "double" }"#),
        jx(r#"{ "$schema": "http://json-schema.org/draft-04/schema#", "type": "number", "format": "double", "minimum": $0, "maximum": $1}"#, &[serde_json::to_value(&num(-f64::MAX)).unwrap(), serde_json::to_value(&num(f64::MAX)).unwrap()]),
    );
}

#[test]
fn double_with_specified_minimum() {
    // The largest finite double, f64::MAX, is the double upper bound.
    assert_schema_default(
        j(r#"{ "type": "number", "format": "double", "minimum": 50.5}"#),
        jx(r#"{ "$schema": "http://json-schema.org/draft-04/schema#", "type": "number", "format": "double", "minimum": 50.5, "maximum": $0}"#, &[serde_json::to_value(&num(f64::MAX - 1.0)).unwrap()]),
    );
}

#[test]
fn double_with_specified_maximum() {
    assert_schema_default(
        j(r#"{ "type": "number", "format": "double", "maximum": 50.5}"#),
        jx(r#"{ "$schema": "http://json-schema.org/draft-04/schema#", "type": "number", "format": "double", "minimum": $0, "maximum": 50.5}"#, &[serde_json::to_value(&num(-f64::MAX)).unwrap()]),
    );
}

// ---- boundary preservation ------------------------------------------------

#[test]
fn minimum_zero_preserved() {
    // 0 counts as present, so it is kept (not clamped to the lower bound).
    assert_schema_default(
        j(r#"{ "type": "integer", "format": "int32", "minimum": 0}"#),
        jx(r#"{ "$schema": "http://json-schema.org/draft-04/schema#", "type": "integer", "format": "int32", "minimum": 0, "maximum": $0}"#, &[serde_json::to_value(&max_i31()).unwrap()]),
    );
}

#[test]
fn maximum_zero_preserved() {
    assert_schema_default(
        j(r#"{ "type": "integer", "format": "int32", "maximum": 0}"#),
        jx(r#"{ "$schema": "http://json-schema.org/draft-04/schema#", "type": "integer", "format": "int32", "minimum": $0, "maximum": 0}"#, &[serde_json::to_value(&min_i31()).unwrap()]),
    );
}

#[test]
fn int32_bounds_serialize_as_integers() {
    let got = from_schema(
        j(r#"{ "type": "integer", "format": "int32" }"#),
        &Options::new(),
    )
    .unwrap();
    let text = serde_json::to_string(&got).unwrap();
    assert!(text.contains("\"minimum\":-2147483648"));
    assert!(!text.contains("-2147483648.0"));
    assert!(text.contains("\"maximum\":2147483647"));
}

#[test]
fn int64_max_bound_is_float_value() {
    // The int64 maximum is the exact integer i64::MAX.
    let got = from_schema(
        j(r#"{ "type": "integer", "format": "int64" }"#),
        &Options::new(),
    )
    .unwrap();
    assert_eq!(got["maximum"], jx(r#"$0"#, &[serde_json::to_value(&i64::MAX).unwrap()]));
    assert!(got["maximum"].is_i64());
}
