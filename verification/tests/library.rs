//! Properties of the library checked on concrete values: error messages,
//! options, the laws of the conversion, and the JSON helpers.

#![allow(dead_code)]

use openapi_schema_to_json_schema::error::Error;
use openapi_schema_to_json_schema::json::{Float, Json, Member, Number};
use openapi_schema_to_json_schema::options::Options;
use serde_json::Value;

const DRAFT4: &str = "http://json-schema.org/draft-04/schema#";

/// Parse JSON text.
fn j(text: &str) -> Value {
    serde_json::from_str(text).unwrap()
}

/// Parse JSON text in which `$0`, `$1`, ... stand for the given values.
fn jx(template: &str, values: &[Value]) -> Value {
    let mut text = template.to_string();
    for (i, v) in values.iter().enumerate().rev() {
        text = text.replace(&format!("${}", i), &serde_json::to_string(v).unwrap());
    }
    serde_json::from_str(&text).unwrap()
}

/// A float as `mantissa * 2^exponent` in lowest terms, with its JSON text.
fn float_number(f: f64) -> Number {
    let bits = f.to_bits();
    let negative = bits >> 63 == 1;
    let biased = ((bits >> 52) & 0x7ff) as i32;
    let fraction = (bits & ((1u64 << 52) - 1)) as i64;
    let (mut m, mut e) = if biased == 0 {
        (fraction, -1074)
    } else {
        (fraction | (1i64 << 52), biased - 1075)
    };
    if m == 0 {
        e = 0;
    } else {
        while m % 2 == 0 {
            m /= 2;
            e += 1;
        }
    }
    if negative {
        m = -m;
    }
    Number::Float(Float {
        mantissa: m,
        exponent: e,
        text: serde_json::to_string(&f).unwrap(),
    })
}

fn to_json(v: &Value) -> Json {
    match v {
        Value::Null => Json::Null,
        Value::Bool(b) => Json::Bool(*b),
        Value::Number(n) => Json::Number(if let Some(u) = n.as_u64() {
            Number::PosInt(u)
        } else if let Some(i) = n.as_i64() {
            Number::NegInt(i)
        } else {
            float_number(n.as_f64().unwrap())
        }),
        Value::String(s) => Json::String(s.clone()),
        Value::Array(a) => Json::Array(a.iter().map(to_json).collect()),
        Value::Object(m) => Json::Object(
            m.iter()
                .map(|(k, v)| Member { key: k.clone(), value: to_json(v) })
                .collect(),
        ),
    }
}

fn to_value(j: &Json) -> Value {
    match j {
        Json::Null => Value::Null,
        Json::Bool(b) => Value::Bool(*b),
        Json::Number(Number::PosInt(u)) => Value::from(*u),
        Json::Number(Number::NegInt(i)) => Value::from(*i),
        Json::Number(Number::Float(f)) => Value::from(f.text.parse::<f64>().unwrap()),
        Json::String(s) => Value::String(s.clone()),
        Json::Array(a) => Value::Array(a.iter().map(to_value).collect()),
        Json::Object(m) => Value::Object(
            m.iter().map(|mb| (mb.key.clone(), to_value(&mb.value))).collect(),
        ),
    }
}

fn from_schema(input: Value, options: &Options) -> Result<Value, Error> {
    openapi_schema_to_json_schema::from_schema(to_json(&input), options).map(|r| to_value(&r))
}

fn from_parameter(input: Value, options: &Options) -> Result<Value, Error> {
    openapi_schema_to_json_schema::from_parameter(to_json(&input), options).map(|r| to_value(&r))
}

fn assert_schema(input: Value, options: &Options, expected: Value) {
    let got = from_schema(input, options).expect("conversion should succeed");
    assert_eq!(got, expected);
}

fn assert_schema_default(input: Value, expected: Value) {
    assert_schema(input, &Options::new(), expected);
}

fn assert_schema_err(input: Value, options: &Options, substr: &str) {
    let err = from_schema(input, options).expect_err("conversion should fail");
    assert!(
        err.message().contains(substr),
        "error {:?} should contain {:?}",
        err,
        substr
    );
}

fn is_invalid_type(err: &Error) -> bool {
    matches!(err, Error::InvalidType(_))
}

use openapi_schema_to_json_schema::equality::json_equal;
use openapi_schema_to_json_schema::number::{max_bound_value, min_bound_value, NumericFormat};
use openapi_schema_to_json_schema::options::{closure_field, resolve_options};
use openapi_schema_to_json_schema::path::parse_path;
use openapi_schema_to_json_schema::pattern::default_pattern_properties_handler;
use openapi_schema_to_json_schema::render::render_json;

fn member(key: &str, value: Json) -> Member {
    Member { key: key.to_string(), value }
}

// ---- error messages ----------------------------------------------------------

#[test]
fn invalid_type_message_renders_the_value_as_json() {
    for text in [
        r#""dateTime""#,
        r#"["string",null]"#,
        r#"{"b":[1,-2,3.5],"a":true}"#,
        r#""quote \" backslash \\ newline \n tab \t bell \u0007 del \u007f é""#,
        "12",
        "-7",
        "1.5e300",
        "true",
    ] {
        let t = j(text);
        let input = jx(r#"{"type": $0}"#, &[t.clone()]);
        let err = from_schema(input, &Options::new()).unwrap_err();
        assert!(is_invalid_type(&err));
        assert_eq!(
            err.message(),
            format!("Type {} is not a valid type", serde_json::to_string(&t).unwrap())
        );
        assert_eq!(err.name(), "InvalidTypeError");
    }
}

#[test]
fn scalar_schema_is_invalid_input() {
    for text in ["null", "true", "0", "-3", "2.25", r#""abc""#] {
        let v = j(text);
        let err = from_schema(v.clone(), &Options::new()).unwrap_err();
        assert!(matches!(err, Error::InvalidInput(_)));
        assert_eq!(err.name(), "InvalidInputError");
        assert_eq!(
            err.message(),
            format!("schema must be an object, got {}", serde_json::to_string(&v).unwrap())
        );
    }
}

#[test]
fn array_schema_passes_through() {
    let input = j(r#"[{"type": "string", "nullable": true}, 3]"#);
    assert_eq!(from_schema(input.clone(), &Options::new()).unwrap(), input);
}

#[test]
fn parameter_without_schema_message() {
    let err = from_parameter(j(r#"{"name": "p", "in": "query"}"#), &Options::new()).unwrap_err();
    assert_eq!(err.name(), "InvalidInputError");
    assert_eq!(
        err.message(),
        "OpenAPI parameter must have either a 'schema' or a 'content' property"
    );
}

// ---- laws on concrete values ------------------------------------------------------

#[test]
fn root_carries_schema_uri_and_nested_nodes_do_not() {
    let out = from_schema(
        j(r#"{"allOf": [{"type": "string"}], "properties": {"a": {"type": "integer"}}}"#),
        &Options::new(),
    )
    .unwrap();
    assert_eq!(out["$schema"], j(&format!("\"{}\"", DRAFT4)));
    assert!(out["allOf"][0].get("$schema").is_none());
    assert!(out["properties"]["a"].get("$schema").is_none());
}

#[test]
fn clone_schema_setting_changes_nothing() {
    let input = j(r#"{"type": "string", "nullable": true, "properties": {"x": {"format": "int32"}}}"#);
    let base = from_schema(input.clone(), &Options::new()).unwrap();
    for b in [true, false] {
        let options = Options::new().clone_schema(b);
        assert_eq!(from_schema(input.clone(), &options).unwrap(), base);
    }
}

#[test]
fn kept_keywords_stay_and_others_are_stripped() {
    let input = j(
        r#"{"type": "string", "nullable": true, "example": "x", "deprecated": true, "xml": {}, "readOnly": true}"#,
    );
    let options = Options::new().keep_not_supported(vec!["example".to_string(), "readOnly".to_string()]);
    let out = from_schema(input, &options).unwrap();
    assert_eq!(
        out,
        jx(
            r#"{"$schema": $0, "type": ["string", "null"], "example": "x", "readOnly": true}"#,
            &[Value::String(DRAFT4.to_string())]
        )
    );
}

#[test]
fn no_stripped_keyword_survives_at_the_root() {
    let input = j(
        r#"{"nullable": false, "discriminator": {}, "readOnly": false, "writeOnly": true, "xml": 1, "externalDocs": "d", "example": 2, "deprecated": false, "title": "t"}"#,
    );
    let out = from_schema(input, &Options::new()).unwrap();
    assert_eq!(
        out,
        jx(r#"{"$schema": $0, "title": "t"}"#, &[Value::String(DRAFT4.to_string())])
    );
}

#[test]
fn strict_mode_rejects_invalid_type_even_with_definitions_rewriting_it() {
    let options = Options::new().definition_keywords(vec!["type".to_string()]);
    let err = from_schema(j(r#"{"type": {"a": {"type": "string"}}}"#), &options).unwrap_err();
    assert!(is_invalid_type(&err));
    assert_eq!(err.message(), r#"Type {"a":{"type":"string"}} is not a valid type"#);
}

#[test]
fn lenient_mode_accepts_any_type_at_any_depth() {
    let options = Options::new().strict_mode(false);
    let input = j(r#"{"type": "foo", "allOf": [{"type": ["x"]}], "properties": {"p": {"type": 5}}}"#);
    let out = from_schema(input, &options).unwrap();
    assert_eq!(out["type"], j(r#""foo""#));
    assert_eq!(out["allOf"][0]["type"], j(r#"["x"]"#));
    assert_eq!(out["properties"]["p"]["type"], j("5"));
}

#[test]
fn parameter_schema_converts_as_the_schema_does() {
    let schema = j(r#"{"type": "integer", "format": "int32", "nullable": true, "example": 3}"#);
    let param = jx(r#"{"name": "n", "in": "query", "schema": $0}"#, &[schema.clone()]);
    assert_eq!(
        from_parameter(param, &Options::new()).unwrap(),
        from_schema(schema, &Options::new()).unwrap()
    );
}

#[test]
fn content_schemas_each_carry_schema_uri_and_description() {
    let param = j(
        r#"{"description": "d", "content": {"a/b": {"schema": {"type": "string"}}, "c/d": {"schema": [1]}, "e/f": 7}}"#,
    );
    let out = from_parameter(param, &Options::new()).unwrap();
    assert_eq!(
        out,
        jx(
            r#"{"a/b": {"$schema": $0, "type": "string", "description": "d"}, "c/d": [1], "e/f": {"$schema": $0, "description": "d"}}"#,
            &[Value::String(DRAFT4.to_string())]
        )
    );
}

#[test]
fn content_that_is_not_an_object_gives_an_empty_map() {
    let out = from_parameter(j(r#"{"content": [1, 2]}"#), &Options::new()).unwrap();
    assert_eq!(out, j("{}"));
}

#[test]
fn falsy_schema_member_falls_through_to_content() {
    let out = from_parameter(
        j(r#"{"schema": null, "content": {"x": {"schema": {"type": "string"}}}}"#),
        &Options::new(),
    )
    .unwrap();
    assert_eq!(
        out,
        jx(r#"{"x": {"$schema": $0, "type": "string"}}"#, &[Value::String(DRAFT4.to_string())])
    );
}

#[test]
fn required_keeps_only_names_of_kept_or_undeclared_properties() {
    let input = j(
        r#"{"properties": {"a": {"type": "string"}, "b": true, "c": {"readOnly": true}}, "required": ["a", "b", "c", "z", 4]}"#,
    );
    let out = from_schema(input, &Options::new().remove_read_only(true)).unwrap();
    assert_eq!(out["required"], j(r#"["a", "z"]"#));
    assert_eq!(out["properties"], j(r#"{"a": {"type": "string"}}"#));
}

#[test]
fn numeric_bounds_are_within_range() {
    let v = |x: f64| serde_json::to_value(x).unwrap();
    let cases = [
        ("int32", j("-2147483648"), j("2147483647")),
        ("int64", j("-9223372036854775808"), j("9223372036854775807")),
        ("float", v(-(f32::MAX as f64)), v(f32::MAX as f64)),
        ("double", v(f64::MIN), v(f64::MAX)),
    ];
    for (format, lo, hi) in cases {
        let out = from_schema(jx(r#"{"format": $0}"#, &[Value::String(format.to_string())]), &Options::new()).unwrap();
        assert_eq!(out["minimum"], lo, "{}", format);
        assert_eq!(out["maximum"], hi, "{}", format);
    }
}

#[test]
fn numeric_bounds_keep_zero_and_in_range_values() {
    let out = from_schema(j(r#"{"format": "int32", "minimum": 0, "maximum": -5}"#), &Options::new()).unwrap();
    assert_eq!(out["minimum"], j("0"));
    assert_eq!(out["maximum"], j("-5"));
    let out = from_schema(j(r#"{"format": "float", "minimum": "", "maximum": "big"}"#), &Options::new()).unwrap();
    assert_eq!(out["minimum"], serde_json::to_value(-(f32::MAX as f64)).unwrap());
    assert_eq!(out["maximum"], j(r#""big""#));
}

#[test]
fn int64_bound_at_the_rounded_limit_is_kept() {
    // 2^63 - 1 reads as the double 2^63, which is the int64 upper limit.
    let out = from_schema(
        j(r#"{"format": "int64", "maximum": 9223372036854775807, "minimum": -9223372036854775809}"#),
        &Options::new(),
    )
    .unwrap();
    assert_eq!(out["maximum"], j("9223372036854775807"));
    assert_eq!(out["minimum"], j("-9223372036854775809"));
}

#[test]
fn bound_texts_are_the_json_text_of_the_limits() {
    for f in [NumericFormat::Int32, NumericFormat::Int64, NumericFormat::Float, NumericFormat::Double] {
        for b in [min_bound_value(f), max_bound_value(f)] {
            let v = to_value(&b);
            assert_eq!(render_json(&b), serde_json::to_string(&v).unwrap());
        }
    }
}

// ---- options ----------------------------------------------------------------------

#[test]
fn option_setters_set_their_field() {
    let o = Options::new()
        .date_to_date_time(true)
        .support_pattern_properties(true)
        .strict_mode(false)
        .remove_write_only(true)
        .definition_keywords(vec!["defs".to_string()]);
    assert_eq!(o.date_to_date_time, Some(true));
    assert_eq!(o.support_pattern_properties, Some(true));
    assert_eq!(o.strict_mode, Some(false));
    assert_eq!(o.remove_write_only, Some(true));
    assert_eq!(o.remove_read_only, None);
    assert_eq!(o.definition_keywords, Some(vec!["defs".to_string()]));
    assert_eq!(o.clone_schema, None);
}

#[test]
fn resolved_defaults() {
    let r = resolve_options(&Options::new());
    assert!(!r.date_to_date_time());
    assert!(!r.support_pattern_properties());
    assert!(r.strict_mode());
    assert!(r.definition_keywords().is_empty());
    assert!(r.remove_props().is_empty());
    assert_eq!(
        r.not_supported(),
        &vec!["nullable", "discriminator", "readOnly", "writeOnly", "xml", "externalDocs", "example", "deprecated"]
            .into_iter()
            .map(String::from)
            .collect::<Vec<String>>()
    );
}

#[test]
fn resolved_removal_flags_and_kept_keywords() {
    let r = resolve_options(
        &Options::new()
            .remove_read_only(true)
            .remove_write_only(true)
            .keep_not_supported(vec!["xml".to_string(), "nullable".to_string()])
            .definition_keywords(vec!["a.b".to_string()]),
    );
    assert_eq!(r.remove_props(), &vec!["readOnly".to_string(), "writeOnly".to_string()]);
    assert_eq!(
        r.not_supported(),
        &vec!["discriminator", "readOnly", "writeOnly", "externalDocs", "example", "deprecated"]
            .into_iter()
            .map(String::from)
            .collect::<Vec<String>>()
    );
    assert_eq!(r.definition_keywords(), &["a.b".to_string()]);
}

#[test]
fn closure_field_shows_set_or_unset() {
    assert_eq!(closure_field(true), "Some(<closure>)");
    assert_eq!(closure_field(false), "None");
}

// ---- JSON helpers -------------------------------------------------------------------

#[test]
fn paths_split_on_dots_and_brackets() {
    assert_eq!(parse_path("a.b"), vec!["a", "b"]);
    assert_eq!(parse_path("a[0]"), vec!["a", "0"]);
    assert_eq!(parse_path(r#"a["x.y"]"#), vec!["a", "x.y"]);
    assert_eq!(parse_path("a['x']"), vec!["a", "x"]);
    // A dot after a closing bracket only separates; two dots in a row still
    // enclose an empty key.
    assert_eq!(parse_path("a[0].c"), vec!["a", "0", "c"]);
    assert_eq!(parse_path("a['x'].b"), vec!["a", "x", "b"]);
    assert_eq!(parse_path("a..b"), vec!["a", "", "b"]);
    assert_eq!(parse_path(""), vec![""]);
}

#[test]
fn definition_paths_reach_into_arrays() {
    let options = Options::new().definition_keywords(vec!["defs[1]".to_string()]);
    let out = from_schema(
        j(r#"{"defs": [0, {"s": {"type": "string", "nullable": true}}]}"#),
        &options,
    )
    .unwrap();
    assert_eq!(
        out["defs"][1]["s"],
        j(r#"{"type": ["string", "null"]}"#)
    );
    assert_eq!(out["defs"][0], j("0"));
}

#[test]
fn definition_path_through_an_array_element() {
    let options = Options::new().definition_keywords(vec!["defs[0].x".to_string()]);
    let out = from_schema(
        j(r#"{"defs": [{"x": {"s": {"type": "string", "nullable": true}}}]}"#),
        &options,
    )
    .unwrap();
    assert_eq!(out["defs"][0]["x"]["s"], j(r#"{"type": ["string", "null"]}"#));
}

#[test]
fn definition_path_missing_is_skipped() {
    let options = Options::new().definition_keywords(vec!["nothing.here".to_string()]);
    let out = from_schema(j(r#"{"type": "string"}"#), &options).unwrap();
    assert_eq!(out, jx(r#"{"$schema": $0, "type": "string"}"#, &[Value::String(DRAFT4.to_string())]));
}

#[test]
fn deep_equality_ignores_member_order_and_tells_integers_from_floats() {
    let a = Json::Object(vec![member("x", Json::Number(Number::PosInt(1))), member("y", Json::Null)]);
    let b = Json::Object(vec![member("y", Json::Null), member("x", Json::Number(Number::PosInt(1)))]);
    assert!(json_equal(&a, &b));
    let c = Json::Object(vec![member("y", Json::Null), member("x", to_json(&j("1.0")))]);
    assert!(!json_equal(&a, &c));
    assert!(json_equal(&to_json(&j("[1.5, \"s\"]")), &to_json(&j("[1.5, \"s\"]"))));
    assert!(!json_equal(&to_json(&j("[1, 2]")), &to_json(&j("[1]"))));
}

#[test]
fn default_pattern_handler_disallows_matching_additional_properties() {
    let schema = Json::Object(vec![
        member(
            "additionalProperties",
            Json::Object(vec![member("type", Json::String("string".to_string())), member("n", Json::Null)]),
        ),
        member(
            "patternProperties",
            Json::Object(vec![member(
                "^x$",
                Json::Object(vec![member("n", Json::Null), member("type", Json::String("string".to_string()))]),
            )]),
        ),
    ]);
    let out = to_value(&default_pattern_properties_handler(schema));
    assert_eq!(out["additionalProperties"], j("false"));
    let unmatched = to_json(&j(r#"{"additionalProperties": {"type": "number"}, "patternProperties": {"p": {"type": "string"}}}"#));
    let out = to_value(&default_pattern_properties_handler(unmatched));
    assert_eq!(out["additionalProperties"], j(r#"{"type": "number"}"#));
    let scalar = to_json(&j("5"));
    assert_eq!(to_value(&default_pattern_properties_handler(scalar)), j("5"));
}

#[test]
fn render_writes_compact_json_in_key_order() {
    let v = Json::Object(vec![
        member("b", Json::Array(vec![Json::Bool(true), Json::Null, Json::Number(Number::NegInt(-12))])),
        member("a", Json::String("q\"\u{1f}".to_string())),
    ]);
    assert_eq!(render_json(&v), r#"{"a":"q\"\u001f","b":[true,null,-12]}"#);
    assert_eq!(render_json(&Json::Number(Number::NegInt(i64::MIN))), "-9223372036854775808");
    assert_eq!(render_json(&Json::Number(Number::PosInt(u64::MAX))), "18446744073709551615");
}

#[test]
fn date_format_becomes_date_time_only_when_asked() {
    let input = j(r#"{"type": "string", "format": "date"}"#);
    assert_eq!(from_schema(input.clone(), &Options::new()).unwrap()["format"], j(r#""date""#));
    let out = from_schema(input, &Options::new().date_to_date_time(true)).unwrap();
    assert_eq!(out["format"], j(r#""date-time""#));
}

#[test]
fn x_pattern_properties_that_is_not_a_container_is_dropped() {
    let out = from_schema(
        j(r#"{"x-patternProperties": 5, "additionalProperties": {"a": 1}}"#),
        &Options::new().support_pattern_properties(true),
    )
    .unwrap();
    assert_eq!(
        out,
        jx(r#"{"$schema": $0, "additionalProperties": {"a": 1}}"#, &[Value::String(DRAFT4.to_string())])
    );
}

#[test]
fn strict_mode_rejects_nested_invalid_types() {
    for text in [
        r#"{"allOf": [{"type": "string"}, {"type": "foo"}]}"#,
        r#"{"properties": {"a": {"items": {"type": ["x"]}}}}"#,
        r#"{"not": {"additionalProperties": {"type": 1}}}"#,
    ] {
        let err = from_schema(j(text), &Options::new()).unwrap_err();
        assert!(is_invalid_type(&err), "{}", text);
    }
    // A property that is dropped is not converted, so its type is not checked.
    let out = from_schema(
        j(r#"{"properties": {"a": {"readOnly": true, "type": "foo"}}}"#),
        &Options::new().remove_read_only(true),
    )
    .unwrap();
    assert!(out.get("properties").is_none());
}

// ---- conversion steps -----------------------------------------------------------

#[test]
fn struct_keyword_values_each_take_their_own_form() {
    assert_schema_default(
        j(r#"{"allOf": null, "not": 5,
              "anyOf": [1, {"type": "string", "nullable": true}, "x"],
              "oneOf": {"type": "integer", "format": "int32"}}"#),
        jx(
            r#"{"not": 5, "anyOf": [{"type": ["string", "null"]}],
                "oneOf": {"type": "integer", "format": "int32",
                          "minimum": -2147483648, "maximum": 2147483647},
                "$schema": $0}"#,
            &[Value::from(DRAFT4)],
        ),
    );
}

#[test]
fn required_keeps_undeclared_names_and_drops_other_entries() {
    assert_schema(
        j(r#"{"type": "object",
              "properties": {"a": {"type": "string", "readOnly": true}, "b": {"type": "string"}},
              "required": ["a", "b", "c", 7]}"#),
        &Options::new().remove_read_only(true),
        jx(
            r#"{"type": "object", "properties": {"b": {"type": "string"}},
                "required": ["b", "c"], "$schema": $0}"#,
            &[Value::from(DRAFT4)],
        ),
    );
}

#[test]
fn definition_keyword_paths_by_value_kind() {
    let o = Options::new().definition_keywords(vec!["defs".to_string()]);
    assert_schema(
        j(r#"{"type": "object", "defs": null}"#),
        &o,
        jx(r#"{"type": "object", "defs": {}, "$schema": $0}"#, &[Value::from(DRAFT4)]),
    );
    assert_schema(
        j(r#"{"type": "object", "defs": 3}"#),
        &o,
        jx(r#"{"type": "object", "defs": 3, "$schema": $0}"#, &[Value::from(DRAFT4)]),
    );
    assert_schema(
        j(r#"{"type": "object"}"#),
        &o,
        jx(r#"{"type": "object", "$schema": $0}"#, &[Value::from(DRAFT4)]),
    );
}

#[test]
fn parameter_content_has_exactly_the_media_types() {
    let param = j(r#"{"name": "p", "in": "query", "description": "d",
                      "content": {"application/json": {"schema": {"type": "string", "nullable": true}},
                                  "text/plain": {}}}"#);
    assert_eq!(
        from_parameter(param, &Options::new()).unwrap(),
        jx(
            r#"{"application/json": {"type": ["string", "null"], "$schema": $0, "description": "d"},
                "text/plain": {"$schema": $0, "description": "d"}}"#,
            &[Value::from(DRAFT4)],
        ),
    );
}

// ---- converting a converted schema ------------------------------------------------

#[test]
fn reconverting_a_nullable_schema_in_strict_mode_is_an_error() {
    let once = from_schema(j(r#"{"type": "string", "nullable": true}"#), &Options::new()).unwrap();
    let err = from_schema(once, &Options::new()).unwrap_err();
    assert!(is_invalid_type(&err));
}

#[test]
fn reconverting_in_lenient_mode_changes_nothing() {
    let o = Options::new().strict_mode(false);
    let input = j(r#"{"type": "object", "format": "int32", "nullable": true,
                      "properties": {"a": {"type": "integer", "format": "int64"},
                                     "b": {"type": "string", "format": "byte"}},
                      "required": ["a", "c"],
                      "allOf": [{"type": "number", "format": "float"}, 3]}"#);
    let once = from_schema(input, &o).unwrap();
    let twice = from_schema(once.clone(), &o).unwrap();
    assert_eq!(twice, once);
}

#[test]
fn reconverting_with_nullable_kept_wraps_the_type_again() {
    let o = Options::new().strict_mode(false).keep_not_supported(vec!["nullable".to_string()]);
    let once = from_schema(j(r#"{"type": "string", "nullable": true}"#), &o).unwrap();
    assert_eq!(once["type"], j(r#"["string", "null"]"#));
    let twice = from_schema(once, &o).unwrap();
    assert_eq!(twice["type"], j(r#"[["string", "null"], "null"]"#));
}

// ---- debug text of the settings ----------------------------------------------------

#[test]
fn resolved_options_debug_text_shows_each_setting_and_hook() {
    let r = resolve_options(&Options::new());
    assert_eq!(
        format!("{:?}", r),
        "ResolvedOptions { date_to_date_time: false, support_pattern_properties: false, \
         strict_mode: true, definition_keywords: [], pattern_properties_handler: \"None\", \
         before_transform: \"None\", after_transform: \"None\", remove_props: [], \
         not_supported: [\"nullable\", \"discriminator\", \"readOnly\", \"writeOnly\", \"xml\", \
         \"externalDocs\", \"example\", \"deprecated\"] }"
    );
    let o = Options::new().remove_read_only(true).definition_keywords(vec!["defs".to_string()]);
    let r = resolve_options(&o).with_supplied_hooks(true, false, true);
    assert_eq!(
        format!("{:?}", r),
        "ResolvedOptions { date_to_date_time: false, support_pattern_properties: false, \
         strict_mode: true, definition_keywords: [\"defs\"], pattern_properties_handler: \
         \"Some(<closure>)\", before_transform: \"None\", after_transform: \
         \"Some(<closure>)\", remove_props: [\"readOnly\"], not_supported: [\"nullable\", \
         \"discriminator\", \"readOnly\", \"writeOnly\", \"xml\", \"externalDocs\", \
         \"example\", \"deprecated\"] }"
    );
}

// ---- key order in rendered text ----------------------------------------------------

#[test]
fn rendered_objects_list_members_in_key_order() {
    let obj = Json::Object(vec![
        member("z", Json::Bool(true)),
        member("é", Json::Null),
        member("ab", Json::Object(vec![member("y", Json::Null), member("x", Json::Null)])),
        member("Z", Json::Bool(false)),
        member("a", Json::String("s".to_string())),
    ]);
    assert_eq!(
        render_json(&obj),
        r#"{"Z":false,"a":"s","ab":{"x":null,"y":null},"z":true,"é":null}"#
    );
    assert_eq!(render_json(&obj), serde_json::to_string(&to_value(&obj)).unwrap());
}

#[test]
fn invalid_type_message_lists_added_bounds_in_key_order() {
    let o = Options::new().definition_keywords(vec!["type".to_string()]);
    let err = from_schema(j(r#"{"type": {"x": {"format": "int32"}}}"#), &o).unwrap_err();
    assert!(is_invalid_type(&err));
    assert_eq!(
        err.message(),
        r#"Type {"x":{"format":"int32","maximum":2147483647,"minimum":-2147483648}} is not a valid type"#
    );
}
