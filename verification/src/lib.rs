//! Convert OpenAPI 3.0 schema objects to JSON Schema draft-04.
//!
//! OpenAPI 3.0 describes schemas with an extended subset of JSON Schema that
//! is not itself valid draft-04. This crate converts such a schema, held as a
//! [`json::Json`] document, into a draft-04 document.
//!
//! - `nullable: true` adds `"null"` to `type`, and `null` to an array `enum`.
//! - OpenAPI-only keywords are stripped: `nullable`, `discriminator`,
//!   `readOnly`, `writeOnly`, `xml`, `externalDocs`, `example`, `deprecated`.
//! - Numeric formats (`int32`, `int64`, `float`, `double`) become `minimum`
//!   and `maximum` bounds; `byte` becomes a base64 `pattern`; `date` can
//!   become `date-time`.
//! - `allOf`, `anyOf`, `oneOf`, `not`, `items`, `additionalProperties` and
//!   `properties` are converted recursively.
//! - `required` loses the names whose property was removed.
//! - In strict mode an invalid `type` is an error.
//!
//! The root of the result carries `"$schema"`; nested schemas do not.
use vstd::prelude::*;

pub mod consts;
pub mod convert;
pub mod equality;
pub mod error;
pub mod json;
pub mod laws;
pub mod number;
pub mod options;
pub mod parameter;
pub mod path;
pub mod pattern;
pub mod render;
pub mod schema;
pub mod step_laws;
pub mod steps;
pub mod text;
pub mod transform;

use crate::convert::{convert_from_schema, result_view};
use crate::error::Error;
use crate::json::Json;
use crate::options::{Options, resolve, resolve_options};
use crate::parameter::{convert_from_parameter, convert_parameter};
use crate::schema::convert_root;
use crate::transform::{Hooks, NoHooks};

verus! {

/// Convert an OpenAPI 3.0 Schema Object to a JSON Schema draft-04 document.
///
/// The root of an object result carries `$schema`.
///
/// # Errors
///
/// [`Error::InvalidType`] when strict mode is on and a node carries a `type`
/// outside the draft-04 type set; [`Error::InvalidInput`] when a node that
/// must be a schema is a scalar.
pub fn from_schema(schema: Json, options: &Options) -> (r: Result<Json, Error>)
    ensures
        result_view(r) == convert_root(NoHooks, resolve(options@), schema@),
{
    let resolved = resolve_options(options);
    convert_from_schema(schema, &resolved, &NoHooks)
}

/// [`from_schema`] with caller-supplied hooks.
pub fn from_schema_with_hooks<H: Hooks>(schema: Json, options: &Options, hooks: &H) -> (r: Result<
    Json,
    Error,
>)
    ensures
        result_view(r) == convert_root(*hooks, resolve(options@), schema@),
{
    let (pattern, before, after) = hooks.supplied();
    let resolved = resolve_options(options).with_supplied_hooks(pattern, before, after);
    convert_from_schema(schema, &resolved, hooks)
}

/// Convert an OpenAPI 3.0 Parameter Object or Response Object.
///
/// With a `schema` member the result is one JSON Schema. With a `content`
/// member the result is an object keyed by media type whose values are JSON
/// Schemas, each with its own `$schema`; the outer object has none. A truthy
/// `description` on the parameter is copied onto each result.
///
/// # Errors
///
/// [`Error::InvalidInput`] when strict mode is on and the parameter has
/// neither a `schema` nor a `content` member, and the errors of
/// [`from_schema`].
pub fn from_parameter(parameter: Json, options: &Options) -> (r: Result<Json, Error>)
    ensures
        result_view(r) == convert_parameter(NoHooks, resolve(options@), parameter@),
{
    let resolved = resolve_options(options);
    convert_from_parameter(parameter, &resolved, &NoHooks)
}

/// [`from_parameter`] with caller-supplied hooks.
pub fn from_parameter_with_hooks<H: Hooks>(parameter: Json, options: &Options, hooks: &H) -> (r:
    Result<Json, Error>)
    ensures
        result_view(r) == convert_parameter(*hooks, resolve(options@), parameter@),
{
    let (pattern, before, after) = hooks.supplied();
    let resolved = resolve_options(options).with_supplied_hooks(pattern, before, after);
    convert_from_parameter(parameter, &resolved, hooks)
}

} // verus!
