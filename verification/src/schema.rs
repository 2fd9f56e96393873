//! The recursive schema converter.
//!
//! A node is converted in this order: the before hook; struct keywords
//! (`allOf`, `anyOf`, `oneOf`, `not`, `items`, `additionalProperties`);
//! definition keywords; `properties` and `required`; `type` validation;
//! `nullable`; `format`; pattern properties; stripping of OpenAPI-only
//! keywords; the after hook.
use vstd::prelude::*;
use crate::consts::{
    byte_pattern,
    draft_04_uri,
    struct_keywords,
    valid_formats,
    valid_types,
};
use crate::error::ErrorV;
use crate::json::{
    JsonV,
    get_member,
    has_member,
    is_container,
    remove_member,
    set_key,
    set_member,
    truthy,
};
use crate::number::{NumericFormat, clamp_members};
use crate::options::Config;
use crate::path::{get_path, members_or_empty, path_segments, set_path};
use crate::render::render;
use crate::text::decimal;
use crate::transform::Hooks;

verus! {

// ---- errors ------------------------------------------------------------------
/// The error for a node that is neither an object nor an array.
pub open spec fn not_object_error(j: JsonV) -> ErrorV {
    ErrorV::InvalidInput("schema must be an object, got "@ + render(j))
}

/// The error for a `type` outside the draft-04 type set.
pub open spec fn type_error(t: JsonV) -> ErrorV {
    ErrorV::InvalidType("Type "@ + render(t) + " is not a valid type"@)
}

/// The error for a document nested deeper than the depth budget.
pub open spec fn depth_error() -> ErrorV {
    ErrorV::InvalidInput("schema nesting is too deep"@)
}

/// The nesting depth a conversion accepts, `u64::MAX` levels. Every level of
/// nesting is converted in a call of its own, so a document that reaches the
/// budget cannot be held in memory.
pub open spec fn depth_budget() -> nat {
    0xffff_ffff_ffff_ffff
}

// ---- the steps that do not recurse ----------------------------------------------
/// The keys of a list of members.
pub open spec fn keys(es: Seq<(Seq<char>, JsonV)>) -> Seq<Seq<char>> {
    Seq::new(es.len(), |i: int| es[i].0)
}

/// Members keyed by the decimal text of each array index.
pub open spec fn index_entries(items: Seq<JsonV>) -> Seq<(Seq<char>, JsonV)> {
    Seq::new(items.len(), |i: int| (decimal(i as nat), items[i]))
}

/// A property carries one of the removal flags set to `true`.
pub open spec fn flagged(flags: Seq<Seq<char>>, p: JsonV) -> bool {
    match p {
        JsonV::Object(es) => exists|i: int|
            0 <= i < flags.len() && #[trigger] get_member(es, flags[i]) == Some(JsonV::Bool(true)),
        _ => false,
    }
}

/// A `required` entry that survives: a name whose property was kept, or a
/// name that had no property in the input.
pub open spec fn keeps_required(x: JsonV, kept: Seq<Seq<char>>, input: Seq<Seq<char>>) -> bool {
    match x {
        JsonV::String(s) => kept.contains(s) || !input.contains(s),
        _ => false,
    }
}

/// Keep the `required` entries that survive; drop an empty `required`.
pub open spec fn required_step(
    es: Seq<(Seq<char>, JsonV)>,
    kept: Seq<Seq<char>>,
    input: Seq<Seq<char>>,
) -> Seq<(Seq<char>, JsonV)> {
    match get_member(es, "required"@) {
        Some(JsonV::Array(req)) => {
            let f = req.filter(|x: JsonV| keeps_required(x, kept, input));
            if f.len() == 0 {
                remove_member(es, "required"@)
            } else {
                set_member(es, "required"@, JsonV::Array(f))
            }
        },
        _ => es,
    }
}

/// Write the converted `properties`, prune `required`, and drop an empty
/// `properties`.
pub open spec fn prune_required(
    es: Seq<(Seq<char>, JsonV)>,
    input: Seq<Seq<char>>,
    conv: JsonV,
) -> Seq<(Seq<char>, JsonV)> {
    let es2 = required_step(
        set_member(es, "properties"@, conv),
        keys(members_or_empty(conv)),
        input,
    );
    if get_member(es2, "properties"@) == Some(JsonV::Object(Seq::empty())) {
        remove_member(es2, "properties"@)
    } else {
        es2
    }
}

/// A `type` value that strict mode rejects: truthy and not a valid type name.
pub open spec fn bad_type(t: JsonV) -> bool {
    truthy(t) && !(t is String && valid_types().contains(t->String_0))
}

/// The `type` error of a node, if any.
pub open spec fn type_check(c: Config, es: Seq<(Seq<char>, JsonV)>) -> Option<ErrorV> {
    match get_member(es, "type"@) {
        Some(t) => if c.strict_mode && bad_type(t) {
            Some(type_error(t))
        } else {
            None
        },
        None => None,
    }
}

/// The `type` written for a nullable node.
pub open spec fn nullable_type(t: JsonV) -> JsonV {
    if t == JsonV::String("null"@) {
        JsonV::Array(seq![JsonV::String("null"@)])
    } else {
        JsonV::Array(seq![t, JsonV::String("null"@)])
    }
}

/// `nullable: true` with a `type` adds `"null"` to the type and `null` to an
/// array `enum` that lacks it.
pub open spec fn nullable_step(es: Seq<(Seq<char>, JsonV)>) -> Seq<(Seq<char>, JsonV)> {
    if get_member(es, "nullable"@) == Some(JsonV::Bool(true)) {
        match get_member(es, "type"@) {
            Some(t) => {
                let es1 = set_member(es, "type"@, nullable_type(t));
                match get_member(es1, "enum"@) {
                    Some(JsonV::Array(items)) => if items.contains(JsonV::Null) {
                        es1
                    } else {
                        set_member(es1, "enum"@, JsonV::Array(items.push(JsonV::Null)))
                    },
                    _ => es1,
                }
            },
            None => es,
        }
    } else {
        es
    }
}

/// The numeric format a format name stands for.
pub open spec fn numeric_format(f: Seq<char>) -> Option<NumericFormat> {
    if f == "int32"@ {
        Some(NumericFormat::Int32)
    } else if f == "int64"@ {
        Some(NumericFormat::Int64)
    } else if f == "float"@ {
        Some(NumericFormat::Float)
    } else if f == "double"@ {
        Some(NumericFormat::Double)
    } else {
        None
    }
}

/// `format` handling: valid draft-04 formats pass; `date` becomes
/// `date-time` when asked; numeric formats set or clamp `minimum` and
/// `maximum`; `byte` sets a base64 `pattern`.
pub open spec fn format_step(c: Config, es: Seq<(Seq<char>, JsonV)>) -> Seq<(Seq<char>, JsonV)> {
    match get_member(es, "format"@) {
        Some(JsonV::String(f)) => if valid_formats().contains(f) {
            es
        } else if f == "date"@ && c.date_to_date_time {
            set_member(es, "format"@, JsonV::String("date-time"@))
        } else if f == "byte"@ {
            set_member(es, "pattern"@, JsonV::String(byte_pattern()))
        } else {
            match numeric_format(f) {
                Some(nf) => clamp_members(es, nf),
                None => es,
            }
        },
        _ => es,
    }
}

/// Move `x-patternProperties` to `patternProperties` and run the handler,
/// when pattern properties are supported and the node has the keyword.
pub open spec fn pattern_step<H: Hooks>(h: H, c: Config, es: Seq<(Seq<char>, JsonV)>) -> JsonV {
    if c.support_pattern_properties && has_member(es, "x-patternProperties"@) {
        let x = get_member(es, "x-patternProperties"@)->0;
        let es1 = remove_member(es, "x-patternProperties"@);
        let es2 = if is_container(x) {
            set_member(es1, "patternProperties"@, x)
        } else {
            es1
        };
        h.pattern_spec(JsonV::Object(es2))
    } else {
        JsonV::Object(es)
    }
}

/// Remove the first `n` keywords of `kws`, in order.
pub open spec fn strip_keys(es: Seq<(Seq<char>, JsonV)>, kws: Seq<Seq<char>>, n: nat) -> Seq<
    (Seq<char>, JsonV),
>
    decreases n,
{
    if n == 0 || n > kws.len() {
        es
    } else {
        remove_member(strip_keys(es, kws, (n - 1) as nat), kws[n - 1])
    }
}

/// Strip the OpenAPI-only keywords from an object node.
pub open spec fn strip_step(c: Config, n: JsonV) -> JsonV {
    match n {
        JsonV::Object(es) => JsonV::Object(strip_keys(es, c.not_supported, c.not_supported.len())),
        _ => n,
    }
}

/// The steps after `required` pruning: type validation, nullable, format,
/// pattern properties and stripping.
pub open spec fn finish<H: Hooks>(h: H, c: Config, es: Seq<(Seq<char>, JsonV)>) -> Result<
    JsonV,
    ErrorV,
> {
    match type_check(c, es) {
        Some(e) => Err(e),
        None => Ok(strip_step(c, pattern_step(h, c, format_step(c, nullable_step(es))))),
    }
}

// ---- the recursive steps ----------------------------------------------------------
/// Convert one node with `fuel` levels of nesting left.
pub open spec fn convert_node<H: Hooks>(h: H, c: Config, fuel: nat, j: JsonV) -> Result<
    JsonV,
    ErrorV,
>
    decreases fuel, 0nat, 0nat,
{
    if fuel == 0 {
        Err(depth_error())
    } else {
        let b = h.before_spec(j, c);
        match b {
            JsonV::Array(_) => Ok(h.after_spec(b, c)),
            JsonV::Object(es) => match process(h, c, (fuel - 1) as nat, es) {
                Ok(r) => Ok(h.after_spec(r, c)),
                Err(e) => Err(e),
            },
            _ => Err(not_object_error(b)),
        }
    }
}

/// Keyword processing of an object node.
pub open spec fn process<H: Hooks>(h: H, c: Config, f: nat, es: Seq<(Seq<char>, JsonV)>) -> Result<
    JsonV,
    ErrorV,
>
    decreases f, 9nat, 0nat,
{
    match structs_prefix(h, c, f, es, struct_keywords().len()) {
        Err(e) => Err(e),
        Ok(es1) => match definitions_prefix(h, c, f, es1, c.definition_keywords.len()) {
            Err(e) => Err(e),
            Ok(es2) => match props_required(h, c, f, es2) {
                Err(e) => Err(e),
                Ok(es3) => finish(h, c, es3),
            },
        },
    }
}

/// Recurse into the first `n` struct keywords.
pub open spec fn structs_prefix<H: Hooks>(
    h: H,
    c: Config,
    f: nat,
    es: Seq<(Seq<char>, JsonV)>,
    n: nat,
) -> Result<Seq<(Seq<char>, JsonV)>, ErrorV>
    decreases f, 8nat, n,
{
    if n == 0 || n > struct_keywords().len() {
        Ok(es)
    } else {
        match structs_prefix(h, c, f, es, (n - 1) as nat) {
            Err(e) => Err(e),
            Ok(es1) => struct_step(h, c, f, es1, struct_keywords()[n - 1]),
        }
    }
}

/// Recurse into one struct keyword: an array has its containers converted
/// and its other elements dropped; null removes the keyword; an object is
/// converted; anything else is left as it is.
pub open spec fn struct_step<H: Hooks>(
    h: H,
    c: Config,
    f: nat,
    es: Seq<(Seq<char>, JsonV)>,
    kw: Seq<char>,
) -> Result<Seq<(Seq<char>, JsonV)>, ErrorV>
    decreases f, 7nat, 0nat,
{
    match get_member(es, kw) {
        Some(JsonV::Array(items)) => match convert_items(h, c, f, items, items.len()) {
            Ok(out) => Ok(set_member(es, kw, JsonV::Array(out))),
            Err(e) => Err(e),
        },
        Some(JsonV::Null) => Ok(remove_member(es, kw)),
        Some(JsonV::Object(o)) => match convert_node(h, c, f, JsonV::Object(o)) {
            Ok(q) => Ok(set_member(es, kw, q)),
            Err(e) => Err(e),
        },
        _ => Ok(es),
    }
}

/// Convert the containers among the first `n` items, dropping the rest.
pub open spec fn convert_items<H: Hooks>(
    h: H,
    c: Config,
    f: nat,
    items: Seq<JsonV>,
    n: nat,
) -> Result<Seq<JsonV>, ErrorV>
    decreases f, 2nat, n,
{
    if n == 0 || n > items.len() {
        Ok(Seq::empty())
    } else {
        match convert_items(h, c, f, items, (n - 1) as nat) {
            Err(e) => Err(e),
            Ok(out) => if !is_container(items[n - 1]) {
                Ok(out)
            } else {
                match convert_node(h, c, f, items[n - 1]) {
                    Ok(q) => Ok(out.push(q)),
                    Err(e) => Err(e),
                }
            },
        }
    }
}

/// Convert the values at the first `n` definition keyword paths.
pub open spec fn definitions_prefix<H: Hooks>(
    h: H,
    c: Config,
    f: nat,
    es: Seq<(Seq<char>, JsonV)>,
    n: nat,
) -> Result<Seq<(Seq<char>, JsonV)>, ErrorV>
    decreases f, 6nat, n,
{
    if n == 0 || n > c.definition_keywords.len() {
        Ok(es)
    } else {
        match definitions_prefix(h, c, f, es, (n - 1) as nat) {
            Err(e) => Err(e),
            Ok(es1) => {
                let segs = path_segments(c.definition_keywords[n - 1]);
                match get_path(JsonV::Object(es1), segs) {
                    Some(v) => if is_container(v) || v is Null {
                        match convert_properties(h, c, f, v) {
                            Ok(p) => Ok(members_or_empty(set_path(JsonV::Object(es1), segs, p))),
                            Err(e) => Err(e),
                        }
                    } else {
                        Ok(es1)
                    },
                    None => Ok(es1),
                }
            },
        }
    }
}

/// Convert `properties` and prune `required`.
pub open spec fn props_required<H: Hooks>(
    h: H,
    c: Config,
    f: nat,
    es: Seq<(Seq<char>, JsonV)>,
) -> Result<Seq<(Seq<char>, JsonV)>, ErrorV>
    decreases f, 5nat, 0nat,
{
    match get_member(es, "properties"@) {
        None => Ok(es),
        Some(pv) => {
            let input = match pv {
                JsonV::Object(ps) => keys(ps),
                _ => Seq::empty(),
            };
            match convert_properties(h, c, f, pv) {
                Err(e) => Err(e),
                Ok(conv) => Ok(prune_required(remove_member(es, "properties"@), input, conv)),
            }
        },
    }
}

/// Convert a `properties` map into a fresh object. An array is read by
/// index; any other value gives an empty object.
pub open spec fn convert_properties<H: Hooks>(h: H, c: Config, f: nat, v: JsonV) -> Result<
    JsonV,
    ErrorV,
>
    decreases f, 4nat, 0nat,
{
    match v {
        JsonV::Object(es) => match props_entries(h, c, f, es, es.len()) {
            Ok(out) => Ok(JsonV::Object(out)),
            Err(e) => Err(e),
        },
        JsonV::Array(items) => match props_entries(h, c, f, index_entries(items), items.len()) {
            Ok(out) => Ok(JsonV::Object(out)),
            Err(e) => Err(e),
        },
        _ => Ok(JsonV::Object(Seq::empty())),
    }
}

/// Convert the first `n` entries: non-containers and flagged properties are
/// dropped, the others are converted and set under their key.
pub open spec fn props_entries<H: Hooks>(
    h: H,
    c: Config,
    f: nat,
    ents: Seq<(Seq<char>, JsonV)>,
    n: nat,
) -> Result<Seq<(Seq<char>, JsonV)>, ErrorV>
    decreases f, 3nat, n,
{
    if n == 0 || n > ents.len() {
        Ok(Seq::empty())
    } else {
        match props_entries(h, c, f, ents, (n - 1) as nat) {
            Err(e) => Err(e),
            Ok(out) => {
                let p = ents[n - 1].1;
                if !is_container(p) || flagged(c.remove_props, p) {
                    Ok(out)
                } else {
                    match convert_node(h, c, f, p) {
                        Ok(q) => Ok(set_member(out, ents[n - 1].0, q)),
                        Err(e) => Err(e),
                    }
                }
            },
        }
    }
}

// ---- an error ends a walk --------------------------------------------------------
/// Once recursing into a struct keyword fails, the walk fails with that error.
pub proof fn lemma_structs_err<H: Hooks>(
    h: H,
    c: Config,
    f: nat,
    es: Seq<(Seq<char>, JsonV)>,
    m: nat,
    n: nat,
)
    requires
        m <= n <= struct_keywords().len(),
        structs_prefix(h, c, f, es, m) is Err,
    ensures
        structs_prefix(h, c, f, es, n) == structs_prefix(h, c, f, es, m),
    decreases n,
{
    if m < n {
        lemma_structs_err(h, c, f, es, m, (n - 1) as nat);
    }
}

/// Once converting an item fails, the walk fails with that error.
pub proof fn lemma_items_err<H: Hooks>(
    h: H,
    c: Config,
    f: nat,
    items: Seq<JsonV>,
    m: nat,
    n: nat,
)
    requires
        m <= n <= items.len(),
        convert_items(h, c, f, items, m) is Err,
    ensures
        convert_items(h, c, f, items, n) == convert_items(h, c, f, items, m),
    decreases n,
{
    if m < n {
        lemma_items_err(h, c, f, items, m, (n - 1) as nat);
    }
}

/// Once converting a definition fails, the walk fails with that error.
pub proof fn lemma_definitions_err<H: Hooks>(
    h: H,
    c: Config,
    f: nat,
    es: Seq<(Seq<char>, JsonV)>,
    m: nat,
    n: nat,
)
    requires
        m <= n <= c.definition_keywords.len(),
        definitions_prefix(h, c, f, es, m) is Err,
    ensures
        definitions_prefix(h, c, f, es, n) == definitions_prefix(h, c, f, es, m),
    decreases n,
{
    if m < n {
        lemma_definitions_err(h, c, f, es, m, (n - 1) as nat);
    }
}

/// Once converting a property fails, the walk fails with that error.
pub proof fn lemma_entries_err<H: Hooks>(
    h: H,
    c: Config,
    f: nat,
    ents: Seq<(Seq<char>, JsonV)>,
    m: nat,
    n: nat,
)
    requires
        m <= n <= ents.len(),
        props_entries(h, c, f, ents, m) is Err,
    ensures
        props_entries(h, c, f, ents, n) == props_entries(h, c, f, ents, m),
    decreases n,
{
    if m < n {
        lemma_entries_err(h, c, f, ents, m, (n - 1) as nat);
    }
}

/// Convert a schema and write `$schema` on an object result.
pub open spec fn convert_root<H: Hooks>(h: H, c: Config, j: JsonV) -> Result<JsonV, ErrorV> {
    match convert_node(h, c, depth_budget(), j) {
        Ok(r) => Ok(set_key(r, "$schema"@, JsonV::String(draft_04_uri()))),
        Err(e) => Err(e),
    }
}

} // verus!
