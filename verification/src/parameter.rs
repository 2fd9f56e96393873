//! Parameter and response conversion.
//!
//! First match wins: a truthy `schema` member converts that schema; a truthy
//! `content` member converts each media type's schema into an object keyed by
//! media type (the object itself has no `$schema`); strict mode rejects the
//! parameter; otherwise an empty schema is converted. A truthy `description`
//! on the parameter is copied onto each converted schema.
use vstd::prelude::*;
use crate::convert::{convert_from_schema, result_view};
use crate::error::{Error, ErrorV};
use crate::json::{
    Json,
    JsonV,
    Member,
    copy_json,
    get_member,
    get_member_ref,
    json_truthy,
    lemma_members_view,
    members_view,
    set_key,
    set_member,
    set_member_exec,
    truthy,
};
use crate::options::ResolvedOptions;
use crate::schema::convert_root;
use crate::text::owned;
use crate::transform::Hooks;

verus! {

/// The error for a parameter with neither `schema` nor `content` in strict
/// mode.
pub open spec fn parameter_error() -> ErrorV {
    ErrorV::InvalidInput("OpenAPI parameter must have either a 'schema' or a 'content' property"@)
}

/// Convert one schema (an empty one when it is falsy) and copy a truthy
/// description onto an object result.
#[verifier::opaque]
pub open spec fn param_schema<H: Hooks>(h: H, c: crate::options::Config, s: JsonV, desc: Option<JsonV>) -> Result<
    JsonV,
    ErrorV,
> {
    let s1 = if truthy(s) {
        s
    } else {
        JsonV::Object(Seq::empty())
    };
    match convert_root(h, c, s1) {
        Ok(r) => Ok(
            match desc {
                Some(d) => if truthy(d) {
                    set_key(r, "description"@, d)
                } else {
                    r
                },
                None => r,
            },
        ),
        Err(e) => Err(e),
    }
}

/// The schema of a media type entry, or null.
pub open spec fn content_schema(entry: JsonV) -> JsonV {
    match entry {
        JsonV::Object(m) => match get_member(m, "schema"@) {
            Some(s) => s,
            None => JsonV::Null,
        },
        _ => JsonV::Null,
    }
}

/// Convert the schemas of the first `n` media types.
pub open spec fn contents_prefix<H: Hooks>(
    h: H,
    c: crate::options::Config,
    ct: Seq<(Seq<char>, JsonV)>,
    desc: Option<JsonV>,
    n: nat,
) -> Result<Seq<(Seq<char>, JsonV)>, ErrorV>
    decreases n,
{
    if n == 0 || n > ct.len() {
        Ok(Seq::empty())
    } else {
        match contents_prefix(h, c, ct, desc, (n - 1) as nat) {
            Err(e) => Err(e),
            Ok(out) => match param_schema(h, c, content_schema(ct[n - 1].1), desc) {
                Ok(r) => Ok(set_member(out, ct[n - 1].0, r)),
                Err(e) => Err(e),
            },
        }
    }
}

/// Convert each media type's schema into an object keyed by media type.
pub open spec fn convert_contents<H: Hooks>(
    h: H,
    c: crate::options::Config,
    ct: JsonV,
    desc: Option<JsonV>,
) -> Result<JsonV, ErrorV> {
    match ct {
        JsonV::Object(es) => match contents_prefix(h, c, es, desc, es.len()) {
            Ok(out) => Ok(JsonV::Object(out)),
            Err(e) => Err(e),
        },
        _ => Ok(JsonV::Object(Seq::empty())),
    }
}

/// Convert a parameter or response object.
pub open spec fn convert_parameter<H: Hooks>(h: H, c: crate::options::Config, p: JsonV) -> Result<
    JsonV,
    ErrorV,
> {
    let obj = match p {
        JsonV::Object(es) => es,
        _ => Seq::empty(),
    };
    let desc = get_member(obj, "description"@);
    let schema = get_member(obj, "schema"@);
    let content = get_member(obj, "content"@);
    if schema is Some && truthy(schema->0) {
        param_schema(h, c, schema->0, desc)
    } else if content is Some && truthy(content->0) {
        convert_contents(h, c, content->0, desc)
    } else if c.strict_mode {
        Err(parameter_error())
    } else {
        param_schema(h, c, JsonV::Object(Seq::empty()), desc)
    }
}

proof fn lemma_contents_err<H: Hooks>(
    h: H,
    c: crate::options::Config,
    ct: Seq<(Seq<char>, JsonV)>,
    desc: Option<JsonV>,
    m: nat,
    n: nat,
)
    requires
        m <= n <= ct.len(),
        contents_prefix(h, c, ct, desc, m) is Err,
    ensures
        contents_prefix(h, c, ct, desc, n) == contents_prefix(h, c, ct, desc, m),
    decreases n,
{
    if m < n {
        lemma_contents_err(h, c, ct, desc, m, (n - 1) as nat);
    }
}

/// The view of an optional value.
pub open spec fn opt_view(o: Option<Json>) -> Option<JsonV> {
    match o {
        Some(j) => Some(j@),
        None => None,
    }
}

/// A copy of an optional value.
fn copy_opt(o: &Option<Json>) -> (r: Option<Json>)
    ensures
        opt_view(r) == opt_view(*o),
{
    match o {
        Some(j) => Some(copy_json(j)),
        None => None,
    }
}

/// Convert one schema and copy a truthy description.
fn convert_parameter_schema<H: Hooks>(
    schema: Json,
    description: Option<Json>,
    options: &ResolvedOptions,
    hooks: &H,
) -> (r: Result<Json, Error>)
    ensures
        result_view(r) == param_schema(*hooks, options@, schema@, opt_view(description)),
{
    proof {
        reveal(param_schema);
    }
    let schema = if json_truthy(&schema) {
        schema
    } else {
        let empty: Vec<Member> = Vec::new();
        proof {
            lemma_members_view(empty@);
            assert(members_view(empty@) =~= Seq::empty());
        }
        Json::Object(empty)
    };
    match convert_from_schema(schema, options, hooks) {
        Err(e) => Err(e),
        Ok(j) => match description {
            Some(d) => {
                if json_truthy(&d) {
                    match j {
                        Json::Object(es) => {
                            let mut es = es;
                            set_member_exec(&mut es, "description", d);
                            Ok(Json::Object(es))
                        },
                        other => Ok(other),
                    }
                } else {
                    Ok(j)
                }
            },
            None => Ok(j),
        },
    }
}

/// Convert each media type's schema into an object keyed by media type.
fn convert_from_contents<H: Hooks>(
    content: &Json,
    description: &Option<Json>,
    options: &ResolvedOptions,
    hooks: &H,
) -> (r: Result<Json, Error>)
    ensures
        result_view(r) == convert_contents(*hooks, options@, content@, opt_view(*description)),
{
    let mut out: Vec<Member> = Vec::new();
    proof {
        lemma_members_view(out@);
        assert(members_view(out@) =~= Seq::empty());
    }
    match content {
        Json::Object(es) => {
            let ghost ev = members_view(es@);
            proof {
                lemma_members_view(es@);
            }
            let mut i: usize = 0;
            while i < es.len()
                invariant
                    i <= es.len(),
                    *content == Json::Object(*es),
                    ev == members_view(es@),
                    ev.len() == es@.len(),
                    forall|k: int|
                        0 <= k < es@.len() ==> #[trigger] ev[k] == (es@[k].key@, es@[k].value@),
                    contents_prefix(*hooks, options@, ev, opt_view(*description), i as nat) == Ok::<
                        Seq<(Seq<char>, JsonV)>,
                        ErrorV,
                    >(members_view(out@)),
                decreases es.len() - i,
            {
                let entry = &es[i].value;
                let schema = match entry {
                    Json::Object(m) => match get_member_ref(m, "schema") {
                        Some(s) => copy_json(s),
                        None => Json::Null,
                    },
                    _ => Json::Null,
                };
                proof {
                    assert(ev[i as int] == (es@[i as int].key@, es@[i as int].value@));
                    assert(schema@ == content_schema(ev[i as int].1));
                }
                match convert_parameter_schema(schema, copy_opt(description), options, hooks) {
                    Ok(r) => {
                        set_member_exec(&mut out, es[i].key.as_str(), r);
                    },
                    Err(e) => {
                        proof {
                            assert(contents_prefix(
                                *hooks,
                                options@,
                                ev,
                                opt_view(*description),
                                (i + 1) as nat,
                            ) == Err::<Seq<(Seq<char>, JsonV)>, ErrorV>(e@));
                            lemma_contents_err(
                                *hooks,
                                options@,
                                ev,
                                opt_view(*description),
                                (i + 1) as nat,
                                ev.len(),
                            );
                        }
                        return Err(e);
                    },
                }
                i += 1;
            }
            Ok(Json::Object(out))
        },
        _ => Ok(Json::Object(out)),
    }
}

/// Convert a parameter or response object.
pub fn convert_from_parameter<H: Hooks>(
    parameter: Json,
    options: &ResolvedOptions,
    hooks: &H,
) -> (r: Result<Json, Error>)
    ensures
        result_view(r) == convert_parameter(*hooks, options@, parameter@),
{
    let empty: Vec<Member> = Vec::new();
    proof {
        lemma_members_view(empty@);
        assert(members_view(empty@) =~= Seq::empty());
    }
    let obj: &Vec<Member> = match &parameter {
        Json::Object(es) => es,
        _ => &empty,
    };
    let description: Option<Json> = match get_member_ref(obj, "description") {
        Some(d) => Some(copy_json(d)),
        None => None,
    };
    match get_member_ref(obj, "schema") {
        Some(s) => {
            if json_truthy(s) {
                return convert_parameter_schema(copy_json(s), description, options, hooks);
            }
        },
        None => {},
    }
    match get_member_ref(obj, "content") {
        Some(ct) => {
            if json_truthy(ct) {
                return convert_from_contents(ct, &description, options, hooks);
            }
        },
        None => {},
    }
    if options.strict_mode() {
        return Err(
            Error::InvalidInput(
                owned("OpenAPI parameter must have either a 'schema' or a 'content' property"),
            ),
        );
    }
    let empty_schema: Vec<Member> = Vec::new();
    proof {
        lemma_members_view(empty_schema@);
        assert(members_view(empty_schema@) =~= Seq::empty());
    }
    convert_parameter_schema(Json::Object(empty_schema), description, options, hooks)
}

} // verus!
