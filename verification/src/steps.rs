//! The conversion steps that do not recurse, as executable code.
use vstd::prelude::*;
use crate::consts::{byte_pattern_str, is_valid_format, is_valid_type};
use crate::error::Error;
use crate::json::{
    Json,
    JsonV,
    Member,
    copy_json,
    get_member,
    get_member_ref,
    items_view,
    json_is_container,
    json_truthy,
    lemma_find_key_range,
    lemma_get_remove,
    lemma_get_set,
    lemma_items_view,
    lemma_members_view,
    members_view,
    remove_member_exec,
    set_member_exec,
};
use crate::number::{NumericFormat, clamp_bounds};
use crate::options::ResolvedOptions;
use crate::render::push_json;
use crate::schema::{
    bad_type,
    finish,
    flagged,
    format_step,
    index_entries,
    keeps_required,
    keys,
    nullable_step,
    nullable_type,
    numeric_format,
    pattern_step,
    prune_required,
    required_step,
    strip_keys,
    strip_step,
    type_check,
};
use crate::text::{contains_str, decimal_string, owned, str_eq, strings_view};
use crate::transform::Hooks;

verus! {

/// The keys of a list of members.
pub fn keys_exec(es: &Vec<Member>) -> (r: Vec<String>)
    ensures
        strings_view(r@) == keys(members_view(es@)),
{
    proof {
        lemma_members_view(es@);
    }
    let mut out: Vec<String> = Vec::new();
    let mut i: usize = 0;
    while i < es.len()
        invariant
            i <= es.len(),
            members_view(es@).len() == es@.len(),
            forall|k: int| 0 <= k < es@.len() ==> #[trigger] members_view(es@)[k] == (es@[k].key@, es@[k].value@),
            out@.len() == i,
            forall|k: int| 0 <= k < i ==> #[trigger] out@[k]@ == es@[k].key@,
        decreases es.len() - i,
    {
        out.push(owned(es[i].key.as_str()));
        i += 1;
    }
    proof {
        assert forall|k: int| 0 <= k < es@.len() implies strings_view(out@)[k] == keys(members_view(es@))[k] by {
            assert(members_view(es@)[k] == (es@[k].key@, es@[k].value@));
        }
        assert(strings_view(out@) =~= keys(members_view(es@)));
    }
    out
}

/// Members keyed by the decimal text of each array index.
pub fn index_members(items: Vec<Json>) -> (r: Vec<Member>)
    ensures
        members_view(r@) == index_entries(items_view(items@)),
{
    let ghost orig = items@;
    proof {
        lemma_items_view(items@);
    }
    let mut items = items;
    let mut out: Vec<Member> = Vec::new();
    let mut i: usize = 0;
    while i < items.len()
        invariant
            i <= items.len(),
            items@.len() == orig.len(),
            forall|k: int| i <= k < orig.len() ==> #[trigger] items@[k] == orig[k],
            items_view(orig).len() == orig.len(),
            forall|k: int| 0 <= k < orig.len() ==> #[trigger] items_view(orig)[k] == orig[k]@,
            out@.len() == i,
            forall|k: int|
                0 <= k < i ==> (#[trigger] out@[k]).key@ == crate::text::decimal(k as nat)
                    && out@[k].value@ == orig[k]@,
        decreases items.len() - i,
    {
        let mut v = Json::Null;
        std::mem::swap(&mut v, &mut items[i]);
        let key = decimal_string(i as u64);
        out.push(Member { key, value: v });
        i += 1;
    }
    proof {
        lemma_members_view(out@);
        assert(members_view(out@) =~= index_entries(items_view(orig)));
    }
    out
}

/// A property carries one of the removal flags set to `true`.
pub fn is_flagged(flags: &Vec<String>, p: &Json) -> (r: bool)
    ensures
        r == flagged(strings_view(flags@), p@),
{
    match p {
        Json::Object(es) => {
            let ghost fv = strings_view(flags@);
            let mut i: usize = 0;
            while i < flags.len()
                invariant
                    i <= flags.len(),
                    fv == strings_view(flags@),
                    *p == Json::Object(*es),
                    forall|k: int|
                        0 <= k < i ==> #[trigger] get_member(members_view(es@), fv[k]) != Some(
                            JsonV::Bool(true),
                        ),
                decreases flags.len() - i,
            {
                let hit = match get_member_ref(es, flags[i].as_str()) {
                    Some(Json::Bool(b)) => *b,
                    _ => false,
                };
                assert(fv[i as int] == flags@[i as int]@);
                if hit {
                    assert(get_member(members_view(es@), fv[i as int]) == Some(JsonV::Bool(true)));
                    return true;
                }
                i += 1;
            }
            false
        },
        _ => false,
    }
}

/// A `required` entry that survives.
fn keeps_required_exec(x: &Json, kept: &Vec<String>, input: &Vec<String>) -> (r: bool)
    ensures
        r == keeps_required(x@, strings_view(kept@), strings_view(input@)),
{
    match x {
        Json::String(s) => contains_str(kept, s.as_str()) || !contains_str(input, s.as_str()),
        _ => false,
    }
}

/// The `required` entries that survive, in order.
fn filter_required(req: &Vec<Json>, kept: &Vec<String>, input: &Vec<String>) -> (r: Vec<Json>)
    ensures
        items_view(r@) == items_view(req@).filter(
            |x: JsonV| keeps_required(x, strings_view(kept@), strings_view(input@)),
        ),
{
    let ghost kv = strings_view(kept@);
    let ghost iv = strings_view(input@);
    let ghost pred = |x: JsonV| keeps_required(x, kv, iv);
    let ghost rv = items_view(req@);
    proof {
        lemma_items_view(req@);
        reveal(Seq::filter);
        assert(rv.subrange(0, 0).filter(pred) =~= Seq::empty());
    }
    let mut out: Vec<Json> = Vec::new();
    let mut i: usize = 0;
    proof {
        lemma_items_view(out@);
        assert(items_view(out@) =~= Seq::empty());
    }
    while i < req.len()
        invariant
            i <= req.len(),
            rv == items_view(req@),
            rv.len() == req@.len(),
            forall|k: int| 0 <= k < req@.len() ==> #[trigger] rv[k] == req@[k]@,
            kv == strings_view(kept@),
            iv == strings_view(input@),
            pred == (|x: JsonV| keeps_required(x, kv, iv)),
            items_view(out@) == rv.subrange(0, i as int).filter(pred),
        decreases req.len() - i,
    {
        let keep = keeps_required_exec(&req[i], kept, input);
        proof {
            reveal(Seq::filter);
            assert(rv.subrange(0, i + 1).drop_last() =~= rv.subrange(0, i as int));
            assert(rv.subrange(0, i + 1).last() == req@[i as int]@);
            lemma_items_view(out@);
        }
        if keep {
            let c = copy_json(&req[i]);
            let ghost before = out@;
            out.push(c);
            proof {
                lemma_items_view(out@);
                lemma_items_view(before);
                assert(items_view(out@) =~= items_view(before).push(c@));
                assert(items_view(out@) =~= rv.subrange(0, i + 1).filter(pred));
            }
        } else {
            proof {
                assert(items_view(out@) =~= rv.subrange(0, i + 1).filter(pred));
            }
        }
        i += 1;
    }
    proof {
        assert(rv.subrange(0, req@.len() as int) =~= rv);
    }
    out
}

/// Keep the `required` entries that survive; drop an empty `required`.
fn required_exec(es: &mut Vec<Member>, kept: &Vec<String>, input: &Vec<String>)
    ensures
        members_view(final(es)@) == required_step(
            members_view(old(es)@),
            strings_view(kept@),
            strings_view(input@),
        ),
        get_member(members_view(final(es)@), "properties"@) == get_member(
            members_view(old(es)@),
            "properties"@,
        ),
{
    let ghost e0 = members_view(es@);
    proof {
        reveal_strlit("required");
        reveal_strlit("properties");
        assert("required"@.len() != "properties"@.len());
    }
    let filtered: Option<Vec<Json>> = match get_member_ref(es, "required") {
        Some(Json::Array(req)) => Some(filter_required(req, kept, input)),
        _ => None,
    };
    match filtered {
        Some(f) => {
            proof {
                lemma_items_view(f@);
            }
            if f.len() == 0 {
                proof {
                    lemma_get_remove(e0, "required"@, "properties"@);
                }
                remove_member_exec(es, "required");
            } else {
                proof {
                    lemma_get_set(e0, "required"@, JsonV::Array(items_view(f@)), "properties"@);
                }
                set_member_exec(es, "required", Json::Array(f));
            }
        },
        None => {},
    }
}

/// Write the converted `properties`, prune `required`, and drop an empty
/// `properties`.
pub fn prune_required_exec(es: Vec<Member>, input: &Vec<String>, conv: Json) -> (r: Vec<Member>)
    ensures
        members_view(r@) == prune_required(members_view(es@), strings_view(input@), conv@),
{
    let ghost e0 = members_view(es@);
    let ghost cv = conv@;
    let mut es = es;
    let kept: Vec<String> = match &conv {
        Json::Object(ps) => keys_exec(ps),
        _ => Vec::new(),
    };
    let conv_empty = match &conv {
        Json::Object(ps) => ps.len() == 0,
        _ => false,
    };
    proof {
        assert(strings_view(kept@) =~= keys(crate::path::members_or_empty(cv)));
        if cv is Object {
            lemma_members_view(conv->Object_0@);
            if conv_empty {
                assert(cv->Object_0 =~= Seq::empty());
            }
        }
        assert(conv_empty == (cv == JsonV::Object(Seq::empty())));
    }
    set_member_exec(&mut es, "properties", conv);
    proof {
        lemma_get_set(e0, "properties"@, cv, "properties"@);
    }
    required_exec(&mut es, &kept, input);
    if conv_empty {
        remove_member_exec(&mut es, "properties");
    }
    es
}

/// Whether strict mode rejects a `type` value.
fn bad_type_exec(t: &Json) -> (r: bool)
    ensures
        r == bad_type(t@),
{
    if !json_truthy(t) {
        return false;
    }
    match t {
        Json::String(s) => !is_valid_type(s.as_str()),
        _ => true,
    }
}

/// The `type` error of a node, if any.
fn type_check_exec(es: &Vec<Member>, options: &ResolvedOptions) -> (r: Option<Error>)
    ensures
        match r {
            Some(e) => type_check(options@, members_view(es@)) == Some(e@),
            None => type_check(options@, members_view(es@)) is None,
        },
{
    match get_member_ref(es, "type") {
        Some(t) => {
            if options.strict_mode() && bad_type_exec(t) {
                let mut msg = owned("Type ");
                push_json(&mut msg, t);
                msg.append(" is not a valid type");
                proof {
                    assert(msg@ =~= "Type "@ + crate::render::render(t@) + " is not a valid type"@);
                }
                Some(Error::InvalidType(msg))
            } else {
                None
            }
        },
        None => None,
    }
}

/// `nullable: true` with a `type` widens the type and the enum.
fn nullable_exec(es: &mut Vec<Member>)
    ensures
        members_view(final(es)@) == nullable_step(members_view(old(es)@)),
{
    let nullable = match get_member_ref(es, "nullable") {
        Some(Json::Bool(b)) => *b,
        _ => false,
    };
    if !nullable {
        return;
    }
    let t = match get_member_ref(es, "type") {
        Some(t) => copy_json(t),
        None => {
            return;
        },
    };
    let is_null_name = match &t {
        Json::String(s) => str_eq(s.as_str(), "null"),
        _ => false,
    };
    let mut ts: Vec<Json> = Vec::new();
    let ghost tv = t@;
    if !is_null_name {
        ts.push(t);
    }
    ts.push(Json::String(owned("null")));
    proof {
        lemma_items_view(ts@);
        assert(is_null_name == (tv == JsonV::String("null"@)));
        if is_null_name {
            assert(items_view(ts@) =~= seq![JsonV::String("null"@)]);
        } else {
            assert(items_view(ts@) =~= seq![tv, JsonV::String("null"@)]);
        }
        assert(JsonV::Array(items_view(ts@)) == nullable_type(tv));
    }
    set_member_exec(es, "type", Json::Array(ts));
    let widened: Option<Vec<Json>> = match get_member_ref(es, "enum") {
        Some(Json::Array(items)) => {
            let ghost iv = items_view(items@);
            proof {
                lemma_items_view(items@);
            }
            let mut has_null = false;
            let mut i: usize = 0;
            while i < items.len()
                invariant
                    i <= items.len(),
                    iv == items_view(items@),
                    iv.len() == items@.len(),
                    forall|k: int| 0 <= k < items@.len() ==> #[trigger] iv[k] == items@[k]@,
                    has_null == exists|k: int| 0 <= k < i && iv[k] == JsonV::Null,
                decreases items.len() - i,
            {
                let n = match &items[i] {
                    Json::Null => true,
                    _ => false,
                };
                proof {
                    assert(iv[i as int] == items@[i as int]@);
                    if n {
                        assert(iv[i as int] == JsonV::Null);
                    }
                    if exists|k: int| 0 <= k < i + 1 && iv[k] == JsonV::Null {
                        let k = choose|k: int| 0 <= k < i + 1 && iv[k] == JsonV::Null;
                        if k == i {
                            assert(n);
                        }
                    }
                }
                has_null = has_null || n;
                i += 1;
            }
            proof {
                if has_null {
                    let k = choose|k: int| 0 <= k < iv.len() && iv[k] == JsonV::Null;
                    assert(iv.contains(JsonV::Null));
                } else {
                    assert(!iv.contains(JsonV::Null));
                }
            }
            if has_null {
                None
            } else {
                let mut out: Vec<Json> = Vec::new();
                let mut j: usize = 0;
                while j < items.len()
                    invariant
                        j <= items.len(),
                        iv == items_view(items@),
                        iv.len() == items@.len(),
                        forall|k: int| 0 <= k < items@.len() ==> #[trigger] iv[k] == items@[k]@,
                        out@.len() == j,
                        forall|k: int| 0 <= k < j ==> #[trigger] out@[k]@ == iv[k],
                    decreases items.len() - j,
                {
                    out.push(copy_json(&items[j]));
                    j += 1;
                }
                out.push(Json::Null);
                proof {
                    lemma_items_view(out@);
                    assert(items_view(out@) =~= iv.push(JsonV::Null));
                }
                Some(out)
            }
        },
        _ => None,
    };
    match widened {
        Some(out) => {
            set_member_exec(es, "enum", Json::Array(out));
        },
        None => {},
    }
}

/// The numeric format a format name stands for.
fn numeric_format_exec(f: &str) -> (r: Option<NumericFormat>)
    ensures
        r == numeric_format(f@),
{
    if str_eq(f, "int32") {
        Some(NumericFormat::Int32)
    } else if str_eq(f, "int64") {
        Some(NumericFormat::Int64)
    } else if str_eq(f, "float") {
        Some(NumericFormat::Float)
    } else if str_eq(f, "double") {
        Some(NumericFormat::Double)
    } else {
        None
    }
}

/// `format` handling.
fn format_exec(es: &mut Vec<Member>, options: &ResolvedOptions)
    ensures
        members_view(final(es)@) == format_step(options@, members_view(old(es)@)),
{
    let f: String = match get_member_ref(es, "format") {
        Some(Json::String(s)) => owned(s.as_str()),
        _ => {
            return;
        },
    };
    if is_valid_format(f.as_str()) {
        return;
    }
    if str_eq(f.as_str(), "date") && options.date_to_date_time() {
        set_member_exec(es, "format", Json::String(owned("date-time")));
        return;
    }
    if str_eq(f.as_str(), "byte") {
        set_member_exec(es, "pattern", Json::String(owned(byte_pattern_str())));
        return;
    }
    match numeric_format_exec(f.as_str()) {
        Some(nf) => {
            clamp_bounds(es, nf);
        },
        None => {},
    }
}

/// Move `x-patternProperties` and run the handler, when asked.
fn pattern_exec<H: Hooks>(es: Vec<Member>, options: &ResolvedOptions, hooks: &H) -> (r: Json)
    ensures
        r@ == pattern_step(*hooks, options@, members_view(es@)),
{
    let ghost e0 = members_view(es@);
    proof {
        lemma_find_key_range(e0, "x-patternProperties"@);
        lemma_get_remove(e0, "x-patternProperties"@, "x-patternProperties"@);
    }
    if !options.support_pattern_properties() {
        return Json::Object(es);
    }
    let mut es = es;
    match remove_member_exec(&mut es, "x-patternProperties") {
        Some(x) => {
            if json_is_container(&x) {
                set_member_exec(&mut es, "patternProperties", x);
            }
            hooks.pattern_properties_handler(Json::Object(es))
        },
        None => Json::Object(es),
    }
}

/// Strip the OpenAPI-only keywords from an object node.
fn strip_exec(node: Json, options: &ResolvedOptions) -> (r: Json)
    ensures
        r@ == strip_step(options@, node@),
{
    match node {
        Json::Object(es) => {
            let mut es = es;
            let kws = options.not_supported();
            let ghost kv = strings_view(kws@);
            let ghost e0 = members_view(es@);
            let mut i: usize = 0;
            while i < kws.len()
                invariant
                    i <= kws.len(),
                    kv == strings_view(kws@),
                    kv == options@.not_supported,
                    members_view(es@) == strip_keys(e0, kv, i as nat),
                decreases kws.len() - i,
            {
                remove_member_exec(&mut es, kws[i].as_str());
                assert(kv[i as int] == kws@[i as int]@);
                i += 1;
            }
            Json::Object(es)
        },
        other => other,
    }
}

/// The steps after `required` pruning.
pub fn finish_exec<H: Hooks>(es: Vec<Member>, options: &ResolvedOptions, hooks: &H) -> (r: Result<
    Json,
    Error,
>)
    ensures
        match r {
            Ok(j) => finish(*hooks, options@, members_view(es@)) == Ok::<JsonV, crate::error::ErrorV>(j@),
            Err(e) => finish(*hooks, options@, members_view(es@)) == Err::<JsonV, crate::error::ErrorV>(e@),
        },
{
    match type_check_exec(&es, options) {
        Some(e) => Err(e),
        None => {
            let mut es = es;
            nullable_exec(&mut es);
            format_exec(&mut es, options);
            let node = pattern_exec(es, options, hooks);
            Ok(strip_exec(node, options))
        },
    }
}

} // verus!
