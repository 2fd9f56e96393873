//! The default `patternProperties` handler.
use vstd::prelude::*;
use crate::equality::{json_eq, json_equal};
use crate::json::{
    Json,
    JsonV,
    get_member,
    get_member_ref,
    lemma_members_view,
    members_view,
    set_member,
    set_member_exec,
};

verus! {

/// One of the `patternProperties` schemas of an object's members equals `a`.
pub open spec fn matches_pattern(es: Seq<(Seq<char>, JsonV)>, a: JsonV) -> bool {
    match get_member(es, "patternProperties"@) {
        Some(JsonV::Object(ps)) => exists|i: int| 0 <= i < ps.len() && #[trigger] json_eq(ps[i].1, a),
        _ => false,
    }
}

/// What the default handler makes of a node: when `additionalProperties` is
/// an object, an array or null and equals one of the `patternProperties`
/// schemas, it becomes `false`; anything else is returned unchanged.
pub open spec fn default_pattern_spec(s: JsonV) -> JsonV {
    match s {
        JsonV::Object(es) => match get_member(es, "additionalProperties"@) {
            Some(a) => if (a is Object || a is Array || a is Null) && matches_pattern(es, a) {
                JsonV::Object(set_member(es, "additionalProperties"@, JsonV::Bool(false)))
            } else {
                s
            },
            None => s,
        },
        _ => s,
    }
}

/// Disallow extra properties when one already matches a pattern.
///
/// When `additionalProperties` is an object, an array or null and equals one
/// of the `patternProperties` schemas, set `additionalProperties` to false. A
/// boolean `additionalProperties` is left as it is.
pub fn default_pattern_properties_handler(schema: Json) -> (r: Json)
    ensures
        r@ == default_pattern_spec(schema@),
{
    match schema {
        Json::Object(mut es) => {
            proof {
                lemma_members_view(es@);
            }
            let matched = match get_member_ref(&es, "additionalProperties") {
                Some(addit) => {
                    let object_like = match addit {
                        Json::Object(_) => true,
                        Json::Array(_) => true,
                        Json::Null => true,
                        _ => false,
                    };
                    if object_like {
                        match get_member_ref(&es, "patternProperties") {
                            Some(Json::Object(ps)) => {
                                let ghost pv = members_view(ps@);
                                proof {
                                    lemma_members_view(ps@);
                                }
                                let mut found = false;
                                let mut k: usize = 0;
                                while k < ps.len()
                                    invariant
                                        k <= ps.len(),
                                        pv == members_view(ps@),
                                        pv.len() == ps@.len(),
                                        forall|j: int|
                                            0 <= j < ps@.len() ==> #[trigger] pv[j] == (
                                                ps@[j].key@,
                                                ps@[j].value@,
                                            ),
                                        found == exists|j: int|
                                            0 <= j < k && #[trigger] json_eq(pv[j].1, addit@),
                                    decreases ps.len() - k,
                                {
                                    let e = json_equal(&ps[k].value, addit);
                                    proof {
                                        assert(pv[k as int] == (ps@[k as int].key@, ps@[k as int].value@));
                                        if e {
                                            assert(json_eq(pv[k as int].1, addit@));
                                        }
                                        if exists|j: int| 0 <= j < k + 1 && #[trigger] json_eq(pv[j].1, addit@) {
                                            let j = choose|j: int| 0 <= j < k + 1 && #[trigger] json_eq(pv[j].1, addit@);
                                            if j < k {
                                                assert(found);
                                            } else {
                                                assert(e);
                                            }
                                        }
                                    }
                                    found = found || e;
                                    k += 1;
                                }
                                found
                            },
                            _ => false,
                        }
                    } else {
                        false
                    }
                },
                None => false,
            };
            if matched {
                set_member_exec(&mut es, "additionalProperties", Json::Bool(false));
            }
            Json::Object(es)
        },
        other => other,
    }
}

/// What the default handler does: `additionalProperties` becomes `false`
/// exactly when it is an object, an array or null that equals the schema of
/// some member of `patternProperties`, wherever that member stands; in every
/// other case the node is returned unchanged.
pub proof fn law_default_handler_disallows_a_matched_schema(es: Seq<(Seq<char>, JsonV)>)
    ensures
        (exists|a: JsonV, ps: Seq<(Seq<char>, JsonV)>, i: int|
            get_member(es, "additionalProperties"@) == Some(a) && (a is Object || a is Array
                || a is Null) && get_member(es, "patternProperties"@) == Some(JsonV::Object(ps))
                && 0 <= i < ps.len() && #[trigger] json_eq(ps[i].1, a)) ==> default_pattern_spec(
            JsonV::Object(es),
        ) == JsonV::Object(set_member(es, "additionalProperties"@, JsonV::Bool(false))),
        !(exists|a: JsonV, ps: Seq<(Seq<char>, JsonV)>, i: int|
            get_member(es, "additionalProperties"@) == Some(a) && (a is Object || a is Array
                || a is Null) && get_member(es, "patternProperties"@) == Some(JsonV::Object(ps))
                && 0 <= i < ps.len() && #[trigger] json_eq(ps[i].1, a)) ==> default_pattern_spec(
            JsonV::Object(es),
        ) == JsonV::Object(es),
{
    if exists|a: JsonV, ps: Seq<(Seq<char>, JsonV)>, i: int|
        get_member(es, "additionalProperties"@) == Some(a) && (a is Object || a is Array
            || a is Null) && get_member(es, "patternProperties"@) == Some(JsonV::Object(ps))
            && 0 <= i < ps.len() && #[trigger] json_eq(ps[i].1, a) {
        let (a, ps, i) = choose|a: JsonV, ps: Seq<(Seq<char>, JsonV)>, i: int|
            get_member(es, "additionalProperties"@) == Some(a) && (a is Object || a is Array
                || a is Null) && get_member(es, "patternProperties"@) == Some(JsonV::Object(ps))
                && 0 <= i < ps.len() && #[trigger] json_eq(ps[i].1, a);
        assert(matches_pattern(es, a));
    } else {
        match get_member(es, "additionalProperties"@) {
            Some(a) => if (a is Object || a is Array || a is Null) && matches_pattern(es, a) {
                let ps = get_member(es, "patternProperties"@)->0->Object_0;
                let i = choose|i: int| 0 <= i < ps.len() && #[trigger] json_eq(ps[i].1, a);
                assert(json_eq(ps[i].1, a));
            },
            None => {},
        }
    }
}

} // verus!
