//! The recursive converter, as executable code.
use vstd::prelude::*;
use crate::consts::{draft_04, struct_keyword, struct_keywords};
use crate::error::{Error, ErrorV};
use crate::json::{
    Json,
    JsonV,
    Member,
    find_member,
    items_view,
    json_is_container,
    lemma_find_key_range,
    lemma_get_remove,
    lemma_items_view,
    lemma_members_view,
    members_view,
    put_value,
    remove_member_exec,
    take_value,
    set_member_exec,
};
use crate::options::ResolvedOptions;
use crate::path::{get_path_exec, parse_path, set_path_exec};
use crate::render::push_json;
use crate::schema::{
    convert_items,
    convert_node,
    convert_properties,
    convert_root,
    definitions_prefix,
    depth_budget,
    lemma_definitions_err,
    lemma_entries_err,
    lemma_items_err,
    lemma_structs_err,
    process,
    props_entries,
    props_required,
    struct_step,
    structs_prefix,
};
use crate::steps::{finish_exec, index_members, is_flagged, keys_exec, prune_required_exec};
use crate::text::{owned, strings_view};
use crate::transform::Hooks;

verus! {

/// The mathematical value of a conversion result.
pub open spec fn result_view(r: Result<Json, Error>) -> Result<JsonV, ErrorV> {
    match r {
        Ok(j) => Ok(j@),
        Err(e) => Err(e@),
    }
}

/// The mathematical value of a result holding object members.
pub open spec fn members_result(r: Result<Vec<Member>, Error>) -> Result<
    Seq<(Seq<char>, JsonV)>,
    ErrorV,
> {
    match r {
        Ok(es) => Ok(members_view(es@)),
        Err(e) => Err(e@),
    }
}

/// The mathematical value of a result holding values.
pub open spec fn items_result(r: Result<Vec<Json>, Error>) -> Result<Seq<JsonV>, ErrorV> {
    match r {
        Ok(v) => Ok(items_view(v@)),
        Err(e) => Err(e@),
    }
}

/// Convert one node with `fuel` levels of nesting left.
pub fn convert_node_exec<H: Hooks>(
    schema: Json,
    options: &ResolvedOptions,
    hooks: &H,
    fuel: u64,
) -> (r: Result<Json, Error>)
    ensures
        result_view(r) == convert_node(*hooks, options@, fuel as nat, schema@),
    decreases fuel, 0nat,
{
    if fuel == 0 {
        return Err(Error::InvalidInput(owned("schema nesting is too deep")));
    }
    let b = hooks.before_transform(schema, options);
    match b {
        Json::Array(v) => Ok(hooks.after_transform(Json::Array(v), options)),
        Json::Object(es) => {
            proof {
                lemma_members_view(es@);
            }
            match process_exec(es, options, hooks, fuel - 1) {
                Ok(r) => Ok(hooks.after_transform(r, options)),
                Err(e) => Err(e),
            }
        },
        other => {
            let mut msg = owned("schema must be an object, got ");
            push_json(&mut msg, &other);
            Err(Error::InvalidInput(msg))
        },
    }
}

/// Keyword processing of an object node.
fn process_exec<H: Hooks>(es: Vec<Member>, options: &ResolvedOptions, hooks: &H, f: u64) -> (r:
    Result<Json, Error>)
    ensures
        result_view(r) == process(*hooks, options@, f as nat, members_view(es@)),
    decreases f, 9nat,
{
    match structs_exec(es, options, hooks, f) {
        Err(e) => Err(e),
        Ok(es1) => match definitions_exec(es1, options, hooks, f) {
            Err(e) => Err(e),
            Ok(es2) => match props_required_exec(es2, options, hooks, f) {
                Err(e) => Err(e),
                Ok(es3) => finish_exec(es3, options, hooks),
            },
        },
    }
}

/// Recurse into the struct keywords.
#[verifier::loop_isolation(false)]
fn structs_exec<H: Hooks>(es: Vec<Member>, options: &ResolvedOptions, hooks: &H, f: u64) -> (r:
    Result<Vec<Member>, Error>)
    ensures
        members_result(r) == structs_prefix(
            *hooks,
            options@,
            f as nat,
            members_view(es@),
            struct_keywords().len(),
        ),
    decreases f, 8nat,
{
    let ghost e0 = members_view(es@);
    let mut cur = es;
    let mut i: usize = 0;
    while i < 6
        invariant
            i <= 6,
            struct_keywords().len() == 6,
            structs_prefix(*hooks, options@, f as nat, e0, i as nat) == Ok::<
                Seq<(Seq<char>, JsonV)>,
                ErrorV,
            >(members_view(cur@)),
        decreases 6 - i,
    {
        let kw = struct_keyword(i);
        let ghost cv = members_view(cur@);
        match struct_step_exec(cur, kw, options, hooks, f) {
            Ok(next) => {
                cur = next;
            },
            Err(e) => {
                proof {
                    assert(structs_prefix(*hooks, options@, f as nat, e0, (i + 1) as nat) == struct_step(
                        *hooks,
                        options@,
                        f as nat,
                        cv,
                        struct_keywords()[i as int],
                    ));
                    lemma_structs_err(*hooks, options@, f as nat, e0, (i + 1) as nat, 6);
                }
                return Err(e);
            },
        }
        i += 1;
    }
    Ok(cur)
}

/// Recurse into one struct keyword.
fn struct_step_exec<H: Hooks>(
    es: Vec<Member>,
    kw: &str,
    options: &ResolvedOptions,
    hooks: &H,
    f: u64,
) -> (r: Result<Vec<Member>, Error>)
    ensures
        members_result(r) == struct_step(*hooks, options@, f as nat, members_view(es@), kw@),
    decreases f, 7nat,
{
    let ghost e0 = members_view(es@);
    proof {
        lemma_find_key_range(e0, kw@);
        lemma_members_view(es@);
    }
    let mut es = es;
    match find_member(&es, kw) {
        None => Ok(es),
        Some(i) => {
            let value = take_value(&mut es, i);
            let ghost e1 = members_view(es@);
            proof {
                assert(e1.update(i as int, (kw@, value@)) =~= e0);
            }
            match value {
                Json::Array(items) => {
                    proof {
                        lemma_items_view(items@);
                    }
                    match convert_items_exec(items, options, hooks, f) {
                        Ok(out) => {
                            let nv = Json::Array(out);
                            put_value(&mut es, i, nv);
                            proof {
                                assert(members_view(es@) =~= e0.update(i as int, (kw@, nv@)));
                            }
                            Ok(es)
                        },
                        Err(e) => Err(e),
                    }
                },
                Json::Null => {
                    remove_member_exec(&mut es, kw);
                    proof {
                        assert(e1 == e0.update(i as int, (kw@, JsonV::Null)));
                        crate::json::lemma_remove_member_update(e0, i as int, kw@, JsonV::Null);
                    }
                    Ok(es)
                },
                Json::Object(o) => {
                    proof {
                        lemma_members_view(o@);
                    }
                    match convert_node_exec(Json::Object(o), options, hooks, f) {
                        Ok(q) => {
                            let ghost qv = q@;
                            put_value(&mut es, i, q);
                            proof {
                                assert(members_view(es@) =~= e0.update(i as int, (kw@, qv)));
                            }
                            Ok(es)
                        },
                        Err(e) => Err(e),
                    }
                },
                other => {
                    put_value(&mut es, i, other);
                    proof {
                        assert(members_view(es@) =~= e0);
                    }
                    Ok(es)
                },
            }
        },
    }
}

/// Convert the containers among the items, dropping the rest.
#[verifier::loop_isolation(false)]
fn convert_items_exec<H: Hooks>(
    items: Vec<Json>,
    options: &ResolvedOptions,
    hooks: &H,
    f: u64,
) -> (r: Result<Vec<Json>, Error>)
    ensures
        items_result(r) == convert_items(
            *hooks,
            options@,
            f as nat,
            items_view(items@),
            items@.len(),
        ),
    decreases f, 2nat,
{
    let ghost orig = items@;
    let ghost iv = items_view(orig);
    proof {
        lemma_items_view(orig);
    }
    let mut items = items;
    let mut out: Vec<Json> = Vec::new();
    proof {
        lemma_items_view(out@);
        assert(items_view(out@) =~= Seq::empty());
    }
    let mut i: usize = 0;
    while i < items.len()
        invariant
            i <= items.len(),
            items@.len() == orig.len(),
            forall|k: int| i <= k < orig.len() ==> #[trigger] items@[k] == orig[k],
            iv == items_view(orig),
            iv.len() == orig.len(),
            forall|k: int| 0 <= k < orig.len() ==> #[trigger] iv[k] == orig[k]@,
            convert_items(*hooks, options@, f as nat, iv, i as nat) == Ok::<Seq<JsonV>, ErrorV>(
                items_view(out@),
            ),
        decreases items.len() - i,
    {
        let mut v = Json::Null;
        std::mem::swap(&mut v, &mut items[i]);
        proof {
            assert(v@ == iv[i as int]);
        }
        if json_is_container(&v) {
            match convert_node_exec(v, options, hooks, f) {
                Ok(q) => {
                    let ghost before = out@;
                    out.push(q);
                    proof {
                        lemma_items_view(out@);
                        lemma_items_view(before);
                        assert(items_view(out@) =~= items_view(before).push(q@));
                    }
                },
                Err(e) => {
                    proof {
                        assert(convert_items(*hooks, options@, f as nat, iv, (i + 1) as nat)
                            == Err::<Seq<JsonV>, ErrorV>(e@));
                        lemma_items_err(*hooks, options@, f as nat, iv, (i + 1) as nat, iv.len());
                    }
                    return Err(e);
                },
            }
        }
        i += 1;
    }
    Ok(out)
}

/// Convert the values at the definition keyword paths.
#[verifier::loop_isolation(false)]
fn definitions_exec<H: Hooks>(
    es: Vec<Member>,
    options: &ResolvedOptions,
    hooks: &H,
    f: u64,
) -> (r: Result<Vec<Member>, Error>)
    ensures
        members_result(r) == definitions_prefix(
            *hooks,
            options@,
            f as nat,
            members_view(es@),
            options@.definition_keywords.len(),
        ),
    decreases f, 6nat,
{
    let ghost e0 = members_view(es@);
    let paths = options.definition_keywords();
    let mut cur = es;
    let mut i: usize = 0;
    while i < paths.len()
        invariant
            i <= paths@.len(),
            strings_view(paths@) == options@.definition_keywords,
            definitions_prefix(*hooks, options@, f as nat, e0, i as nat) == Ok::<
                Seq<(Seq<char>, JsonV)>,
                ErrorV,
            >(members_view(cur@)),
        decreases paths@.len() - i,
    {
        let segs = parse_path(paths[i].as_str());
        proof {
            assert(strings_view(paths@)[i as int] == paths@[i as int]@);
            lemma_members_view(cur@);
        }
        let root = Json::Object(cur);
        let inner = get_path_exec(&root, &segs);
        let convert = match &inner {
            Some(Json::Object(_)) => true,
            Some(Json::Array(_)) => true,
            Some(Json::Null) => true,
            _ => false,
        };
        if convert {
            let v = match inner {
                Some(v) => v,
                None => Json::Null,
            };
            match convert_properties_exec(v, options, hooks, f) {
                Ok(p) => {
                    proof {
                        assert(strings_view(segs@).skip(0) =~= strings_view(segs@));
                    }
                    let nr = set_path_exec(root, &segs, 0, p);
                    cur =
                    match nr {
                        Json::Object(e) => e,
                        _ => Vec::new(),
                    };
                    proof {
                        lemma_members_view(cur@);
                        if !(nr@ is Object) {
                            assert(members_view(cur@) =~= Seq::empty());
                        }
                    }
                },
                Err(e) => {
                    proof {
                        assert(definitions_prefix(*hooks, options@, f as nat, e0, (i + 1) as nat)
                            == Err::<Seq<(Seq<char>, JsonV)>, ErrorV>(e@));
                        lemma_definitions_err(
                            *hooks,
                            options@,
                            f as nat,
                            e0,
                            (i + 1) as nat,
                            options@.definition_keywords.len(),
                        );
                    }
                    return Err(e);
                },
            }
        } else {
            cur =
            match root {
                Json::Object(e) => e,
                _ => Vec::new(),
            };
        }
        i += 1;
    }
    Ok(cur)
}

/// Convert `properties` and prune `required`.
fn props_required_exec<H: Hooks>(
    es: Vec<Member>,
    options: &ResolvedOptions,
    hooks: &H,
    f: u64,
) -> (r: Result<Vec<Member>, Error>)
    ensures
        members_result(r) == props_required(*hooks, options@, f as nat, members_view(es@)),
    decreases f, 5nat,
{
    let ghost e0 = members_view(es@);
    let mut es = es;
    proof {
        lemma_get_remove(e0, "properties"@, "properties"@);
    }
    match remove_member_exec(&mut es, "properties") {
        None => Ok(es),
        Some(pv) => {
            let input: Vec<String> = match &pv {
                Json::Object(ps) => keys_exec(ps),
                _ => Vec::new(),
            };
            proof {
                if !(pv@ is Object) {
                    assert(strings_view(input@) =~= Seq::empty());
                }
            }
            match convert_properties_exec(pv, options, hooks, f) {
                Ok(conv) => Ok(prune_required_exec(es, &input, conv)),
                Err(e) => Err(e),
            }
        },
    }
}

/// Convert a `properties` map into a fresh object.
fn convert_properties_exec<H: Hooks>(
    v: Json,
    options: &ResolvedOptions,
    hooks: &H,
    f: u64,
) -> (r: Result<Json, Error>)
    ensures
        result_view(r) == convert_properties(*hooks, options@, f as nat, v@),
    decreases f, 4nat,
{
    match v {
        Json::Object(es) => {
            proof {
                lemma_members_view(es@);
            }
            match props_entries_exec(es, options, hooks, f) {
                Ok(out) => Ok(Json::Object(out)),
                Err(e) => Err(e),
            }
        },
        Json::Array(items) => {
            proof {
                lemma_items_view(items@);
            }
            let ents = index_members(items);
            proof {
                lemma_members_view(ents@);
            }
            match props_entries_exec(ents, options, hooks, f) {
                Ok(out) => Ok(Json::Object(out)),
                Err(e) => Err(e),
            }
        },
        _ => {
            let out: Vec<Member> = Vec::new();
            proof {
                lemma_members_view(out@);
                assert(members_view(out@) =~= Seq::empty());
            }
            Ok(Json::Object(out))
        },
    }
}

/// Convert the property entries: non-containers and flagged properties are
/// dropped, the others are converted and set under their key.
#[verifier::loop_isolation(false)]
fn props_entries_exec<H: Hooks>(
    ents: Vec<Member>,
    options: &ResolvedOptions,
    hooks: &H,
    f: u64,
) -> (r: Result<Vec<Member>, Error>)
    ensures
        members_result(r) == props_entries(
            *hooks,
            options@,
            f as nat,
            members_view(ents@),
            ents@.len(),
        ),
    decreases f, 3nat,
{
    let ghost orig = ents@;
    let ghost ev = members_view(orig);
    proof {
        lemma_members_view(orig);
    }
    let flags = options.remove_props();
    let mut ents = ents;
    let mut out: Vec<Member> = Vec::new();
    proof {
        lemma_members_view(out@);
        assert(members_view(out@) =~= Seq::empty());
    }
    let mut i: usize = 0;
    while i < ents.len()
        invariant
            i <= ents.len(),
            ents@.len() == orig.len(),
            forall|k: int| i <= k < orig.len() ==> #[trigger] ents@[k] == orig[k],
            forall|k: int| 0 <= k < orig.len() ==> #[trigger] ents@[k].key == orig[k].key,
            ev == members_view(orig),
            ev.len() == orig.len(),
            forall|k: int| 0 <= k < orig.len() ==> #[trigger] ev[k] == (orig[k].key@, orig[k].value@),
            strings_view(flags@) == options@.remove_props,
            props_entries(*hooks, options@, f as nat, ev, i as nat) == Ok::<
                Seq<(Seq<char>, JsonV)>,
                ErrorV,
            >(members_view(out@)),
        decreases ents.len() - i,
    {
        let mut v = Json::Null;
        std::mem::swap(&mut v, &mut ents[i].value);
        proof {
            assert(ents@[i as int].key == orig[i as int].key);
            assert(ev[i as int] == (orig[i as int].key@, orig[i as int].value@));
            assert(v@ == ev[i as int].1);
        }
        if json_is_container(&v) && !is_flagged(flags, &v) {
            match convert_node_exec(v, options, hooks, f) {
                Ok(q) => {
                    set_member_exec(&mut out, ents[i].key.as_str(), q);
                },
                Err(e) => {
                    proof {
                        assert(props_entries(*hooks, options@, f as nat, ev, (i + 1) as nat)
                            == Err::<Seq<(Seq<char>, JsonV)>, ErrorV>(e@));
                        lemma_entries_err(*hooks, options@, f as nat, ev, (i + 1) as nat, ev.len());
                    }
                    return Err(e);
                },
            }
        }
        i += 1;
    }
    Ok(out)
}

/// Convert a schema and write `$schema` on an object result.
pub fn convert_from_schema<H: Hooks>(schema: Json, options: &ResolvedOptions, hooks: &H) -> (r:
    Result<Json, Error>)
    ensures
        result_view(r) == convert_root(*hooks, options@, schema@),
{
    assert(depth_budget() == u64::MAX as nat);
    match convert_node_exec(schema, options, hooks, u64::MAX) {
        Ok(j) => match j {
            Json::Object(es) => {
                let mut es = es;
                set_member_exec(&mut es, "$schema", Json::String(owned(draft_04())));
                Ok(Json::Object(es))
            },
            other => Ok(other),
        },
        Err(e) => Err(e),
    }
}

} // verus!
