//! What holds of every conversion.
use vstd::prelude::*;
use crate::consts::{draft_04_uri, not_supported_keywords};
use crate::json::{
    JsonV,
    get_member,
    has_member,
    lemma_find_key_range,
    lemma_get_set,
    set_member,
};
use crate::options::{OptionsView, resolve, strings_or_empty};
use crate::parameter::{convert_parameter, param_schema};
use crate::error::ErrorV;
use crate::parameter::{contents_prefix, convert_contents};
use crate::schema::{
    convert_items,
    convert_node,
    convert_properties,
    convert_root,
    definitions_prefix,
    process,
    props_entries,
    props_required,
    struct_step,
    structs_prefix,
};
use crate::consts::struct_keywords;
use crate::transform::Hooks;

verus! {

/// `clone_schema` has no effect: options that differ only in it convert
/// every schema and every parameter the same way.
pub proof fn law_clone_schema_has_no_effect(o: OptionsView, b: Option<bool>)
    ensures
        resolve(OptionsView { clone_schema: b, ..o }) == resolve(o),
{
}

/// A keyword listed in `keep_not_supported` is not stripped, and every other
/// OpenAPI-only keyword is.
pub proof fn law_kept_keywords_are_not_stripped(o: OptionsView, k: Seq<char>)
    ensures
        strings_or_empty(o.keep_not_supported).contains(k) ==> !resolve(o).not_supported.contains(k),
        not_supported_keywords().contains(k) && !strings_or_empty(o.keep_not_supported).contains(k)
            ==> resolve(o).not_supported.contains(k),
{
    let keep = strings_or_empty(o.keep_not_supported);
    let pred = |x: Seq<char>| !keep.contains(x);
    let table = not_supported_keywords();
    broadcast use vstd::seq_lib::group_filter_ensures;
    assert(resolve(o).not_supported == table.filter(pred));
    if keep.contains(k) && table.filter(pred).contains(k) {
        let i = choose|i: int| 0 <= i < table.filter(pred).len() && table.filter(pred)[i] == k;
        assert(pred(table.filter(pred)[i]));
    }
    if table.contains(k) && !keep.contains(k) {
        let i = choose|i: int| 0 <= i < table.len() && table[i] == k;
        assert(pred(table[i]));
    }
}

/// The root of an object result carries the draft-04 `$schema`.
pub proof fn law_root_carries_schema_uri<H: Hooks>(h: H, c: crate::options::Config, j: JsonV)
    ensures
        match convert_root(h, c, j) {
            Ok(JsonV::Object(es)) => get_member(es, "$schema"@) == Some(JsonV::String(draft_04_uri())),
            _ => true,
        },
{
    match convert_node(h, c, crate::schema::depth_budget(), j) {
        Ok(JsonV::Object(es)) => {
            lemma_get_set(es, "$schema"@, JsonV::String(draft_04_uri()), "$schema"@);
        },
        _ => {},
    }
}

/// A parameter with a truthy `schema` and no truthy `description` converts
/// exactly as its schema does.
pub proof fn law_parameter_schema_converts_as_schema<H: Hooks>(
    h: H,
    c: crate::options::Config,
    es: Seq<(Seq<char>, JsonV)>,
    s: JsonV,
)
    requires
        get_member(es, "schema"@) == Some(s),
        crate::json::truthy(s),
        match get_member(es, "description"@) {
            Some(d) => !crate::json::truthy(d),
            None => true,
        },
    ensures
        convert_parameter(h, c, JsonV::Object(es)) == convert_root(h, c, s),
{
    reveal(param_schema);
}

// ---- lenient mode ----------------------------------------------------------------
/// A result that is an `InvalidType` error.
pub open spec fn is_type_error<T>(r: Result<T, ErrorV>) -> bool {
    match r {
        Err(ErrorV::InvalidType(_)) => true,
        _ => false,
    }
}

proof fn lenient_node<H: Hooks>(h: H, c: crate::options::Config, fuel: nat, j: JsonV)
    requires
        !c.strict_mode,
    ensures
        !is_type_error(convert_node(h, c, fuel, j)),
    decreases fuel, 0nat, 0nat,
{
    if fuel > 0 {
        match h.before_spec(j, c) {
            JsonV::Object(es) => lenient_process(h, c, (fuel - 1) as nat, es),
            _ => {},
        }
    }
}

proof fn lenient_process<H: Hooks>(
    h: H,
    c: crate::options::Config,
    f: nat,
    es: Seq<(Seq<char>, JsonV)>,
)
    requires
        !c.strict_mode,
    ensures
        !is_type_error(process(h, c, f, es)),
    decreases f, 9nat, 0nat,
{
    lenient_structs(h, c, f, es, struct_keywords().len());
    match structs_prefix(h, c, f, es, struct_keywords().len()) {
        Ok(es1) => {
            lenient_definitions(h, c, f, es1, c.definition_keywords.len());
            match definitions_prefix(h, c, f, es1, c.definition_keywords.len()) {
                Ok(es2) => {
                    lenient_props_required(h, c, f, es2);
                },
                Err(_) => {},
            }
        },
        Err(_) => {},
    }
}

proof fn lenient_structs<H: Hooks>(
    h: H,
    c: crate::options::Config,
    f: nat,
    es: Seq<(Seq<char>, JsonV)>,
    n: nat,
)
    requires
        !c.strict_mode,
    ensures
        !is_type_error(structs_prefix(h, c, f, es, n)),
    decreases f, 8nat, n,
{
    if n > 0 && n <= struct_keywords().len() {
        lenient_structs(h, c, f, es, (n - 1) as nat);
        match structs_prefix(h, c, f, es, (n - 1) as nat) {
            Ok(es1) => lenient_struct_step(h, c, f, es1, struct_keywords()[n - 1]),
            Err(_) => {},
        }
    }
}

proof fn lenient_struct_step<H: Hooks>(
    h: H,
    c: crate::options::Config,
    f: nat,
    es: Seq<(Seq<char>, JsonV)>,
    kw: Seq<char>,
)
    requires
        !c.strict_mode,
    ensures
        !is_type_error(struct_step(h, c, f, es, kw)),
    decreases f, 7nat, 0nat,
{
    match get_member(es, kw) {
        Some(JsonV::Array(items)) => lenient_items(h, c, f, items, items.len()),
        Some(JsonV::Object(o)) => lenient_node(h, c, f, JsonV::Object(o)),
        _ => {},
    }
}

proof fn lenient_items<H: Hooks>(
    h: H,
    c: crate::options::Config,
    f: nat,
    items: Seq<JsonV>,
    n: nat,
)
    requires
        !c.strict_mode,
    ensures
        !is_type_error(convert_items(h, c, f, items, n)),
    decreases f, 2nat, n,
{
    if n > 0 && n <= items.len() {
        lenient_items(h, c, f, items, (n - 1) as nat);
        lenient_node(h, c, f, items[n - 1]);
    }
}

proof fn lenient_definitions<H: Hooks>(
    h: H,
    c: crate::options::Config,
    f: nat,
    es: Seq<(Seq<char>, JsonV)>,
    n: nat,
)
    requires
        !c.strict_mode,
    ensures
        !is_type_error(definitions_prefix(h, c, f, es, n)),
    decreases f, 6nat, n,
{
    if n > 0 && n <= c.definition_keywords.len() {
        lenient_definitions(h, c, f, es, (n - 1) as nat);
        match definitions_prefix(h, c, f, es, (n - 1) as nat) {
            Ok(es1) => {
                let segs = crate::path::path_segments(c.definition_keywords[n - 1]);
                match crate::path::get_path(JsonV::Object(es1), segs) {
                    Some(v) => lenient_properties(h, c, f, v),
                    None => {},
                }
            },
            Err(_) => {},
        }
    }
}

proof fn lenient_props_required<H: Hooks>(
    h: H,
    c: crate::options::Config,
    f: nat,
    es: Seq<(Seq<char>, JsonV)>,
)
    requires
        !c.strict_mode,
    ensures
        !is_type_error(props_required(h, c, f, es)),
    decreases f, 5nat, 0nat,
{
    match get_member(es, "properties"@) {
        Some(pv) => lenient_properties(h, c, f, pv),
        None => {},
    }
}

proof fn lenient_properties<H: Hooks>(h: H, c: crate::options::Config, f: nat, v: JsonV)
    requires
        !c.strict_mode,
    ensures
        !is_type_error(convert_properties(h, c, f, v)),
    decreases f, 4nat, 0nat,
{
    match v {
        JsonV::Object(es) => lenient_entries(h, c, f, es, es.len()),
        JsonV::Array(items) => lenient_entries(
            h,
            c,
            f,
            crate::schema::index_entries(items),
            items.len(),
        ),
        _ => {},
    }
}

proof fn lenient_entries<H: Hooks>(
    h: H,
    c: crate::options::Config,
    f: nat,
    ents: Seq<(Seq<char>, JsonV)>,
    n: nat,
)
    requires
        !c.strict_mode,
    ensures
        !is_type_error(props_entries(h, c, f, ents, n)),
    decreases f, 3nat, n,
{
    if n > 0 && n <= ents.len() {
        lenient_entries(h, c, f, ents, (n - 1) as nat);
        lenient_node(h, c, f, ents[n - 1].1);
    }
}

proof fn lenient_contents<H: Hooks>(
    h: H,
    c: crate::options::Config,
    ct: Seq<(Seq<char>, JsonV)>,
    desc: Option<JsonV>,
    n: nat,
)
    requires
        !c.strict_mode,
    ensures
        !is_type_error(contents_prefix(h, c, ct, desc, n)),
    decreases n,
{
    reveal(param_schema);
    if n > 0 && n <= ct.len() {
        lenient_contents(h, c, ct, desc, (n - 1) as nat);
        lenient_node(
            h,
            c,
            crate::schema::depth_budget(),
            if crate::json::truthy(crate::parameter::content_schema(ct[n - 1].1)) {
                crate::parameter::content_schema(ct[n - 1].1)
            } else {
                JsonV::Object(Seq::empty())
            },
        );
    }
}

/// With strict mode off, no conversion fails with `InvalidType`: an unknown
/// `type` passes through.
pub proof fn law_lenient_mode_accepts_any_type<H: Hooks>(
    h: H,
    c: crate::options::Config,
    j: JsonV,
)
    requires
        !c.strict_mode,
    ensures
        !is_type_error(convert_root(h, c, j)),
        !is_type_error(convert_parameter(h, c, j)),
{
    reveal(param_schema);
    lenient_node(h, c, crate::schema::depth_budget(), j);
    let obj = match j {
        JsonV::Object(es) => es,
        _ => Seq::empty(),
    };
    let schema = get_member(obj, "schema"@);
    let content = get_member(obj, "content"@);
    if schema is Some {
        lenient_node(h, c, crate::schema::depth_budget(), schema->0);
    }
    lenient_node(h, c, crate::schema::depth_budget(), JsonV::Object(Seq::empty()));
    if content is Some {
        match content->0 {
            JsonV::Object(ct) => lenient_contents(
                h,
                c,
                ct,
                get_member(obj, "description"@),
                ct.len(),
            ),
            _ => {},
        }
    }
}

// ---- stripped keywords ---------------------------------------------------------------
pub(crate) proof fn lemma_has_get(es: Seq<(Seq<char>, JsonV)>, k: Seq<char>)
    ensures
        has_member(es, k) == get_member(es, k) is Some,
{
    lemma_find_key_range(es, k);
}

pub(crate) proof fn lemma_strip_keys(es: Seq<(Seq<char>, JsonV)>, kws: Seq<Seq<char>>, n: nat)
    requires
        n <= kws.len(),
    ensures
        forall|i: int| 0 <= i < n ==> !has_member(crate::schema::strip_keys(es, kws, n), #[trigger] kws[i]),
    decreases n,
{
    if n > 0 {
        lemma_strip_keys(es, kws, (n - 1) as nat);
        let prev = crate::schema::strip_keys(es, kws, (n - 1) as nat);
        crate::json::lemma_remove_member(prev, kws[n - 1]);
        assert forall|i: int| 0 <= i < n implies !has_member(
            crate::schema::strip_keys(es, kws, n),
            #[trigger] kws[i],
        ) by {
            let r = crate::schema::strip_keys(es, kws, n);
            if kws[i] != kws[n - 1] {
                lemma_has_get(prev, kws[i]);
                lemma_has_get(r, kws[i]);
            }
        }
    }
}

proof fn lemma_schema_key_is_not_stripped(k: Seq<char>)
    requires
        not_supported_keywords().contains(k),
    ensures
        k != "$schema"@,
{
    reveal_strlit("$schema");
    reveal_strlit("nullable");
    reveal_strlit("discriminator");
    reveal_strlit("readOnly");
    reveal_strlit("writeOnly");
    reveal_strlit("xml");
    reveal_strlit("externalDocs");
    reveal_strlit("example");
    reveal_strlit("deprecated");
    let i = choose|i: int| 0 <= i < not_supported_keywords().len() && not_supported_keywords()[i] == k;
    if i == 6 {
        assert(k[0] != "$schema"@[0]);
    } else {
        assert(k.len() != "$schema"@.len());
    }
}

proof fn lemma_finish_stripped<H: Hooks>(h: H, c: crate::options::Config, es: Seq<(Seq<char>, JsonV)>)
    ensures
        match crate::schema::finish(h, c, es) {
            Ok(JsonV::Object(z)) => forall|i: int|
                0 <= i < c.not_supported.len() ==> !has_member(z, #[trigger] c.not_supported[i]),
            _ => true,
        },
{
    let y = crate::schema::pattern_step(
        h,
        c,
        crate::schema::format_step(c, crate::schema::nullable_step(es)),
    );
    match y {
        JsonV::Object(ys) => lemma_strip_keys(ys, c.not_supported, c.not_supported.len()),
        _ => {},
    }
}

/// The after hook returns every node unchanged.
pub open spec fn after_is_identity<H: Hooks>(h: H) -> bool {
    forall|x: JsonV, cfg: crate::options::Config| #[trigger] h.after_spec(x, cfg) == x
}

proof fn lemma_node_stripped<H: Hooks>(h: H, c: crate::options::Config, f: nat, j: JsonV)
    requires
        after_is_identity(h),
    ensures
        match convert_node(h, c, f, j) {
            Ok(JsonV::Object(z)) => forall|i: int|
                0 <= i < c.not_supported.len() ==> !has_member(z, #[trigger] c.not_supported[i]),
            _ => true,
        },
{
    if f > 0 {
        match h.before_spec(j, c) {
            JsonV::Object(es0) => {
                let g = (f - 1) as nat;
                match structs_prefix(h, c, g, es0, struct_keywords().len()) {
                    Ok(es1) => match definitions_prefix(h, c, g, es1, c.definition_keywords.len()) {
                        Ok(es2) => match props_required(h, c, g, es2) {
                            Ok(es3) => {
                                lemma_finish_stripped(h, c, es3);
                                match crate::schema::finish(h, c, es3) {
                                    Ok(r) => assert(h.after_spec(r, c) == r),
                                    Err(_) => {},
                                }
                            },
                            Err(_) => {},
                        },
                        Err(_) => {},
                    },
                    Err(_) => {},
                }
            },
            JsonV::Array(items) => {
                assert(h.after_spec(JsonV::Array(items), c) == JsonV::Array(items));
            },
            _ => {},
        }
    }
}

/// When the after hook returns nodes unchanged (as with no hooks), an object
/// result carries none of the keywords the options strip.
pub proof fn law_stripped_keywords_are_absent<H: Hooks>(h: H, o: OptionsView, j: JsonV, k: Seq<char>)
    requires
        after_is_identity(h),
    ensures
        match convert_root(h, resolve(o), j) {
            Ok(JsonV::Object(es)) => resolve(o).not_supported.contains(k) ==> !has_member(es, k),
            _ => true,
        },
{
    let c = resolve(o);
    let ns = c.not_supported;
    if ns.contains(k) {
        assert(not_supported_keywords().contains(k)) by {
            broadcast use vstd::seq::Seq::lemma_filter_contains_rev;

            assert(ns == not_supported_keywords().filter(
                |x: Seq<char>| !strings_or_empty(o.keep_not_supported).contains(x),
            ));
        }
        lemma_schema_key_is_not_stripped(k);
        let idx = choose|i: int| 0 <= i < ns.len() && ns[i] == k;
        lemma_node_stripped(h, c, crate::schema::depth_budget(), j);
        match convert_node(h, c, crate::schema::depth_budget(), j) {
            Ok(JsonV::Object(z)) => {
                assert(!has_member(z, ns[idx]));
                let s = set_member(z, "$schema"@, JsonV::String(draft_04_uri()));
                lemma_get_set(z, "$schema"@, JsonV::String(draft_04_uri()), k);
                lemma_has_get(z, k);
                lemma_has_get(s, k);
            },
            _ => {},
        }
    }
}

// ---- strict mode ---------------------------------------------------------------------
proof fn lemma_struct_keyword_is_not_type(i: int)
    requires
        0 <= i < struct_keywords().len(),
    ensures
        struct_keywords()[i] != "type"@,
{
    reveal_strlit("type");
    reveal_strlit("allOf");
    reveal_strlit("anyOf");
    reveal_strlit("oneOf");
    reveal_strlit("not");
    reveal_strlit("items");
    reveal_strlit("additionalProperties");
    assert(struct_keywords()[i].len() != "type"@.len());
}

proof fn lemma_structs_keep_key<H: Hooks>(
    h: H,
    c: crate::options::Config,
    f: nat,
    es: Seq<(Seq<char>, JsonV)>,
    n: nat,
    k: Seq<char>,
)
    requires
        forall|i: int| 0 <= i < n && i < struct_keywords().len() ==> struct_keywords()[i] != k,
    ensures
        match structs_prefix(h, c, f, es, n) {
            Ok(es1) => get_member(es1, k) == get_member(es, k),
            _ => true,
        },
    decreases n,
{
    if n > 0 && n <= struct_keywords().len() {
        lemma_structs_keep_key(h, c, f, es, (n - 1) as nat, k);
        match structs_prefix(h, c, f, es, (n - 1) as nat) {
            Ok(es1) => {
                let kw = struct_keywords()[n - 1];
                assert(kw != k);
                assert(structs_prefix(h, c, f, es, n) == struct_step(h, c, f, es1, kw));
                match get_member(es1, kw) {
                    Some(JsonV::Array(items)) => match convert_items(h, c, f, items, items.len()) {
                        Ok(out) => lemma_get_set(es1, kw, JsonV::Array(out), k),
                        Err(_) => {},
                    },
                    Some(JsonV::Null) => crate::json::lemma_get_remove(es1, kw, k),
                    Some(JsonV::Object(o)) => match convert_node(h, c, f, JsonV::Object(o)) {
                        Ok(q) => lemma_get_set(es1, kw, q, k),
                        Err(_) => {},
                    },
                    _ => {},
                }
            },
            Err(_) => {},
        }
    }
}

proof fn lemma_structs_keep_type<H: Hooks>(
    h: H,
    c: crate::options::Config,
    f: nat,
    es: Seq<(Seq<char>, JsonV)>,
    n: nat,
)
    ensures
        match structs_prefix(h, c, f, es, n) {
            Ok(es1) => get_member(es1, "type"@) == get_member(es, "type"@),
            _ => true,
        },
{
    assert forall|i: int| 0 <= i < struct_keywords().len() implies struct_keywords()[i] != "type"@ by {
        lemma_struct_keyword_is_not_type(i);
    }
    lemma_structs_keep_key(h, c, f, es, n, "type"@);
}

proof fn lemma_properties_are_an_object<H: Hooks>(h: H, c: crate::options::Config, f: nat, v: JsonV)
    ensures
        match convert_properties(h, c, f, v) {
            Ok(p) => p is Object,
            _ => true,
        },
{
}

/// A value that strict mode rejects as a `type`.
proof fn lemma_container_is_bad_type(w: JsonV)
    requires
        w is Array || w is Object,
    ensures
        crate::schema::bad_type(w),
{
}

proof fn lemma_definitions_keep_bad_type<H: Hooks>(
    h: H,
    c: crate::options::Config,
    f: nat,
    es: Seq<(Seq<char>, JsonV)>,
    n: nat,
)
    requires
        get_member(es, "type"@) is Some,
        crate::schema::bad_type(get_member(es, "type"@)->0),
    ensures
        match definitions_prefix(h, c, f, es, n) {
            Ok(es2) => get_member(es2, "type"@) is Some && crate::schema::bad_type(
                get_member(es2, "type"@)->0,
            ),
            _ => true,
        },
    decreases n,
{
    if n > 0 && n <= c.definition_keywords.len() {
        lemma_definitions_keep_bad_type(h, c, f, es, (n - 1) as nat);
        match definitions_prefix(h, c, f, es, (n - 1) as nat) {
            Ok(es1) => {
                let segs = crate::path::path_segments(c.definition_keywords[n - 1]);
                match crate::path::get_path(JsonV::Object(es1), segs) {
                    Some(v) => {
                        lemma_properties_are_an_object(h, c, f, v);
                        match convert_properties(h, c, f, v) {
                            Ok(p) => {
                                if segs.len() > 0 {
                                    let head = segs[0];
                                    let rest = segs.drop_first();
                                    let w = if rest.len() == 0 {
                                        p
                                    } else {
                                        let child = match get_member(es1, head) {
                                            Some(x) => x,
                                            None => JsonV::Object(Seq::empty()),
                                        };
                                        crate::path::set_path(child, rest, p)
                                    };
                                    assert(crate::path::set_path(JsonV::Object(es1), segs, p)
                                        == JsonV::Object(set_member(es1, head, w)));
                                    assert(w is Array || w is Object);
                                    lemma_get_set(es1, head, w, "type"@);
                                    if head == "type"@ {
                                        lemma_container_is_bad_type(w);
                                    }
                                }
                            },
                            Err(_) => {},
                        }
                    },
                    None => {},
                }
            },
            Err(_) => {},
        }
    }
}

proof fn lemma_props_required_keep_key<H: Hooks>(
    h: H,
    c: crate::options::Config,
    f: nat,
    es: Seq<(Seq<char>, JsonV)>,
    k: Seq<char>,
)
    requires
        k != "properties"@,
        k != "required"@,
    ensures
        match props_required(h, c, f, es) {
            Ok(es3) => get_member(es3, k) == get_member(es, k),
            _ => true,
        },
{
    match get_member(es, "properties"@) {
        Some(pv) => match convert_properties(h, c, f, pv) {
            Ok(conv) => {
                let e1 = crate::json::remove_member(es, "properties"@);
                crate::json::lemma_get_remove(es, "properties"@, k);
                let e2 = set_member(e1, "properties"@, conv);
                lemma_get_set(e1, "properties"@, conv, k);
                let kept = crate::schema::keys(crate::path::members_or_empty(conv));
                let input = match pv {
                    JsonV::Object(ps) => crate::schema::keys(ps),
                    _ => Seq::empty(),
                };
                let e3 = crate::schema::required_step(e2, kept, input);
                match get_member(e2, "required"@) {
                    Some(JsonV::Array(req)) => {
                        let fl = req.filter(|x: JsonV| crate::schema::keeps_required(x, kept, input));
                        crate::json::lemma_get_remove(e2, "required"@, k);
                        lemma_get_set(e2, "required"@, JsonV::Array(fl), k);
                    },
                    _ => {},
                }
                crate::json::lemma_get_remove(e3, "properties"@, k);
            },
            Err(_) => {},
        },
        None => {},
    }
}

proof fn lemma_props_required_keep_type<H: Hooks>(
    h: H,
    c: crate::options::Config,
    f: nat,
    es: Seq<(Seq<char>, JsonV)>,
)
    ensures
        match props_required(h, c, f, es) {
            Ok(es3) => get_member(es3, "type"@) == get_member(es, "type"@),
            _ => true,
        },
{
    reveal_strlit("type");
    reveal_strlit("properties");
    reveal_strlit("required");
    assert("type"@.len() != "properties"@.len());
    assert("type"@.len() != "required"@.len());
    lemma_props_required_keep_key(h, c, f, es, "type"@);
}

proof fn lemma_bad_top_type_err<H: Hooks>(
    h: H,
    c: crate::options::Config,
    f: nat,
    es: Seq<(Seq<char>, JsonV)>,
    t: JsonV,
)
    requires
        c.strict_mode,
        f > 0,
        get_member(es, "type"@) == Some(t),
        crate::schema::bad_type(t),
        h.before_spec(JsonV::Object(es), c) == JsonV::Object(es),
    ensures
        convert_node(h, c, f, JsonV::Object(es)) is Err,
{
    let g = (f - 1) as nat;
    lemma_structs_keep_type(h, c, g, es, struct_keywords().len());
    match structs_prefix(h, c, g, es, struct_keywords().len()) {
        Ok(es1) => {
            lemma_definitions_keep_bad_type(h, c, g, es1, c.definition_keywords.len());
            match definitions_prefix(h, c, g, es1, c.definition_keywords.len()) {
                Ok(es2) => {
                    lemma_props_required_keep_type(h, c, g, es2);
                },
                Err(_) => {},
            }
        },
        Err(_) => {},
    }
}

/// In strict mode an object whose `type` is truthy and not a draft-04 type
/// name is rejected, when the before hook leaves it as it is (as with no
/// hooks).
pub proof fn law_strict_mode_rejects_an_invalid_type<H: Hooks>(
    h: H,
    c: crate::options::Config,
    es: Seq<(Seq<char>, JsonV)>,
    t: JsonV,
)
    requires
        c.strict_mode,
        get_member(es, "type"@) == Some(t),
        crate::schema::bad_type(t),
        h.before_spec(JsonV::Object(es), c) == JsonV::Object(es),
    ensures
        convert_root(h, c, JsonV::Object(es)) is Err,
{
    lemma_bad_top_type_err(h, c, crate::schema::depth_budget(), es, t);
}

/// Strict mode is on unless the caller turns it off: an explicit
/// `strict_mode(true)` and an unset `strict_mode` both give strict mode, and
/// only `strict_mode(false)` gives lenient mode.
pub proof fn law_strict_mode_is_on_unless_turned_off(o: OptionsView)
    ensures
        o.strict_mode == Some(true) ==> resolve(o).strict_mode,
        o.strict_mode is None ==> resolve(o).strict_mode,
        o.strict_mode == Some(false) ==> !resolve(o).strict_mode,
{
}

/// With `strict_mode` set to true, an object whose `type` is a non-empty
/// string outside the draft-04 type names is rejected, when the before hook
/// leaves it as it is (as with no hooks).
pub proof fn law_explicit_strict_mode_rejects_an_invalid_type<H: Hooks>(
    h: H,
    o: OptionsView,
    es: Seq<(Seq<char>, JsonV)>,
    s: Seq<char>,
)
    requires
        o.strict_mode == Some(true),
        get_member(es, "type"@) == Some(JsonV::String(s)),
        s.len() > 0,
        !crate::consts::valid_types().contains(s),
        h.before_spec(JsonV::Object(es), resolve(o)) == JsonV::Object(es),
    ensures
        convert_root(h, resolve(o), JsonV::Object(es)) is Err,
{
    law_strict_mode_rejects_an_invalid_type(h, resolve(o), es, JsonV::String(s));
}

// ---- required -------------------------------------------------------------------------
/// After `properties` is converted, a `required` array keeps only names whose
/// property was kept or that had no property in the input, and an empty one
/// is dropped.
pub proof fn law_required_names_refer_to_kept_properties<H: Hooks>(
    h: H,
    c: crate::options::Config,
    f: nat,
    es: Seq<(Seq<char>, JsonV)>,
)
    requires
        get_member(es, "properties"@) is Some,
        get_member(es, "required"@) matches Some(JsonV::Array(_)),
    ensures
        match props_required(h, c, f, es) {
            Ok(es3) => {
                let pv = get_member(es, "properties"@)->0;
                let conv = convert_properties(h, c, f, pv)->Ok_0;
                let input = match pv {
                    JsonV::Object(ps) => crate::schema::keys(ps),
                    _ => Seq::empty(),
                };
                match get_member(es3, "required"@) {
                    None => true,
                    Some(JsonV::Array(req)) => req.len() > 0 && forall|i: int|
                        0 <= i < req.len() ==> crate::schema::keeps_required(
                            #[trigger] req[i],
                            crate::schema::keys(crate::path::members_or_empty(conv)),
                            input,
                        ),
                    Some(_) => false,
                }
            },
            Err(_) => true,
        },
{
    reveal_strlit("properties");
    reveal_strlit("required");
    assert("required"@.len() != "properties"@.len());
    let pv = get_member(es, "properties"@)->0;
    match convert_properties(h, c, f, pv) {
        Ok(conv) => {
            let input = match pv {
                JsonV::Object(ps) => crate::schema::keys(ps),
                _ => Seq::empty(),
            };
            let kept = crate::schema::keys(crate::path::members_or_empty(conv));
            let e1 = crate::json::remove_member(es, "properties"@);
            crate::json::lemma_get_remove(es, "properties"@, "required"@);
            let e2 = set_member(e1, "properties"@, conv);
            lemma_get_set(e1, "properties"@, conv, "required"@);
            let req = get_member(e2, "required"@)->0->Array_0;
            let pred = |x: JsonV| crate::schema::keeps_required(x, kept, input);
            let fl = req.filter(pred);
            broadcast use vstd::seq_lib::group_filter_ensures;
            let e3 = crate::schema::required_step(e2, kept, input);
            if fl.len() == 0 {
                crate::json::lemma_get_remove(e2, "required"@, "required"@);
            } else {
                lemma_get_set(e2, "required"@, JsonV::Array(fl), "required"@);
                assert forall|i: int| 0 <= i < fl.len() implies crate::schema::keeps_required(
                    #[trigger] fl[i],
                    kept,
                    input,
                ) by {
                    assert(pred(fl[i]));
                }
            }
            crate::json::lemma_get_remove(e3, "properties"@, "required"@);
        },
        Err(_) => {},
    }
}

// ---- numeric bounds --------------------------------------------------------------------
proof fn lemma_int64_min_as_double()
    ensures
        crate::number::nearest_double(-0x8000_0000_0000_0000) == (-0x10_0000_0000_0000int, 11int),
        crate::number::nearest_double(-0x8000_0000) == (-0x8000_0000int, 0int),
        crate::number::nearest_double(0x7fff_ffff) == (0x7fff_ffffint, 0int),
        crate::number::nearest_double(0x7fff_ffff_ffff_ffff) == (0x20_0000_0000_0000int, 10int),
{
    reveal_with_fuel(crate::number::binade_shift, 13);
    reveal_with_fuel(crate::number::p2, 13);
    assert(crate::number::binade_shift(0x8000_0000_0000_0000) == 11);
    assert(crate::number::p2(11) == 2048);
    assert(0x8000_0000_0000_0000nat / 2048 == 0x10_0000_0000_0000nat);
    assert(0x8000_0000_0000_0000nat % 2048 == 0);
    assert(crate::number::binade_shift(0x8000_0000) == 0);
    assert(crate::number::binade_shift(0x7fff_ffff) == 0);
    assert(crate::number::p2(0) == 1);
    assert(crate::number::binade_shift(0x7fff_ffff_ffff_ffff) == 10);
    assert(crate::number::p2(10) == 1024);
    assert(0x7fff_ffff_ffff_ffffnat / 1024 == 0x1f_ffff_ffff_ffffnat);
    assert(0x7fff_ffff_ffff_ffffnat % 1024 == 1023);
}

pub(crate) proof fn lemma_bound_is_not_out_of_range(f: crate::number::NumericFormat)
    ensures
        !crate::number::takes_bound(
            Some(crate::number::min_bound_json(f)),
            crate::number::min_limit(f),
            true,
        ),
        !crate::number::takes_bound(
            Some(crate::number::max_bound_json(f)),
            crate::number::max_limit(f),
            false,
        ),
{
    lemma_int64_min_as_double();
    crate::number::lemma_p2_64();
    reveal_with_fuel(crate::number::p2, 53);
    assert(crate::number::p2(52) == 0x10_0000_0000_0000);
    assert(crate::number::p2(53) == 0x20_0000_0000_0000);
}

/// After a numeric format is applied, `minimum` and `maximum` are present,
/// and a non-zero numeric bound lies within the format's range.
pub proof fn law_numeric_bounds_are_in_range(
    es: Seq<(Seq<char>, JsonV)>,
    f: crate::number::NumericFormat,
)
    ensures
        ({
            let r = crate::number::clamp_members(es, f);
            &&& get_member(r, "minimum"@) is Some
            &&& get_member(r, "maximum"@) is Some
            &&& !crate::number::takes_bound(get_member(r, "minimum"@), crate::number::min_limit(f), true)
                || !(get_member(r, "minimum"@)->0 is Number)
            &&& !crate::number::takes_bound(get_member(r, "maximum"@), crate::number::max_limit(f), false)
                || !(get_member(r, "maximum"@)->0 is Number)
        }),
{
    reveal_strlit("minimum");
    reveal_strlit("maximum");
    assert("minimum"@[1] != "maximum"@[1]);
    lemma_bound_is_not_out_of_range(f);
    let lo = crate::number::min_limit(f);
    let hi = crate::number::max_limit(f);
    let es1 = if crate::number::takes_bound(get_member(es, "minimum"@), lo, true) {
        set_member(es, "minimum"@, crate::number::min_bound_json(f))
    } else {
        es
    };
    lemma_get_set(es, "minimum"@, crate::number::min_bound_json(f), "minimum"@);
    lemma_get_set(es, "minimum"@, crate::number::min_bound_json(f), "maximum"@);
    lemma_get_set(es1, "maximum"@, crate::number::max_bound_json(f), "maximum"@);
    lemma_get_set(es1, "maximum"@, crate::number::max_bound_json(f), "minimum"@);
}

// ---- parameters ------------------------------------------------------------------------
/// An object that carries the draft-04 `$schema`; other values pass.
pub open spec fn carries_schema_uri(v: JsonV) -> bool {
    match v {
        JsonV::Object(es) => get_member(es, "$schema"@) == Some(JsonV::String(draft_04_uri())),
        _ => true,
    }
}

proof fn lemma_param_schema_carries_uri<H: Hooks>(
    h: H,
    c: crate::options::Config,
    s: JsonV,
    desc: Option<JsonV>,
)
    ensures
        match param_schema(h, c, s, desc) {
            Ok(r) => carries_schema_uri(r),
            Err(_) => true,
        },
{
    reveal(param_schema);
    reveal_strlit("description");
    reveal_strlit("$schema");
    assert("description"@.len() != "$schema"@.len());
    let s1 = if crate::json::truthy(s) {
        s
    } else {
        JsonV::Object(Seq::empty())
    };
    law_root_carries_schema_uri(h, c, s1);
    match convert_root(h, c, s1) {
        Ok(JsonV::Object(es)) => match desc {
            Some(d) => lemma_get_set(es, "description"@, d, "$schema"@),
            None => {},
        },
        _ => {},
    }
}

proof fn lemma_contents_carry_uri<H: Hooks>(
    h: H,
    c: crate::options::Config,
    ct: Seq<(Seq<char>, JsonV)>,
    desc: Option<JsonV>,
    n: nat,
)
    ensures
        match contents_prefix(h, c, ct, desc, n) {
            Ok(out) => forall|i: int| 0 <= i < out.len() ==> carries_schema_uri(#[trigger] out[i].1),
            Err(_) => true,
        },
    decreases n,
{
    if n > 0 && n <= ct.len() {
        lemma_contents_carry_uri(h, c, ct, desc, (n - 1) as nat);
        let s = crate::parameter::content_schema(ct[n - 1].1);
        lemma_param_schema_carries_uri(h, c, s, desc);
        match contents_prefix(h, c, ct, desc, (n - 1) as nat) {
            Ok(out) => match param_schema(h, c, s, desc) {
                Ok(r) => {
                    let k = ct[n - 1].0;
                    lemma_find_key_range(out, k);
                    let o2 = set_member(out, k, r);
                    assert forall|i: int| 0 <= i < o2.len() implies carries_schema_uri(
                        #[trigger] o2[i].1,
                    ) by {
                        if i < out.len() && i != crate::json::find_key(out, k) {
                            assert(o2[i] == out[i]);
                        }
                    }
                },
                Err(_) => {},
            },
            Err(_) => {},
        }
    }
}

/// A parameter converted through `content` gives an object keyed by media
/// type whose object values each carry their own `$schema`.
pub proof fn law_content_schemas_carry_schema_uri<H: Hooks>(
    h: H,
    c: crate::options::Config,
    ct: JsonV,
    desc: Option<JsonV>,
)
    ensures
        match convert_contents(h, c, ct, desc) {
            Ok(JsonV::Object(out)) => forall|i: int|
                0 <= i < out.len() ==> carries_schema_uri(#[trigger] out[i].1),
            _ => true,
        },
{
    match ct {
        JsonV::Object(es) => lemma_contents_carry_uri(h, c, es, desc, es.len()),
        _ => {},
    }
}

// ---- paths -------------------------------------------------------------------------------
/// A key with no character that paths treat specially.
pub open spec fn plain_name(s: Seq<char>) -> bool {
    s.len() > 0 && forall|i: int|
        0 <= i < s.len() ==> s[i] != '.' && s[i] != '[' && s[i] != ']' && s[i] != '"' && s[i]
            != '\''
}

proof fn lemma_plain_run(p: Seq<char>, i: int, j: int, segs: Seq<Seq<char>>, cur: Seq<char>)
    requires
        0 <= i <= j <= p.len(),
        forall|k: int| i <= k < j ==> p[k] != '.' && p[k] != '[',
    ensures
        crate::path::parse_from(p, i, segs, cur) == crate::path::parse_from(
            p,
            j,
            segs,
            cur + p.subrange(i, j),
        ),
    decreases j - i,
{
    if i < j {
        lemma_plain_run(p, i + 1, j, segs, cur.push(p[i]));
        assert(cur.push(p[i]) + p.subrange(i + 1, j) =~= cur + p.subrange(i, j));
    } else {
        assert(cur + p.subrange(i, j) =~= cur);
    }
}

proof fn lemma_scan_to(p: Seq<char>, j: int, k: int, stop: char)
    requires
        0 <= j <= k < p.len(),
        p[k] == stop,
        forall|x: int| j <= x < k ==> p[x] != stop,
    ensures
        crate::path::scan_until(p, j, stop) == k,
    decreases k - j,
{
    if j < k {
        lemma_scan_to(p, j + 1, k, stop);
    }
}

proof fn lemma_bracket_path(a: Seq<char>, b: Seq<char>, p: Seq<char>, open: int, next: int)
    requires
        plain_name(a),
        0 < open,
        p.len() == next,
        a.len() + open <= next,
        p.subrange(0, a.len() as int) == a,
        p[a.len() as int] == '[',
        crate::path::bracket(p, a.len() + 1int) == (b, next),
    ensures
        crate::path::path_segments(p) == seq![a, b],
{
    let n = a.len() as int;
    let e: Seq<char> = Seq::empty();
    let es: Seq<Seq<char>> = Seq::empty();
    assert forall|k: int| 0 <= k < n implies p[k] != '.' && p[k] != '[' by {
        assert(p[k] == p.subrange(0, n)[k]);
    }
    lemma_plain_run(p, 0, n, es, e);
    assert(e + p.subrange(0, n) =~= a);
    assert(crate::path::parse_from(p, n, es, a) == crate::path::parse_from(
        p,
        next,
        es.push(a).push(b),
        e,
    ));
    assert(es.push(a).push(b) =~= seq![a, b]);
}

/// `a.b`, `a[b]`, `a["b"]` and `a['b']` all name the member `b` of the
/// member `a`.
pub proof fn law_path_notations_agree(a: Seq<char>, b: Seq<char>)
    requires
        plain_name(a),
        plain_name(b),
    ensures
        crate::path::path_segments(a + seq!['.'] + b) == seq![a, b],
        crate::path::path_segments(a + seq!['['] + b + seq![']']) == seq![a, b],
        crate::path::path_segments(a + seq!['[', '"'] + b + seq!['"', ']']) == seq![a, b],
        crate::path::path_segments(a + seq!['[', '\''] + b + seq!['\'', ']']) == seq![a, b],
{
    let n = a.len() as int;
    let m = b.len() as int;
    let e: Seq<char> = Seq::empty();
    let es: Seq<Seq<char>> = Seq::empty();
    // a.b
    let p1 = a + seq!['.'] + b;
    lemma_plain_run(p1, 0, n, es, e);
    assert(e + p1.subrange(0, n) =~= a);
    lemma_plain_run(p1, n + 1, n + 1 + m, es.push(a), e);
    assert(e + p1.subrange(n + 1, n + 1 + m) =~= b);
    assert(es.push(a).push(b) =~= seq![a, b]);
    // a[b]
    let p2 = a + seq!['['] + b + seq![']'];
    lemma_scan_to(p2, n + 1, n + 1 + m, ']');
    assert(p2.subrange(n + 1, n + 1 + m) =~= b);
    assert(p2.subrange(0, n) =~= a);
    lemma_bracket_path(a, b, p2, 1, n + 2 + m);
    // a["b"] and a['b']
    let p3 = a + seq!['[', '"'] + b + seq!['"', ']'];
    lemma_scan_to(p3, n + 2, n + 2 + m, '"');
    lemma_scan_to(p3, n + 3 + m, n + 3 + m, ']');
    assert(p3.subrange(n + 2, n + 2 + m) =~= b);
    assert(p3.subrange(0, n) =~= a);
    lemma_bracket_path(a, b, p3, 2, n + 4 + m);
    let p4 = a + seq!['[', '\''] + b + seq!['\'', ']'];
    lemma_scan_to(p4, n + 2, n + 2 + m, '\'');
    lemma_scan_to(p4, n + 3 + m, n + 3 + m, ']');
    assert(p4.subrange(n + 2, n + 2 + m) =~= b);
    assert(p4.subrange(0, n) =~= a);
    lemma_bracket_path(a, b, p4, 2, n + 4 + m);
}

// ---- nested schemas ----------------------------------------------------------------------
/// The keys that keyword processing writes.
pub open spec fn written_keys() -> Seq<Seq<char>> {
    seq![
        "properties"@,
        "required"@,
        "type"@,
        "enum"@,
        "format"@,
        "pattern"@,
        "minimum"@,
        "maximum"@,
        "patternProperties"@,
        "additionalProperties"@,
    ]
}

proof fn lemma_schema_uri_key_is_not_written()
    ensures
        forall|i: int| 0 <= i < struct_keywords().len() ==> struct_keywords()[i] != "$schema"@,
        forall|i: int| 0 <= i < written_keys().len() ==> written_keys()[i] != "$schema"@,
{
    reveal_strlit("$schema");
    reveal_strlit("allOf");
    reveal_strlit("anyOf");
    reveal_strlit("oneOf");
    reveal_strlit("not");
    reveal_strlit("items");
    reveal_strlit("additionalProperties");
    reveal_strlit("properties");
    reveal_strlit("required");
    reveal_strlit("type");
    reveal_strlit("enum");
    reveal_strlit("format");
    reveal_strlit("pattern");
    reveal_strlit("minimum");
    reveal_strlit("maximum");
    reveal_strlit("patternProperties");
    assert forall|i: int| 0 <= i < struct_keywords().len() implies struct_keywords()[i] != "$schema"@ by {
        assert(struct_keywords()[i][0] != '$');
    }
    assert forall|i: int| 0 <= i < written_keys().len() implies written_keys()[i] != "$schema"@ by {
        assert(written_keys()[i][0] != '$');
    }
}

proof fn lemma_definitions_keep_absent<H: Hooks>(
    h: H,
    c: crate::options::Config,
    f: nat,
    es: Seq<(Seq<char>, JsonV)>,
    n: nat,
    k: Seq<char>,
)
    requires
        get_member(es, k) is None,
    ensures
        match definitions_prefix(h, c, f, es, n) {
            Ok(es2) => get_member(es2, k) is None,
            _ => true,
        },
    decreases n,
{
    if n > 0 && n <= c.definition_keywords.len() {
        lemma_definitions_keep_absent(h, c, f, es, (n - 1) as nat, k);
        match definitions_prefix(h, c, f, es, (n - 1) as nat) {
            Ok(es1) => {
                let segs = crate::path::path_segments(c.definition_keywords[n - 1]);
                match crate::path::get_path(JsonV::Object(es1), segs) {
                    Some(v) => match convert_properties(h, c, f, v) {
                        Ok(p) => {
                            if segs.len() > 0 {
                                let head = segs[0];
                                let rest = segs.drop_first();
                                assert(get_member(es1, head) is Some);
                                let w = if rest.len() == 0 {
                                    p
                                } else {
                                    crate::path::set_path(get_member(es1, head)->0, rest, p)
                                };
                                assert(crate::path::set_path(JsonV::Object(es1), segs, p)
                                    == JsonV::Object(set_member(es1, head, w)));
                                lemma_get_set(es1, head, w, k);
                            }
                        },
                        Err(_) => {},
                    },
                    None => {},
                }
            },
            Err(_) => {},
        }
    }
}

pub(crate) proof fn lemma_strip_keeps_absent(es: Seq<(Seq<char>, JsonV)>, kws: Seq<Seq<char>>, n: nat, k: Seq<char>)
    requires
        get_member(es, k) is None,
    ensures
        get_member(crate::schema::strip_keys(es, kws, n), k) is None,
    decreases n,
{
    if n > 0 && n <= kws.len() {
        lemma_strip_keeps_absent(es, kws, (n - 1) as nat, k);
        crate::json::lemma_get_remove(crate::schema::strip_keys(es, kws, (n - 1) as nat), kws[n - 1], k);
    }
}

proof fn lemma_finish_keeps_absent(c: crate::options::Config, es: Seq<(Seq<char>, JsonV)>, k: Seq<char>)
    requires
        get_member(es, k) is None,
        forall|i: int| 0 <= i < written_keys().len() ==> written_keys()[i] != k,
        k != "x-patternProperties"@,
    ensures
        match crate::schema::finish(crate::transform::NoHooks, c, es) {
            Ok(JsonV::Object(z)) => get_member(z, k) is None,
            _ => true,
        },
{
    let h = crate::transform::NoHooks;
    assert(written_keys()[2] != k && written_keys()[3] != k && written_keys()[4] != k);
    assert(written_keys()[5] != k && written_keys()[6] != k && written_keys()[7] != k);
    assert(written_keys()[8] != k && written_keys()[9] != k);
    // nullable
    match get_member(es, "type"@) {
        Some(t) => {
            let e1 = set_member(es, "type"@, crate::schema::nullable_type(t));
            lemma_get_set(es, "type"@, crate::schema::nullable_type(t), k);
            match get_member(e1, "enum"@) {
                Some(JsonV::Array(items)) => lemma_get_set(
                    e1,
                    "enum"@,
                    JsonV::Array(items.push(JsonV::Null)),
                    k,
                ),
                _ => {},
            }
        },
        None => {},
    }
    let e2 = crate::schema::nullable_step(es);
    assert(get_member(e2, k) is None);
    // format
    lemma_get_set(e2, "format"@, JsonV::String("date-time"@), k);
    lemma_get_set(e2, "pattern"@, JsonV::String(crate::consts::byte_pattern()), k);
    match get_member(e2, "format"@) {
        Some(JsonV::String(fm)) => match crate::schema::numeric_format(fm) {
            Some(nf) => {
                lemma_get_set(e2, "minimum"@, crate::number::min_bound_json(nf), k);
                let e21 = if crate::number::takes_bound(
                    get_member(e2, "minimum"@),
                    crate::number::min_limit(nf),
                    true,
                ) {
                    set_member(e2, "minimum"@, crate::number::min_bound_json(nf))
                } else {
                    e2
                };
                lemma_get_set(e21, "maximum"@, crate::number::max_bound_json(nf), k);
            },
            None => {},
        },
        _ => {},
    }
    let e3 = crate::schema::format_step(c, e2);
    assert(get_member(e3, k) is None);
    // pattern properties
    let x = get_member(e3, "x-patternProperties"@)->0;
    let e4 = crate::json::remove_member(e3, "x-patternProperties"@);
    crate::json::lemma_get_remove(e3, "x-patternProperties"@, k);
    lemma_get_set(e4, "patternProperties"@, x, k);
    let e5 = if crate::json::is_container(x) {
        set_member(e4, "patternProperties"@, x)
    } else {
        e4
    };
    lemma_get_set(e5, "additionalProperties"@, JsonV::Bool(false), k);
    let y = crate::schema::pattern_step(h, c, e3);
    assert(get_member(y->Object_0, k) is None);
    lemma_strip_keeps_absent(y->Object_0, c.not_supported, c.not_supported.len(), k);
}

/// Converting a node adds no `$schema`: without hooks, a converted object
/// carries `$schema` only when its input did. Only the root of a conversion
/// gets one.
pub proof fn law_converted_nodes_add_no_schema_uri(
    c: crate::options::Config,
    f: nat,
    es: Seq<(Seq<char>, JsonV)>,
)
    requires
        get_member(es, "$schema"@) is None,
    ensures
        match convert_node(crate::transform::NoHooks, c, f, JsonV::Object(es)) {
            Ok(JsonV::Object(z)) => get_member(z, "$schema"@) is None,
            _ => true,
        },
{
    let h = crate::transform::NoHooks;
    let k = "$schema"@;
    lemma_schema_uri_key_is_not_written();
    reveal_strlit("$schema");
    reveal_strlit("x-patternProperties");
    assert(k[0] != "x-patternProperties"@[0]);
    assert(written_keys()[0] != k && written_keys()[1] != k);
    if f > 0 {
        let g = (f - 1) as nat;
        lemma_structs_keep_key(h, c, g, es, struct_keywords().len(), k);
        match structs_prefix(h, c, g, es, struct_keywords().len()) {
            Ok(es1) => {
                lemma_definitions_keep_absent(h, c, g, es1, c.definition_keywords.len(), k);
                match definitions_prefix(h, c, g, es1, c.definition_keywords.len()) {
                    Ok(es2) => {
                        lemma_props_required_keep_key(h, c, g, es2, k);
                        match props_required(h, c, g, es2) {
                            Ok(es3) => lemma_finish_keeps_absent(c, es3, k),
                            Err(_) => {},
                        }
                    },
                    Err(_) => {},
                }
            },
            Err(_) => {},
        }
    }
}

// ---- more on parameters -------------------------------------------------------------------
proof fn lemma_param_schema_description<H: Hooks>(
    h: H,
    c: crate::options::Config,
    s: JsonV,
    d: JsonV,
)
    requires
        crate::json::truthy(d),
    ensures
        match param_schema(h, c, s, Some(d)) {
            Ok(JsonV::Object(z)) => get_member(z, "description"@) == Some(d)
                && get_member(z, "$schema"@) == Some(JsonV::String(draft_04_uri())),
            _ => true,
        },
{
    reveal(param_schema);
    lemma_param_schema_carries_uri(h, c, s, Some(d));
    let s1 = if crate::json::truthy(s) {
        s
    } else {
        JsonV::Object(Seq::empty())
    };
    match convert_root(h, c, s1) {
        Ok(JsonV::Object(es)) => lemma_get_set(es, "description"@, d, "description"@),
        _ => {},
    }
}

/// A truthy `description` on a parameter with a truthy `schema` is copied
/// onto the converted schema, which also carries `$schema`.
pub proof fn law_parameter_description_is_copied<H: Hooks>(
    h: H,
    c: crate::options::Config,
    es: Seq<(Seq<char>, JsonV)>,
    s: JsonV,
    d: JsonV,
)
    requires
        get_member(es, "schema"@) == Some(s),
        crate::json::truthy(s),
        get_member(es, "description"@) == Some(d),
        crate::json::truthy(d),
    ensures
        match convert_parameter(h, c, JsonV::Object(es)) {
            Ok(JsonV::Object(z)) => get_member(z, "description"@) == Some(d)
                && get_member(z, "$schema"@) == Some(JsonV::String(draft_04_uri())),
            _ => true,
        },
{
    lemma_param_schema_description(h, c, s, d);
}

/// Without hooks, an array given as a schema is returned as it is.
pub proof fn law_array_schema_passes_through(c: crate::options::Config, items: Seq<JsonV>)
    ensures
        convert_root(crate::transform::NoHooks, c, JsonV::Array(items)) == Ok::<JsonV, ErrorV>(
            JsonV::Array(items),
        ),
{
}

// ---- properties -----------------------------------------------------------------------------
/// A property that conversion keeps: an object or array without a removal
/// flag set to `true`.
pub open spec fn kept_property(c: crate::options::Config, p: JsonV) -> bool {
    crate::json::is_container(p) && !crate::schema::flagged(c.remove_props, p)
}

#[verifier::rlimit(40)]
#[verifier::spinoff_prover]
proof fn lemma_entries_keys<H: Hooks>(
    h: H,
    c: crate::options::Config,
    f: nat,
    ents: Seq<(Seq<char>, JsonV)>,
    n: nat,
    k: Seq<char>,
)
    requires
        n <= ents.len(),
    ensures
        match props_entries(h, c, f, ents, n) {
            Ok(out) => has_member(out, k) <==> exists|j: int|
                0 <= j < n && #[trigger] ents[j].0 == k && kept_property(c, ents[j].1),
            Err(_) => true,
        },
    decreases n,
{
    if n > 0 {
        lemma_entries_keys(h, c, f, ents, (n - 1) as nat, k);
        match props_entries(h, c, f, ents, (n - 1) as nat) {
            Ok(out) => {
                let p = ents[n - 1].1;
                let kn = ents[n - 1].0;
                if kept_property(c, p) {
                    match convert_node(h, c, f, p) {
                        Ok(q) => {
                            lemma_get_set(out, kn, q, k);
                            lemma_has_get(out, k);
                            lemma_has_get(set_member(out, kn, q), k);
                            if kn == k {
                                assert(ents[n - 1].0 == k);
                            }
                            if has_member(out, k) {
                                let j = choose|j: int|
                                    0 <= j < n - 1 && #[trigger] ents[j].0 == k && kept_property(
                                        c,
                                        ents[j].1,
                                    );
                                assert(0 <= j < n && ents[j].0 == k);
                            }
                        },
                        Err(_) => {},
                    }
                } else {
                    if exists|j: int| 0 <= j < n && #[trigger] ents[j].0 == k && kept_property(c, ents[j].1) {
                        let j = choose|j: int|
                            0 <= j < n && #[trigger] ents[j].0 == k && kept_property(c, ents[j].1);
                        assert(j != n - 1);
                    }
                }
            },
            Err(_) => {},
        }
    }
}

/// Converting `properties` keeps exactly the properties that are objects or
/// arrays without a removal flag set to `true`: a key is in the result if and
/// only if such a property has it.
pub proof fn law_kept_properties<H: Hooks>(
    h: H,
    c: crate::options::Config,
    f: nat,
    ps: Seq<(Seq<char>, JsonV)>,
    k: Seq<char>,
)
    ensures
        match convert_properties(h, c, f, JsonV::Object(ps)) {
            Ok(JsonV::Object(out)) => has_member(out, k) <==> exists|j: int|
                0 <= j < ps.len() && #[trigger] ps[j].0 == k && kept_property(c, ps[j].1),
            _ => true,
        },
{
    lemma_entries_keys(h, c, f, ps, ps.len(), k);
}

// ---- strict mode, nested nodes ---------------------------------------------------------------
/// Within `d` levels, a node reached through struct keywords and kept
/// properties carries a `type` that strict mode rejects.
pub open spec fn bad_type_within(c: crate::options::Config, j: JsonV, d: nat) -> bool
    decreases d, 0nat, 0nat,
{
    if d == 0 {
        false
    } else {
        match j {
            JsonV::Object(es) => {
                ||| (get_member(es, "type"@) is Some && crate::schema::bad_type(
                    get_member(es, "type"@)->0,
                ))
                ||| bad_structs(c, es, struct_keywords().len(), (d - 1) as nat)
                ||| match get_member(es, "properties"@) {
                    Some(JsonV::Object(ps)) => bad_entries(c, ps, ps.len(), (d - 1) as nat),
                    _ => false,
                }
            },
            _ => false,
        }
    }
}

/// One of the first `n` struct keywords holds a bad node within `d` levels.
pub open spec fn bad_structs(c: crate::options::Config, es: Seq<(Seq<char>, JsonV)>, n: nat, d: nat) -> bool
    decreases d, 3nat, n,
{
    if n == 0 || n > struct_keywords().len() {
        false
    } else {
        bad_structs(c, es, (n - 1) as nat, d) || bad_struct_child(c, es, struct_keywords()[n - 1], d)
    }
}

/// The value of struct keyword `kw` holds a bad node within `d` levels.
pub open spec fn bad_struct_child(
    c: crate::options::Config,
    es: Seq<(Seq<char>, JsonV)>,
    kw: Seq<char>,
    d: nat,
) -> bool
    decreases d, 2nat, 0nat,
{
    match get_member(es, kw) {
        Some(JsonV::Object(o)) => bad_type_within(c, JsonV::Object(o), d),
        Some(JsonV::Array(items)) => bad_items(c, items, items.len(), d),
        _ => false,
    }
}

/// One of the first `n` container items is a bad node within `d` levels.
pub open spec fn bad_items(c: crate::options::Config, items: Seq<JsonV>, n: nat, d: nat) -> bool
    decreases d, 1nat, n,
{
    if n == 0 || n > items.len() {
        false
    } else {
        bad_items(c, items, (n - 1) as nat, d) || (crate::json::is_container(items[n - 1])
            && bad_type_within(c, items[n - 1], d))
    }
}

/// One of the first `n` kept properties is a bad node within `d` levels.
pub open spec fn bad_entries(c: crate::options::Config, ps: Seq<(Seq<char>, JsonV)>, n: nat, d: nat) -> bool
    decreases d, 1nat, n,
{
    if n == 0 || n > ps.len() {
        false
    } else {
        bad_entries(c, ps, (n - 1) as nat, d) || (kept_property(c, ps[n - 1].1) && bad_type_within(
            c,
            ps[n - 1].1,
            d,
        ))
    }
}

proof fn lemma_struct_keywords_distinct(i: int, k: int)
    requires
        0 <= i < struct_keywords().len(),
        0 <= k < struct_keywords().len(),
        i != k,
    ensures
        struct_keywords()[i] != struct_keywords()[k],
{
    reveal_strlit("allOf");
    reveal_strlit("anyOf");
    reveal_strlit("oneOf");
    reveal_strlit("not");
    reveal_strlit("items");
    reveal_strlit("additionalProperties");
    let a = struct_keywords()[i];
    let b = struct_keywords()[k];
    if a.len() == b.len() {
        assert(a[0] != b[0] || a[1] != b[1]);
    }
}

proof fn lemma_bad_items_err(c: crate::options::Config, f: nat, items: Seq<JsonV>, n: nat, d: nat)
    requires
        c.strict_mode,
        c.definition_keywords.len() == 0,
        n <= items.len(),
        bad_items(c, items, n, d),
    ensures
        convert_items(crate::transform::NoHooks, c, f, items, n) is Err,
    decreases d, 1nat, n,
{
    let h = crate::transform::NoHooks;
    if bad_items(c, items, (n - 1) as nat, d) {
        lemma_bad_items_err(c, f, items, (n - 1) as nat, d);
    } else {
        lemma_bad_node_err(c, f, items[n - 1], d);
    }
}

proof fn lemma_bad_entries_err(
    c: crate::options::Config,
    f: nat,
    ps: Seq<(Seq<char>, JsonV)>,
    n: nat,
    d: nat,
)
    requires
        c.strict_mode,
        c.definition_keywords.len() == 0,
        n <= ps.len(),
        bad_entries(c, ps, n, d),
    ensures
        props_entries(crate::transform::NoHooks, c, f, ps, n) is Err,
    decreases d, 1nat, n,
{
    if bad_entries(c, ps, (n - 1) as nat, d) {
        lemma_bad_entries_err(c, f, ps, (n - 1) as nat, d);
    } else {
        lemma_bad_node_err(c, f, ps[n - 1].1, d);
    }
}

proof fn lemma_bad_structs_err(
    c: crate::options::Config,
    f: nat,
    es: Seq<(Seq<char>, JsonV)>,
    n: nat,
    d: nat,
)
    requires
        c.strict_mode,
        c.definition_keywords.len() == 0,
        n <= struct_keywords().len(),
        bad_structs(c, es, n, d),
    ensures
        structs_prefix(crate::transform::NoHooks, c, f, es, n) is Err,
    decreases d, 3nat, n,
{
    let h = crate::transform::NoHooks;
    if bad_structs(c, es, (n - 1) as nat, d) {
        lemma_bad_structs_err(c, f, es, (n - 1) as nat, d);
    } else {
        let i = n - 1;
        let kw = struct_keywords()[i];
        reveal_with_fuel(bad_structs, 2);
        reveal_with_fuel(bad_struct_child, 2);
        assert(bad_struct_child(c, es, kw, d));
        assert forall|x: int| 0 <= x < i && x < struct_keywords().len() implies struct_keywords()[x]
            != kw by {
            lemma_struct_keywords_distinct(x, i);
        }
        lemma_structs_keep_key(h, c, f, es, i as nat, kw);
        match structs_prefix(h, c, f, es, i as nat) {
            Ok(es1) => {
                assert(structs_prefix(h, c, f, es, n) == struct_step(h, c, f, es1, kw));
                match get_member(es, kw) {
                    Some(JsonV::Object(o)) => {
                        lemma_bad_node_err(c, f, JsonV::Object(o), d);
                    },
                    Some(JsonV::Array(items)) => {
                        lemma_bad_items_err(c, f, items, items.len(), d);
                    },
                    _ => {},
                }
            },
            Err(_) => {},
        }
    }
}

proof fn lemma_bad_props_err(
    c: crate::options::Config,
    g: nat,
    es: Seq<(Seq<char>, JsonV)>,
    ps: Seq<(Seq<char>, JsonV)>,
    d: nat,
)
    requires
        c.strict_mode,
        c.definition_keywords.len() == 0,
        get_member(es, "properties"@) == Some(JsonV::Object(ps)),
        bad_entries(c, ps, ps.len(), d),
    ensures
        process(crate::transform::NoHooks, c, g, es) is Err,
    decreases d, 4nat, 0nat,
{
    let h = crate::transform::NoHooks;
    lemma_bad_entries_err(c, g, ps, ps.len(), d);
    reveal_strlit("properties");
    reveal_strlit("allOf");
    reveal_strlit("anyOf");
    reveal_strlit("oneOf");
    reveal_strlit("not");
    reveal_strlit("items");
    reveal_strlit("additionalProperties");
    assert forall|x: int| 0 <= x < struct_keywords().len() implies struct_keywords()[x]
        != "properties"@ by {
        assert(struct_keywords()[x].len() != "properties"@.len());
    }
    lemma_structs_keep_key(h, c, g, es, struct_keywords().len(), "properties"@);
}

proof fn lemma_bad_node_err(c: crate::options::Config, f: nat, j: JsonV, d: nat)
    requires
        c.strict_mode,
        c.definition_keywords.len() == 0,
        bad_type_within(c, j, d),
    ensures
        convert_node(crate::transform::NoHooks, c, f, j) is Err,
    decreases d, 0nat, 0nat,
{
    let h = crate::transform::NoHooks;
    if f > 0 {
        let es = j->Object_0;
        let g = (f - 1) as nat;
        assert(j == JsonV::Object(es));
        if get_member(es, "type"@) is Some && crate::schema::bad_type(get_member(es, "type"@)->0) {
            lemma_bad_top_type_err(h, c, f, es, get_member(es, "type"@)->0);
        } else if bad_structs(c, es, struct_keywords().len(), (d - 1) as nat) {
            lemma_bad_structs_err(c, g, es, struct_keywords().len(), (d - 1) as nat);
        } else {
            let ps = get_member(es, "properties"@)->0->Object_0;
            lemma_bad_props_err(c, g, es, ps, (d - 1) as nat);
        }
    }
}

/// In strict mode, without hooks and without definition keywords, a
/// conversion fails when any node it reaches through struct keywords and
/// kept properties carries a `type` outside the draft-04 type set.
pub proof fn law_strict_mode_rejects_a_nested_invalid_type(
    c: crate::options::Config,
    j: JsonV,
    d: nat,
)
    requires
        c.strict_mode,
        c.definition_keywords.len() == 0,
        bad_type_within(c, j, d),
    ensures
        convert_root(crate::transform::NoHooks, c, j) is Err,
{
    lemma_bad_node_err(c, crate::schema::depth_budget(), j, d);
}

// ---- the depth budget ----------------------------------------------------------------------
/// The nesting depth of a value: 1 for a scalar or an empty container, one
/// more than its deepest element otherwise.
pub open spec fn depth(j: JsonV) -> nat
    decreases j, 0nat,
{
    match j {
        JsonV::Array(items) => {
            proof {
                assert(decreases_to!(j => j->Array_0));
            }
            1 + items_depth(items, items.len())
        },
        JsonV::Object(es) => {
            proof {
                assert(decreases_to!(j => j->Object_0));
            }
            1 + members_depth(es, es.len())
        },
        _ => 1,
    }
}

/// The greatest depth among the first `n` values.
pub open spec fn items_depth(items: Seq<JsonV>, n: nat) -> nat
    decreases items, n,
{
    if n == 0 || n > items.len() {
        0
    } else {
        proof {
            assert(decreases_to!(items => items[n - 1]));
        }
        let a = items_depth(items, (n - 1) as nat);
        let b = depth(items[n - 1]);
        if a >= b {
            a
        } else {
            b
        }
    }
}

/// The greatest depth among the values of the first `n` members.
pub open spec fn members_depth(es: Seq<(Seq<char>, JsonV)>, n: nat) -> nat
    decreases es, n,
{
    if n == 0 || n > es.len() {
        0
    } else {
        proof {
            assert(decreases_to!(es => es[n - 1]));
            assert(decreases_to!(es[n - 1] => es[n - 1].1));
        }
        let a = members_depth(es, (n - 1) as nat);
        let b = depth(es[n - 1].1);
        if a >= b {
            a
        } else {
            b
        }
    }
}

proof fn lemma_items_depth(items: Seq<JsonV>, n: nat, i: int)
    requires
        0 <= i < n <= items.len(),
    ensures
        depth(items[i]) <= items_depth(items, n),
    decreases n,
{
    if i < n - 1 {
        lemma_items_depth(items, (n - 1) as nat, i);
    }
}

proof fn lemma_members_depth(es: Seq<(Seq<char>, JsonV)>, n: nat, i: int)
    requires
        0 <= i < n <= es.len(),
    ensures
        depth(es[i].1) <= members_depth(es, n),
    decreases n,
{
    if i < n - 1 {
        lemma_members_depth(es, (n - 1) as nat, i);
    }
}

/// Every member value of an object is at most `g` deep.
pub open spec fn members_within(es: Seq<(Seq<char>, JsonV)>, g: nat) -> bool {
    forall|i: int| 0 <= i < es.len() ==> depth(#[trigger] es[i].1) <= g
}

proof fn lemma_member_within(es: Seq<(Seq<char>, JsonV)>, g: nat, k: Seq<char>)
    requires
        members_within(es, g),
    ensures
        match get_member(es, k) {
            Some(v) => depth(v) <= g,
            None => true,
        },
{
    lemma_find_key_range(es, k);
    let i = crate::json::find_key(es, k);
    if i >= 0 {
        assert(depth(es[i].1) <= g);
    }
}

proof fn lemma_object_members_within(es: Seq<(Seq<char>, JsonV)>)
    ensures
        members_within(es, (depth(JsonV::Object(es)) - 1) as nat),
{
    assert forall|i: int| 0 <= i < es.len() implies depth(#[trigger] es[i].1) <= (depth(
        JsonV::Object(es),
    ) - 1) as nat by {
        lemma_members_depth(es, es.len(), i);
    }
}

proof fn lemma_depth_error_is_not_a_shape_error(b: JsonV)
    ensures
        crate::schema::not_object_error(b) != crate::schema::depth_error(),
        crate::schema::depth_error() is InvalidInput,
{
    reveal_strlit("schema must be an object, got ");
    reveal_strlit("schema nesting is too deep");
    let m = "schema must be an object, got "@ + crate::render::render(b);
    assert(m.len() >= 30);
    assert("schema nesting is too deep"@.len() == 26);
}

proof fn lemma_no_depth_error_items(c: crate::options::Config, f: nat, items: Seq<JsonV>, n: nat)
    requires
        c.definition_keywords.len() == 0,
        n <= items.len(),
        forall|i: int| 0 <= i < items.len() ==> depth(#[trigger] items[i]) <= f,
    ensures
        convert_items(crate::transform::NoHooks, c, f, items, n) != Err::<Seq<JsonV>, ErrorV>(
            crate::schema::depth_error(),
        ),
    decreases f, 1nat, n,
{
    if n > 0 {
        lemma_no_depth_error_items(c, f, items, (n - 1) as nat);
        lemma_no_depth_error_node(c, f, items[n - 1]);
    }
}

proof fn lemma_no_depth_error_entries(
    c: crate::options::Config,
    f: nat,
    ents: Seq<(Seq<char>, JsonV)>,
    n: nat,
)
    requires
        c.definition_keywords.len() == 0,
        n <= ents.len(),
        members_within(ents, f),
    ensures
        props_entries(crate::transform::NoHooks, c, f, ents, n) != Err::<
            Seq<(Seq<char>, JsonV)>,
            ErrorV,
        >(crate::schema::depth_error()),
    decreases f, 1nat, n,
{
    if n > 0 {
        lemma_no_depth_error_entries(c, f, ents, (n - 1) as nat);
        assert(depth(ents[n - 1].1) <= f);
        lemma_no_depth_error_node(c, f, ents[n - 1].1);
    }
}

proof fn lemma_no_depth_error_structs(
    c: crate::options::Config,
    g: nat,
    es: Seq<(Seq<char>, JsonV)>,
    n: nat,
)
    requires
        c.definition_keywords.len() == 0,
        n <= struct_keywords().len(),
        members_within(es, g),
    ensures
        structs_prefix(crate::transform::NoHooks, c, g, es, n) != Err::<
            Seq<(Seq<char>, JsonV)>,
            ErrorV,
        >(crate::schema::depth_error()),
    decreases g, 3nat, n,
{
    let h = crate::transform::NoHooks;
    if n > 0 {
        lemma_no_depth_error_structs(c, g, es, (n - 1) as nat);
        let i = n - 1;
        let kw = struct_keywords()[i];
        assert forall|x: int| 0 <= x < i && x < struct_keywords().len() implies struct_keywords()[x]
            != kw by {
            lemma_struct_keywords_distinct(x, i);
        }
        lemma_structs_keep_key(h, c, g, es, i as nat, kw);
        lemma_member_within(es, g, kw);
        match structs_prefix(h, c, g, es, i as nat) {
            Ok(es1) => {
                assert(structs_prefix(h, c, g, es, n) == struct_step(h, c, g, es1, kw));
                match get_member(es, kw) {
                    Some(JsonV::Object(o)) => {
                        lemma_no_depth_error_node(c, g, JsonV::Object(o));
                    },
                    Some(JsonV::Array(items)) => {
                        assert forall|m: int| 0 <= m < items.len() implies depth(#[trigger] items[m])
                            <= g by {
                            lemma_items_depth(items, items.len(), m);
                        }
                        lemma_no_depth_error_items(c, g, items, items.len());
                    },
                    _ => {},
                }
            },
            Err(_) => {},
        }
    }
}

proof fn lemma_no_depth_error_properties(c: crate::options::Config, g: nat, pv: JsonV)
    requires
        c.definition_keywords.len() == 0,
        depth(pv) <= g + 1,
    ensures
        convert_properties(crate::transform::NoHooks, c, g, pv) != Err::<JsonV, ErrorV>(
            crate::schema::depth_error(),
        ),
    decreases g, 4nat, 0nat,
{
    match pv {
        JsonV::Object(ps) => {
            lemma_object_members_within(ps);
            lemma_no_depth_error_entries(c, g, ps, ps.len());
        },
        JsonV::Array(items) => {
            let ents = crate::schema::index_entries(items);
            assert forall|i: int| 0 <= i < ents.len() implies depth(#[trigger] ents[i].1) <= g by {
                lemma_items_depth(items, items.len(), i);
            }
            lemma_no_depth_error_entries(c, g, ents, items.len());
        },
        _ => {},
    }
}

proof fn lemma_no_depth_error_node(c: crate::options::Config, f: nat, j: JsonV)
    requires
        c.definition_keywords.len() == 0,
        depth(j) <= f,
    ensures
        convert_node(crate::transform::NoHooks, c, f, j) != Err::<JsonV, ErrorV>(
            crate::schema::depth_error(),
        ),
    decreases f, 0nat, 0nat,
{
    let h = crate::transform::NoHooks;
    lemma_depth_error_is_not_a_shape_error(j);
    match j {
        JsonV::Object(es) => {
            let g = (f - 1) as nat;
            lemma_object_members_within(es);
            assert(members_within(es, g));
            lemma_no_depth_error_structs(c, g, es, struct_keywords().len());
            match structs_prefix(h, c, g, es, struct_keywords().len()) {
                Ok(es1) => {
                    assert(definitions_prefix(h, c, g, es1, 0) == Ok::<
                        Seq<(Seq<char>, JsonV)>,
                        ErrorV,
                    >(es1));
                    reveal_strlit("properties");
                    reveal_strlit("allOf");
                    reveal_strlit("anyOf");
                    reveal_strlit("oneOf");
                    reveal_strlit("not");
                    reveal_strlit("items");
                    reveal_strlit("additionalProperties");
                    assert forall|x: int| 0 <= x < struct_keywords().len() implies struct_keywords()[x]
                        != "properties"@ by {
                        assert(struct_keywords()[x].len() != "properties"@.len());
                    }
                    lemma_structs_keep_key(h, c, g, es, struct_keywords().len(), "properties"@);
                    lemma_member_within(es, g, "properties"@);
                    match get_member(es1, "properties"@) {
                        Some(pv) => lemma_no_depth_error_properties(c, g, pv),
                        None => {},
                    }
                    match props_required(h, c, g, es1) {
                        Ok(es3) => {
                            assert(crate::schema::finish(h, c, es3) != Err::<JsonV, ErrorV>(
                                crate::schema::depth_error(),
                            ));
                        },
                        Err(_) => {},
                    }
                },
                Err(_) => {},
            }
        },
        _ => {},
    }
}

/// Without hooks and without definition keywords, a conversion never runs
/// out of its depth budget: every document no deeper than the budget is
/// converted or rejected for what it holds.
pub proof fn law_depth_budget_is_never_reached(c: crate::options::Config, j: JsonV)
    requires
        c.definition_keywords.len() == 0,
        depth(j) <= crate::schema::depth_budget(),
    ensures
        convert_root(crate::transform::NoHooks, c, j) != Err::<JsonV, ErrorV>(
            crate::schema::depth_error(),
        ),
{
    lemma_no_depth_error_node(c, crate::schema::depth_budget(), j);
}

} // verus!
