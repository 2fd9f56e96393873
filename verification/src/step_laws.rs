//! What each conversion step does to the node it is given.
use vstd::prelude::*;
use crate::consts::{not_supported_keywords, struct_keywords, valid_formats};
use crate::error::ErrorV;
use crate::json::{
    JsonV,
    get_member,
    is_container,
    truthy,
    has_member,
    lemma_find_key_range,
    lemma_get_remove,
    lemma_get_set,
    lemma_remove_member,
    remove_member,
    set_member,
};
use crate::laws::{
    kept_property,
    lemma_bound_is_not_out_of_range,
    lemma_has_get,
    lemma_strip_keeps_absent,
    lemma_strip_keys,
};
use crate::number::{NumericFormat, clamp_members, max_limit, min_limit, takes_bound};
use crate::options::{Config, OptionsView, resolve, strings_or_empty};
use crate::parameter::{content_schema, contents_prefix, convert_contents, convert_parameter, param_schema};
use crate::path::{
    get_path,
    law_path_read_after_write,
    law_paths_have_a_segment,
    members_or_empty,
    path_segments,
    set_path,
};
use crate::schema::{
    convert_items,
    convert_node,
    convert_properties,
    definitions_prefix,
    finish,
    format_step,
    nullable_step,
    pattern_step,
    index_entries,
    keeps_required,
    keys,
    props_entries,
    props_required,
    process,
    prune_required,
    required_step,
    strip_keys,
    strip_step,
    struct_step,
    structs_prefix,
};
use crate::transform::{Hooks, NoHooks};

verus! {

// ---- struct keywords -----------------------------------------------------------------------
/// The objects and arrays among `items`, in order.
pub open spec fn containers(items: Seq<JsonV>) -> Seq<JsonV> {
    items.filter(|x: JsonV| is_container(x))
}

proof fn lemma_items_prefix<H: Hooks>(h: H, c: Config, f: nat, items: Seq<JsonV>, n: nat)
    requires
        n <= items.len(),
    ensures
        match convert_items(h, c, f, items, n) {
            Ok(out) => out.len() == containers(items.take(n as int)).len() && forall|i: int|
                0 <= i < out.len() ==> convert_node(h, c, f, #[trigger] containers(items.take(n as int))[i])
                    == Ok::<JsonV, ErrorV>(out[i]),
            Err(e) => exists|i: int|
                0 <= i < containers(items.take(n as int)).len() && convert_node(
                    h,
                    c,
                    f,
                    #[trigger] containers(items.take(n as int))[i],
                ) == Err::<JsonV, ErrorV>(e),
        },
    decreases n,
{
    reveal(Seq::filter);
    if n == 0 {
        assert(items.take(0) =~= Seq::<JsonV>::empty());
    } else {
        lemma_items_prefix(h, c, f, items, (n - 1) as nat);
        let t = items.take(n as int);
        let x = items[n - 1];
        assert(t.drop_last() =~= items.take(n - 1));
        assert(t.last() == x);
        let prev = containers(items.take(n - 1));
        let cur = containers(t);
        assert(cur == if is_container(x) {
            prev.push(x)
        } else {
            prev
        });
        match convert_items(h, c, f, items, (n - 1) as nat) {
            Err(e) => {
                let i = choose|i: int|
                    0 <= i < prev.len() && convert_node(h, c, f, #[trigger] prev[i]) == Err::<
                        JsonV,
                        ErrorV,
                    >(e);
                assert(cur[i] == prev[i]);
            },
            Ok(out) => {
                if is_container(x) {
                    match convert_node(h, c, f, x) {
                        Ok(q) => {
                            assert forall|i: int| 0 <= i < out.push(q).len() implies convert_node(
                                h,
                                c,
                                f,
                                #[trigger] cur[i],
                            ) == Ok::<JsonV, ErrorV>(out.push(q)[i]) by {
                                if i < out.len() {
                                    assert(cur[i] == prev[i]);
                                }
                            }
                        },
                        Err(e) => {
                            assert(cur[prev.len() as int] == x);
                        },
                    }
                }
            },
        }
    }
}

/// Converting the array of a struct keyword keeps its objects and arrays, in
/// order, each converted, and drops its other elements. It fails with the
/// error of an element whose conversion fails, and only then.
pub proof fn law_struct_array_items<H: Hooks>(h: H, c: Config, f: nat, items: Seq<JsonV>)
    ensures
        match convert_items(h, c, f, items, items.len()) {
            Ok(out) => out.len() == containers(items).len() && forall|i: int|
                0 <= i < out.len() ==> convert_node(h, c, f, #[trigger] containers(items)[i]) == Ok::<
                    JsonV,
                    ErrorV,
                >(out[i]),
            Err(e) => exists|i: int|
                0 <= i < containers(items).len() && convert_node(h, c, f, #[trigger] containers(items)[i])
                    == Err::<JsonV, ErrorV>(e),
        },
{
    lemma_items_prefix(h, c, f, items, items.len());
    assert(items.take(items.len() as int) =~= items);
}

/// What the value of a struct keyword becomes: null removes the keyword, an
/// array keeps its objects and arrays converted, an object is converted, and
/// a missing keyword or any other value stays as it is.
pub open spec fn struct_value<H: Hooks>(h: H, c: Config, f: nat, v: Option<JsonV>) -> Result<
    Option<JsonV>,
    ErrorV,
> {
    match v {
        Some(JsonV::Null) => Ok(None),
        Some(JsonV::Array(items)) => match convert_items(h, c, f, items, items.len()) {
            Ok(out) => Ok(Some(JsonV::Array(out))),
            Err(e) => Err(e),
        },
        Some(JsonV::Object(o)) => match convert_node(h, c, f, JsonV::Object(o)) {
            Ok(q) => Ok(Some(q)),
            Err(e) => Err(e),
        },
        _ => Ok(v),
    }
}

proof fn lemma_struct_keywords_distinct(i: int, j: int)
    requires
        0 <= i < struct_keywords().len(),
        0 <= j < struct_keywords().len(),
        i != j,
    ensures
        struct_keywords()[i] != struct_keywords()[j],
{
    reveal_strlit("allOf");
    reveal_strlit("anyOf");
    reveal_strlit("oneOf");
    reveal_strlit("not");
    reveal_strlit("items");
    reveal_strlit("additionalProperties");
    let a = struct_keywords()[i];
    let b = struct_keywords()[j];
    assert(a.len() != b.len() || a[0] != b[0] || a[1] != b[1]);
}

proof fn lemma_struct_step<H: Hooks>(
    h: H,
    c: Config,
    f: nat,
    es: Seq<(Seq<char>, JsonV)>,
    kw: Seq<char>,
)
    ensures
        match struct_step(h, c, f, es, kw) {
            Ok(es2) => struct_value(h, c, f, get_member(es, kw)) == Ok::<Option<JsonV>, ErrorV>(
                get_member(es2, kw),
            ) && forall|k: Seq<char>| k != kw ==> #[trigger] get_member(es2, k) == get_member(es, k),
            Err(e) => struct_value(h, c, f, get_member(es, kw)) == Err::<Option<JsonV>, ErrorV>(e),
        },
{
    let written = match get_member(es, kw) {
        Some(JsonV::Array(items)) => JsonV::Array(convert_items(h, c, f, items, items.len())->Ok_0),
        Some(JsonV::Object(o)) => convert_node(h, c, f, JsonV::Object(o))->Ok_0,
        _ => JsonV::Null,
    };
    match struct_step(h, c, f, es, kw) {
        Ok(es2) => {
            assert forall|k: Seq<char>| k != kw implies #[trigger] get_member(es2, k) == get_member(
                es,
                k,
            ) by {
                match get_member(es, kw) {
                    Some(JsonV::Null) => lemma_get_remove(es, kw, k),
                    Some(JsonV::Array(_)) => lemma_get_set(es, kw, written, k),
                    Some(JsonV::Object(_)) => lemma_get_set(es, kw, written, k),
                    _ => {},
                }
            }
            match get_member(es, kw) {
                Some(JsonV::Null) => lemma_get_remove(es, kw, kw),
                Some(JsonV::Array(_)) => lemma_get_set(es, kw, written, kw),
                Some(JsonV::Object(_)) => lemma_get_set(es, kw, written, kw),
                _ => {},
            }
        },
        Err(_) => {},
    }
}

proof fn lemma_structs_prefix<H: Hooks>(
    h: H,
    c: Config,
    f: nat,
    es: Seq<(Seq<char>, JsonV)>,
    n: nat,
)
    requires
        n <= struct_keywords().len(),
    ensures
        match structs_prefix(h, c, f, es, n) {
            Ok(es1) => (forall|k: Seq<char>|
                !struct_keywords().take(n as int).contains(k) ==> #[trigger] get_member(es1, k)
                    == get_member(es, k)) && forall|i: int|
                0 <= i < n ==> struct_value(h, c, f, get_member(es, #[trigger] struct_keywords()[i]))
                    == Ok::<Option<JsonV>, ErrorV>(get_member(es1, struct_keywords()[i])),
            Err(e) => exists|i: int|
                0 <= i < n && struct_value(h, c, f, get_member(es, #[trigger] struct_keywords()[i]))
                    == Err::<Option<JsonV>, ErrorV>(e),
        },
    decreases n,
{
    if n > 0 {
        lemma_structs_prefix(h, c, f, es, (n - 1) as nat);
        let kw = struct_keywords()[n - 1];
        let before = struct_keywords().take(n - 1);
        let upto = struct_keywords().take(n as int);
        assert(!before.contains(kw)) by {
            if before.contains(kw) {
                let j = choose|j: int| 0 <= j < before.len() && before[j] == kw;
                lemma_struct_keywords_distinct(j, n - 1);
            }
        }
        match structs_prefix(h, c, f, es, (n - 1) as nat) {
            Ok(es1) => {
                assert(get_member(es1, kw) == get_member(es, kw));
                lemma_struct_step(h, c, f, es1, kw);
                match struct_step(h, c, f, es1, kw) {
                    Ok(es2) => {
                        assert forall|k: Seq<char>| !upto.contains(k) implies #[trigger] get_member(
                            es2,
                            k,
                        ) == get_member(es, k) by {
                            assert(k != kw) by {
                                if k == kw {
                                    assert(upto[n - 1] == kw);
                                }
                            }
                            if before.contains(k) {
                                let j = choose|j: int| 0 <= j < before.len() && before[j] == k;
                                assert(upto[j] == k);
                            }
                        }
                        assert forall|i: int| 0 <= i < n implies struct_value(
                            h,
                            c,
                            f,
                            get_member(es, #[trigger] struct_keywords()[i]),
                        ) == Ok::<Option<JsonV>, ErrorV>(get_member(es2, struct_keywords()[i])) by {
                            if i < n - 1 {
                                lemma_struct_keywords_distinct(i, n - 1);
                            }
                        }
                    },
                    Err(e) => {},
                }
            },
            Err(e) => {},
        }
    }
}

/// The struct keywords (`allOf`, `anyOf`, `oneOf`, `not`, `items`,
/// `additionalProperties`) each become what `struct_value` makes of their
/// value in the input, and every other key keeps its value. The step fails
/// with the error of one of these keywords, and only then.
pub proof fn law_struct_keywords<H: Hooks>(h: H, c: Config, f: nat, es: Seq<(Seq<char>, JsonV)>)
    ensures
        match structs_prefix(h, c, f, es, struct_keywords().len()) {
            Ok(es1) => (forall|k: Seq<char>|
                !struct_keywords().contains(k) ==> #[trigger] get_member(es1, k) == get_member(es, k))
                && forall|i: int|
                0 <= i < struct_keywords().len() ==> struct_value(
                    h,
                    c,
                    f,
                    get_member(es, #[trigger] struct_keywords()[i]),
                ) == Ok::<Option<JsonV>, ErrorV>(get_member(es1, struct_keywords()[i])),
            Err(e) => exists|i: int|
                0 <= i < struct_keywords().len() && struct_value(
                    h,
                    c,
                    f,
                    get_member(es, #[trigger] struct_keywords()[i]),
                ) == Err::<Option<JsonV>, ErrorV>(e),
        },
{
    lemma_structs_prefix(h, c, f, es, struct_keywords().len());
    assert(struct_keywords().take(struct_keywords().len() as int) =~= struct_keywords());
}

// ---- properties ---------------------------------------------------------------------------
/// The entries that `properties` conversion reads: the members of an object,
/// the elements of an array keyed by their index, nothing for any other value.
pub open spec fn property_entries(v: JsonV) -> Seq<(Seq<char>, JsonV)> {
    match v {
        JsonV::Object(es) => es,
        JsonV::Array(items) => index_entries(items),
        _ => Seq::empty(),
    }
}

/// The index of the last of the first `n` entries that has key `k` and is
/// kept, or -1 when there is none.
pub open spec fn last_kept(c: Config, ents: Seq<(Seq<char>, JsonV)>, k: Seq<char>, n: nat) -> int
    decreases n,
{
    if n == 0 || n > ents.len() {
        -1
    } else if ents[n - 1].0 == k && kept_property(c, ents[n - 1].1) {
        n - 1
    } else {
        last_kept(c, ents, k, (n - 1) as nat)
    }
}

/// What converting `properties` writes under key `k`: the conversion of the
/// last kept entry with that key, or nothing.
pub open spec fn kept_value<H: Hooks>(
    h: H,
    c: Config,
    f: nat,
    ents: Seq<(Seq<char>, JsonV)>,
    k: Seq<char>,
) -> Option<JsonV> {
    let i = last_kept(c, ents, k, ents.len());
    if i >= 0 {
        Some(convert_node(h, c, f, ents[i].1)->Ok_0)
    } else {
        None
    }
}

proof fn lemma_entries_prefix<H: Hooks>(
    h: H,
    c: Config,
    f: nat,
    ents: Seq<(Seq<char>, JsonV)>,
    n: nat,
)
    requires
        n <= ents.len(),
    ensures
        match props_entries(h, c, f, ents, n) {
            Ok(out) => (forall|i: int|
                0 <= i < n && kept_property(c, ents[i].1) ==> #[trigger] convert_node(h, c, f, ents[i].1)
                    is Ok) && forall|k: Seq<char>| #[trigger]
                get_member(out, k) == if last_kept(c, ents, k, n) >= 0 {
                    Some(convert_node(h, c, f, ents[last_kept(c, ents, k, n)].1)->Ok_0)
                } else {
                    None
                },
            Err(e) => exists|i: int|
                0 <= i < n && kept_property(c, ents[i].1) && #[trigger] convert_node(h, c, f, ents[i].1)
                    == Err::<JsonV, ErrorV>(e),
        },
    decreases n,
{
    if n > 0 {
        lemma_entries_prefix(h, c, f, ents, (n - 1) as nat);
        let m = (n - 1) as nat;
        let kn = ents[m as int].0;
        let p = ents[m as int].1;
        match props_entries(h, c, f, ents, m) {
            Ok(out) => {
                if kept_property(c, p) {
                    match convert_node(h, c, f, p) {
                        Ok(q) => {
                            assert forall|k: Seq<char>| #[trigger]
                                get_member(set_member(out, kn, q), k) == if last_kept(c, ents, k, n)
                                    >= 0 {
                                    Some(convert_node(h, c, f, ents[last_kept(c, ents, k, n)].1)->Ok_0)
                                } else {
                                    None
                                } by {
                                lemma_get_set(out, kn, q, k);
                            }
                        },
                        Err(e) => {
                            assert(convert_node(h, c, f, ents[m as int].1) == Err::<JsonV, ErrorV>(e));
                        },
                    }
                }
            },
            Err(e) => {},
        }
    }
}

/// Converting `properties` gives an object: nothing for a value that is not
/// an object or array, and otherwise, under each key, the conversion of the
/// last entry with that key that is kept (an object or array without a
/// removal flag set to `true`; array entries are keyed by index), and no
/// other key. It fails with the error of a kept entry, and only then.
pub proof fn law_property_entries<H: Hooks>(h: H, c: Config, f: nat, v: JsonV)
    ensures
        match convert_properties(h, c, f, v) {
            Ok(out) => {
                &&& out is Object
                &&& !is_container(v) ==> out == JsonV::Object(Seq::empty())
                &&& forall|i: int|
                    0 <= i < property_entries(v).len() && kept_property(c, property_entries(v)[i].1)
                        ==> #[trigger] convert_node(h, c, f, property_entries(v)[i].1) is Ok
                &&& forall|k: Seq<char>| #[trigger]
                    get_member(members_or_empty(out), k) == kept_value(h, c, f, property_entries(v), k)
            },
            Err(e) => exists|i: int|
                0 <= i < property_entries(v).len() && kept_property(c, property_entries(v)[i].1)
                    && #[trigger] convert_node(h, c, f, property_entries(v)[i].1) == Err::<JsonV, ErrorV>(e),
        },
{
    let ents = property_entries(v);
    match v {
        JsonV::Object(es) => lemma_entries_prefix(h, c, f, es, es.len()),
        JsonV::Array(items) => lemma_entries_prefix(h, c, f, index_entries(items), items.len()),
        _ => {},
    }
}

/// The keys of `ents` are distinct.
pub open spec fn distinct_keys(ents: Seq<(Seq<char>, JsonV)>) -> bool {
    forall|i: int, j: int| 0 <= i < ents.len() && 0 <= j < ents.len() && i != j ==> ents[i].0 != ents[j].0
}

proof fn lemma_last_kept_distinct(c: Config, ents: Seq<(Seq<char>, JsonV)>, i: int, n: nat)
    requires
        distinct_keys(ents),
        0 <= i < ents.len(),
        n <= ents.len(),
    ensures
        last_kept(c, ents, ents[i].0, n) == if i < n && kept_property(c, ents[i].1) {
            i
        } else {
            -1
        },
    decreases n,
{
    if n > 0 {
        lemma_last_kept_distinct(c, ents, i, (n - 1) as nat);
    }
}

/// With distinct keys (as in a parsed JSON object), converting `properties`
/// writes, under the key of each entry, that entry's conversion when the
/// entry is kept, and nothing when it is not.
pub proof fn law_property_entries_with_distinct_keys<H: Hooks>(h: H, c: Config, f: nat, v: JsonV, i: int)
    requires
        distinct_keys(property_entries(v)),
        0 <= i < property_entries(v).len(),
    ensures
        match convert_properties(h, c, f, v) {
            Ok(out) => get_member(members_or_empty(out), property_entries(v)[i].0) == if kept_property(
                c,
                property_entries(v)[i].1,
            ) {
                Some(convert_node(h, c, f, property_entries(v)[i].1)->Ok_0)
            } else {
                None
            },
            Err(_) => true,
        },
{
    let ents = property_entries(v);
    law_property_entries(h, c, f, v);
    lemma_last_kept_distinct(c, ents, i, ents.len());
}

// ---- properties and required ---------------------------------------------------------------
/// The names of the input properties that `required` pruning compares with:
/// the keys of an object, none for any other value.
pub open spec fn input_names(pv: JsonV) -> Seq<Seq<char>> {
    match pv {
        JsonV::Object(ps) => keys(ps),
        _ => Seq::empty(),
    }
}

/// What `required` becomes when the kept property names are `kept`: an array
/// keeps the names that survive (in order, duplicates kept) and goes away
/// when none does; any other value stays as it is.
pub open spec fn pruned_required(
    r: Option<JsonV>,
    kept: Seq<Seq<char>>,
    input: Seq<Seq<char>>,
) -> Option<JsonV> {
    match r {
        Some(JsonV::Array(req)) => {
            let fl = req.filter(|x: JsonV| keeps_required(x, kept, input));
            if fl.len() == 0 {
                None
            } else {
                Some(JsonV::Array(fl))
            }
        },
        _ => r,
    }
}

proof fn lemma_required_step(
    es: Seq<(Seq<char>, JsonV)>,
    kept: Seq<Seq<char>>,
    input: Seq<Seq<char>>,
    k: Seq<char>,
)
    ensures
        get_member(required_step(es, kept, input), k) == if k == "required"@ {
            pruned_required(get_member(es, "required"@), kept, input)
        } else {
            get_member(es, k)
        },
{
    match get_member(es, "required"@) {
        Some(JsonV::Array(req)) => {
            let fl = req.filter(|x: JsonV| keeps_required(x, kept, input));
            lemma_get_remove(es, "required"@, k);
            lemma_get_set(es, "required"@, JsonV::Array(fl), k);
        },
        _ => {},
    }
}

proof fn lemma_prune_required(
    es: Seq<(Seq<char>, JsonV)>,
    input: Seq<Seq<char>>,
    conv: JsonV,
)
    requires
        conv is Object,
    ensures
        ({
            let es3 = prune_required(remove_member(es, "properties"@), input, conv);
            &&& forall|k: Seq<char>|
                k != "properties"@ && k != "required"@ ==> #[trigger] get_member(es3, k) == get_member(
                    es,
                    k,
                )
            &&& get_member(es3, "properties"@) == if members_or_empty(conv).len() == 0 {
                None
            } else {
                Some(conv)
            }
            &&& get_member(es3, "required"@) == pruned_required(
                get_member(es, "required"@),
                keys(members_or_empty(conv)),
                input,
            )
        }),
{
    lemma_prune_required_named(es, input, conv);
    let es3 = prune_required(remove_member(es, "properties"@), input, conv);
    assert forall|k: Seq<char>|
        k != "properties"@ && k != "required"@ implies #[trigger] get_member(es3, k) == get_member(
            es,
            k,
        ) by {
        lemma_prune_required_other(es, input, conv, k);
    }
}

proof fn lemma_prune_required_named(
    es: Seq<(Seq<char>, JsonV)>,
    input: Seq<Seq<char>>,
    conv: JsonV,
)
    requires
        conv is Object,
    ensures
        get_member(prune_required(remove_member(es, "properties"@), input, conv), "properties"@)
            == if members_or_empty(conv).len() == 0 {
            None
        } else {
            Some(conv)
        },
        get_member(prune_required(remove_member(es, "properties"@), input, conv), "required"@)
            == pruned_required(get_member(es, "required"@), keys(members_or_empty(conv)), input),
{
    reveal_strlit("properties");
    reveal_strlit("required");
    assert("properties"@.len() != "required"@.len());
    let kept = keys(members_or_empty(conv));
    let e1 = remove_member(es, "properties"@);
    let e2 = set_member(e1, "properties"@, conv);
    let e3 = required_step(e2, kept, input);
    assert(get_member(e3, "properties"@) == Some(conv)) by {
        lemma_required_step(e2, kept, input, "properties"@);
        lemma_get_set(e1, "properties"@, conv, "properties"@);
    }
    assert(get_member(e3, "required"@) == pruned_required(get_member(es, "required"@), kept, input)) by {
        lemma_get_set(e1, "properties"@, conv, "required"@);
        lemma_get_remove(es, "properties"@, "required"@);
        lemma_required_step(e2, kept, input, "required"@);
    }
    assert(members_or_empty(conv).len() == 0 <==> conv == JsonV::Object(Seq::empty())) by {
        if members_or_empty(conv).len() == 0 {
            assert(members_or_empty(conv) =~= Seq::<(Seq<char>, JsonV)>::empty());
        }
    }
    lemma_prune_tail(e3, conv);
}

proof fn lemma_prune_tail(e3: Seq<(Seq<char>, JsonV)>, conv: JsonV)
    requires
        get_member(e3, "properties"@) == Some(conv),
        "properties"@ != "required"@,
    ensures
        ({
            let es3 = if get_member(e3, "properties"@) == Some(JsonV::Object(Seq::empty())) {
                remove_member(e3, "properties"@)
            } else {
                e3
            };
            &&& get_member(es3, "properties"@) == if conv == JsonV::Object(Seq::empty()) {
                None
            } else {
                Some(conv)
            }
            &&& get_member(es3, "required"@) == get_member(e3, "required"@)
        }),
{
    lemma_get_remove(e3, "properties"@, "required"@);
    lemma_get_remove(e3, "properties"@, "properties"@);
}

proof fn lemma_prune_required_other(
    es: Seq<(Seq<char>, JsonV)>,
    input: Seq<Seq<char>>,
    conv: JsonV,
    k: Seq<char>,
)
    requires
        k != "properties"@,
        k != "required"@,
    ensures
        get_member(prune_required(remove_member(es, "properties"@), input, conv), k) == get_member(
            es,
            k,
        ),
{
    let kept = keys(members_or_empty(conv));
    let e1 = remove_member(es, "properties"@);
    let e2 = set_member(e1, "properties"@, conv);
    let e3 = required_step(e2, kept, input);
    lemma_get_remove(es, "properties"@, k);
    lemma_get_set(e1, "properties"@, conv, k);
    lemma_required_step(e2, kept, input, k);
    lemma_get_remove(e3, "properties"@, k);
}

/// `properties` handling. A node without `properties` is left as it is.
/// Otherwise `properties` becomes its conversion and goes away when that is
/// empty; an array `required` keeps only the names whose property was kept or
/// had no entry in the input, and goes away when none is left; a `required`
/// of another kind, and every other key, keep their value. The step fails
/// exactly when converting `properties` fails, with its error.
pub proof fn law_properties_and_required<H: Hooks>(
    h: H,
    c: Config,
    f: nat,
    es: Seq<(Seq<char>, JsonV)>,
)
    ensures
        match get_member(es, "properties"@) {
            None => props_required(h, c, f, es) == Ok::<Seq<(Seq<char>, JsonV)>, ErrorV>(es),
            Some(pv) => match convert_properties(h, c, f, pv) {
                Err(e) => props_required(h, c, f, es) == Err::<Seq<(Seq<char>, JsonV)>, ErrorV>(e),
                Ok(conv) => match props_required(h, c, f, es) {
                    Ok(es3) => {
                        &&& forall|k: Seq<char>|
                            k != "properties"@ && k != "required"@ ==> #[trigger] get_member(es3, k)
                                == get_member(es, k)
                        &&& get_member(es3, "properties"@) == if members_or_empty(conv).len() == 0 {
                            None
                        } else {
                            Some(conv)
                        }
                        &&& get_member(es3, "required"@) == pruned_required(
                            get_member(es, "required"@),
                            keys(members_or_empty(conv)),
                            input_names(pv),
                        )
                    },
                    Err(_) => false,
                },
            },
        },
{
    match get_member(es, "properties"@) {
        Some(pv) => match convert_properties(h, c, f, pv) {
            Ok(conv) => {
                law_property_entries(h, c, f, pv);
                lemma_prune_required(es, input_names(pv), conv);
            },
            Err(_) => {},
        },
        None => {},
    }
}

// ---- definition keywords --------------------------------------------------------------------
/// Without definition keywords the step leaves the node as it is.
pub proof fn law_no_definition_keywords<H: Hooks>(
    h: H,
    c: Config,
    f: nat,
    es: Seq<(Seq<char>, JsonV)>,
)
    requires
        c.definition_keywords.len() == 0,
    ensures
        definitions_prefix(h, c, f, es, c.definition_keywords.len()) == Ok::<
            Seq<(Seq<char>, JsonV)>,
            ErrorV,
        >(es),
{
}

/// One definition keyword path, taken after the paths before it. When the
/// path reaches an object, an array or null, the value there is replaced by
/// its `properties` conversion (null becomes an empty object): the node is the
/// one that writing the conversion at the path gives, and reading the path
/// gives the conversion back. When the path is missing or reaches any other
/// value, the node is left as it is. The step fails exactly when that
/// conversion fails, with its error.
pub proof fn law_definition_keyword<H: Hooks>(
    h: H,
    c: Config,
    f: nat,
    es: Seq<(Seq<char>, JsonV)>,
    n: nat,
)
    requires
        0 < n <= c.definition_keywords.len(),
        definitions_prefix(h, c, f, es, (n - 1) as nat) is Ok,
    ensures
        ({
            let es1 = definitions_prefix(h, c, f, es, (n - 1) as nat)->Ok_0;
            let segs = path_segments(c.definition_keywords[n - 1]);
            match get_path(JsonV::Object(es1), segs) {
                Some(v) => if is_container(v) || v is Null {
                    match convert_properties(h, c, f, v) {
                        Ok(p) => match definitions_prefix(h, c, f, es, n) {
                            Ok(es2) => JsonV::Object(es2) == set_path(JsonV::Object(es1), segs, p)
                                && get_path(JsonV::Object(es2), segs) == Some(p),
                            Err(_) => false,
                        },
                        Err(e) => definitions_prefix(h, c, f, es, n) == Err::<
                            Seq<(Seq<char>, JsonV)>,
                            ErrorV,
                        >(e),
                    }
                } else {
                    definitions_prefix(h, c, f, es, n) == Ok::<Seq<(Seq<char>, JsonV)>, ErrorV>(es1)
                },
                None => definitions_prefix(h, c, f, es, n) == Ok::<Seq<(Seq<char>, JsonV)>, ErrorV>(
                    es1,
                ),
            }
        }),
{
    let es1 = definitions_prefix(h, c, f, es, (n - 1) as nat)->Ok_0;
    let segs = path_segments(c.definition_keywords[n - 1]);
    law_paths_have_a_segment(c.definition_keywords[n - 1]);
    match get_path(JsonV::Object(es1), segs) {
        Some(v) => if is_container(v) || v is Null {
            match convert_properties(h, c, f, v) {
                Ok(p) => {
                    let w = set_path(JsonV::Object(es1), segs, p);
                    assert(w is Object);
                    assert(JsonV::Object(members_or_empty(w)) == w);
                    law_path_read_after_write(JsonV::Object(es1), segs, p);
                },
                Err(_) => {},
            }
        },
        None => {},
    }
}

// ---- parameters ---------------------------------------------------------------------------
/// The index of the last of the first `n` members with key `k`, or -1 when
/// there is none.
pub open spec fn last_with_key(es: Seq<(Seq<char>, JsonV)>, k: Seq<char>, n: nat) -> int
    decreases n,
{
    if n == 0 || n > es.len() {
        -1
    } else if es[n - 1].0 == k {
        n - 1
    } else {
        last_with_key(es, k, (n - 1) as nat)
    }
}

proof fn lemma_contents_prefix<H: Hooks>(
    h: H,
    c: Config,
    ct: Seq<(Seq<char>, JsonV)>,
    desc: Option<JsonV>,
    n: nat,
)
    requires
        n <= ct.len(),
    ensures
        match contents_prefix(h, c, ct, desc, n) {
            Ok(out) => (forall|i: int|
                0 <= i < n ==> #[trigger] param_schema(h, c, content_schema(ct[i].1), desc) is Ok)
                && forall|k: Seq<char>| #[trigger]
                get_member(out, k) == if last_with_key(ct, k, n) >= 0 {
                    Some(param_schema(h, c, content_schema(ct[last_with_key(ct, k, n)].1), desc)->Ok_0)
                } else {
                    None
                },
            Err(e) => exists|i: int|
                0 <= i < n && #[trigger] param_schema(h, c, content_schema(ct[i].1), desc) == Err::<
                    JsonV,
                    ErrorV,
                >(e),
        },
    decreases n,
{
    if n > 0 {
        let m = (n - 1) as nat;
        lemma_contents_prefix(h, c, ct, desc, m);
        match contents_prefix(h, c, ct, desc, m) {
            Ok(out) => match param_schema(h, c, content_schema(ct[m as int].1), desc) {
                Ok(r) => {
                    assert forall|k: Seq<char>| #[trigger]
                        get_member(set_member(out, ct[m as int].0, r), k) == if last_with_key(ct, k, n)
                            >= 0 {
                            Some(
                                param_schema(h, c, content_schema(ct[last_with_key(ct, k, n)].1), desc)->Ok_0,
                            )
                        } else {
                            None
                        } by {
                        lemma_get_set(out, ct[m as int].0, r, k);
                    }
                },
                Err(_) => {},
            },
            Err(_) => {},
        }
    }
}

proof fn lemma_last_with_key_distinct(es: Seq<(Seq<char>, JsonV)>, i: int, n: nat)
    requires
        distinct_keys(es),
        0 <= i < es.len(),
        n <= es.len(),
    ensures
        last_with_key(es, es[i].0, n) == if i < n {
            i
        } else {
            -1
        },
    decreases n,
{
    if n > 0 {
        lemma_last_with_key_distinct(es, i, (n - 1) as nat);
    }
}

/// With distinct media types (as in a parsed JSON object), the converted
/// content holds, under each media type, the conversion of that entry's
/// schema with the parameter's description copied onto it.
pub proof fn law_parameter_content_with_distinct_keys<H: Hooks>(
    h: H,
    c: Config,
    ps: Seq<(Seq<char>, JsonV)>,
    ct: Seq<(Seq<char>, JsonV)>,
    i: int,
)
    requires
        !(get_member(ps, "schema"@) matches Some(s) && truthy(s)),
        get_member(ps, "content"@) == Some(JsonV::Object(ct)),
        distinct_keys(ct),
        0 <= i < ct.len(),
    ensures
        match convert_parameter(h, c, JsonV::Object(ps)) {
            Ok(out) => get_member(members_or_empty(out), ct[i].0) == Some(
                param_schema(h, c, content_schema(ct[i].1), get_member(ps, "description"@))->Ok_0,
            ),
            Err(_) => true,
        },
{
    law_parameter_content(h, c, ps, ct);
    lemma_last_with_key_distinct(ct, i, ct.len());
}

/// A parameter whose `schema` is missing or falsy and whose `content` is an
/// object converts to an object with exactly the keys of `content` (no
/// `$schema` of its own): under each media type, the conversion of the schema
/// of the last entry with that key, with the parameter's description copied
/// onto it. It fails exactly when one of these conversions fails, with its
/// error.
pub proof fn law_parameter_content<H: Hooks>(
    h: H,
    c: Config,
    ps: Seq<(Seq<char>, JsonV)>,
    ct: Seq<(Seq<char>, JsonV)>,
)
    requires
        !(get_member(ps, "schema"@) matches Some(s) && truthy(s)),
        get_member(ps, "content"@) == Some(JsonV::Object(ct)),
    ensures
        convert_parameter(h, c, JsonV::Object(ps)) == convert_contents(
            h,
            c,
            JsonV::Object(ct),
            get_member(ps, "description"@),
        ),
        match convert_parameter(h, c, JsonV::Object(ps)) {
            Ok(out) => {
                &&& out is Object
                &&& forall|i: int|
                    0 <= i < ct.len() ==> #[trigger] param_schema(
                        h,
                        c,
                        content_schema(ct[i].1),
                        get_member(ps, "description"@),
                    ) is Ok
                &&& forall|k: Seq<char>| #[trigger]
                    get_member(members_or_empty(out), k) == if last_with_key(ct, k, ct.len()) >= 0 {
                        Some(
                            param_schema(
                                h,
                                c,
                                content_schema(ct[last_with_key(ct, k, ct.len())].1),
                                get_member(ps, "description"@),
                            )->Ok_0,
                        )
                    } else {
                        None
                    }
            },
            Err(e) => exists|i: int|
                0 <= i < ct.len() && #[trigger] param_schema(
                    h,
                    c,
                    content_schema(ct[i].1),
                    get_member(ps, "description"@),
                ) == Err::<JsonV, ErrorV>(e),
        },
{
    lemma_contents_prefix(h, c, ct, get_member(ps, "description"@), ct.len());
}

// ---- the finishing steps ------------------------------------------------------------------
proof fn lemma_set_member_same(es: Seq<(Seq<char>, JsonV)>, k: Seq<char>, v: JsonV)
    requires
        get_member(es, k) == Some(v),
    ensures
        set_member(es, k, v) == es,
{
    lemma_find_key_range(es, k);
    let i = crate::json::find_key(es, k);
    assert(es.update(i, (k, v)) =~= es);
}

proof fn lemma_clamp_settled(es: Seq<(Seq<char>, JsonV)>, f: crate::number::NumericFormat)
    ensures
        !takes_bound(get_member(clamp_members(es, f), "minimum"@), min_limit(f), true),
        !takes_bound(get_member(clamp_members(es, f), "maximum"@), max_limit(f), false),
{
    reveal_strlit("minimum");
    reveal_strlit("maximum");
    assert("minimum"@[1] != "maximum"@[1]);
    lemma_bound_is_not_out_of_range(f);
    let es1 = if takes_bound(get_member(es, "minimum"@), min_limit(f), true) {
        set_member(es, "minimum"@, crate::number::min_bound_json(f))
    } else {
        es
    };
    lemma_get_set(es, "minimum"@, crate::number::min_bound_json(f), "minimum"@);
    lemma_get_set(es, "minimum"@, crate::number::min_bound_json(f), "maximum"@);
    lemma_get_set(es1, "maximum"@, crate::number::max_bound_json(f), "maximum"@);
    lemma_get_set(es1, "maximum"@, crate::number::max_bound_json(f), "minimum"@);
}

/// The members that format handling reads and writes have the same values
/// in `x` as in `y`.
pub open spec fn same_format_members(x: Seq<(Seq<char>, JsonV)>, y: Seq<(Seq<char>, JsonV)>) -> bool {
    &&& get_member(x, "format"@) == get_member(y, "format"@)
    &&& get_member(x, "minimum"@) == get_member(y, "minimum"@)
    &&& get_member(x, "maximum"@) == get_member(y, "maximum"@)
    &&& get_member(x, "pattern"@) == get_member(y, "pattern"@)
}

proof fn lemma_format_keys_distinct()
    ensures
        "format"@ != "minimum"@,
        "format"@ != "maximum"@,
        "format"@ != "pattern"@,
        "minimum"@ != "maximum"@,
        "minimum"@ != "pattern"@,
        "maximum"@ != "pattern"@,
{
    reveal_strlit("format");
    reveal_strlit("minimum");
    reveal_strlit("maximum");
    reveal_strlit("pattern");
    assert("minimum"@[1] != "maximum"@[1]);
    assert("minimum"@[0] != "pattern"@[0]);
    assert("maximum"@[0] != "pattern"@[0]);
}

proof fn lemma_clamp_keeps_format(es: Seq<(Seq<char>, JsonV)>, f: crate::number::NumericFormat)
    ensures
        get_member(clamp_members(es, f), "format"@) == get_member(es, "format"@),
        get_member(clamp_members(es, f), "pattern"@) == get_member(es, "pattern"@),
{
    lemma_format_keys_distinct();
    let es1 = if takes_bound(get_member(es, "minimum"@), min_limit(f), true) {
        set_member(es, "minimum"@, crate::number::min_bound_json(f))
    } else {
        es
    };
    lemma_get_set(es, "minimum"@, crate::number::min_bound_json(f), "format"@);
    lemma_get_set(es1, "maximum"@, crate::number::max_bound_json(f), "format"@);
    lemma_get_set(es, "minimum"@, crate::number::min_bound_json(f), "pattern"@);
    lemma_get_set(es1, "maximum"@, crate::number::max_bound_json(f), "pattern"@);
}

proof fn lemma_format_settled(c: Config, n: Seq<(Seq<char>, JsonV)>, x: Seq<(Seq<char>, JsonV)>)
    requires
        same_format_members(x, format_step(c, n)),
    ensures
        format_step(c, x) == x,
{
    lemma_format_keys_distinct();
    let y = format_step(c, n);
    match get_member(n, "format"@) {
        Some(JsonV::String(f)) => if valid_formats().contains(f) {
        } else if f == "date"@ && c.date_to_date_time {
            lemma_get_set(n, "format"@, JsonV::String("date-time"@), "format"@);
            reveal_strlit("date-time");
            assert(valid_formats()[0] == "date-time"@);
        } else if f == "byte"@ {
            lemma_get_set(n, "pattern"@, JsonV::String(crate::consts::byte_pattern()), "format"@);
            lemma_get_set(n, "pattern"@, JsonV::String(crate::consts::byte_pattern()), "pattern"@);
            lemma_set_member_same(x, "pattern"@, JsonV::String(crate::consts::byte_pattern()));
        } else {
            match crate::schema::numeric_format(f) {
                Some(nf) => {
                    lemma_clamp_keeps_format(n, nf);
                    lemma_clamp_settled(n, nf);
                },
                None => {},
            }
        },
        _ => {},
    }
}

/// Format handling applied to its own result changes nothing.
pub proof fn law_format_step_is_idempotent(c: Config, es: Seq<(Seq<char>, JsonV)>)
    ensures
        format_step(c, format_step(c, es)) == format_step(c, es),
{
    lemma_format_settled(c, es, format_step(c, es));
}

proof fn lemma_strip_settled(x: Seq<(Seq<char>, JsonV)>, kws: Seq<Seq<char>>, n: nat)
    requires
        n <= kws.len(),
        forall|i: int| 0 <= i < n ==> !has_member(x, #[trigger] kws[i]),
    ensures
        strip_keys(x, kws, n) == x,
    decreases n,
{
    if n > 0 {
        lemma_strip_settled(x, kws, (n - 1) as nat);
        lemma_remove_member(x, kws[n - 1]);
    }
}

/// Stripping applied to its own result changes nothing.
pub proof fn law_strip_step_is_idempotent(c: Config, j: JsonV)
    ensures
        strip_step(c, strip_step(c, j)) == strip_step(c, j),
{
    match j {
        JsonV::Object(es) => {
            let x = strip_keys(es, c.not_supported, c.not_supported.len());
            lemma_strip_keys(es, c.not_supported, c.not_supported.len());
            lemma_strip_settled(x, c.not_supported, c.not_supported.len());
        },
        _ => {},
    }
}

proof fn lemma_strip_keeps_other(es: Seq<(Seq<char>, JsonV)>, kws: Seq<Seq<char>>, n: nat, k: Seq<char>)
    requires
        forall|i: int| 0 <= i < n && i < kws.len() ==> kws[i] != k,
    ensures
        get_member(strip_keys(es, kws, n), k) == get_member(es, k),
    decreases n,
{
    if n > 0 && n <= kws.len() {
        lemma_strip_keeps_other(es, kws, (n - 1) as nat, k);
        lemma_get_remove(strip_keys(es, kws, (n - 1) as nat), kws[n - 1], k);
    }
}

proof fn lemma_stripped_keyword_is_not_a_format_member(k: Seq<char>)
    requires
        not_supported_keywords().contains(k),
    ensures
        k != "format"@,
        k != "minimum"@,
        k != "maximum"@,
        k != "pattern"@,
{
    reveal_strlit("$schema");
    reveal_strlit("nullable");
    reveal_strlit("discriminator");
    reveal_strlit("readOnly");
    reveal_strlit("writeOnly");
    reveal_strlit("xml");
    reveal_strlit("externalDocs");
    reveal_strlit("example");
    reveal_strlit("deprecated");
    reveal_strlit("format");
    reveal_strlit("minimum");
    reveal_strlit("maximum");
    reveal_strlit("pattern");
    let i = choose|i: int| 0 <= i < not_supported_keywords().len() && not_supported_keywords()[i] == k;
    assert(k.len() != 7 || k[0] == '$' || k[0] == 'e');
}

proof fn lemma_pattern_step_settles(c: Config, fs: Seq<(Seq<char>, JsonV)>)
    ensures
        pattern_step(NoHooks, c, fs) is Object,
        same_format_members(pattern_step(NoHooks, c, fs)->Object_0, fs),
        c.support_pattern_properties ==> !has_member(
            pattern_step(NoHooks, c, fs)->Object_0,
            "x-patternProperties"@,
        ),
{
    lemma_format_keys_distinct();
    reveal_strlit("format");
    reveal_strlit("minimum");
    reveal_strlit("maximum");
    reveal_strlit("pattern");
    reveal_strlit("x-patternProperties");
    reveal_strlit("patternProperties");
    reveal_strlit("additionalProperties");
    let xp = "x-patternProperties"@;
    let pp = "patternProperties"@;
    let ap = "additionalProperties"@;
    assert(xp.len() != "format"@.len() && xp.len() != "minimum"@.len() && xp != pp && xp != ap);
    assert(pp.len() != "format"@.len() && pp.len() != "minimum"@.len());
    assert(ap.len() != "format"@.len() && ap.len() != "minimum"@.len());
    if c.support_pattern_properties && crate::json::has_member(fs, xp) {
        let x = get_member(fs, xp)->0;
        let es1 = remove_member(fs, xp);
        let es2 = if is_container(x) {
            set_member(es1, pp, x)
        } else {
            es1
        };
        lemma_get_remove(fs, xp, "format"@);
        lemma_get_remove(fs, xp, "minimum"@);
        lemma_get_remove(fs, xp, "maximum"@);
        lemma_get_remove(fs, xp, "pattern"@);
        lemma_get_remove(fs, xp, xp);
        lemma_get_set(es1, pp, x, "format"@);
        lemma_get_set(es1, pp, x, "minimum"@);
        lemma_get_set(es1, pp, x, "maximum"@);
        lemma_get_set(es1, pp, x, "pattern"@);
        lemma_get_set(es1, pp, x, xp);
        lemma_get_set(es2, ap, JsonV::Bool(false), "format"@);
        lemma_get_set(es2, ap, JsonV::Bool(false), "minimum"@);
        lemma_get_set(es2, ap, JsonV::Bool(false), "maximum"@);
        lemma_get_set(es2, ap, JsonV::Bool(false), "pattern"@);
        lemma_get_set(es2, ap, JsonV::Bool(false), xp);
        let es3 = pattern_step(NoHooks, c, fs)->Object_0;
        lemma_has_get(es3, xp);
    } else if c.support_pattern_properties {
        lemma_has_get(fs, xp);
    }
}

/// In lenient mode, with `nullable` among the stripped keywords and no
/// hooks, the finishing steps (the `type` check, `nullable`, `format`,
/// pattern properties and stripping) give an object, and applied again to
/// that object they give it back unchanged.
pub proof fn law_finishing_steps_are_idempotent(o: OptionsView, es: Seq<(Seq<char>, JsonV)>)
    requires
        o.strict_mode == Some(false),
        resolve(o).not_supported.contains("nullable"@),
    ensures
        finish(NoHooks, resolve(o), es) matches Ok(JsonV::Object(x)) && finish(NoHooks, resolve(o), x)
            == Ok::<JsonV, ErrorV>(JsonV::Object(x)),
{
    let c = resolve(o);
    let ns = c.not_supported;
    let fs = format_step(c, nullable_step(es));
    lemma_pattern_step_settles(c, fs);
    let p = pattern_step(NoHooks, c, fs)->Object_0;
    let x = strip_keys(p, ns, ns.len());
    lemma_strip_keys(p, ns, ns.len());
    assert forall|i: int| 0 <= i < ns.len() implies ns[i] != "format"@ && ns[i] != "minimum"@
        && ns[i] != "maximum"@ && ns[i] != "pattern"@ by {
        assert(ns.contains(ns[i]));
        assert(not_supported_keywords().contains(ns[i])) by {
            broadcast use vstd::seq::Seq::lemma_filter_contains_rev;

            assert(ns == not_supported_keywords().filter(
                |y: Seq<char>| !strings_or_empty(o.keep_not_supported).contains(y),
            ));
        }
        lemma_stripped_keyword_is_not_a_format_member(ns[i]);
    }
    lemma_strip_keeps_other(p, ns, ns.len(), "format"@);
    lemma_strip_keeps_other(p, ns, ns.len(), "minimum"@);
    lemma_strip_keeps_other(p, ns, ns.len(), "maximum"@);
    lemma_strip_keeps_other(p, ns, ns.len(), "pattern"@);
    assert(same_format_members(x, fs));
    law_format_step_is_idempotent(c, nullable_step(es));
    lemma_format_settled(c, nullable_step(es), x);
    let ni = choose|i: int| 0 <= i < ns.len() && ns[i] == "nullable"@;
    assert(!has_member(x, ns[ni]));
    lemma_has_get(x, "nullable"@);
    assert(nullable_step(x) == x);
    if c.support_pattern_properties {
        lemma_has_get(p, "x-patternProperties"@);
        lemma_strip_keeps_absent(p, ns, ns.len(), "x-patternProperties"@);
        lemma_has_get(x, "x-patternProperties"@);
    }
    assert(pattern_step(NoHooks, c, x) == JsonV::Object(x));
    lemma_strip_settled(x, ns, ns.len());
}

// ---- nullable --------------------------------------------------------------------------
/// `nullable: true` on a node with a `type`: the type becomes an array that
/// ends with `"null"` (just `["null"]` for the type `"null"`), and an array
/// `enum` gains one `null` at its end when it holds none, and is left as it is
/// when it holds one anywhere, so the count of `null` in it never grows past
/// one from this step.
#[verifier::spinoff_prover]
pub proof fn law_nullable_adds_null(es: Seq<(Seq<char>, JsonV)>, t: JsonV)
    requires
        get_member(es, "nullable"@) == Some(JsonV::Bool(true)),
        get_member(es, "type"@) == Some(t),
    ensures
        get_member(nullable_step(es), "type"@) == Some(
            if t == JsonV::String("null"@) {
                JsonV::Array(seq![JsonV::String("null"@)])
            } else {
                JsonV::Array(seq![t, JsonV::String("null"@)])
            },
        ),
        forall|items: Seq<JsonV>|
            get_member(es, "enum"@) == Some(JsonV::Array(items)) ==> #[trigger] get_member(
                nullable_step(es),
                "enum"@,
            ) == Some(
                JsonV::Array(
                    if items.contains(JsonV::Null) {
                        items
                    } else {
                        items.push(JsonV::Null)
                    },
                ),
            ),
        forall|items: Seq<JsonV>|
            get_member(es, "enum"@) == Some(JsonV::Array(items)) && items.contains(JsonV::Null)
                ==> #[trigger] get_member(nullable_step(es), "enum"@) == Some(JsonV::Array(items)),
        forall|items: Seq<JsonV>|
            get_member(es, "enum"@) == Some(JsonV::Array(items)) && !items.contains(JsonV::Null)
                ==> #[trigger] get_member(nullable_step(es), "enum"@) == Some(
                JsonV::Array(items.push(JsonV::Null)),
            ),
{
    reveal_strlit("type");
    reveal_strlit("enum");
    assert("type"@[0] != "enum"@[0]);
    let nt = crate::schema::nullable_type(t);
    let es1 = set_member(es, "type"@, nt);
    lemma_get_set(es, "type"@, nt, "type"@);
    lemma_get_set(es, "type"@, nt, "enum"@);
    match get_member(es1, "enum"@) {
        Some(JsonV::Array(items)) => {
            if !items.contains(JsonV::Null) {
                lemma_get_set(es1, "enum"@, JsonV::Array(items.push(JsonV::Null)), "type"@);
                lemma_get_set(es1, "enum"@, JsonV::Array(items.push(JsonV::Null)), "enum"@);
            }
        },
        _ => {},
    }
}

// ---- numeric formats ------------------------------------------------------------------------
proof fn lemma_numeric_format_names()
    ensures
        !valid_formats().contains("int32"@),
        !valid_formats().contains("int64"@),
        !valid_formats().contains("float"@),
        !valid_formats().contains("double"@),
        "int32"@ != "date"@ && "int32"@ != "byte"@,
        "int64"@ != "date"@ && "int64"@ != "byte"@,
        "float"@ != "date"@ && "float"@ != "byte"@,
        "double"@ != "date"@ && "double"@ != "byte"@,
        "int64"@ != "int32"@,
        "float"@ != "int32"@ && "float"@ != "int64"@,
        "double"@ != "int32"@ && "double"@ != "int64"@ && "double"@ != "float"@,
{
    reveal_strlit("int32");
    reveal_strlit("int64");
    reveal_strlit("float");
    reveal_strlit("double");
    reveal_strlit("date");
    reveal_strlit("byte");
    reveal_strlit("date-time");
    reveal_strlit("email");
    reveal_strlit("hostname");
    reveal_strlit("ipv4");
    reveal_strlit("ipv6");
    reveal_strlit("uri");
    reveal_strlit("uri-reference");
    assert("int32"@[3] != "int64"@[3]);
    assert("float"@[0] != "int32"@[0]);
    assert("float"@[0] != "int64"@[0]);
    assert("double"@.len() == 6 && "date"@.len() == 4 && "byte"@.len() == 4);
    assert("int32"@.len() == 5 && "int64"@.len() == 5 && "float"@.len() == 5);
    let v = valid_formats();
    assert(v[0].len() == 9 && v[1].len() == 5 && v[2].len() == 8 && v[3].len() == 4 && v[4].len()
        == 4 && v[5].len() == 3 && v[6].len() == 13);
    assert(v[1][0] == 'e');
    assert forall|k: int| 0 <= k < v.len() implies v[k] != "int32"@ && v[k] != "int64"@
        && v[k] != "float"@ && v[k] != "double"@ by {
        if k == 1 {
            assert(v[k][0] != "int32"@[0] && v[k][0] != "int64"@[0] && v[k][0] != "float"@[0]);
        }
    }
}

/// A node with a numeric format (`int32`, `int64`, `float`, `double`) gets
/// the bounds of that format, whatever the settings (`date_to_date_time`
/// among them): format handling sets or clamps `minimum` and `maximum`, and
/// both are present afterwards.
#[verifier::spinoff_prover]
pub proof fn law_numeric_formats_get_bounds(c: Config, es: Seq<(Seq<char>, JsonV)>)
    ensures
        get_member(es, "format"@) == Some(JsonV::String("int32"@)) ==> format_step(c, es)
            == clamp_members(es, NumericFormat::Int32),
        get_member(es, "format"@) == Some(JsonV::String("int64"@)) ==> format_step(c, es)
            == clamp_members(es, NumericFormat::Int64),
        get_member(es, "format"@) == Some(JsonV::String("float"@)) ==> format_step(c, es)
            == clamp_members(es, NumericFormat::Float),
        get_member(es, "format"@) == Some(JsonV::String("double"@)) ==> format_step(c, es)
            == clamp_members(es, NumericFormat::Double),
        (get_member(es, "format"@) == Some(JsonV::String("int32"@)) || get_member(es, "format"@)
            == Some(JsonV::String("int64"@)) || get_member(es, "format"@) == Some(
            JsonV::String("float"@),
        ) || get_member(es, "format"@) == Some(JsonV::String("double"@))) ==> get_member(
            format_step(c, es),
            "minimum"@,
        ) is Some && get_member(format_step(c, es), "maximum"@) is Some,
{
    lemma_numeric_format_names();
    crate::laws::law_numeric_bounds_are_in_range(es, NumericFormat::Int32);
    crate::laws::law_numeric_bounds_are_in_range(es, NumericFormat::Int64);
    crate::laws::law_numeric_bounds_are_in_range(es, NumericFormat::Float);
    crate::laws::law_numeric_bounds_are_in_range(es, NumericFormat::Double);
}

// ---- hooks ------------------------------------------------------------------------------
/// The hooks run at every level of nesting, not only at the root: with any
/// amount of nesting left, a node is first given to the before hook; an
/// array it returns is handed to the after hook as it is, an object is
/// processed and the processed node is handed to the after hook, and any
/// other value is refused.
#[verifier::spinoff_prover]
pub proof fn law_hooks_run_at_every_level<H: Hooks>(h: H, c: Config, f: nat, j: JsonV)
    requires
        f > 0,
    ensures
        match h.before_spec(j, c) {
            JsonV::Array(items) => convert_node(h, c, f, j) == Ok::<JsonV, ErrorV>(
                h.after_spec(JsonV::Array(items), c),
            ),
            JsonV::Object(es) => match process(h, c, (f - 1) as nat, es) {
                Ok(r) => convert_node(h, c, f, j) == Ok::<JsonV, ErrorV>(h.after_spec(r, c)),
                Err(e) => convert_node(h, c, f, j) == Err::<JsonV, ErrorV>(e),
            },
            _ => convert_node(h, c, f, j) is Err,
        },
{
}

} // verus!
