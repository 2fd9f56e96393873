//! The JSON document model the converter works on.
//!
//! A `Json` value mirrors a JSON document: null, booleans, numbers, strings,
//! arrays and objects. An object is a list of members kept in order; a lookup
//! finds the first member with the key, setting a key changes that member or
//! appends one, and removing a key removes every member with it, so a list
//! with distinct keys behaves as a map.
//! Numbers are held exactly: integers as `u64`/`i64`, and a binary floating
//! value as `mantissa * 2^exponent` together with its JSON text.
use vstd::prelude::*;

verus! {

/// A binary floating-point JSON number, `mantissa * 2^exponent`.
///
/// In canonical form the mantissa is odd, or zero with a zero exponent, so
/// two equal numbers have equal fields; comparisons go by the value, so any
/// form compares correctly. `text` is the number as it is written in JSON
/// text.
pub struct Float {
    pub mantissa: i64,
    pub exponent: i32,
    pub text: String,
}

/// A JSON number: a non-negative integer, a negative integer, or a float.
pub enum Number {
    PosInt(u64),
    NegInt(i64),
    Float(Float),
}

/// A member of a JSON object: a key and its value.
pub struct Member {
    pub key: String,
    pub value: Json,
}

/// A JSON value.
pub enum Json {
    Null,
    Bool(bool),
    Number(Number),
    String(String),
    Array(Vec<Json>),
    Object(Vec<Member>),
}

/// The mathematical value of a JSON number.
pub enum NumV {
    Int(int),
    Float(int, int, Seq<char>),
}

/// The mathematical value of a JSON document.
#[verifier::ext_equal]
pub enum JsonV {
    Null,
    Bool(bool),
    Number(NumV),
    String(Seq<char>),
    Array(Seq<JsonV>),
    Object(Seq<(Seq<char>, JsonV)>),
}

impl View for Number {
    type V = NumV;

    open spec fn view(&self) -> NumV {
        match self {
            Number::PosInt(u) => NumV::Int(*u as int),
            Number::NegInt(i) => NumV::Int(*i as int),
            Number::Float(f) => NumV::Float(f.mantissa as int, f.exponent as int, f.text@),
        }
    }
}

/// The mathematical value of a JSON document.
pub open spec fn json_view(j: Json) -> JsonV
    decreases j, 0nat,
{
    match j {
        Json::Null => JsonV::Null,
        Json::Bool(b) => JsonV::Bool(b),
        Json::Number(n) => JsonV::Number(n@),
        Json::String(s) => JsonV::String(s@),
        Json::Array(v) => {
            proof {
                assert(decreases_to!(j => j->Array_0));
            }
            JsonV::Array(items_prefix_view(v@, v@.len()))
        },
        Json::Object(v) => {
            proof {
                assert(decreases_to!(j => j->Object_0));
            }
            JsonV::Object(members_prefix_view(v@, v@.len()))
        },
    }
}

/// The views of the first `n` values.
pub open spec fn items_prefix_view(v: Seq<Json>, n: nat) -> Seq<JsonV>
    decreases v, n,
{
    if n == 0 || n > v.len() {
        Seq::empty()
    } else {
        items_prefix_view(v, (n - 1) as nat).push(json_view(v[n - 1]))
    }
}

/// The views of the first `n` members.
pub open spec fn members_prefix_view(v: Seq<Member>, n: nat) -> Seq<(Seq<char>, JsonV)>
    decreases v, n,
{
    if n == 0 || n > v.len() {
        Seq::empty()
    } else {
        proof {
            assert(decreases_to!(v => v[n - 1]));
            assert(decreases_to!(v[n - 1] => v[n - 1].value));
        }
        members_prefix_view(v, (n - 1) as nat).push((v[n - 1].key@, json_view(v[n - 1].value)))
    }
}

impl View for Json {
    type V = JsonV;

    open spec fn view(&self) -> JsonV {
        json_view(*self)
    }
}

/// The views of a sequence of values.
pub open spec fn items_view(v: Seq<Json>) -> Seq<JsonV> {
    items_prefix_view(v, v.len())
}

/// The views of a sequence of object members.
pub open spec fn members_view(v: Seq<Member>) -> Seq<(Seq<char>, JsonV)> {
    members_prefix_view(v, v.len())
}

proof fn lemma_items_prefix_view(v: Seq<Json>, n: nat)
    requires
        n <= v.len(),
    ensures
        items_prefix_view(v, n).len() == n,
        forall|i: int| 0 <= i < n ==> #[trigger] items_prefix_view(v, n)[i] == v[i]@,
    decreases n,
{
    if n > 0 {
        lemma_items_prefix_view(v, (n - 1) as nat);
    }
}

proof fn lemma_members_prefix_view(v: Seq<Member>, n: nat)
    requires
        n <= v.len(),
    ensures
        members_prefix_view(v, n).len() == n,
        forall|i: int|
            0 <= i < n ==> #[trigger] members_prefix_view(v, n)[i] == (v[i].key@, v[i].value@),
    decreases n,
{
    if n > 0 {
        lemma_members_prefix_view(v, (n - 1) as nat);
    }
}

/// The views of a sequence of values, element by element.
pub proof fn lemma_items_view(v: Seq<Json>)
    ensures
        items_view(v).len() == v.len(),
        forall|i: int| 0 <= i < v.len() ==> #[trigger] items_view(v)[i] == v[i]@,
{
    lemma_items_prefix_view(v, v.len());
}

/// The views of a sequence of members, member by member.
pub proof fn lemma_members_view(v: Seq<Member>)
    ensures
        members_view(v).len() == v.len(),
        forall|i: int| 0 <= i < v.len() ==> #[trigger] members_view(v)[i] == (v[i].key@, v[i].value@),
{
    lemma_members_prefix_view(v, v.len());
}


// ---- object members ------------------------------------------------------
/// The index of the first member with key `k`, or -1.
pub open spec fn find_key(es: Seq<(Seq<char>, JsonV)>, k: Seq<char>) -> int {
    if exists|i: int| 0 <= i < es.len() && es[i].0 == k && (forall|j: int| 0 <= j < i ==> es[j].0 != k) {
        choose|i: int| 0 <= i < es.len() && es[i].0 == k && (forall|j: int| 0 <= j < i ==> es[j].0 != k)
    } else {
        -1
    }
}

/// The first member with key `k` is at `i`.
pub proof fn lemma_find_key_at(es: Seq<(Seq<char>, JsonV)>, k: Seq<char>, i: int)
    requires
        0 <= i < es.len(),
        es[i].0 == k,
        forall|j: int| 0 <= j < i ==> es[j].0 != k,
    ensures
        find_key(es, k) == i,
{
    let p = |x: int| 0 <= x < es.len() && es[x].0 == k && (forall|j: int| 0 <= j < x ==> es[j].0 != k);
    assert(p(i));
    let c = choose|x: int| 0 <= x < es.len() && es[x].0 == k && (forall|j: int| 0 <= j < x ==> es[j].0 != k);
    assert(p(c));
    if c < i {
        assert(es[c].0 != k);
    } else if c > i {
        assert(es[i].0 != k);
    }
}

/// No member has key `k`.
pub proof fn lemma_find_key_none(es: Seq<(Seq<char>, JsonV)>, k: Seq<char>)
    requires
        forall|j: int| 0 <= j < es.len() ==> es[j].0 != k,
    ensures
        find_key(es, k) == -1,
{
}

/// What `find_key` returns: an index holding the key with none before it, or -1.
pub proof fn lemma_find_key_range(es: Seq<(Seq<char>, JsonV)>, k: Seq<char>)
    ensures
        -1 <= find_key(es, k) < es.len(),
        find_key(es, k) >= 0 ==> es[find_key(es, k)].0 == k,
        find_key(es, k) == -1 ==> forall|j: int| 0 <= j < es.len() ==> es[j].0 != k,
        forall|j: int| 0 <= j < find_key(es, k) ==> es[j].0 != k,
{
    if find_key(es, k) == -1 {
        assert forall|j: int| 0 <= j < es.len() implies es[j].0 != k by {
            if es[j].0 == k {
                // the least such index would witness the existential
                let mut m = j;
                assert(exists|i: int| 0 <= i < es.len() && es[i].0 == k && (forall|jj: int| 0 <= jj < i ==> es[jj].0 != k)) by {
                    lemma_least_key_index(es, k, j);
                }
            }
        }
    }
}

proof fn lemma_least_key_index(es: Seq<(Seq<char>, JsonV)>, k: Seq<char>, j: int)
    requires
        0 <= j < es.len(),
        es[j].0 == k,
    ensures
        exists|i: int| 0 <= i < es.len() && es[i].0 == k && (forall|jj: int| 0 <= jj < i ==> es[jj].0 != k),
    decreases j,
{
    if exists|jj: int| 0 <= jj < j && es[jj].0 == k {
        let jj = choose|jj: int| 0 <= jj < j && es[jj].0 == k;
        lemma_least_key_index(es, k, jj);
    } else {
        assert(forall|jj: int| 0 <= jj < j ==> es[jj].0 != k);
    }
}

/// The value of the first member with key `k`.
pub open spec fn get_member(es: Seq<(Seq<char>, JsonV)>, k: Seq<char>) -> Option<JsonV> {
    let i = find_key(es, k);
    if 0 <= i < es.len() {
        Some(es[i].1)
    } else {
        None
    }
}

/// Some member has key `k`.
pub open spec fn has_member(es: Seq<(Seq<char>, JsonV)>, k: Seq<char>) -> bool {
    find_key(es, k) >= 0
}

/// Set the value of key `k`: the first member with the key takes the value in
/// place, or a new member is appended.
pub open spec fn set_member(es: Seq<(Seq<char>, JsonV)>, k: Seq<char>, v: JsonV) -> Seq<
    (Seq<char>, JsonV),
> {
    let i = find_key(es, k);
    if 0 <= i < es.len() {
        es.update(i, (k, v))
    } else {
        es.push((k, v))
    }
}

/// Remove every member with key `k`.
pub open spec fn remove_member(es: Seq<(Seq<char>, JsonV)>, k: Seq<char>) -> Seq<
    (Seq<char>, JsonV),
>
    decreases es.len(),
{
    if es.len() == 0 {
        es
    } else {
        let r = remove_member(es.drop_last(), k);
        if es.last().0 == k {
            r
        } else {
            r.push(es.last())
        }
    }
}

/// Set member `k` of an object; other values are returned unchanged.
pub open spec fn set_key(j: JsonV, k: Seq<char>, v: JsonV) -> JsonV {
    match j {
        JsonV::Object(es) => JsonV::Object(set_member(es, k, v)),
        _ => j,
    }
}

/// Reading a key after setting a key.
pub proof fn lemma_get_set(es: Seq<(Seq<char>, JsonV)>, k: Seq<char>, v: JsonV, k2: Seq<char>)
    ensures
        get_member(set_member(es, k, v), k2) == if k2 == k {
            Some(v)
        } else {
            get_member(es, k2)
        },
        has_member(set_member(es, k, v), k),
{
    let s = set_member(es, k, v);
    lemma_find_key_range(es, k);
    lemma_find_key_range(es, k2);
    let i = find_key(es, k);
    if 0 <= i {
        lemma_find_key_at(s, k, i);
        if k2 != k {
            let j = find_key(es, k2);
            if j >= 0 {
                lemma_find_key_at(s, k2, j);
            } else {
                lemma_find_key_none(s, k2);
            }
        }
    } else {
        lemma_find_key_at(s, k, es.len() as int);
        if k2 != k {
            let j = find_key(es, k2);
            if j >= 0 {
                lemma_find_key_at(s, k2, j);
            } else {
                lemma_find_key_none(s, k2);
            }
        }
    }
}

/// Reading a key after appending a member.
pub proof fn lemma_get_push(es: Seq<(Seq<char>, JsonV)>, m: (Seq<char>, JsonV), k: Seq<char>)
    ensures
        get_member(es.push(m), k) == if has_member(es, k) {
            get_member(es, k)
        } else if m.0 == k {
            Some(m.1)
        } else {
            None
        },
        has_member(es.push(m), k) == (has_member(es, k) || m.0 == k),
{
    let s = es.push(m);
    lemma_find_key_range(es, k);
    let i = find_key(es, k);
    if i >= 0 {
        lemma_find_key_at(s, k, i);
    } else if m.0 == k {
        lemma_find_key_at(s, k, es.len() as int);
    } else {
        lemma_find_key_none(s, k);
    }
}

/// What removing a key leaves: no member with the key, the other keys as
/// they were.
pub proof fn lemma_remove_member(es: Seq<(Seq<char>, JsonV)>, k: Seq<char>)
    ensures
        forall|i: int| 0 <= i < remove_member(es, k).len() ==> #[trigger] remove_member(es, k)[i].0 != k,
        !has_member(remove_member(es, k), k),
        forall|k2: Seq<char>| k2 != k ==> #[trigger] get_member(remove_member(es, k), k2) == get_member(es, k2),
        !has_member(es, k) ==> remove_member(es, k) == es,
        remove_member(es, k).len() <= es.len(),
    decreases es.len(),
{
    let r = remove_member(es, k);
    if es.len() == 0 {
        lemma_find_key_none(r, k);
    } else {
        let d = es.drop_last();
        let m = es.last();
        lemma_remove_member(d, k);
        let rd = remove_member(d, k);
        assert(es =~= d.push(m));
        assert forall|k2: Seq<char>| k2 != k implies #[trigger] get_member(r, k2) == get_member(es, k2) by {
            lemma_get_push(d, m, k2);
            if m.0 != k {
                lemma_get_push(rd, m, k2);
                lemma_find_key_range(rd, k2);
                lemma_find_key_range(d, k2);
            }
        }
        lemma_find_key_range(r, k);
        if !has_member(es, k) {
            lemma_get_push(d, m, k);
            lemma_find_key_range(d, k);
            assert(r =~= es);
        }
    }
}

/// Removing a key leaves the other keys as they were.
pub proof fn lemma_get_remove(es: Seq<(Seq<char>, JsonV)>, k: Seq<char>, k2: Seq<char>)
    ensures
        k2 != k ==> get_member(remove_member(es, k), k2) == get_member(es, k2),
        !has_member(es, k) ==> remove_member(es, k) == es,
        get_member(remove_member(es, k), k) is None,
{
    lemma_remove_member(es, k);
    lemma_find_key_range(remove_member(es, k), k);
}

/// Changing the value of a member with key `k` does not change what removing
/// `k` leaves.
pub proof fn lemma_remove_member_update(
    es: Seq<(Seq<char>, JsonV)>,
    i: int,
    k: Seq<char>,
    x: JsonV,
)
    requires
        0 <= i < es.len(),
        es[i].0 == k,
    ensures
        remove_member(es.update(i, (k, x)), k) == remove_member(es, k),
    decreases es.len(),
{
    let u = es.update(i, (k, x));
    if i < es.len() - 1 {
        lemma_remove_member_update(es.drop_last(), i, k, x);
        assert(u.drop_last() =~= es.drop_last().update(i, (k, x)));
    } else {
        assert(u.drop_last() =~= es.drop_last());
    }
}

// ---- predicates -------------------------------------------------------------
/// JSON truthiness: false for null, false, zero and the empty string; true for
/// every other number and string and for every array and object.
pub open spec fn truthy(j: JsonV) -> bool {
    match j {
        JsonV::Null => false,
        JsonV::Bool(b) => b,
        JsonV::Number(NumV::Int(i)) => i != 0,
        JsonV::Number(NumV::Float(m, _, _)) => m != 0,
        JsonV::String(s) => s.len() > 0,
        JsonV::Array(_) => true,
        JsonV::Object(_) => true,
    }
}

/// Objects and arrays: the container values that can hold sub-schemas.
pub open spec fn is_container(j: JsonV) -> bool {
    j is Array || j is Object
}

/// JSON truthiness of a value.
pub fn json_truthy(j: &Json) -> (r: bool)
    ensures
        r == truthy(j@),
{
    match j {
        Json::Null => false,
        Json::Bool(b) => *b,
        Json::Number(Number::PosInt(u)) => *u != 0,
        Json::Number(Number::NegInt(i)) => *i != 0,
        Json::Number(Number::Float(f)) => f.mantissa != 0,
        Json::String(s) => !s.as_str().is_empty(),
        Json::Array(_) => true,
        Json::Object(_) => true,
    }
}

/// Whether a value is an object or an array.
pub fn json_is_container(j: &Json) -> (r: bool)
    ensures
        r == is_container(j@),
{
    match j {
        Json::Array(_) => true,
        Json::Object(_) => true,
        _ => false,
    }
}

// ---- copying ----------------------------------------------------------------
/// A copy of a number.
pub fn copy_number(n: &Number) -> (r: Number)
    ensures
        r@ == n@,
{
    match n {
        Number::PosInt(u) => Number::PosInt(*u),
        Number::NegInt(i) => Number::NegInt(*i),
        Number::Float(f) => Number::Float(
            Float { mantissa: f.mantissa, exponent: f.exponent, text: f.text.clone() },
        ),
    }
}

/// A copy of a value.
pub fn copy_json(j: &Json) -> (r: Json)
    ensures
        r@ == j@,
    decreases j,
{
    match j {
        Json::Null => Json::Null,
        Json::Bool(b) => Json::Bool(*b),
        Json::Number(n) => Json::Number(copy_number(n)),
        Json::String(s) => Json::String(s.clone()),
        Json::Array(v) => {
            let mut out: Vec<Json> = Vec::new();
            let mut i: usize = 0;
            while i < v.len()
                invariant
                    i <= v.len(),
                    *j == Json::Array(*v),
                    out@.len() == i,
                    forall|k: int| 0 <= k < i ==> #[trigger] out@[k]@ == v@[k]@,
                decreases v.len() - i,
            {
                proof {
                    assert(decreases_to!(*j => (*j)->Array_0));
                }
                let c = copy_json(&v[i]);
                out.push(c);
                i += 1;
            }
            proof {
                lemma_items_view(out@);
                lemma_items_view(v@);
                assert(items_view(out@) =~= items_view(v@));
            }
            Json::Array(out)
        },
        Json::Object(v) => {
            let mut out: Vec<Member> = Vec::new();
            let mut i: usize = 0;
            while i < v.len()
                invariant
                    i <= v.len(),
                    *j == Json::Object(*v),
                    out@.len() == i,
                    forall|k: int|
                        0 <= k < i ==> (#[trigger] out@[k]).key@ == v@[k].key@ && out@[k].value@
                            == v@[k].value@,
                decreases v.len() - i,
            {
                proof {
                    assert(decreases_to!(*j => (*j)->Object_0));
                    assert(decreases_to!(v@[i as int] => v@[i as int].value));
                }
                let c = copy_json(&v[i].value);
                out.push(Member { key: v[i].key.clone(), value: c });
                i += 1;
            }
            proof {
                lemma_members_view(out@);
                lemma_members_view(v@);
                assert forall|k: int| 0 <= k < out@.len() implies members_view(out@)[k] == members_view(
                    v@,
                )[k] by {
                    assert(out@[k].key@ == v@[k].key@ && out@[k].value@ == v@[k].value@);
                }
                assert(members_view(out@) =~= members_view(v@));
            }
            Json::Object(out)
        },
    }
}

// ---- exec access to members -------------------------------------------------

/// The index of the first member whose key is `k`.
pub fn find_member(es: &Vec<Member>, k: &str) -> (r: Option<usize>)
    ensures
        match r {
            Some(i) => find_key(members_view(es@), k@) == i as int,
            None => find_key(members_view(es@), k@) == -1,
        },
{
    let ghost mv = members_view(es@);
    proof {
        lemma_members_view(es@);
    }
    let mut i: usize = 0;
    while i < es.len()
        invariant
            i <= es.len(),
            mv == members_view(es@),
            mv.len() == es@.len(),
            forall|j: int| 0 <= j < es@.len() ==> #[trigger] mv[j] == (es@[j].key@, es@[j].value@),
            forall|j: int| 0 <= j < i ==> mv[j].0 != k@,
        decreases es.len() - i,
    {
        assert(mv[i as int] == (es@[i as int].key@, es@[i as int].value@));
        if crate::text::str_eq(es[i].key.as_str(), k) {
            proof {
                lemma_find_key_at(mv, k@, i as int);
            }
            return Some(i);
        }
        i += 1;
    }
    proof {
        lemma_find_key_none(mv, k@);
    }
    None
}

/// The value of member `k`.
pub fn get_member_ref<'a>(es: &'a Vec<Member>, k: &str) -> (r: Option<&'a Json>)
    ensures
        match r {
            Some(v) => get_member(members_view(es@), k@) == Some(v@),
            None => get_member(members_view(es@), k@) is None,
        },
{
    proof {
        lemma_find_key_range(members_view(es@), k@);
        lemma_members_view(es@);
    }
    match find_member(es, k) {
        Some(i) => Some(&es[i].value),
        None => None,
    }
}

/// Set member `k` to `v`.
pub fn set_member_exec(es: &mut Vec<Member>, k: &str, v: Json)
    ensures
        members_view(final(es)@) == set_member(members_view(old(es)@), k@, v@),
{
    proof {
        lemma_find_key_range(members_view(es@), k@);
        lemma_members_view(es@);
    }
    match find_member(es, k) {
        Some(i) => {
            let _old = es.remove(i);
            es.insert(i, Member { key: crate::text::owned(k), value: v });
            proof {
                lemma_members_view(es@);
                assert(members_view(es@) =~= set_member(members_view(old(es)@), k@, v@));
            }
        },
        None => {
            es.push(Member { key: crate::text::owned(k), value: v });
            proof {
                lemma_members_view(es@);
                assert(members_view(es@) =~= set_member(members_view(old(es)@), k@, v@));
            }
        },
    }
}

/// Take the value of member `i`, leaving null in its place.
pub fn take_value(es: &mut Vec<Member>, i: usize) -> (r: Json)
    requires
        i < old(es)@.len(),
    ensures
        r@ == members_view(old(es)@)[i as int].1,
        final(es)@.len() == old(es)@.len(),
        members_view(final(es)@) == members_view(old(es)@).update(
            i as int,
            (members_view(old(es)@)[i as int].0, JsonV::Null),
        ),
{
    proof {
        lemma_members_view(es@);
    }
    let mut v = Json::Null;
    std::mem::swap(&mut v, &mut es[i].value);
    proof {
        lemma_members_view(es@);
        assert(members_view(es@) =~= members_view(old(es)@).update(
            i as int,
            (members_view(old(es)@)[i as int].0, JsonV::Null),
        ));
    }
    v
}

/// Give member `i` the value `v`.
pub fn put_value(es: &mut Vec<Member>, i: usize, v: Json)
    requires
        i < old(es)@.len(),
    ensures
        final(es)@.len() == old(es)@.len(),
        members_view(final(es)@) == members_view(old(es)@).update(
            i as int,
            (members_view(old(es)@)[i as int].0, v@),
        ),
{
    proof {
        lemma_members_view(es@);
    }
    let mut v = v;
    std::mem::swap(&mut v, &mut es[i].value);
    proof {
        lemma_members_view(es@);
        assert(members_view(es@) =~= members_view(old(es)@).update(
            i as int,
            (members_view(old(es)@)[i as int].0, members_view(es@)[i as int].1),
        ));
    }
}

/// Remove every member with key `k`, returning the value of the first.
pub fn remove_member_exec(es: &mut Vec<Member>, k: &str) -> (r: Option<Json>)
    ensures
        members_view(final(es)@) == remove_member(members_view(old(es)@), k@),
        match r {
            Some(v) => get_member(members_view(old(es)@), k@) == Some(v@),
            None => get_member(members_view(old(es)@), k@) is None,
        },
{
    let ghost ev = members_view(es@);
    let ghost orig = es@;
    proof {
        lemma_members_view(es@);
    }
    let mut taken: Vec<Member> = Vec::new();
    std::mem::swap(&mut taken, es);
    let mut first: Option<Json> = None;
    let mut i: usize = 0;
    proof {
        lemma_members_view(es@);
        assert(members_view(es@) =~= remove_member(ev.subrange(0, 0), k@));
        lemma_find_key_none(ev.subrange(0, 0), k@);
    }
    while i < taken.len()
        invariant
            i <= taken.len(),
            taken@.len() == orig.len(),
            forall|j: int| i <= j < orig.len() ==> #[trigger] taken@[j] == orig[j],
            ev == members_view(orig),
            ev.len() == orig.len(),
            forall|j: int| 0 <= j < orig.len() ==> #[trigger] ev[j] == (orig[j].key@, orig[j].value@),
            members_view(es@) == remove_member(ev.subrange(0, i as int), k@),
            match first {
                Some(v) => get_member(ev.subrange(0, i as int), k@) == Some(v@),
                None => get_member(ev.subrange(0, i as int), k@) is None,
            },
        decreases taken.len() - i,
    {
        let mut m = Member { key: String::new(), value: Json::Null };
        std::mem::swap(&mut m, &mut taken[i]);
        let ghost pre = ev.subrange(0, i as int);
        let ghost post = ev.subrange(0, i + 1);
        proof {
            assert(post =~= pre.push(ev[i as int]));
            assert(post.drop_last() =~= pre);
            assert(ev[i as int] == (m.key@, m.value@));
            lemma_get_push(pre, ev[i as int], k@);
            lemma_find_key_range(pre, k@);
        }
        if crate::text::str_eq(m.key.as_str(), k) {
            if first.is_none() {
                first = Some(m.value);
            }
            proof {
                assert(members_view(es@) == remove_member(post, k@));
            }
        } else {
            let ghost before = es@;
            es.push(m);
            proof {
                lemma_members_view(es@);
                lemma_members_view(before);
                assert(members_view(es@) =~= members_view(before).push(ev[i as int]));
            }
        }
        i += 1;
    }
    proof {
        assert(ev.subrange(0, orig.len() as int) =~= ev);
    }
    first
}

} // verus!
