//! Deep equality of JSON values.
//!
//! Two values are equal when they are of the same kind and hold equal
//! contents: integers by value, floats by the number they denote, arrays
//! element by element, and objects when they have as many members and each
//! member of the first is found in the second with an equal value.
use vstd::prelude::*;
use crate::json::{
    Json,
    JsonV,
    NumV,
    Number,
    get_member,
    get_member_ref,
    items_view,
    lemma_items_view,
    lemma_members_view,
    members_view,
};
use crate::number::{dyadic_less, dyadic_lt};

verus! {

/// Equality of two JSON numbers. An integer never equals a float.
pub open spec fn num_eq(a: NumV, b: NumV) -> bool {
    match (a, b) {
        (NumV::Int(i), NumV::Int(j)) => i == j,
        (NumV::Float(m1, e1, _), NumV::Float(m2, e2, _)) => !dyadic_lt(m1, e1, m2, e2)
            && !dyadic_lt(m2, e2, m1, e1),
        _ => false,
    }
}

/// Deep equality of two JSON values.
pub open spec fn json_eq(a: JsonV, b: JsonV) -> bool
    decreases a, 0nat,
{
    match a {
        JsonV::Null => b is Null,
        JsonV::Bool(x) => b == JsonV::Bool(x),
        JsonV::Number(n) => match b {
            JsonV::Number(m) => num_eq(n, m),
            _ => false,
        },
        JsonV::String(s) => b == JsonV::String(s),
        JsonV::Array(xs) => {
            proof {
                assert(decreases_to!(a => a->Array_0));
            }
            match b {
                JsonV::Array(ys) => xs.len() == ys.len() && items_eq(xs, ys, xs.len()),
                _ => false,
            }
        },
        JsonV::Object(es) => {
            proof {
                assert(decreases_to!(a => a->Object_0));
            }
            match b {
                JsonV::Object(fs) => es.len() == fs.len() && members_eq(es, fs, es.len()),
                _ => false,
            }
        },
    }
}

/// The first `n` elements of `xs` equal those of `ys`.
pub open spec fn items_eq(xs: Seq<JsonV>, ys: Seq<JsonV>, n: nat) -> bool
    decreases xs, n,
{
    if n == 0 || n > xs.len() {
        true
    } else {
        proof {
            assert(decreases_to!(xs => xs[n - 1]));
        }
        items_eq(xs, ys, (n - 1) as nat) && json_eq(xs[n - 1], ys[n - 1])
    }
}

/// Each of the first `n` members of `es` is found in `fs` with an equal value.
pub open spec fn members_eq(es: Seq<(Seq<char>, JsonV)>, fs: Seq<(Seq<char>, JsonV)>, n: nat) -> bool
    decreases es, n,
{
    if n == 0 || n > es.len() {
        true
    } else {
        proof {
            assert(decreases_to!(es => es[n - 1]));
            assert(decreases_to!(es[n - 1] => es[n - 1].1));
        }
        members_eq(es, fs, (n - 1) as nat) && match get_member(fs, es[n - 1].0) {
            Some(w) => json_eq(es[n - 1].1, w),
            None => false,
        }
    }
}

proof fn lemma_items_eq_prefix(xs: Seq<JsonV>, ys: Seq<JsonV>, m: nat, n: nat)
    requires
        m <= n <= xs.len(),
        items_eq(xs, ys, n),
    ensures
        items_eq(xs, ys, m),
    decreases n,
{
    if m < n {
        lemma_items_eq_prefix(xs, ys, m, (n - 1) as nat);
    }
}

proof fn lemma_members_eq_prefix(
    es: Seq<(Seq<char>, JsonV)>,
    fs: Seq<(Seq<char>, JsonV)>,
    m: nat,
    n: nat,
)
    requires
        m <= n <= es.len(),
        members_eq(es, fs, n),
    ensures
        members_eq(es, fs, m),
    decreases n,
{
    if m < n {
        lemma_members_eq_prefix(es, fs, m, (n - 1) as nat);
    }
}

fn number_equal(a: &Number, b: &Number) -> (r: bool)
    ensures
        r == num_eq(a@, b@),
{
    match (a, b) {
        (Number::Float(x), Number::Float(y)) => {
            let m1 = x.mantissa;
            let e1 = x.exponent as i64;
            let m2 = y.mantissa;
            let e2 = y.exponent as i64;
            !dyadic_less(m1, e1, m2, e2) && !dyadic_less(m2, e2, m1, e1)
        },
        (Number::Float(_), _) => false,
        (_, Number::Float(_)) => false,
        (Number::PosInt(x), Number::PosInt(y)) => *x == *y,
        (Number::NegInt(x), Number::NegInt(y)) => *x == *y,
        (Number::PosInt(x), Number::NegInt(y)) => *y >= 0 && *x == *y as u64,
        (Number::NegInt(x), Number::PosInt(y)) => *x >= 0 && *x as u64 == *y,
    }
}

/// Deep equality of two values.
pub fn json_equal(a: &Json, b: &Json) -> (r: bool)
    ensures
        r == json_eq(a@, b@),
    decreases a,
{
    match (a, b) {
        (Json::Null, Json::Null) => true,
        (Json::Bool(x), Json::Bool(y)) => *x == *y,
        (Json::Number(x), Json::Number(y)) => number_equal(x, y),
        (Json::String(x), Json::String(y)) => crate::text::str_eq(x.as_str(), y.as_str()),
        (Json::Array(xs), Json::Array(ys)) => {
            let ghost xv = items_view(xs@);
            let ghost yv = items_view(ys@);
            proof {
                lemma_items_view(xs@);
                lemma_items_view(ys@);
            }
            if xs.len() != ys.len() {
                return false;
            }
            let mut i: usize = 0;
            while i < xs.len()
                invariant
                    i <= xs.len(),
                    xs.len() == ys.len(),
                    *a == Json::Array(*xs),
                    *b == Json::Array(*ys),
                    xv == items_view(xs@),
                    yv == items_view(ys@),
                    xv.len() == xs@.len(),
                    yv.len() == ys@.len(),
                    forall|k: int| 0 <= k < xs@.len() ==> #[trigger] xv[k] == xs@[k]@,
                    forall|k: int| 0 <= k < ys@.len() ==> #[trigger] yv[k] == ys@[k]@,
                    items_eq(xv, yv, i as nat),
                decreases xs.len() - i,
            {
                proof {
                    assert(decreases_to!(*a => (*a)->Array_0));
                }
                let e = json_equal(&xs[i], &ys[i]);
                proof {
                    assert(xv[i as int] == xs@[i as int]@);
                    assert(yv[i as int] == ys@[i as int]@);
                }
                if !e {
                    proof {
                        assert(!items_eq(xv, yv, (i + 1) as nat));
                        assert(a@ == JsonV::Array(xv));
                        assert(b@ == JsonV::Array(yv));
                        if items_eq(xv, yv, xv.len()) {
                            lemma_items_eq_prefix(xv, yv, (i + 1) as nat, xv.len());
                        }
                    }
                    return false;
                }
                i += 1;
            }
            true
        },
        (Json::Object(es), Json::Object(fs)) => {
            let ghost ev = members_view(es@);
            let ghost fv = members_view(fs@);
            proof {
                lemma_members_view(es@);
                lemma_members_view(fs@);
            }
            if es.len() != fs.len() {
                return false;
            }
            let mut i: usize = 0;
            while i < es.len()
                invariant
                    i <= es.len(),
                    es.len() == fs.len(),
                    *a == Json::Object(*es),
                    *b == Json::Object(*fs),
                    ev == members_view(es@),
                    fv == members_view(fs@),
                    ev.len() == es@.len(),
                    fv.len() == fs@.len(),
                    forall|k: int|
                        0 <= k < es@.len() ==> #[trigger] ev[k] == (es@[k].key@, es@[k].value@),
                    members_eq(ev, fv, i as nat),
                decreases es.len() - i,
            {
                proof {
                    assert(decreases_to!(*a => (*a)->Object_0));
                    assert(decreases_to!(es@[i as int] => es@[i as int].value));
                    assert(ev[i as int] == (es@[i as int].key@, es@[i as int].value@));
                }
                let found = get_member_ref(fs, es[i].key.as_str());
                let e = match found {
                    Some(w) => json_equal(&es[i].value, w),
                    None => false,
                };
                if !e {
                    proof {
                        assert(!members_eq(ev, fv, (i + 1) as nat));
                        assert(a@ == JsonV::Object(ev));
                        assert(b@ == JsonV::Object(fv));
                        if members_eq(ev, fv, ev.len()) {
                            lemma_members_eq_prefix(ev, fv, (i + 1) as nat, ev.len());
                        }
                    }
                    return false;
                }
                i += 1;
            }
            true
        },
        _ => false,
    }
}

} // verus!
