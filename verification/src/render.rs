//! Compact JSON text of a value, as it appears in error messages.
//!
//! Strings are quoted with `"` escaped as `\"`, `\` as `\\`, the controls
//! backspace, form feed, line feed, carriage return and tab as `\b`, `\f`,
//! `\n`, `\r`, `\t`, and every other character below U+0020 as `\u00xx` with
//! lower-case hex digits. Arrays and objects are written without spaces; the
//! members of an object are written in key order (by character code, a
//! proper prefix first; equal keys keep their order), as `serde_json` keeps
//! the keys of a map. A float is written as its JSON text.
use vstd::prelude::*;
use crate::json::{
    Json,
    JsonV,
    Member,
    NumV,
    Number,
    items_view,
    lemma_items_view,
    lemma_members_view,
    members_view,
};
use crate::text::{chars_of, decimal, digit_char, int_text, push_char, push_decimal};

verus! {

/// The lower-case hex digit for `d` in 0..16.
pub open spec fn hex_digit(d: nat) -> char {
    if d < 10 {
        digit_char(d)
    } else if d == 10 {
        'a'
    } else if d == 11 {
        'b'
    } else if d == 12 {
        'c'
    } else if d == 13 {
        'd'
    } else if d == 14 {
        'e'
    } else {
        'f'
    }
}

/// The JSON text of one character inside a string.
pub open spec fn escape_char(c: char) -> Seq<char> {
    if c == '"' {
        seq!['\\', '"']
    } else if c == '\\' {
        seq!['\\', '\\']
    } else if c == '\u{8}' {
        seq!['\\', 'b']
    } else if c == '\u{c}' {
        seq!['\\', 'f']
    } else if c == '\n' {
        seq!['\\', 'n']
    } else if c == '\r' {
        seq!['\\', 'r']
    } else if c == '\t' {
        seq!['\\', 't']
    } else if (c as u32) < 0x20 {
        seq![
            '\\',
            'u',
            '0',
            '0',
            hex_digit(((c as u32) / 16) as nat),
            hex_digit(((c as u32) % 16) as nat),
        ]
    } else {
        seq![c]
    }
}

/// The escaped characters of a string.
pub open spec fn escape_text(s: Seq<char>) -> Seq<char>
    decreases s.len(),
{
    if s.len() == 0 {
        Seq::empty()
    } else {
        escape_text(s.drop_last()) + escape_char(s.last())
    }
}

/// A string in JSON text: quoted and escaped.
pub open spec fn quoted(s: Seq<char>) -> Seq<char> {
    seq!['"'] + escape_text(s) + seq!['"']
}

/// The compact JSON text of a value.
pub open spec fn render(j: JsonV) -> Seq<char>
    decreases j, 0nat,
{
    match j {
        JsonV::Null => "null"@,
        JsonV::Bool(b) => if b {
            "true"@
        } else {
            "false"@
        },
        JsonV::Number(NumV::Int(i)) => int_text(i),
        JsonV::Number(NumV::Float(_, _, t)) => t,
        JsonV::String(s) => quoted(s),
        JsonV::Array(items) => {
            proof {
                assert(decreases_to!(j => j->Array_0));
            }
            seq!['['] + render_items(items, items.len()) + seq![']']
        },
        JsonV::Object(es) => {
            proof {
                assert(decreases_to!(j => j->Object_0));
            }
            let ord = key_order(es, es.len());
            seq!['{'] + render_members(es, ord, ord.len()) + seq!['}']
        },
    }
}

/// The first `n` values, separated by commas.
pub open spec fn render_items(items: Seq<JsonV>, n: nat) -> Seq<char>
    decreases items, n,
{
    if n == 0 || n > items.len() {
        Seq::empty()
    } else if n == 1 {
        proof {
            assert(decreases_to!(items => items[0]));
        }
        render(items[0])
    } else {
        proof {
            assert(decreases_to!(items => items[n - 1]));
        }
        render_items(items, (n - 1) as nat) + seq![','] + render(items[n - 1])
    }
}

/// The members at the first `n` indices of `ord`, as `"key":value`,
/// separated by commas.
pub open spec fn render_members(es: Seq<(Seq<char>, JsonV)>, ord: Seq<int>, n: nat) -> Seq<char>
    decreases es, n,
{
    if n == 0 || n > ord.len() {
        Seq::empty()
    } else {
        let i = ord[n - 1];
        if 0 <= i < es.len() {
            proof {
                assert(decreases_to!(es => es[i]));
                assert(decreases_to!(es[i] => es[i].1));
            }
            let m = quoted(es[i].0) + seq![':'] + render(es[i].1);
            if n == 1 {
                m
            } else {
                render_members(es, ord, (n - 1) as nat) + seq![','] + m
            }
        } else {
            render_members(es, ord, (n - 1) as nat)
        }
    }
}

// ---- key order ---------------------------------------------------------------------
/// `a` comes before `b` in key order, the characters before index `i` being
/// equal: by character code, a proper prefix first.
pub open spec fn key_lt_from(a: Seq<char>, b: Seq<char>, i: nat) -> bool
    decreases a.len() - i,
{
    if i >= a.len() {
        i < b.len()
    } else if i >= b.len() {
        false
    } else if a[i as int] != b[i as int] {
        (a[i as int] as u32) < (b[i as int] as u32)
    } else {
        key_lt_from(a, b, i + 1)
    }
}

/// `a` comes before `b` in key order.
pub open spec fn key_lt(a: Seq<char>, b: Seq<char>) -> bool {
    key_lt_from(a, b, 0)
}

/// Insert member index `i` into `ord`, which lists member indices in key
/// order, after every index whose key does not come after the key of `i`.
pub open spec fn insert_index(es: Seq<(Seq<char>, JsonV)>, ord: Seq<int>, i: int) -> Seq<int>
    decreases ord.len(),
{
    if ord.len() == 0 {
        seq![i]
    } else if key_lt(es[i].0, es[ord[0]].0) {
        seq![i] + ord
    } else {
        seq![ord[0]] + insert_index(es, ord.drop_first(), i)
    }
}

/// The indices of the first `n` members in key order; members with equal
/// keys keep their order.
pub open spec fn key_order(es: Seq<(Seq<char>, JsonV)>, n: nat) -> Seq<int>
    decreases n,
{
    if n == 0 {
        Seq::empty()
    } else {
        insert_index(es, key_order(es, (n - 1) as nat), n - 1)
    }
}

/// Inserting at the first position whose key comes after the key of `i`.
proof fn lemma_insert_index(es: Seq<(Seq<char>, JsonV)>, ord: Seq<int>, i: int, p: int)
    requires
        0 <= p <= ord.len(),
        forall|x: int| 0 <= x < p ==> !key_lt(es[i].0, #[trigger] es[ord[x]].0),
        p < ord.len() ==> key_lt(es[i].0, es[ord[p]].0),
    ensures
        insert_index(es, ord, i) == ord.insert(p, i),
    decreases ord.len(),
{
    if ord.len() == 0 {
        assert(ord.insert(p, i) =~= seq![i]);
    } else if p == 0 {
        assert(ord.insert(p, i) =~= seq![i] + ord);
    } else {
        let rest = ord.drop_first();
        assert forall|x: int| 0 <= x < p - 1 implies !key_lt(es[i].0, #[trigger] es[rest[x]].0) by {
            assert(rest[x] == ord[x + 1]);
        }
        if p - 1 < rest.len() {
            assert(rest[p - 1] == ord[p]);
        }
        assert(!key_lt(es[i].0, es[ord[0]].0));
        lemma_insert_index(es, rest, i, p - 1);
        assert(seq![ord[0]] + rest.insert(p - 1, i) =~= ord.insert(p, i));
    }
}

/// Whether `a` comes before `b` in key order.
fn key_less(a: &str, b: &str) -> (r: bool)
    ensures
        r == key_lt(a@, b@),
{
    let ca = chars_of(a);
    let cb = chars_of(b);
    let mut i: usize = 0;
    while i < ca.len() && i < cb.len() && ca[i] == cb[i]
        invariant
            i <= ca@.len(),
            i <= cb@.len(),
            ca@ == a@,
            cb@ == b@,
            key_lt_from(a@, b@, 0) == key_lt_from(a@, b@, i as nat),
        decreases ca.len() - i,
    {
        i += 1;
    }
    if i >= ca.len() {
        i < cb.len()
    } else if i >= cb.len() {
        false
    } else {
        (ca[i] as u32) < (cb[i] as u32)
    }
}

/// The indices of the members of `v` in key order.
fn key_order_exec(v: &Vec<Member>) -> (ord: Vec<usize>)
    ensures
        ord@.len() == v@.len(),
        key_order(members_view(v@), v@.len()).len() == ord@.len(),
        forall|x: int| 0 <= x < ord@.len() ==> #[trigger] ord@[x] < v@.len(),
        forall|x: int|
            0 <= x < ord@.len() ==> #[trigger] key_order(members_view(v@), v@.len())[x] == ord@[x] as int,
{
    let ghost mv = members_view(v@);
    proof {
        lemma_members_view(v@);
    }
    let mut ord: Vec<usize> = Vec::new();
    let mut i: usize = 0;
    while i < v.len()
        invariant
            i <= v@.len(),
            mv == members_view(v@),
            mv.len() == v@.len(),
            forall|k: int| 0 <= k < v@.len() ==> #[trigger] mv[k] == (v@[k].key@, v@[k].value@),
            ord@.len() == i,
            key_order(mv, i as nat).len() == i,
            forall|x: int| 0 <= x < ord@.len() ==> #[trigger] ord@[x] < i,
            forall|x: int| 0 <= x < ord@.len() ==> #[trigger] key_order(mv, i as nat)[x] == ord@[x] as int,
        decreases v.len() - i,
    {
        let ghost ov = key_order(mv, i as nat);
        let mut p: usize = 0;
        while p < ord.len() && !key_less(v[i].key.as_str(), v[ord[p]].key.as_str())
            invariant
                i < v@.len(),
                p <= ord@.len(),
                mv == members_view(v@),
                mv.len() == v@.len(),
                forall|k: int| 0 <= k < v@.len() ==> #[trigger] mv[k] == (v@[k].key@, v@[k].value@),
                ord@.len() == i,
                ov.len() == i,
                forall|x: int| 0 <= x < ord@.len() ==> #[trigger] ord@[x] < i,
                forall|x: int| 0 <= x < ord@.len() ==> #[trigger] ov[x] == ord@[x] as int,
                forall|x: int| 0 <= x < p ==> !key_lt(mv[i as int].0, #[trigger] mv[ov[x]].0),
            decreases ord.len() - p,
        {
            proof {
                assert(mv[ov[p as int]] == mv[ord@[p as int] as int]);
            }
            p += 1;
        }
        proof {
            if p < ord.len() {
                assert(mv[ov[p as int]] == mv[ord@[p as int] as int]);
            }
            lemma_insert_index(mv, ov, i as int, p as int);
        }
        let ghost old_ord = ord@;
        ord.insert(p, i);
        proof {
            let nv = key_order(mv, (i + 1) as nat);
            assert(nv == ov.insert(p as int, i as int));
            assert forall|x: int| 0 <= x < ord@.len() implies #[trigger] nv[x] == ord@[x] as int && ord@[x] < i + 1 by {
                if x < p {
                    assert(ord@[x] == old_ord[x]);
                } else if x == p {
                } else {
                    assert(ord@[x] == old_ord[x - 1]);
                }
            }
        }
        i += 1;
    }
    ord
}

fn hex_char(d: u32) -> (c: char)
    requires
        d < 16,
    ensures
        c == hex_digit(d as nat),
{
    if d == 0 {
        '0'
    } else if d == 1 {
        '1'
    } else if d == 2 {
        '2'
    } else if d == 3 {
        '3'
    } else if d == 4 {
        '4'
    } else if d == 5 {
        '5'
    } else if d == 6 {
        '6'
    } else if d == 7 {
        '7'
    } else if d == 8 {
        '8'
    } else if d == 9 {
        '9'
    } else if d == 10 {
        'a'
    } else if d == 11 {
        'b'
    } else if d == 12 {
        'c'
    } else if d == 13 {
        'd'
    } else if d == 14 {
        'e'
    } else {
        'f'
    }
}

fn push_escaped_char(out: &mut String, c: char)
    ensures
        final(out)@ == old(out)@ + escape_char(c),
{
    let ghost start = out@;
    if c == '"' {
        push_char(out, '\\');
        push_char(out, '"');
    } else if c == '\\' {
        push_char(out, '\\');
        push_char(out, '\\');
    } else if c == '\u{8}' {
        push_char(out, '\\');
        push_char(out, 'b');
    } else if c == '\u{c}' {
        push_char(out, '\\');
        push_char(out, 'f');
    } else if c == '\n' {
        push_char(out, '\\');
        push_char(out, 'n');
    } else if c == '\r' {
        push_char(out, '\\');
        push_char(out, 'r');
    } else if c == '\t' {
        push_char(out, '\\');
        push_char(out, 't');
    } else {
        let code = c as u32;
        if code < 0x20 {
            push_char(out, '\\');
            push_char(out, 'u');
            push_char(out, '0');
            push_char(out, '0');
            push_char(out, hex_char(code / 16));
            push_char(out, hex_char(code % 16));
        } else {
            push_char(out, c);
        }
    }
    proof {
        assert(out@ =~= start + escape_char(c));
    }
}

/// Append the quoted, escaped text of `s`.
fn push_quoted(out: &mut String, s: &str)
    ensures
        final(out)@ == old(out)@ + quoted(s@),
{
    let ghost start = out@;
    let cs = chars_of(s);
    push_char(out, '"');
    let mut i: usize = 0;
    proof {
        assert(cs@.subrange(0, 0) =~= Seq::<char>::empty());
        assert(escape_text(Seq::<char>::empty()) =~= Seq::<char>::empty());
        assert(out@ =~= start + seq!['"'] + escape_text(cs@.subrange(0, 0)));
    }
    while i < cs.len()
        invariant
            i <= cs@.len(),
            cs@ == s@,
            out@ == start + seq!['"'] + escape_text(cs@.subrange(0, i as int)),
        decreases cs@.len() - i,
    {
        push_escaped_char(out, cs[i]);
        proof {
            let next = cs@.subrange(0, i + 1);
            assert(next.drop_last() =~= cs@.subrange(0, i as int));
            assert(next.last() == cs@[i as int]);
            assert(out@ =~= start + seq!['"'] + escape_text(next));
        }
        i += 1;
    }
    push_char(out, '"');
    proof {
        assert(cs@.subrange(0, cs@.len() as int) =~= cs@);
        assert(out@ =~= start + quoted(s@));
    }
}

fn push_number(out: &mut String, n: &Number)
    ensures
        final(out)@ == old(out)@ + render(JsonV::Number(n@)),
{
    let ghost start = out@;
    match n {
        Number::PosInt(u) => {
            push_decimal(out, *u);
        },
        Number::NegInt(i) => {
            if *i < 0 {
                push_char(out, '-');
                let a: u64 = ((-(*i + 1)) as u64) + 1;
                assert(a == -(*i as int));
                push_decimal(out, a);
                proof {
                    assert(out@ =~= start + (seq!['-'] + decimal((-(*i as int)) as nat)));
                }
            } else {
                let a: u64 = *i as u64;
                push_decimal(out, a);
            }
        },
        Number::Float(f) => {
            out.append(f.text.as_str());
        },
    }
}

/// Append the compact JSON text of `j`.
pub fn push_json(out: &mut String, j: &Json)
    ensures
        final(out)@ == old(out)@ + render(j@),
    decreases j,
{
    let ghost start = out@;
    match j {
        Json::Null => {
            out.append("null");
        },
        Json::Bool(b) => {
            if *b {
                out.append("true");
            } else {
                out.append("false");
            }
        },
        Json::Number(n) => {
            push_number(out, n);
        },
        Json::String(s) => {
            push_quoted(out, s.as_str());
        },
        Json::Array(v) => {
            let ghost iv = items_view(v@);
            proof {
                lemma_items_view(v@);
            }
            push_char(out, '[');
            let mut i: usize = 0;
            while i < v.len()
                invariant
                    i <= v.len(),
                    *j == Json::Array(*v),
                    iv == items_view(v@),
                    iv.len() == v@.len(),
                    forall|k: int| 0 <= k < v@.len() ==> #[trigger] iv[k] == v@[k]@,
                    out@ == start + seq!['['] + render_items(iv, i as nat),
                decreases v.len() - i,
            {
                proof {
                    assert(decreases_to!(*j => (*j)->Array_0));
                }
                if i > 0 {
                    push_char(out, ',');
                }
                push_json(out, &v[i]);
                proof {
                    assert(iv[i as int] == v@[i as int]@);
                    assert(out@ =~= start + seq!['['] + render_items(iv, (i + 1) as nat));
                }
                i += 1;
            }
            push_char(out, ']');
            proof {
                assert(out@ =~= start + render(j@));
            }
        },
        Json::Object(v) => {
            let ghost mv = members_view(v@);
            proof {
                lemma_members_view(v@);
            }
            let ord = key_order_exec(v);
            let ghost ov = key_order(mv, mv.len());
            push_char(out, '{');
            let mut k: usize = 0;
            while k < ord.len()
                invariant
                    k <= ord@.len(),
                    ord@.len() == v@.len(),
                    *j == Json::Object(*v),
                    mv == members_view(v@),
                    mv.len() == v@.len(),
                    forall|x: int|
                        0 <= x < v@.len() ==> #[trigger] mv[x] == (v@[x].key@, v@[x].value@),
                    ov.len() == ord@.len(),
                    forall|x: int| 0 <= x < ord@.len() ==> #[trigger] ord@[x] < v@.len(),
                    forall|x: int| 0 <= x < ord@.len() ==> #[trigger] ov[x] == ord@[x] as int,
                    out@ == start + seq!['{'] + render_members(mv, ov, k as nat),
                decreases ord.len() - k,
            {
                let i = ord[k];
                proof {
                    assert(decreases_to!(*j => (*j)->Object_0));
                    assert(decreases_to!(v@[i as int] => v@[i as int].value));
                }
                if k > 0 {
                    push_char(out, ',');
                }
                let m: &Member = &v[i];
                push_quoted(out, m.key.as_str());
                push_char(out, ':');
                push_json(out, &m.value);
                proof {
                    assert(ov[k as int] == i as int);
                    assert(mv[i as int] == (v@[i as int].key@, v@[i as int].value@));
                    assert(out@ =~= start + seq!['{'] + render_members(mv, ov, (k + 1) as nat));
                }
                k += 1;
            }
            push_char(out, '}');
            proof {
                assert(out@ =~= start + render(j@));
            }
        },
    }
}

/// The compact JSON text of `j`.
pub fn render_json(j: &Json) -> (r: String)
    ensures
        r@ == render(j@),
{
    let mut s = String::new();
    push_json(&mut s, j);
    proof {
        assert(s@ =~= render(j@));
    }
    s
}

} // verus!
