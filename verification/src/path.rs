//! Paths into a document: `a.b`, `a[0]`, `a["x"]` and `a['x']`.
use vstd::prelude::*;
use crate::json::{
    Json,
    JsonV,
    Member,
    copy_json,
    get_member,
    get_member_ref,
    lemma_get_set,
    items_view,
    lemma_items_view,
    lemma_members_view,
    members_view,
    set_member,
    set_member_exec,
};
use crate::text::{chars_of, push_char, strings_view};

verus! {

// ---- parsing ----------------------------------------------------------------
/// The first index at or after `j` holding `stop`, or `p.len()`.
pub open spec fn scan_until(p: Seq<char>, j: int, stop: char) -> int
    decreases p.len() - j,
{
    if j >= p.len() {
        p.len() as int
    } else if p[j] == stop {
        j
    } else {
        scan_until(p, j + 1, stop)
    }
}

/// `scan_until` stops at the first `stop` at or after `j`, or at the end.
pub proof fn lemma_scan_until(p: Seq<char>, j: int, stop: char)
    requires
        0 <= j <= p.len(),
    ensures
        j <= scan_until(p, j, stop) <= p.len(),
        scan_until(p, j, stop) < p.len() ==> p[scan_until(p, j, stop)] == stop,
        forall|k: int| j <= k < scan_until(p, j, stop) ==> p[k] != stop,
    decreases p.len() - j,
{
    if j < p.len() && p[j] != stop {
        lemma_scan_until(p, j + 1, stop);
    }
}

/// Whether `c` opens a quoted key inside brackets.
pub open spec fn is_quote(c: char) -> bool {
    c == '"' || c == '\''
}

/// The bracket segment that starts after the `[` at `i - 1`, and the index
/// just past it. A quoted key runs to the matching quote and then to the
/// closing bracket; a bare token runs to the closing bracket.
pub open spec fn bracket(p: Seq<char>, j: int) -> (Seq<char>, int) {
    if j < p.len() && is_quote(p[j]) {
        let k = scan_until(p, j + 1, p[j]);
        let next = if k < p.len() {
            let k2 = scan_until(p, k + 1, ']');
            if k2 < p.len() {
                k2 + 1
            } else {
                p.len() as int
            }
        } else {
            p.len() as int
        };
        (p.subrange(j + 1, k), next)
    } else {
        let k = scan_until(p, j, ']');
        (p.subrange(j, k), if k < p.len() {
            k + 1
        } else {
            p.len() as int
        })
    }
}

/// Reading a bracket segment moves forward and stays within the path.
pub proof fn lemma_bracket(p: Seq<char>, j: int)
    requires
        0 <= j <= p.len(),
    ensures
        j <= bracket(p, j).1 <= p.len(),
        j < p.len() ==> j < bracket(p, j).1,
{
    if j < p.len() && is_quote(p[j]) {
        lemma_scan_until(p, j + 1, p[j]);
        let k = scan_until(p, j + 1, p[j]);
        if k < p.len() {
            lemma_scan_until(p, k + 1, ']');
        }
    } else {
        lemma_scan_until(p, j, ']');
    }
}

/// Split a path into segments, reading from index `i` with the finished
/// segments `segs` and the segment `cur` being read.
pub open spec fn parse_from(p: Seq<char>, i: int, segs: Seq<Seq<char>>, cur: Seq<char>) -> Seq<
    Seq<char>,
>
    decreases p.len() - i,
{
    if i < 0 || i >= p.len() {
        if cur.len() > 0 || segs.len() == 0 {
            segs.push(cur)
        } else {
            segs
        }
    } else if p[i] == '.' {
        parse_from(p, i + 1, segs.push(cur), Seq::empty())
    } else if p[i] == '[' {
        let segs1 = if cur.len() > 0 {
            segs.push(cur)
        } else {
            segs
        };
        let (inner, next) = bracket(p, i + 1);
        if i + 1 <= next <= p.len() && next > i {
            // A dot right after a closing bracket only separates.
            let after = if next < p.len() && p[next] == '.' {
                next + 1
            } else {
                next
            };
            parse_from(p, after, segs1.push(inner), Seq::empty())
        } else {
            segs1.push(inner)
        }
    } else {
        parse_from(p, i + 1, segs, cur.push(p[i]))
    }
}

/// The segments of a path. Each segment is one object key or one array index:
/// `a.b`, `a[0]`, `a["x"]` and `a['x']` give two segments, and a dot right
/// after a closing bracket only separates, so `a[0].b` gives `a`, `0`, `b`.
pub open spec fn path_segments(p: Seq<char>) -> Seq<Seq<char>> {
    parse_from(p, 0, Seq::empty(), Seq::empty())
}

fn scan_until_exec(p: &Vec<char>, j: usize, stop: char) -> (r: usize)
    requires
        j <= p@.len(),
    ensures
        r == scan_until(p@, j as int, stop),
{
    let mut k = j;
    while k < p.len() && p[k] != stop
        invariant
            j <= k <= p@.len(),
            scan_until(p@, j as int, stop) == scan_until(p@, k as int, stop),
        decreases p@.len() - k,
    {
        k += 1;
    }
    k
}

fn subrange_string(p: &Vec<char>, from: usize, to: usize) -> (r: String)
    requires
        from <= to <= p@.len(),
    ensures
        r@ == p@.subrange(from as int, to as int),
{
    let mut s = String::new();
    let mut i = from;
    while i < to
        invariant
            from <= i <= to <= p@.len(),
            s@ == p@.subrange(from as int, i as int),
        decreases to - i,
    {
        push_char(&mut s, p[i]);
        i += 1;
        proof {
            assert(s@ =~= p@.subrange(from as int, i as int));
        }
    }
    s
}

fn bracket_exec(p: &Vec<char>, j: usize) -> (r: (String, usize))
    requires
        j <= p@.len(),
    ensures
        r.0@ == bracket(p@, j as int).0,
        r.1 == bracket(p@, j as int).1,
{
    proof {
        lemma_bracket(p@, j as int);
    }
    if j < p.len() && (p[j] == '"' || p[j] == '\'') {
        let q = p[j];
        proof {
            lemma_scan_until(p@, j + 1, q);
        }
        let k = scan_until_exec(p, j + 1, q);
        let next = if k < p.len() {
            proof {
                lemma_scan_until(p@, k + 1, ']');
            }
            let k2 = scan_until_exec(p, k + 1, ']');
            if k2 < p.len() {
                k2 + 1
            } else {
                p.len()
            }
        } else {
            p.len()
        };
        (subrange_string(p, j + 1, k), next)
    } else {
        proof {
            lemma_scan_until(p@, j as int, ']');
        }
        let k = scan_until_exec(p, j, ']');
        let next = if k < p.len() {
            k + 1
        } else {
            p.len()
        };
        (subrange_string(p, j, k), next)
    }
}

/// Split a path into segments.
///
/// Dotted keys and bracket notation: `a.b`, `a[0]`, `a["x"]` and `a['x']` all
/// resolve to two segments. A bracketed quoted key keeps its literal text; a
/// bracketed bare token becomes its text.
pub fn parse_path(path: &str) -> (r: Vec<String>)
    ensures
        strings_view(r@) == path_segments(path@),
{
    let p = chars_of(path);
    let mut segs: Vec<String> = Vec::new();
    let mut cur = String::new();
    let mut i: usize = 0;
    proof {
        assert(strings_view(segs@) =~= Seq::empty());
        assert(cur@ =~= Seq::<char>::empty());
    }
    while i < p.len()
        invariant
            p@ == path@,
            i <= p@.len(),
            parse_from(p@, i as int, strings_view(segs@), cur@) == path_segments(path@),
        decreases p@.len() - i,
    {
        let c = p[i];
        if c == '.' {
            let mut done = String::new();
            std::mem::swap(&mut done, &mut cur);
            proof {
                assert(strings_view(segs@.push(done)) =~= strings_view(segs@).push(done@));
            }
            segs.push(done);
            i += 1;
        } else if c == '[' {
            if !cur.as_str().is_empty() {
                let mut done = String::new();
                std::mem::swap(&mut done, &mut cur);
                proof {
                    assert(strings_view(segs@.push(done)) =~= strings_view(segs@).push(done@));
                }
                segs.push(done);
            }
            proof {
                lemma_bracket(p@, i + 1);
            }
            let (inner, next) = bracket_exec(&p, i + 1);
            proof {
                assert(strings_view(segs@.push(inner)) =~= strings_view(segs@).push(inner@));
                assert(cur@ =~= Seq::<char>::empty());
            }
            segs.push(inner);
            if next < p.len() && p[next] == '.' {
                i = next + 1;
            } else {
                i = next;
            }
        } else {
            push_char(&mut cur, c);
            i += 1;
        }
    }
    if !cur.as_str().is_empty() || segs.len() == 0 {
        proof {
            assert(strings_view(segs@.push(cur)) =~= strings_view(segs@).push(cur@));
        }
        segs.push(cur);
    }
    segs
}

// ---- array indices -----------------------------------------------------------
/// An ASCII decimal digit.
pub open spec fn is_digit(c: char) -> bool {
    '0' <= c <= '9'
}

/// The value of a sequence of decimal digits.
pub open spec fn digits_value(s: Seq<char>) -> nat
    decreases s.len(),
{
    if s.len() == 0 {
        0
    } else {
        digits_value(s.drop_last()) * 10 + ((s.last() as u32) - ('0' as u32)) as nat
    }
}

/// A segment read as an array index, as `usize::from_str` reads it: an
/// optional `+`, then one or more decimal digits, with a value that fits in
/// `usize`.
pub open spec fn parse_index(s: Seq<char>) -> Option<nat> {
    let d = index_digits(s);
    if d.len() > 0 && all_digits(d) && digits_value(d) <= usize::MAX {
        Some(digits_value(d))
    } else {
        None
    }
}

/// A segment without its optional leading `+`.
pub open spec fn index_digits(s: Seq<char>) -> Seq<char> {
    if s.len() > 0 && s[0] == '+' {
        s.drop_first()
    } else {
        s
    }
}

/// Every character is a decimal digit.
pub open spec fn all_digits(d: Seq<char>) -> bool {
    forall|k: int| 0 <= k < d.len() ==> is_digit(#[trigger] d[k])
}

proof fn lemma_digits_value_step(s: Seq<char>, n: int)
    requires
        0 <= n < s.len(),
    ensures
        digits_value(s.subrange(0, n + 1)) == digits_value(s.subrange(0, n)) * 10 + ((s[n] as u32)
            - ('0' as u32)) as nat,
{
    assert(s.subrange(0, n + 1).drop_last() =~= s.subrange(0, n));
}

proof fn lemma_digits_value_mono(s: Seq<char>, n: int)
    requires
        0 <= n <= s.len(),
        all_digits(s),
    ensures
        digits_value(s.subrange(0, n)) <= digits_value(s),
    decreases s.len() - n,
{
    if n < s.len() {
        lemma_digits_value_mono(s, n + 1);
        lemma_digits_value_step(s, n);
    } else {
        assert(s.subrange(0, n) =~= s);
    }
}

/// Read a segment as an array index.
pub fn parse_index_exec(seg: &str) -> (r: Option<usize>)
    ensures
        match r {
            Some(v) => parse_index(seg@) == Some(v as nat),
            None => parse_index(seg@) is None,
        },
{
    let p = chars_of(seg);
    let start: usize = if p.len() > 0 && p[0] == '+' {
        1
    } else {
        0
    };
    let ghost d = index_digits(seg@);
    proof {
        assert(d =~= p@.subrange(start as int, p@.len() as int));
    }
    if start >= p.len() {
        proof {
            assert(d.len() == 0);
        }
        return None;
    }
    let mut v: usize = 0;
    let mut i: usize = start;
    while i < p.len()
        invariant
            p@ == seg@,
            start <= i <= p@.len(),
            d == p@.subrange(start as int, p@.len() as int),
            d == index_digits(seg@),
            forall|k: int| start <= k < i ==> is_digit(p@[k]),
            v == digits_value(p@.subrange(start as int, i as int)),
        decreases p@.len() - i,
    {
        let c = p[i];
        proof {
            assert(p@.subrange(start as int, i + 1) =~= d.subrange(0, i - start + 1));
            assert(p@.subrange(start as int, i as int) =~= d.subrange(0, i - start));
        }
        if !('0' <= c && c <= '9') {
            proof {
                assert(!is_digit(d[i - start]));
                assert(!all_digits(d));
                assert(parse_index(seg@) is None);
            }
            return None;
        }
        let digit = (c as u32 - '0' as u32) as usize;
        proof {
            lemma_digits_value_step(d, i - start);
        }
        if v > (usize::MAX - digit) / 10 {
            proof {
                assert(v * 10 + digit > usize::MAX) by (nonlinear_arith)
                    requires
                        v > (usize::MAX - digit) / 10,
                        digit <= 9,
                ;
                assert(d[i - start] == c);
                assert(digits_value(d.subrange(0, i - start + 1)) > usize::MAX);
                if all_digits(d) {
                    lemma_digits_value_mono(d, i - start + 1);
                }
                assert(parse_index(seg@) is None);
            }
            return None;
        }
        v = v * 10 + digit;
        i += 1;
    }
    proof {
        assert(p@.subrange(start as int, i as int) =~= d);
    }
    Some(v)
}

// ---- reading and writing at a path ---------------------------------------------
/// The value at a path, or `None` when a segment is missing.
pub open spec fn get_path(node: JsonV, segs: Seq<Seq<char>>) -> Option<JsonV>
    decreases segs.len(),
{
    if segs.len() == 0 {
        Some(node)
    } else {
        let next = match node {
            JsonV::Object(es) => get_member(es, segs[0]),
            JsonV::Array(items) => match parse_index(segs[0]) {
                Some(i) => if i < items.len() {
                    Some(items[i as int])
                } else {
                    None
                },
                None => None,
            },
            _ => None,
        };
        match next {
            Some(child) => get_path(child, segs.drop_first()),
            None => None,
        }
    }
}

/// `node` is an array and `head` reads as an index in range.
pub open spec fn index_in_array(node: JsonV, head: Seq<char>) -> bool {
    match node {
        JsonV::Array(items) => match parse_index(head) {
            Some(i) => i < items.len(),
            None => false,
        },
        _ => false,
    }
}

/// The members of an object, or no members for any other value.
pub open spec fn members_or_empty(node: JsonV) -> Seq<(Seq<char>, JsonV)> {
    match node {
        JsonV::Object(es) => es,
        _ => Seq::empty(),
    }
}

/// Write a value at a path. An array along the path is indexed by a numeric
/// segment that is in range; anything else that is not an object is replaced
/// by a new object, and missing members are created as empty objects.
pub open spec fn set_path(node: JsonV, segs: Seq<Seq<char>>, v: JsonV) -> JsonV
    decreases segs.len(),
{
    if segs.len() == 0 {
        node
    } else {
        let head = segs[0];
        let rest = segs.drop_first();
        if index_in_array(node, head) {
            let items = node->Array_0;
            let i = parse_index(head)->0 as int;
            JsonV::Array(
                items.update(
                    i,
                    if rest.len() == 0 {
                        v
                    } else {
                        set_path(items[i], rest, v)
                    },
                ),
            )
        } else {
            let es = members_or_empty(node);
            if rest.len() == 0 {
                JsonV::Object(set_member(es, head, v))
            } else {
                let child = match get_member(es, head) {
                    Some(c) => c,
                    None => JsonV::Object(Seq::empty()),
                };
                JsonV::Object(set_member(es, head, set_path(child, rest, v)))
            }
        }
    }
}

/// The value at a path, copied.
pub fn get_path_exec(root: &Json, segs: &Vec<String>) -> (r: Option<Json>)
    ensures
        match r {
            Some(v) => get_path(root@, strings_view(segs@)) == Some(v@),
            None => get_path(root@, strings_view(segs@)) is None,
        },
{
    let ghost sv = strings_view(segs@);
    let mut cur: &Json = root;
    let mut i: usize = 0;
    proof {
        assert(sv.skip(0) =~= sv);
    }
    while i < segs.len()
        invariant
            sv == strings_view(segs@),
            i <= segs@.len(),
            get_path(root@, sv) == get_path(cur@, sv.skip(i as int)),
        decreases segs@.len() - i,
    {
        let seg = segs[i].as_str();
        proof {
            assert(sv.skip(i as int)[0] == seg@);
            assert(sv.skip(i as int).drop_first() =~= sv.skip(i + 1));
        }
        let next: Option<&Json> = match cur {
            Json::Object(es) => get_member_ref(es, seg),
            Json::Array(items) => {
                proof {
                    lemma_items_view(items@);
                }
                match parse_index_exec(seg) {
                    Some(idx) => if idx < items.len() {
                        Some(&items[idx])
                    } else {
                        None
                    },
                    None => None,
                }
            },
            _ => None,
        };
        match next {
            Some(n) => {
                cur = n;
            },
            None => {
                return None;
            },
        }
        i += 1;
    }
    proof {
        assert(sv.skip(i as int).len() == 0);
    }
    Some(copy_json(cur))
}

/// Write a value at a path.
pub fn set_path_exec(node: Json, segs: &Vec<String>, i: usize, v: Json) -> (r: Json)
    requires
        i <= segs@.len(),
    ensures
        r@ == set_path(node@, strings_view(segs@).skip(i as int), v@),
    decreases segs@.len() - i,
{
    let ghost rest_segs = strings_view(segs@).skip(i as int);
    if i >= segs.len() {
        return node;
    }
    let head = segs[i].as_str();
    proof {
        assert(rest_segs[0] == head@);
        assert(rest_segs.drop_first() =~= strings_view(segs@).skip(i + 1));
    }
    let last = i + 1 == segs.len();
    let index = parse_index_exec(head);
    let in_array = match (&node, index) {
        (Json::Array(items), Some(idx)) => idx < items.len(),
        _ => false,
    };
    proof {
        if node is Array {
            lemma_items_view(node->Array_0@);
        }
        assert(in_array == index_in_array(node@, head@));
        assert(rest_segs.len() == segs@.len() - i);
        assert(last == (rest_segs.drop_first().len() == 0));
    }
    if in_array {
        if let (Json::Array(mut items), Some(idx)) = (node, index) {
            let ghost before = items@;
            proof {
                lemma_items_view(items@);
            }
            let child = items.remove(idx);
            let new_child = if last {
                v
            } else {
                set_path_exec(child, segs, i + 1, v)
            };
            items.insert(idx, new_child);
            proof {
                lemma_items_view(items@);
                assert(items_view(items@) =~= items_view(before).update(
                    idx as int,
                    new_child@,
                ));
            }
            return Json::Array(items);
        }
        return Json::Null;
    }
    let ghost node_v = node@;
    let mut es: Vec<Member> = match node {
        Json::Object(es) => es,
        _ => Vec::new(),
    };
    proof {
        lemma_members_view(es@);
        assert(members_view(es@) =~= members_or_empty(node_v));
    }
    if last {
        set_member_exec(&mut es, head, v);
        return Json::Object(es);
    }
    proof {
        lemma_members_view(es@);
        crate::json::lemma_find_key_range(members_view(es@), head@);
    }
    match crate::json::find_member(&es, head) {
        Some(k) => {
            let ghost before = es@;
            let m = es.remove(k);
            let new_child = set_path_exec(m.value, segs, i + 1, v);
            es.insert(k, Member { key: m.key, value: new_child });
            proof {
                lemma_members_view(es@);
                lemma_members_view(before);
                assert(members_view(es@) =~= set_member(
                    members_view(before),
                    head@,
                    new_child@,
                ));
            }
            Json::Object(es)
        },
        None => {
            let empty: Vec<Member> = Vec::new();
            proof {
                lemma_members_view(empty@);
                assert(members_view(empty@) =~= Seq::empty());
            }
            let new_child = set_path_exec(Json::Object(empty), segs, i + 1, v);
            set_member_exec(&mut es, head, new_child);
            Json::Object(es)
        },
    }
}

// ---- reading after writing a path ----------------------------------------------------------
proof fn lemma_parse_from_nonempty(p: Seq<char>, i: int, segs: Seq<Seq<char>>, cur: Seq<char>)
    ensures
        parse_from(p, i, segs, cur).len() > 0,
    decreases p.len() - i,
{
    if 0 <= i < p.len() {
        if p[i] == '.' {
            lemma_parse_from_nonempty(p, i + 1, segs.push(cur), Seq::empty());
        } else if p[i] == '[' {
            let segs1 = if cur.len() > 0 {
                segs.push(cur)
            } else {
                segs
            };
            let (inner, next) = bracket(p, i + 1);
            if i + 1 <= next <= p.len() && next > i {
                let after = if next < p.len() && p[next] == '.' {
                    next + 1
                } else {
                    next
                };
                lemma_parse_from_nonempty(p, after, segs1.push(inner), Seq::empty());
            }
        } else {
            lemma_parse_from_nonempty(p, i + 1, segs, cur.push(p[i]));
        }
    }
}

/// A path has at least one segment.
pub proof fn law_paths_have_a_segment(p: Seq<char>)
    ensures
        path_segments(p).len() > 0,
{
    lemma_parse_from_nonempty(p, 0, Seq::empty(), Seq::empty());
}

/// Reading a path after writing a value at it gives the value back.
pub proof fn law_path_read_after_write(node: JsonV, segs: Seq<Seq<char>>, v: JsonV)
    requires
        segs.len() > 0,
    ensures
        get_path(set_path(node, segs, v), segs) == Some(v),
    decreases segs.len(),
{
    let head = segs[0];
    let rest = segs.drop_first();
    let r = set_path(node, segs, v);
    if index_in_array(node, head) {
        let items = node->Array_0;
        let i = parse_index(head)->0 as int;
        if rest.len() > 0 {
            law_path_read_after_write(items[i], rest, v);
        }
        let w = if rest.len() == 0 {
            v
        } else {
            set_path(items[i], rest, v)
        };
        let items2 = items.update(i, w);
        assert(r == JsonV::Array(items2));
        assert(parse_index(head) == Some(i as nat));
        assert(items2[i] == w);
        assert(get_path(r, segs) == get_path(w, rest));
    } else {
        let es = members_or_empty(node);
        let child = match get_member(es, head) {
            Some(x) => x,
            None => JsonV::Object(Seq::empty()),
        };
        let w = if rest.len() == 0 {
            v
        } else {
            set_path(child, rest, v)
        };
        assert(r == JsonV::Object(set_member(es, head, w)));
        lemma_get_set(es, head, w, head);
        assert(get_path(r, segs) == get_path(w, rest));
        if rest.len() > 0 {
            law_path_read_after_write(child, rest, v);
        }
    }
}

/// Writing a value at a path string and reading the same path string gives
/// the value back.
pub proof fn law_path_string_read_after_write(node: JsonV, p: Seq<char>, v: JsonV)
    ensures
        get_path(
            set_path(node, path_segments(p), v),
            path_segments(p),
        ) == Some(v),
{
    law_paths_have_a_segment(p);
    law_path_read_after_write(node, path_segments(p), v);
}

} // verus!
