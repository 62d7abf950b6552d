use vstd::prelude::*;
use crate::order::text_lt;
use crate::text::push_all;

verus! {

/// A JSON document as plain values. Numbers keep the text that a JSON
/// reader gave them; objects keep their members in order.
#[derive(Debug)]
pub enum JsonValue {
    Null,
    Bool(bool),
    Number(String),
    Str(String),
    Array(Vec<JsonValue>),
    Object(Vec<(String, JsonValue)>),
}

/// The mathematical content of a JSON document.
pub enum JsonView {
    Null,
    Bool(bool),
    Number(Seq<char>),
    Str(Seq<char>),
    Array(Seq<JsonView>),
    Object(Seq<(Seq<char>, JsonView)>),
}

/// The content of a JSON value.
pub open spec fn jv(v: JsonValue) -> JsonView
    decreases v,
{
    match v {
        JsonValue::Null => JsonView::Null,
        JsonValue::Bool(b) => JsonView::Bool(b),
        JsonValue::Number(t) => JsonView::Number(t@),
        JsonValue::Str(s) => JsonView::Str(s@),
        JsonValue::Array(items) => JsonView::Array(jv_items(items@)),
        JsonValue::Object(members) => JsonView::Object(jv_members(members@)),
    }
}

/// The contents of a list of JSON values.
pub open spec fn jv_items(items: Seq<JsonValue>) -> Seq<JsonView>
    decreases items,
{
    if items.len() == 0 {
        Seq::empty()
    } else {
        jv_items(items.drop_last()).push(jv(items.last()))
    }
}

/// The contents of a list of object members.
pub open spec fn jv_members(members: Seq<(String, JsonValue)>) -> Seq<(Seq<char>, JsonView)>
    decreases members,
{
    if members.len() == 0 {
        Seq::empty()
    } else {
        jv_members(members.drop_last()).push((members.last().0@, jv(members.last().1)))
    }
}

pub proof fn lemma_jv_items_len(items: Seq<JsonValue>)
    ensures
        jv_items(items).len() == items.len(),
    decreases items.len(),
{
    if items.len() > 0 {
        lemma_jv_items_len(items.drop_last());
    }
}

pub proof fn lemma_jv_members_len(members: Seq<(String, JsonValue)>)
    ensures
        jv_members(members).len() == members.len(),
    decreases members.len(),
{
    if members.len() > 0 {
        lemma_jv_members_len(members.drop_last());
    }
}

/// The lower-case hexadecimal digit for `d` (0 to 15).
pub open spec fn hex_digit(d: int) -> char {
    if d < 10 {
        crate::text::digit(d)
    } else if d == 10 { 'a' } else if d == 11 { 'b' } else if d == 12 { 'c' }
    else if d == 13 { 'd' } else if d == 14 { 'e' } else { 'f' }
}

/// How one character stands inside a JSON string literal.
pub open spec fn escape_char(c: char) -> Seq<char> {
    if c == '"' {
        seq!['\\', '"']
    } else if c == '\\' {
        seq!['\\', '\\']
    } else if c == '\n' {
        seq!['\\', 'n']
    } else if c == '\r' {
        seq!['\\', 'r']
    } else if c == '\t' {
        seq!['\\', 't']
    } else if c == '\x08' {
        seq!['\\', 'b']
    } else if c == '\x0c' {
        seq!['\\', 'f']
    } else if (c as int) < 32 {
        seq!['\\', 'u', '0', '0', hex_digit((c as int) / 16), hex_digit((c as int) % 16)]
    } else {
        seq![c]
    }
}

/// The characters of `s`, each escaped.
pub open spec fn escape_text(s: Seq<char>) -> Seq<char>
    decreases s.len(),
{
    if s.len() == 0 {
        Seq::empty()
    } else {
        escape_text(s.drop_last()) + escape_char(s.last())
    }
}

/// `s` as a JSON string literal.
pub open spec fn quoted(s: Seq<char>) -> Seq<char> {
    seq!['"'] + escape_text(s) + seq!['"']
}

/// Two spaces per level.
pub open spec fn indent(depth: nat) -> Seq<char> {
    Seq::new(2 * depth, |i: int| ' ')
}

/// A JSON document laid out as `serde_json::to_string_pretty` lays it out,
/// at the given nesting depth.
pub open spec fn pretty(v: JsonView, depth: nat) -> Seq<char>
    decreases v,
{
    match v {
        JsonView::Null => seq!['n', 'u', 'l', 'l'],
        JsonView::Bool(b) => if b {
            seq!['t', 'r', 'u', 'e']
        } else {
            seq!['f', 'a', 'l', 's', 'e']
        },
        JsonView::Number(t) => t,
        JsonView::Str(s) => quoted(s),
        JsonView::Array(items) => if items.len() == 0 {
            seq!['[', ']']
        } else {
            seq!['['] + pretty_items(items, depth + 1) + seq!['\n'] + indent(depth) + seq![']']
        },
        JsonView::Object(members) => if members.len() == 0 {
            seq!['{', '}']
        } else {
            seq!['{'] + pretty_members(members, depth + 1) + seq!['\n'] + indent(depth) + seq!['}']
        },
    }
}

/// The elements of a non-empty array, each on a line of its own.
pub open spec fn pretty_items(items: Seq<JsonView>, depth: nat) -> Seq<char>
    decreases items,
{
    if items.len() == 0 {
        Seq::empty()
    } else {
        let sep = if items.len() == 1 { seq!['\n'] } else { seq![',', '\n'] };
        pretty_items(items.drop_last(), depth) + sep + indent(depth) + pretty(items.last(), depth)
    }
}

/// The members of a non-empty object, each on a line of its own.
pub open spec fn pretty_members(members: Seq<(Seq<char>, JsonView)>, depth: nat) -> Seq<char>
    decreases members,
{
    if members.len() == 0 {
        Seq::empty()
    } else {
        let sep = if members.len() == 1 { seq!['\n'] } else { seq![',', '\n'] };
        pretty_members(members.drop_last(), depth) + sep + indent(depth) + quoted(members.last().0)
            + seq![':', ' '] + pretty(members.last().1, depth)
    }
}

fn hex_digit_exec(d: u32) -> (c: char)
    requires
        d < 16,
    ensures
        c == hex_digit(d as int),
{
    if d == 0 { '0' } else if d == 1 { '1' } else if d == 2 { '2' } else if d == 3 { '3' }
    else if d == 4 { '4' } else if d == 5 { '5' } else if d == 6 { '6' } else if d == 7 { '7' }
    else if d == 8 { '8' } else if d == 9 { '9' } else if d == 10 { 'a' } else if d == 11 { 'b' }
    else if d == 12 { 'c' } else if d == 13 { 'd' } else if d == 14 { 'e' } else { 'f' }
}

/// Appends the escaped form of one character.
fn push_escaped(out: &mut Vec<char>, c: char)
    ensures
        final(out)@ == old(out)@ + escape_char(c),
{
    let ghost start = out@;
    let code: u32 = c as u32;
    assert(code as int == c as int);
    if c == '"' {
        out.push('\\');
        out.push('"');
    } else if c == '\\' {
        out.push('\\');
        out.push('\\');
    } else if c == '\n' {
        out.push('\\');
        out.push('n');
    } else if c == '\r' {
        out.push('\\');
        out.push('r');
    } else if c == '\t' {
        out.push('\\');
        out.push('t');
    } else if c == '\x08' {
        out.push('\\');
        out.push('b');
    } else if c == '\x0c' {
        out.push('\\');
        out.push('f');
    } else if code < 32 {
        out.push('\\');
        out.push('u');
        out.push('0');
        out.push('0');
        out.push(hex_digit_exec(code / 16));
        out.push(hex_digit_exec(code % 16));
    } else {
        out.push(c);
    }
    assert(out@ =~= start + escape_char(c));
}

/// Appends `s` as a JSON string literal.
pub fn write_quoted(out: &mut Vec<char>, s: &str)
    ensures
        final(out)@ == old(out)@ + quoted(s@),
{
    let cs = crate::text::chars_of(s);
    out.push('"');
    let ghost start = out@;
    let mut i: usize = 0;
    while i < cs.len()
        invariant
            cs@ == s@,
            i <= cs.len(),
            out@ == start + escape_text(cs@.subrange(0, i as int)),
        decreases cs.len() - i,
    {
        assert(cs@.subrange(0, i + 1).drop_last() =~= cs@.subrange(0, i as int));
        push_escaped(out, cs[i]);
        i = i + 1;
    }
    assert(cs@.subrange(0, cs.len() as int) =~= cs@);
    out.push('"');
    assert(out@ =~= old(out)@ + quoted(s@));
}

/// The indentation one level deeper than `ind`.
fn deeper(ind: &Vec<char>) -> (r: Vec<char>)
    ensures
        r@ == ind@ + seq![' ', ' '],
{
    let mut r: Vec<char> = Vec::new();
    push_all(&mut r, ind);
    r.push(' ');
    r.push(' ');
    r
}

proof fn lemma_indent_step(depth: nat)
    ensures
        indent(depth + 1) == indent(depth) + seq![' ', ' '],
{
    assert(indent(depth + 1) =~= indent(depth) + seq![' ', ' ']);
}

/// Appends the pretty layout of `v` at nesting depth `depth`, whose
/// indentation is `ind`.
fn write_pretty(out: &mut Vec<char>, v: &JsonValue, ind: &Vec<char>, Ghost(depth): Ghost<nat>)
    requires
        ind@ == indent(depth),
    ensures
        final(out)@ == old(out)@ + pretty(jv(*v), depth),
    decreases *v,
{
    let ghost start0 = out@;
    match v {
        JsonValue::Null => {
            out.push('n'); out.push('u'); out.push('l'); out.push('l');
            assert(out@ =~= start0 + pretty(jv(*v), depth));
        },
        JsonValue::Bool(b) => {
            if *b {
                out.push('t'); out.push('r'); out.push('u'); out.push('e');
            } else {
                out.push('f'); out.push('a'); out.push('l'); out.push('s'); out.push('e');
            }
            assert(out@ =~= start0 + pretty(jv(*v), depth));
        },
        JsonValue::Number(t) => {
            push_all(out, &crate::text::chars_of(t.as_str()));
        },
        JsonValue::Str(s) => {
            write_quoted(out, s.as_str());
        },
        JsonValue::Array(items) => {
            proof { lemma_jv_items_len(items@); }
            if items.len() == 0 {
                out.push('[');
                out.push(']');
                assert(out@ =~= start0 + pretty(jv(*v), depth));
            } else {
                out.push('[');
                let inner = deeper(ind);
                proof { lemma_indent_step(depth); }
                let ghost start = out@;
                let mut i: usize = 0;
                assert(items@.subrange(0, 0) =~= Seq::<JsonValue>::empty());
                while i < items.len()
                    invariant
                        inner@ == indent(depth + 1),
                        *v is Array,
                        v->Array_0 == *items,
                        i <= items.len(),
                        out@ == start + pretty_items(jv_items(items@.subrange(0, i as int)), depth + 1),
                    decreases items.len() - i,
                {
                    assert(items@.subrange(0, i + 1).drop_last() =~= items@.subrange(0, i as int));
                    let ghost before = out@;
                    if i == 0 {
                        out.push('\n');
                    } else {
                        out.push(',');
                        out.push('\n');
                    }
                    push_all(out, &inner);
                    proof {
                        assert(v->Array_0 == *items);
                        assert(decreases_to!(*v => v->Array_0));
                        assert(decreases_to!(*items => items@));
                        assert(decreases_to!(items@ => items@[i as int]));
                        assert(decreases_to!(*v => items@[i as int]));
                    }
                    write_pretty(out, &items[i], &inner, Ghost(depth + 1));
                    proof {
                        let cur = items@.subrange(0, i + 1);
                        assert(cur.drop_last() =~= items@.subrange(0, i as int));
                        assert(cur.last() == items@[i as int]);
                        assert(jv_items(cur) == jv_items(items@.subrange(0, i as int)).push(jv(items@[i as int])));
                        lemma_jv_items_len(cur);
                        assert(jv_items(cur).drop_last() =~= jv_items(items@.subrange(0, i as int)));
                    }
                    i = i + 1;
                    assert(out@ =~= start + pretty_items(jv_items(items@.subrange(0, i as int)), depth + 1));
                }
                assert(items@.subrange(0, items.len() as int) =~= items@);
                proof { lemma_jv_items_len(items@); }
                out.push('\n');
                push_all(out, ind);
                out.push(']');
                assert(out@ =~= start0 + pretty(jv(*v), depth));
            }
        },
        JsonValue::Object(members) => {
            proof { lemma_jv_members_len(members@); }
            if members.len() == 0 {
                out.push('{');
                out.push('}');
                assert(out@ =~= start0 + pretty(jv(*v), depth));
            } else {
                out.push('{');
                let inner = deeper(ind);
                proof { lemma_indent_step(depth); }
                let ghost start = out@;
                let mut i: usize = 0;
                assert(members@.subrange(0, 0) =~= Seq::<(String, JsonValue)>::empty());
                while i < members.len()
                    invariant
                        inner@ == indent(depth + 1),
                        *v is Object,
                        v->Object_0 == *members,
                        i <= members.len(),
                        out@ == start + pretty_members(jv_members(members@.subrange(0, i as int)), depth + 1),
                    decreases members.len() - i,
                {
                    assert(members@.subrange(0, i + 1).drop_last() =~= members@.subrange(0, i as int));
                    if i == 0 {
                        out.push('\n');
                    } else {
                        out.push(',');
                        out.push('\n');
                    }
                    push_all(out, &inner);
                    write_quoted(out, members[i].0.as_str());
                    out.push(':');
                    out.push(' ');
                    proof {
                        assert(v->Object_0 == *members);
                        assert(decreases_to!(*v => v->Object_0));
                        assert(decreases_to!(*members => members@));
                        assert(decreases_to!(members@ => members@[i as int]));
                        assert(decreases_to!(members@[i as int] => members@[i as int].1));
                        assert(decreases_to!(*v => members@[i as int].1));
                    }
                    write_pretty(out, &members[i].1, &inner, Ghost(depth + 1));
                    proof {
                        let cur = members@.subrange(0, i + 1);
                        assert(cur.drop_last() =~= members@.subrange(0, i as int));
                        assert(cur.last() == members@[i as int]);
                        assert(jv_members(cur) == jv_members(members@.subrange(0, i as int)).push((members@[i as int].0@, jv(members@[i as int].1))));
                        lemma_jv_members_len(cur);
                        assert(jv_members(cur).drop_last() =~= jv_members(members@.subrange(0, i as int)));
                    }
                    i = i + 1;
                    assert(out@ =~= start + pretty_members(jv_members(members@.subrange(0, i as int)), depth + 1));
                }
                assert(members@.subrange(0, members.len() as int) =~= members@);
                proof { lemma_jv_members_len(members@); }
                out.push('\n');
                push_all(out, ind);
                out.push('}');
                assert(out@ =~= start0 + pretty(jv(*v), depth));
            }
        },
    }
}

/// `serde_json::to_string_pretty` of a JSON value.
pub fn to_pretty_string(v: &JsonValue) -> (s: String)
    ensures
        s@ == pretty(jv(*v), 0),
{
    let mut out: Vec<char> = Vec::new();
    let ind: Vec<char> = Vec::new();
    assert(ind@ =~= indent(0));
    write_pretty(&mut out, v, &ind, Ghost(0));
    assert(out@ =~= pretty(jv(*v), 0));
    crate::text::string_from_chars(&out)
}


/// An array of JSON strings.
pub open spec fn str_array(s: Seq<Seq<char>>) -> JsonView {
    JsonView::Array(s.map_values(|x: Seq<char>| JsonView::Str(x)))
}

/// A JSON array of the given strings.
pub fn str_array_value(v: &Vec<String>) -> (r: JsonValue)
    ensures
        jv(r) == str_array(crate::order::views(v@)),
{
    let mut items: Vec<JsonValue> = Vec::new();
    let mut i: usize = 0;
    while i < v.len()
        invariant
            i <= v.len(),
            jv_items(items@) == crate::order::views(v@).subrange(0, i as int).map_values(
                |x: Seq<char>| JsonView::Str(x),
            ),
        decreases v.len() - i,
    {
        let ghost before = items@;
        let e = JsonValue::Str(v[i].clone());
        assert(jv(e) == JsonView::Str(v@[i as int]@));
        items.push(e);
        assert(items@.drop_last() =~= before);
        assert(jv_items(items@) == jv_items(before).push(jv(e)));
        i = i + 1;
        assert(jv_items(items@) =~= crate::order::views(v@).subrange(0, i as int).map_values(
            |x: Seq<char>| JsonView::Str(x),
        ));
    }
    assert(crate::order::views(v@).subrange(0, v.len() as int) =~= crate::order::views(v@));
    JsonValue::Array(items)
}

/// Appends a member to a list of object members.
pub fn push_member(members: &mut Vec<(String, JsonValue)>, key: &str, v: JsonValue)
    ensures
        jv_members(final(members)@) == jv_members(old(members)@).push((key@, jv(v))),
{
    let ghost before = members@;
    members.push((String::from_str(key), v));
    assert(members@.drop_last() =~= before);
}

/// Element `i` of the content of a list of values is the content of element `i`.
pub proof fn lemma_jv_items_index(items: Seq<JsonValue>)
    ensures
        jv_items(items).len() == items.len(),
        forall|i: int| 0 <= i < items.len() ==> #[trigger] jv_items(items)[i] == jv(items[i]),
    decreases items.len(),
{
    if items.len() > 0 {
        lemma_jv_items_index(items.drop_last());
    }
}

/// Member `i` of the content of an object is the content of member `i`.
pub proof fn lemma_jv_members_index(ms: Seq<(String, JsonValue)>)
    ensures
        jv_members(ms).len() == ms.len(),
        forall|i: int| 0 <= i < ms.len() ==> #[trigger] jv_members(ms)[i] == (ms[i].0@, jv(ms[i].1)),
    decreases ms.len(),
{
    if ms.len() > 0 {
        lemma_jv_members_index(ms.drop_last());
    }
}

/// Replacing one member replaces its content.
pub proof fn lemma_jv_members_update(ms: Seq<(String, JsonValue)>, p: int, x: (String, JsonValue))
    requires
        0 <= p < ms.len(),
    ensures
        jv_members(ms.update(p, x)) == jv_members(ms).update(p, (x.0@, jv(x.1))),
{
    lemma_jv_members_index(ms);
    lemma_jv_members_index(ms.update(p, x));
    assert(jv_members(ms.update(p, x)) =~= jv_members(ms).update(p, (x.0@, jv(x.1))));
}

/// Inserting one member inserts its content.
pub proof fn lemma_jv_members_insert(ms: Seq<(String, JsonValue)>, p: int, x: (String, JsonValue))
    requires
        0 <= p <= ms.len(),
    ensures
        jv_members(ms.insert(p, x)) == jv_members(ms).insert(p, (x.0@, jv(x.1))),
{
    lemma_jv_members_index(ms);
    lemma_jv_members_index(ms.insert(p, x));
    assert(jv_members(ms.insert(p, x)) =~= jv_members(ms).insert(p, (x.0@, jv(x.1))));
}

/// Removing one member removes its content.
pub proof fn lemma_jv_members_remove(ms: Seq<(String, JsonValue)>, p: int)
    requires
        0 <= p < ms.len(),
    ensures
        jv_members(ms.remove(p)) == jv_members(ms).remove(p),
{
    lemma_jv_members_index(ms);
    lemma_jv_members_index(ms.remove(p));
    assert(jv_members(ms.remove(p)) =~= jv_members(ms).remove(p));
}

/// Replacing one element replaces its content.
pub proof fn lemma_jv_items_update(items: Seq<JsonValue>, p: int, x: JsonValue)
    requires
        0 <= p < items.len(),
    ensures
        jv_items(items.update(p, x)) == jv_items(items).update(p, jv(x)),
{
    lemma_jv_items_index(items);
    lemma_jv_items_index(items.update(p, x));
    assert(jv_items(items.update(p, x)) =~= jv_items(items).update(p, jv(x)));
}

/// Position of the first member named `k`, or the number of members when
/// there is none.
pub open spec fn member_pos(ms: Seq<(Seq<char>, JsonView)>, k: Seq<char>) -> int
    decreases ms.len(),
{
    if ms.len() == 0 {
        0
    } else if ms[0].0 == k {
        0
    } else {
        1 + member_pos(ms.drop_first(), k)
    }
}

/// The value of the member named `k`, if there is one.
pub open spec fn get_member(ms: Seq<(Seq<char>, JsonView)>, k: Seq<char>) -> Option<JsonView> {
    if member_pos(ms, k) < ms.len() {
        Some(ms[member_pos(ms, k)].1)
    } else {
        None
    }
}

/// Number of leading members whose names sort before `k`: where a sorted
/// map puts a new member named `k`.
pub open spec fn sorted_pos(ms: Seq<(Seq<char>, JsonView)>, k: Seq<char>) -> int
    decreases ms.len(),
{
    if ms.len() == 0 {
        0
    } else if text_lt(ms[0].0, k) {
        1 + sorted_pos(ms.drop_first(), k)
    } else {
        0
    }
}

/// The members after `insert(k, v)` on a map kept in key order: the value
/// replaced when `k` is there, else a new member at its sorted place.
pub open spec fn set_member(ms: Seq<(Seq<char>, JsonView)>, k: Seq<char>, v: JsonView) -> Seq<
    (Seq<char>, JsonView),
> {
    if member_pos(ms, k) < ms.len() {
        ms.update(member_pos(ms, k), (k, v))
    } else {
        ms.insert(sorted_pos(ms, k), (k, v))
    }
}

/// The members after `entry(k).or_insert(v)` on a map kept in key order.
pub open spec fn ensure_member(ms: Seq<(Seq<char>, JsonView)>, k: Seq<char>, v: JsonView) -> Seq<
    (Seq<char>, JsonView),
> {
    if member_pos(ms, k) < ms.len() {
        ms
    } else {
        ms.insert(sorted_pos(ms, k), (k, v))
    }
}

pub proof fn lemma_member_pos(ms: Seq<(Seq<char>, JsonView)>, k: Seq<char>)
    ensures
        0 <= member_pos(ms, k) <= ms.len(),
        forall|j: int| 0 <= j < member_pos(ms, k) ==> ms[j].0 != k,
        member_pos(ms, k) < ms.len() ==> ms[member_pos(ms, k)].0 == k,
    decreases ms.len(),
{
    if ms.len() > 0 && ms[0].0 != k {
        lemma_member_pos(ms.drop_first(), k);
        assert forall|j: int| 0 <= j < member_pos(ms, k) implies ms[j].0 != k by {
            if j > 0 {
                assert(ms[j] == ms.drop_first()[j - 1]);
            }
        }
    }
}

/// The first position holding `k` is the only one with no `k` before it.
pub proof fn lemma_member_pos_at(ms: Seq<(Seq<char>, JsonView)>, k: Seq<char>, i: int)
    requires
        0 <= i <= ms.len(),
        forall|j: int| 0 <= j < i ==> ms[j].0 != k,
        i == ms.len() || ms[i].0 == k,
    ensures
        member_pos(ms, k) == i,
{
    lemma_member_pos(ms, k);
    if member_pos(ms, k) < i {
        assert(ms[member_pos(ms, k)].0 != k);
    }
    if member_pos(ms, k) > i {
        assert(i < ms.len());
    }
}

pub proof fn lemma_sorted_pos(ms: Seq<(Seq<char>, JsonView)>, k: Seq<char>)
    ensures
        0 <= sorted_pos(ms, k) <= ms.len(),
    decreases ms.len(),
{
    if ms.len() > 0 && text_lt(ms[0].0, k) {
        lemma_sorted_pos(ms.drop_first(), k);
    }
}

/// After `ensure_member`, the member named `k` is at the position found.
pub proof fn lemma_ensure_member_pos(ms: Seq<(Seq<char>, JsonView)>, k: Seq<char>, v: JsonView)
    ensures
        member_pos(ensure_member(ms, k, v), k) < ensure_member(ms, k, v).len(),
        member_pos(ms, k) < ms.len() ==> member_pos(ensure_member(ms, k, v), k) == member_pos(ms, k),
        member_pos(ms, k) == ms.len() ==> member_pos(ensure_member(ms, k, v), k) == sorted_pos(ms, k),
        ensure_member(ms, k, v)[member_pos(ensure_member(ms, k, v), k)].0 == k,
{
    lemma_member_pos(ms, k);
    lemma_sorted_pos(ms, k);
    if member_pos(ms, k) == ms.len() {
        let q = sorted_pos(ms, k);
        let ms2 = ms.insert(q, (k, v));
        assert forall|j: int| 0 <= j < q implies ms2[j].0 != k by {
            assert(ms2[j] == ms[j]);
        }
        lemma_member_pos_at(ms2, k, q);
    }
}

/// The position of the first member named `k`, or the number of members.
pub fn find_member(ms: &Vec<(String, JsonValue)>, k: &str) -> (r: usize)
    ensures
        r == member_pos(jv_members(ms@), k@),
        r <= ms.len(),
{
    proof {
        lemma_jv_members_index(ms@);
    }
    let mut i: usize = 0;
    while i < ms.len()
        invariant
            i <= ms.len(),
            jv_members(ms@).len() == ms.len(),
            forall|j: int| 0 <= j < ms.len() ==> #[trigger] jv_members(ms@)[j] == (ms@[j].0@, jv(ms@[j].1)),
            forall|j: int| 0 <= j < i ==> jv_members(ms@)[j].0 != k@,
        decreases ms.len() - i,
    {
        if crate::text::str_eq(ms[i].0.as_str(), k) {
            proof {
                lemma_member_pos_at(jv_members(ms@), k@, i as int);
            }
            return i;
        }
        i = i + 1;
    }
    proof {
        lemma_member_pos_at(jv_members(ms@), k@, i as int);
    }
    i
}

/// Where a member named `k` goes in members kept in key order.
pub fn sorted_index(ms: &Vec<(String, JsonValue)>, k: &str) -> (r: usize)
    ensures
        r == sorted_pos(jv_members(ms@), k@),
        r <= ms.len(),
{
    proof {
        lemma_jv_members_index(ms@);
    }
    let ghost w = jv_members(ms@);
    let mut i: usize = 0;
    assert(w.skip(0) =~= w);
    while i < ms.len()
        invariant
            i <= ms.len(),
            w == jv_members(ms@),
            w.len() == ms.len(),
            forall|j: int| 0 <= j < ms.len() ==> #[trigger] w[j] == (ms@[j].0@, jv(ms@[j].1)),
            sorted_pos(w, k@) == i + sorted_pos(w.skip(i as int), k@),
        decreases ms.len() - i,
    {
        let ghost rest = w.skip(i as int);
        assert(rest[0] == w[i as int]);
        if !crate::order::str_lt(ms[i].0.as_str(), k) {
            assert(sorted_pos(rest, k@) == 0);
            return i;
        }
        assert(rest.drop_first() =~= w.skip(i + 1));
        i = i + 1;
    }
    assert(w.skip(i as int).len() == 0);
    i
}

/// `map.insert(k, v)` on members kept in key order.
pub fn set_member_exec(ms: &mut Vec<(String, JsonValue)>, k: &str, v: JsonValue)
    ensures
        jv_members(final(ms)@) == set_member(jv_members(old(ms)@), k@, jv(v)),
{
    let p = find_member(ms, k);
    proof {
        lemma_jv_members_index(ms@);
    }
    if p < ms.len() {
        let ghost before = ms@;
        ms.remove(p);
        ms.insert(p, (String::from_str(k), v));
        proof {
            assert(ms@ =~= before.update(p as int, ms@[p as int]));
            lemma_jv_members_update(before, p as int, ms@[p as int]);
        }
    } else {
        let q = sorted_index(ms, k);
        let ghost before = ms@;
        ms.insert(q, (String::from_str(k), v));
        proof {
            lemma_jv_members_insert(before, q as int, ms@[q as int]);
        }
    }
}

/// `map.entry(k).or_insert(v)` on members kept in key order; returns the
/// position of the member named `k`.
pub fn ensure_member_exec(ms: &mut Vec<(String, JsonValue)>, k: &str, v: JsonValue) -> (p: usize)
    ensures
        jv_members(final(ms)@) == ensure_member(jv_members(old(ms)@), k@, jv(v)),
        p == member_pos(jv_members(final(ms)@), k@),
        p < final(ms).len(),
{
    proof {
        lemma_ensure_member_pos(jv_members(ms@), k@, jv(v));
        lemma_jv_members_index(ms@);
    }
    let p = find_member(ms, k);
    if p < ms.len() {
        p
    } else {
        let q = sorted_index(ms, k);
        let ghost before = ms@;
        ms.insert(q, (String::from_str(k), v));
        proof {
            lemma_jv_members_insert(before, q as int, ms@[q as int]);
            lemma_jv_members_index(ms@);
        }
        q
    }
}

/// A copy of a JSON value.
pub fn copy_json(v: &JsonValue) -> (r: JsonValue)
    ensures
        jv(r) == jv(*v),
    decreases *v,
{
    match v {
        JsonValue::Null => JsonValue::Null,
        JsonValue::Bool(b) => JsonValue::Bool(*b),
        JsonValue::Number(t) => JsonValue::Number(t.clone()),
        JsonValue::Str(s) => JsonValue::Str(s.clone()),
        JsonValue::Array(items) => {
            let mut out: Vec<JsonValue> = Vec::new();
            let mut i: usize = 0;
            while i < items.len()
                invariant
                    *v is Array,
                    v->Array_0 == *items,
                    i <= items.len(),
                    jv_items(out@) == jv_items(items@.subrange(0, i as int)),
                decreases items.len() - i,
            {
                proof {
                    assert(decreases_to!(*v => v->Array_0));
                    assert(decreases_to!(*items => items@));
                    assert(decreases_to!(items@ => items@[i as int]));
                    assert(decreases_to!(*v => items@[i as int]));
                }
                let e = copy_json(&items[i]);
                let ghost before = out@;
                out.push(e);
                proof {
                    assert(out@.drop_last() =~= before);
                    let cur = items@.subrange(0, i + 1);
                    assert(cur.drop_last() =~= items@.subrange(0, i as int));
                }
                i = i + 1;
            }
            assert(items@.subrange(0, items.len() as int) =~= items@);
            JsonValue::Array(out)
        },
        JsonValue::Object(ms) => {
            let mut out: Vec<(String, JsonValue)> = Vec::new();
            let mut i: usize = 0;
            while i < ms.len()
                invariant
                    *v is Object,
                    v->Object_0 == *ms,
                    i <= ms.len(),
                    jv_members(out@) == jv_members(ms@.subrange(0, i as int)),
                decreases ms.len() - i,
            {
                proof {
                    assert(decreases_to!(*v => v->Object_0));
                    assert(decreases_to!(*ms => ms@));
                    assert(decreases_to!(ms@ => ms@[i as int]));
                    assert(decreases_to!(ms@[i as int] => ms@[i as int].1));
                    assert(decreases_to!(*v => ms@[i as int].1));
                }
                let e = copy_json(&ms[i].1);
                let k = ms[i].0.clone();
                let ghost before = out@;
                out.push((k, e));
                proof {
                    assert(out@.drop_last() =~= before);
                    let cur = ms@.subrange(0, i + 1);
                    assert(cur.drop_last() =~= ms@.subrange(0, i as int));
                }
                i = i + 1;
            }
            assert(ms@.subrange(0, ms.len() as int) =~= ms@);
            JsonValue::Object(out)
        },
    }
}

/// Puts `v` in place of the value of member `p` and hands back the old value.
pub fn replace_value(ms: &mut Vec<(String, JsonValue)>, p: usize, v: JsonValue) -> (old_v: JsonValue)
    requires
        p < old(ms).len(),
    ensures
        old_v == old(ms)@[p as int].1,
        final(ms).len() == old(ms).len(),
        final(ms)@ == old(ms)@.update(p as int, (old(ms)@[p as int].0, v)),
        jv_members(final(ms)@) == jv_members(old(ms)@).update(p as int, (old(ms)@[p as int].0@, jv(v))),
{
    let ghost before = ms@;
    let (k, o) = ms.remove(p);
    ms.insert(p, (k, v));
    proof {
        assert(ms@ =~= before.update(p as int, (before[p as int].0, v)));
        lemma_jv_members_update(before, p as int, (before[p as int].0, v));
    }
    o
}

/// Puts `v` in place of element `i` and hands back the old element.
pub fn replace_item(items: &mut Vec<JsonValue>, i: usize, v: JsonValue) -> (old_v: JsonValue)
    requires
        i < old(items).len(),
    ensures
        old_v == old(items)@[i as int],
        final(items).len() == old(items).len(),
        final(items)@ == old(items)@.update(i as int, v),
        jv_items(final(items)@) == jv_items(old(items)@).update(i as int, jv(v)),
{
    let ghost before = items@;
    let o = items.remove(i);
    items.insert(i, v);
    proof {
        assert(items@ =~= before.update(i as int, v));
        lemma_jv_items_update(before, i as int, v);
    }
    o
}

/// Inserting a member named `k` leaves the other names' values as they were.
pub proof fn lemma_get_member_ensure(ms: Seq<(Seq<char>, JsonView)>, k: Seq<char>, v: JsonView, k2: Seq<char>)
    requires
        k != k2,
    ensures
        get_member(ensure_member(ms, k, v), k2) == get_member(ms, k2),
{
    lemma_member_pos(ms, k);
    lemma_member_pos(ms, k2);
    lemma_sorted_pos(ms, k);
    if member_pos(ms, k) == ms.len() {
        let q = sorted_pos(ms, k);
        let ms2 = ms.insert(q, (k, v));
        let p2 = member_pos(ms, k2);
        if p2 < q {
            assert forall|j: int| 0 <= j < p2 implies ms2[j].0 != k2 by {
                assert(ms2[j] == ms[j]);
            }
            assert(ms2[p2] == ms[p2]);
            lemma_member_pos_at(ms2, k2, p2);
        } else {
            assert forall|j: int| 0 <= j < p2 + 1 implies ms2[j].0 != k2 by {
                if j < q {
                    assert(ms2[j] == ms[j]);
                } else if j > q {
                    assert(ms2[j] == ms[j - 1]);
                }
            }
            if p2 < ms.len() {
                assert(ms2[p2 + 1] == ms[p2]);
            }
            lemma_member_pos_at(ms2, k2, p2 + 1);
        }
    }
}

/// Changing the value of the member named `k` leaves the other names'
/// values as they were.
pub proof fn lemma_get_member_update(
    ms: Seq<(Seq<char>, JsonView)>,
    p: int,
    k: Seq<char>,
    x: JsonView,
    k2: Seq<char>,
)
    requires
        0 <= p < ms.len(),
        ms[p].0 == k,
        k != k2,
    ensures
        get_member(ms.update(p, (k, x)), k2) == get_member(ms, k2),
{
    let ms2 = ms.update(p, (k, x));
    lemma_member_pos(ms, k2);
    let p2 = member_pos(ms, k2);
    assert forall|j: int| 0 <= j < p2 implies ms2[j].0 != k2 by {
        assert(ms2[j].0 == ms[j].0);
    }
    if p2 < ms.len() {
        assert(ms2[p2].0 == ms[p2].0);
    }
    lemma_member_pos_at(ms2, k2, p2);
}

/// Changing the value of the first member named `k` makes `k` name the new value.
pub proof fn lemma_get_member_update_same(ms: Seq<(Seq<char>, JsonView)>, k: Seq<char>, x: JsonView)
    requires
        member_pos(ms, k) < ms.len(),
    ensures
        get_member(ms.update(member_pos(ms, k), (k, x)), k) == Some(x),
{
    lemma_member_pos(ms, k);
    let p = member_pos(ms, k);
    let ms2 = ms.update(p, (k, x));
    assert forall|j: int| 0 <= j < p implies ms2[j].0 != k by {
        assert(ms2[j] == ms[j]);
    }
    lemma_member_pos_at(ms2, k, p);
}

#[verifier::external_type_specification]
#[verifier::external_body]
pub struct ExJsonDocument(serde_json::Value);

/// The content of the JSON document that `serde_json` reads from `text`,
/// none when the text is no JSON.
pub uninterp spec fn json_document(text: Seq<char>) -> Option<JsonView>;

/// A `serde_json` value as a library value, variant by variant: numbers
/// keep the text `serde_json` prints for them, objects keep the member
/// order of `serde_json`'s map (key order). Nothing is promised beyond the
/// conversion.
#[verifier::external_body]
fn json_of_value(v: serde_json::Value) -> JsonValue {
    match v {
        serde_json::Value::Null => JsonValue::Null,
        serde_json::Value::Bool(b) => JsonValue::Bool(b),
        serde_json::Value::Number(n) => JsonValue::Number(n.to_string()),
        serde_json::Value::String(t) => JsonValue::Str(t),
        serde_json::Value::Array(items) => JsonValue::Array(items.into_iter().map(json_of_value).collect()),
        serde_json::Value::Object(ms) => JsonValue::Object(ms.into_iter().map(|(k, x)| (k, json_of_value(x))).collect()),
    }
}

/// `serde_json::from_str::<serde_json::Value>`: the JSON document `text`
/// holds. Trusted: the result is the one `json_document` names for the
/// text, a function of the text alone; nothing more is claimed of it.
#[verifier::external_body]
pub(crate) fn parse_json(text: &str) -> (r: Option<JsonValue>)
    ensures
        match r {
            Some(v) => json_document(text@) == Some(jv(v)),
            None => json_document(text@) is None,
        },
{
    serde_json::from_str::<serde_json::Value>(text).ok().map(json_of_value)
}

} // verus!
