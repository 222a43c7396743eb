//! JSON as files hold it: every item on a line of its own, set in by two
//! blanks for each level it stands below the outermost one.

use crate::codec::{
    json_array, json_body, json_bool_text, json_escaped, json_member, json_object, json_opt_number, json_opt_string,
    json_str, json_string,
};
use crate::num::{decimal, hex_digit, is_digit, lemma_decimal};
use crate::text::{cat2, cat3, cat5, join, joined, views};
use vstd::prelude::*;

verus! {

/// A line break, and the blanks before an item `depth` levels down.
pub open spec fn line_at(depth: nat) -> Seq<char> {
    seq!['\n'] + Seq::new(2 * depth, |i: int| ' ')
}

/// What stands between two items `depth` levels down.
pub open spec fn between(depth: nat) -> Seq<char> {
    seq![','] + line_at(depth)
}

/// The given item texts, one a line, between an opening and a closing
/// bracket that stand `depth` levels down. Without items the brackets touch.
pub open spec fn laid_out(open: char, items: Seq<Seq<char>>, close: char, depth: nat) -> Seq<char> {
    if items.len() == 0 {
        seq![open, close]
    } else {
        seq![open] + line_at(depth + 1) + joined(items, between(depth + 1)) + line_at(depth) + seq![close]
    }
}

/// An array of the given element texts, `depth` levels down.
pub open spec fn laid_array(items: Seq<Seq<char>>, depth: nat) -> Seq<char> {
    laid_out('[', items, ']', depth)
}

/// An object of the given member texts, `depth` levels down.
pub open spec fn laid_object(members: Seq<Seq<char>>, depth: nat) -> Seq<char> {
    laid_out('{', members, '}', depth)
}

/// The member `name` with the given value text.
pub open spec fn laid_member(name: Seq<char>, value: Seq<char>) -> Seq<char> {
    json_string(name) + seq![':', ' '] + value
}

/// A line break, and the blanks before an item `depth` levels down.
fn new_line(depth: u8) -> (r: String)
    ensures
        r@ == line_at(depth as nat),
{
    let mut out = String::new();
    out.push('\n');
    let mut i: u8 = 0;
    assert(out@ =~= line_at(0));
    while i < depth
        invariant
            i <= depth,
            out@ == line_at(i as nat),
        decreases depth - i,
    {
        out.push(' ');
        out.push(' ');
        assert(out@ =~= line_at((i + 1) as nat));
        i += 1;
    }
    out
}

/// An array of the given element texts, `depth` levels down.
pub fn array_lines(items: &Vec<String>, depth: u8) -> (r: String)
    requires
        depth < u8::MAX,
    ensures
        r@ == laid_array(views(items@), depth as nat),
{
    proof {
        reveal_strlit("[");
        reveal_strlit("]");
        reveal_strlit("[]");
        reveal_strlit(",");
        assert("["@ =~= seq!['[']);
        assert("]"@ =~= seq![']']);
        assert("[]"@ =~= seq!['[', ']']);
        assert(","@ =~= seq![',']);
    }
    if items.len() == 0 {
        "[]".to_owned()
    } else {
        let inner = new_line(depth + 1);
        let outer = new_line(depth);
        let separator = cat2(",", inner.as_str());
        let body = join(items, separator.as_str());
        cat5("[", inner.as_str(), body.as_str(), outer.as_str(), "]")
    }
}

/// An object of the given member texts, `depth` levels down.
pub fn object_lines(members: &Vec<String>, depth: u8) -> (r: String)
    requires
        depth < u8::MAX,
    ensures
        r@ == laid_object(views(members@), depth as nat),
{
    proof {
        reveal_strlit("{");
        reveal_strlit("}");
        reveal_strlit("{}");
        reveal_strlit(",");
        assert("{"@ =~= seq!['{']);
        assert("}"@ =~= seq!['}']);
        assert("{}"@ =~= seq!['{', '}']);
        assert(","@ =~= seq![',']);
    }
    if members.len() == 0 {
        "{}".to_owned()
    } else {
        let inner = new_line(depth + 1);
        let outer = new_line(depth);
        let separator = cat2(",", inner.as_str());
        let body = join(members, separator.as_str());
        cat5("{", inner.as_str(), body.as_str(), outer.as_str(), "}")
    }
}

/// Adds a member to those of an object.
pub fn add_line(members: &mut Vec<String>, name: &str, value: &str)
    ensures
        views(final(members)@) == views(old(members)@).push(laid_member(name@, value@)),
{
    proof {
        reveal_strlit(": ");
        assert(": "@ =~= seq![':', ' ']);
    }
    let key = json_str(name);
    let pair = cat3(key.as_str(), ": ", value);
    assert(views(members@.push(pair)) =~= views(members@).push(pair@));
    members.push(pair);
}

// ---- Reading a text in one way ---------------------------------------------

/// Whether what follows an item shows that the item is over.
pub open spec fn ends_item(rest: Seq<char>) -> bool {
    rest.len() > 0 && (rest[0] == ',' || rest[0] == '\n' || rest[0] == ']' || rest[0] == '}')
}

/// Whether two items that are not the same text still show a difference once
/// more follows them.
pub open spec fn told_apart(a: Seq<char>, b: Seq<char>) -> bool {
    forall|x: Seq<char>, y: Seq<char>|
        ends_item(x) && ends_item(y) && #[trigger] (a + x) == #[trigger] (b + y) ==> a == b
}

/// What follows the same text is the same.
proof fn lemma_rest(a: Seq<char>, x: Seq<char>, y: Seq<char>)
    requires
        a + x == a + y,
    ensures
        x == y,
{
    assert(x =~= (a + x).skip(a.len() as int));
    assert(y =~= (a + y).skip(a.len() as int));
}

/// The first of several items stands in front.
proof fn lemma_joined_first(v: Seq<Seq<char>>, sep: Seq<char>)
    requires
        v.len() >= 2,
    ensures
        joined(v, sep) == v[0] + (sep + joined(v.drop_first(), sep)),
    decreases v.len(),
{
    let tail = v.drop_first();
    if v.len() == 2 {
        assert(v.drop_last() =~= seq![v[0]]);
        assert(tail =~= seq![v[1]]);
        reveal_with_fuel(joined, 2);
        assert(joined(v, sep) =~= v[0] + (sep + v[1]));
    } else {
        lemma_joined_first(v.drop_last(), sep);
        assert(v.drop_last().drop_first() =~= tail.drop_last());
        assert(joined(v, sep) =~= v[0] + (sep + (joined(tail.drop_last(), sep) + sep + v.last())));
    }
}

/// Items that can be told apart one by one can be told apart in a row.
proof fn lemma_row(a: Seq<Seq<char>>, b: Seq<Seq<char>>, sep: Seq<char>, x: Seq<char>, y: Seq<char>)
    requires
        a.len() > 0,
        b.len() > 0,
        forall|i: int| 0 <= i < a.len() && i < b.len() ==> told_apart(#[trigger] a[i], b[i]),
        sep.len() > 0,
        sep[0] == ',',
        ends_item(x),
        x[0] != ',',
        ends_item(y),
        y[0] != ',',
        joined(a, sep) + x == joined(b, sep) + y,
    ensures
        a == b,
        x == y,
    decreases a.len(),
{
    let p = if a.len() == 1 {
        x
    } else {
        sep + joined(a.drop_first(), sep) + x
    };
    let q = if b.len() == 1 {
        y
    } else {
        sep + joined(b.drop_first(), sep) + y
    };
    if a.len() > 1 {
        lemma_joined_first(a, sep);
    }
    if b.len() > 1 {
        lemma_joined_first(b, sep);
    }
    assert(joined(a, sep) + x =~= a[0] + p);
    assert(joined(b, sep) + y =~= b[0] + q);
    assert(told_apart(a[0], b[0]));
    assert(a[0] == b[0]);
    lemma_rest(a[0], p, q);
    if a.len() > 1 && b.len() > 1 {
        let ra = joined(a.drop_first(), sep) + x;
        let rb = joined(b.drop_first(), sep) + y;
        assert(p =~= sep + ra);
        assert(q =~= sep + rb);
        lemma_rest(sep, ra, rb);
        assert forall|i: int| 0 <= i < a.drop_first().len() && i < b.drop_first().len() implies told_apart(
            #[trigger] a.drop_first()[i],
            b.drop_first()[i],
        ) by {
            assert(told_apart(a[i + 1], b[i + 1]));
        }
        lemma_row(a.drop_first(), b.drop_first(), sep, x, y);
        assert(a =~= seq![a[0]] + a.drop_first());
        assert(b =~= seq![b[0]] + b.drop_first());
    } else {
        assert(p[0] == q[0]);
        assert(a.len() == 1 && b.len() == 1);
        assert(a =~= b);
    }
}

/// Brackets around items that can be told apart: the text shows the items.
proof fn lemma_laid_out(
    open: char,
    a: Seq<Seq<char>>,
    b: Seq<Seq<char>>,
    close: char,
    depth: nat,
    x: Seq<char>,
    y: Seq<char>,
)
    requires
        close != '\n',
        forall|i: int| 0 <= i < a.len() && i < b.len() ==> told_apart(#[trigger] a[i], b[i]),
        laid_out(open, a, close, depth) + x == laid_out(open, b, close, depth) + y,
    ensures
        a == b,
        x == y,
{
    let s = laid_out(open, a, close, depth);
    let t = laid_out(open, b, close, depth);
    assert((s + x)[1] == (t + y)[1]);
    if a.len() == 0 || b.len() == 0 {
        assert(a.len() == 0 ==> (s + x)[1] == close);
        assert(b.len() == 0 ==> (t + y)[1] == close);
        assert(a.len() > 0 ==> (s + x)[1] == '\n');
        assert(b.len() > 0 ==> (t + y)[1] == '\n');
        assert(a =~= b);
        lemma_rest(s, x, y);
    } else {
        let front = seq![open] + line_at(depth + 1);
        let sep = between(depth + 1);
        let p = line_at(depth) + seq![close] + x;
        let q = line_at(depth) + seq![close] + y;
        assert(s + x =~= front + (joined(a, sep) + p));
        assert(t + y =~= front + (joined(b, sep) + q));
        lemma_rest(front, joined(a, sep) + p, joined(b, sep) + q);
        lemma_row(a, b, sep, p, q);
        assert(p =~= (line_at(depth) + seq![close]) + x);
        lemma_rest(line_at(depth) + seq![close], x, y);
    }
}

/// Arrays of items that can be told apart can be told apart, and show their
/// items.
pub proof fn arrays_show_their_items(a: Seq<Seq<char>>, b: Seq<Seq<char>>, depth: nat)
    requires
        forall|i: int| 0 <= i < a.len() && i < b.len() ==> told_apart(#[trigger] a[i], b[i]),
    ensures
        told_apart(laid_array(a, depth), laid_array(b, depth)),
        laid_array(a, depth) == laid_array(b, depth) ==> a == b,
{
    let s = laid_array(a, depth);
    let t = laid_array(b, depth);
    assert forall|x: Seq<char>, y: Seq<char>|
        ends_item(x) && ends_item(y) && #[trigger] (s + x) == #[trigger] (t + y) implies s == t by {
        lemma_laid_out('[', a, b, ']', depth, x, y);
    }
    if s == t {
        let none = Seq::<char>::empty();
        assert(s + none == t + none);
        lemma_laid_out('[', a, b, ']', depth, none, none);
    }
}

/// Objects of members that can be told apart can be told apart, and show
/// their members.
pub proof fn objects_show_their_members(a: Seq<Seq<char>>, b: Seq<Seq<char>>, depth: nat)
    requires
        forall|i: int| 0 <= i < a.len() && i < b.len() ==> told_apart(#[trigger] a[i], b[i]),
    ensures
        told_apart(laid_object(a, depth), laid_object(b, depth)),
        laid_object(a, depth) == laid_object(b, depth) ==> a == b,
{
    let s = laid_object(a, depth);
    let t = laid_object(b, depth);
    assert forall|x: Seq<char>, y: Seq<char>|
        ends_item(x) && ends_item(y) && #[trigger] (s + x) == #[trigger] (t + y) implies s == t by {
        lemma_laid_out('{', a, b, '}', depth, x, y);
    }
    if s == t {
        let none = Seq::<char>::empty();
        assert(s + none == t + none);
        lemma_laid_out('{', a, b, '}', depth, none, none);
    }
}

/// Members of one name can be told apart where their values can, and show
/// their values.
pub proof fn members_show_their_values(name: Seq<char>, v: Seq<char>, w: Seq<char>)
    requires
        told_apart(v, w),
    ensures
        told_apart(laid_member(name, v), laid_member(name, w)),
        laid_member(name, v) == laid_member(name, w) ==> v == w,
{
    let key = json_string(name) + seq![':', ' '];
    let s = laid_member(name, v);
    let t = laid_member(name, w);
    assert forall|x: Seq<char>, y: Seq<char>|
        ends_item(x) && ends_item(y) && #[trigger] (s + x) == #[trigger] (t + y) implies s == t by {
        assert(s + x =~= key + (v + x));
        assert(t + y =~= key + (w + y));
        lemma_rest(key, v + x, w + y);
    }
    if s == t {
        lemma_rest(key, v, w);
    }
}

/// One escaped character is read in one way.
proof fn lemma_escaped(c: char, d: char, x: Seq<char>, y: Seq<char>)
    requires
        json_escaped(c) + x == json_escaped(d) + y,
    ensures
        c == d,
        x == y,
{
    let s = json_escaped(c) + x;
    let t = json_escaped(d) + y;
    assert(s[0] == json_escaped(c)[0] && t[0] == json_escaped(d)[0]);
    if json_escaped(c).len() > 1 && json_escaped(d).len() > 1 {
        assert(s[1] == json_escaped(c)[1] && t[1] == json_escaped(d)[1]);
        if json_escaped(c).len() > 2 && json_escaped(d).len() > 2 {
            assert(s[4] == hex_digit(c as int / 16) && t[4] == hex_digit(d as int / 16));
            assert(s[5] == hex_digit(c as int % 16) && t[5] == hex_digit(d as int % 16));
            assert(c as int / 16 == d as int / 16);
            assert(c as int % 16 == d as int % 16);
        }
    }
    assert(c == d);
    lemma_rest(json_escaped(c), x, y);
}

/// The first character of a text stands in front of the escaped text.
proof fn lemma_body_first(s: Seq<char>)
    requires
        s.len() > 0,
    ensures
        json_body(s) == json_escaped(s[0]) + json_body(s.drop_first()),
    decreases s.len(),
{
    if s.len() == 1 {
        assert(s.drop_last() =~= Seq::<char>::empty());
        assert(s.drop_first() =~= Seq::<char>::empty());
        reveal_with_fuel(json_body, 2);
        assert(json_body(s) =~= json_escaped(s[0]));
    } else {
        lemma_body_first(s.drop_last());
        assert(s.drop_last().drop_first() =~= s.drop_first().drop_last());
        assert(json_body(s) =~= json_escaped(s[0]) + (json_body(s.drop_first().drop_last()) + json_escaped(
            s.last(),
        )));
    }
}

/// An escaped text ends with the first quote that is not escaped.
proof fn lemma_body(s: Seq<char>, t: Seq<char>, x: Seq<char>, y: Seq<char>)
    requires
        json_body(s) + (seq!['"'] + x) == json_body(t) + (seq!['"'] + y),
    ensures
        s == t,
        x == y,
    decreases s.len(),
{
    let p = seq!['"'] + x;
    let q = seq!['"'] + y;
    if s.len() > 0 {
        lemma_body_first(s);
        assert(json_body(s) + p =~= json_escaped(s[0]) + (json_body(s.drop_first()) + p));
        assert((json_body(s) + p)[0] == json_escaped(s[0])[0]);
    } else {
        assert(json_body(s) + p =~= p);
    }
    if t.len() > 0 {
        lemma_body_first(t);
        assert(json_body(t) + q =~= json_escaped(t[0]) + (json_body(t.drop_first()) + q));
        assert((json_body(t) + q)[0] == json_escaped(t[0])[0]);
    } else {
        assert(json_body(t) + q =~= q);
    }
    if s.len() > 0 && t.len() > 0 {
        lemma_escaped(s[0], t[0], json_body(s.drop_first()) + p, json_body(t.drop_first()) + q);
        lemma_body(s.drop_first(), t.drop_first(), x, y);
        assert(s =~= seq![s[0]] + s.drop_first());
        assert(t =~= seq![t[0]] + t.drop_first());
    } else {
        assert(s.len() == 0 && t.len() == 0);
        assert(s =~= t);
        lemma_rest(seq!['"'], x, y);
    }
}

/// A string ends with the first quote that is not escaped.
proof fn lemma_string(s: Seq<char>, t: Seq<char>, x: Seq<char>, y: Seq<char>)
    requires
        json_string(s) + x == json_string(t) + y,
    ensures
        s == t,
        x == y,
{
    let p = json_body(s) + (seq!['"'] + x);
    let q = json_body(t) + (seq!['"'] + y);
    assert(json_string(s) + x =~= seq!['"'] + p);
    assert(json_string(t) + y =~= seq!['"'] + q);
    lemma_rest(seq!['"'], p, q);
    lemma_body(s, t, x, y);
}

/// Strings can be told apart, and show what they say.
pub proof fn strings_show_their_text(s: Seq<char>, t: Seq<char>)
    ensures
        told_apart(json_string(s), json_string(t)),
        json_string(s) == json_string(t) ==> s == t,
{
    let a = json_string(s);
    let b = json_string(t);
    assert forall|x: Seq<char>, y: Seq<char>| #[trigger] (a + x) == #[trigger] (b + y) implies s == t by {
        lemma_string(s, t, x, y);
    }
    if a == b {
        let none = Seq::<char>::empty();
        assert(a + none == b + none);
    }
}

/// Members of different names can be told apart whatever their values are.
pub proof fn members_show_their_names(m: Seq<char>, v: Seq<char>, n: Seq<char>, w: Seq<char>)
    requires
        m != n,
    ensures
        told_apart(laid_member(m, v), laid_member(n, w)),
        laid_member(m, v) != laid_member(n, w),
{
    let s = laid_member(m, v);
    let t = laid_member(n, w);
    let rest = seq![':', ' '];
    assert forall|x: Seq<char>, y: Seq<char>| #[trigger] (s + x) == #[trigger] (t + y) implies s == t by {
        assert(s + x =~= json_string(m) + (rest + v + x));
        assert(t + y =~= json_string(n) + (rest + w + y));
        lemma_string(m, n, rest + v + x, rest + w + y);
    }
    if s == t {
        assert(s =~= json_string(m) + (rest + v));
        assert(t =~= json_string(n) + (rest + w));
        lemma_string(m, n, rest + v, rest + w);
    }
}

/// Numbers can be told apart, and show their value.
pub proof fn numbers_show_their_value(m: nat, n: nat)
    ensures
        told_apart(decimal(m), decimal(n)),
        decimal(m) == decimal(n) ==> m == n,
{
    lemma_decimal(m);
    lemma_decimal(n);
    let a = decimal(m);
    let b = decimal(n);
    assert forall|x: Seq<char>, y: Seq<char>|
        ends_item(x) && ends_item(y) && #[trigger] (a + x) == #[trigger] (b + y) implies a == b by {
        if a.len() < b.len() {
            assert((a + x)[a.len() as int] == x[0]);
            assert((b + y)[a.len() as int] == b[a.len() as int]);
            assert(is_digit(b[a.len() as int]));
        } else if b.len() < a.len() {
            assert((b + y)[b.len() as int] == y[0]);
            assert((a + x)[b.len() as int] == a[b.len() as int]);
            assert(is_digit(a[b.len() as int]));
        } else {
            assert(a =~= (a + x).take(a.len() as int));
            assert(b =~= (b + y).take(a.len() as int));
        }
    }
}

/// Truth values can be told apart, and show which they are.
pub proof fn truth_values_show(p: bool, q: bool)
    ensures
        told_apart(json_bool_text(p), json_bool_text(q)),
        json_bool_text(p) == json_bool_text(q) ==> p == q,
{
    reveal_strlit("true");
    reveal_strlit("false");
    let a = json_bool_text(p);
    let b = json_bool_text(q);
    assert(p != q ==> a[0] != b[0]);
    assert forall|x: Seq<char>, y: Seq<char>| #[trigger] (a + x) == #[trigger] (b + y) implies a == b by {
        assert((a + x)[0] == a[0] && (b + y)[0] == b[0]);
    }
}

/// Strings that may be missing can be told apart, and show what they say.
pub proof fn optional_strings_show_their_text(s: Option<Seq<char>>, t: Option<Seq<char>>)
    ensures
        told_apart(json_opt_string(s), json_opt_string(t)),
        json_opt_string(s) == json_opt_string(t) ==> s == t,
{
    reveal_strlit("null");
    if s is Some && t is Some {
        strings_show_their_text(s->0, t->0);
    } else {
        let a = json_opt_string(s);
        let b = json_opt_string(t);
        assert(s is None && t is None || a[0] != b[0]);
        assert forall|x: Seq<char>, y: Seq<char>| #[trigger] (a + x) == #[trigger] (b + y) implies a == b by {
            assert((a + x)[0] == a[0] && (b + y)[0] == b[0]);
        }
    }
}

/// Numbers that may be missing can be told apart, and show their value.
pub proof fn optional_numbers_show_their_value(m: Option<nat>, n: Option<nat>)
    ensures
        told_apart(json_opt_number(m), json_opt_number(n)),
        json_opt_number(m) == json_opt_number(n) ==> m == n,
{
    reveal_strlit("null");
    if m is Some && n is Some {
        numbers_show_their_value(m->0, n->0);
    } else {
        let a = json_opt_number(m);
        let b = json_opt_number(n);
        if m is Some {
            lemma_decimal(m->0);
            assert(is_digit(a[0]));
        }
        if n is Some {
            lemma_decimal(n->0);
            assert(is_digit(b[0]));
        }
        assert(m is None && n is None || a[0] != b[0]);
        assert forall|x: Seq<char>, y: Seq<char>| #[trigger] (a + x) == #[trigger] (b + y) implies a == b by {
            assert((a + x)[0] == a[0] && (b + y)[0] == b[0]);
        }
    }
}

// ---- JSON on one line ------------------------------------------------------

/// Whether a text begins as a value or a member does.
pub open spec fn begins_item(a: Seq<char>) -> bool {
    a.len() > 0 && a[0] != ']' && a[0] != '}'
}

/// Brackets around items that can be told apart, on one line: the text shows
/// the items.
proof fn lemma_listed(
    open: char,
    a: Seq<Seq<char>>,
    b: Seq<Seq<char>>,
    close: char,
    x: Seq<char>,
    y: Seq<char>,
)
    requires
        close == ']' || close == '}',
        forall|i: int| 0 <= i < a.len() && i < b.len() ==> told_apart(#[trigger] a[i], b[i]),
        a.len() > 0 ==> begins_item(a[0]),
        b.len() > 0 ==> begins_item(b[0]),
        seq![open] + joined(a, seq![',']) + seq![close] + x == seq![open] + joined(b, seq![',']) + seq![close] + y,
    ensures
        a == b,
        x == y,
{
    let p = seq![close] + x;
    let q = seq![close] + y;
    let ja = joined(a, seq![',']);
    let jb = joined(b, seq![',']);
    assert(seq![open] + ja + seq![close] + x =~= seq![open] + (ja + p));
    assert(seq![open] + jb + seq![close] + y =~= seq![open] + (jb + q));
    lemma_rest(seq![open], ja + p, jb + q);
    if a.len() == 0 || b.len() == 0 {
        if a.len() > 0 {
            if a.len() > 1 {
                lemma_joined_first(a, seq![',']);
            }
            assert((ja + p)[0] == a[0][0]);
            assert((jb + q)[0] == close);
        }
        if b.len() > 0 {
            if b.len() > 1 {
                lemma_joined_first(b, seq![',']);
            }
            assert((jb + q)[0] == b[0][0]);
            assert((ja + p)[0] == close);
        }
        assert(a =~= b);
        assert(ja + p =~= p);
        assert(jb + q =~= q);
    } else {
        lemma_row(a, b, seq![','], p, q);
    }
    lemma_rest(seq![close], x, y);
}

/// Arrays on one line show their items.
pub proof fn lists_show_their_items(a: Seq<Seq<char>>, b: Seq<Seq<char>>)
    requires
        forall|i: int| 0 <= i < a.len() && i < b.len() ==> told_apart(#[trigger] a[i], b[i]),
        a.len() > 0 ==> begins_item(a[0]),
        b.len() > 0 ==> begins_item(b[0]),
    ensures
        told_apart(json_array(a), json_array(b)),
        json_array(a) == json_array(b) ==> a == b,
        begins_item(json_array(a)),
{
    let s = json_array(a);
    let t = json_array(b);
    assert forall|x: Seq<char>, y: Seq<char>|
        ends_item(x) && ends_item(y) && #[trigger] (s + x) == #[trigger] (t + y) implies s == t by {
        lemma_listed('[', a, b, ']', x, y);
    }
    if s == t {
        let none = Seq::<char>::empty();
        assert(s + none == t + none);
        lemma_listed('[', a, b, ']', none, none);
    }
}

/// Objects on one line show their members.
pub proof fn maps_show_their_members(a: Seq<Seq<char>>, b: Seq<Seq<char>>)
    requires
        forall|i: int| 0 <= i < a.len() && i < b.len() ==> told_apart(#[trigger] a[i], b[i]),
        a.len() > 0 ==> begins_item(a[0]),
        b.len() > 0 ==> begins_item(b[0]),
    ensures
        told_apart(json_object(a), json_object(b)),
        json_object(a) == json_object(b) ==> a == b,
        begins_item(json_object(a)),
{
    let s = json_object(a);
    let t = json_object(b);
    assert forall|x: Seq<char>, y: Seq<char>|
        ends_item(x) && ends_item(y) && #[trigger] (s + x) == #[trigger] (t + y) implies s == t by {
        lemma_listed('{', a, b, '}', x, y);
    }
    if s == t {
        let none = Seq::<char>::empty();
        assert(s + none == t + none);
        lemma_listed('{', a, b, '}', none, none);
    }
}

/// Members on one line show their values, where the names are the same.
pub proof fn pairs_show_their_values(name: Seq<char>, v: Seq<char>, w: Seq<char>)
    requires
        told_apart(v, w),
    ensures
        told_apart(json_member(name, v), json_member(name, w)),
        json_member(name, v) == json_member(name, w) ==> v == w,
        begins_item(json_member(name, v)),
{
    let key = json_string(name) + seq![':'];
    let s = json_member(name, v);
    let t = json_member(name, w);
    assert forall|x: Seq<char>, y: Seq<char>|
        ends_item(x) && ends_item(y) && #[trigger] (s + x) == #[trigger] (t + y) implies s == t by {
        assert(s + x =~= key + (v + x));
        assert(t + y =~= key + (w + y));
        lemma_rest(key, v + x, w + y);
    }
    if s == t {
        lemma_rest(key, v, w);
    }
}

/// Members on one line show their names and, where these are the same, their
/// values.
pub proof fn pairs_show_their_names(m: Seq<char>, v: Seq<char>, n: Seq<char>, w: Seq<char>)
    requires
        told_apart(v, w),
    ensures
        told_apart(json_member(m, v), json_member(n, w)),
        json_member(m, v) == json_member(n, w) ==> m == n && v == w,
{
    if m == n {
        pairs_show_their_values(m, v, w);
    } else {
        let s = json_member(m, v);
        let t = json_member(n, w);
        let rest = seq![':'];
        assert forall|x: Seq<char>, y: Seq<char>| #[trigger] (s + x) == #[trigger] (t + y) implies s == t by {
            assert(s + x =~= json_string(m) + (rest + v + x));
            assert(t + y =~= json_string(n) + (rest + w + y));
            lemma_string(m, n, rest + v + x, rest + w + y);
        }
        if s == t {
            assert(s =~= json_string(m) + (rest + v));
            assert(t =~= json_string(n) + (rest + w));
            lemma_string(m, n, rest + v, rest + w);
        }
    }
}

/// Lists of strings on one line show what they say.
pub proof fn string_lists_show_their_texts(c: Seq<Seq<char>>, d: Seq<Seq<char>>)
    ensures
        ({
            let text = |t: Seq<char>| json_string(t);
            let s = json_array(c.map_values(text));
            let t = json_array(d.map_values(text));
            told_apart(s, t) && (s == t ==> c == d) && begins_item(s)
        }),
{
    let text = |t: Seq<char>| json_string(t);
    let a = c.map_values(text);
    let b = d.map_values(text);
    assert forall|i: int| 0 <= i < a.len() && i < b.len() implies told_apart(#[trigger] a[i], b[i]) by {
        strings_show_their_text(c[i], d[i]);
    }
    lists_show_their_items(a, b);
    if a == b {
        assert(c.len() == a.len() && d.len() == b.len());
        assert forall|i: int| 0 <= i < c.len() implies c[i] == d[i] by {
            assert(a[i] == b[i]);
            strings_show_their_text(c[i], d[i]);
        }
        assert(c =~= d);
    }
}

/// Members on one line of different names can be told apart whatever their
/// values are.
pub proof fn members_on_one_line_show_their_names(m: Seq<char>, v: Seq<char>, n: Seq<char>, w: Seq<char>)
    requires
        m != n,
    ensures
        told_apart(json_member(m, v), json_member(n, w)),
        json_member(m, v) != json_member(n, w),
{
    let s = json_member(m, v);
    let t = json_member(n, w);
    let rest = seq![':'];
    assert forall|x: Seq<char>, y: Seq<char>| #[trigger] (s + x) == #[trigger] (t + y) implies s == t by {
        assert(s + x =~= json_string(m) + (rest + v + x));
        assert(t + y =~= json_string(n) + (rest + w + y));
        lemma_string(m, n, rest + v + x, rest + w + y);
    }
    if s == t {
        assert(s =~= json_string(m) + (rest + v));
        assert(t =~= json_string(n) + (rest + w));
        lemma_string(m, n, rest + v, rest + w);
    }
}

} // verus!
