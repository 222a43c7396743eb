//! Encodings shared by every module: hexadecimal, UTF-8, JSON text, and the
//! quoted form of a text used in messages.

use crate::num::{decimal, hex_digit, hex_value, u64_text};
use crate::text::{cat3, views};
use rand::RngCore;
use vstd::prelude::*;
use vstd::utf8::{decode_utf8, encode_utf8, is_ascii_chars, is_ascii_chars_encode_utf8, valid_utf8};

verus! {

// ---- Bytes and UTF-8 -------------------------------------------------------

/// The UTF-8 encoding of `s`.
pub fn bytes_of(s: &str) -> (r: Vec<u8>)
    ensures
        r@ == encode_utf8(s@),
{
    s.as_bytes_vec()
}

/// Appends the UTF-8 encoding of `s` to `out`.
pub fn push_str_bytes(out: &mut Vec<u8>, s: &str)
    ensures
        final(out)@ == old(out)@ + encode_utf8(s@),
{
    let mut more = bytes_of(s);
    out.append(&mut more);
}

/// `String::from_utf8` gives the text that `bytes` encode, and nothing
/// exactly when they are not well-formed UTF-8.
#[verifier::external_body]
pub(crate) fn text_of(bytes: Vec<u8>) -> (r: Option<String>)
    ensures
        r is Some <==> valid_utf8(bytes@),
        r matches Some(s) ==> s@ == decode_utf8(bytes@),
{
    String::from_utf8(bytes).ok()
}

/// `rand`'s thread-local generator (`rand::RngCore::fill_bytes`): `n` bytes,
/// any bytes.
#[verifier::external_body]
pub(crate) fn random_bytes(n: usize) -> (r: Vec<u8>)
    ensures
        r@.len() == n,
{
    let mut bytes = vec![0u8; n];
    rand::thread_rng().fill_bytes(&mut bytes);
    bytes
}

/// Whether two byte strings are equal.
pub fn bytes_eq(a: &[u8], b: &[u8]) -> (r: bool)
    ensures
        r == (a@ == b@),
{
    if a.len() != b.len() {
        return false;
    }
    let mut i: usize = 0;
    while i < a.len()
        invariant
            a@.len() == b@.len(),
            i <= a@.len(),
            forall|j: int| 0 <= j < i ==> a@[j] == b@[j],
        decreases a.len() - i,
    {
        if a[i] != b[i] {
            return false;
        }
        i += 1;
    }
    assert(a@ == b@);
    true
}

// ---- Hexadecimal -----------------------------------------------------------

/// The lower case hexadecimal text of `b`: two digits per byte, high digit first.
pub open spec fn hex_text(b: Seq<u8>) -> Seq<char> {
    Seq::new(
        2 * b.len(),
        |i: int| hex_digit(
            if i % 2 == 0 {
                b[i / 2] as int / 16
            } else {
                b[i / 2] as int % 16
            },
        ),
    )
}

/// Whether every byte of `b` is an ASCII hexadecimal digit of either case.
pub open spec fn all_hex(b: Seq<u8>) -> bool {
    forall|i: int| 0 <= i < b.len() ==> hex_value(#[trigger] b[i] as char) is Some
}

/// The bytes that the hexadecimal digits `b` denote, if they denote any: an
/// even number of digits, of either case.
pub open spec fn hex_bytes(b: Seq<u8>) -> Option<Seq<u8>> {
    if b.len() % 2 == 0 && all_hex(b) {
        Some(
            Seq::new(
                b.len() / 2,
                |i: int| (hex_value(b[2 * i] as char)->0 * 16 + hex_value(b[2 * i + 1] as char)->0) as u8,
            ),
        )
    } else {
        None
    }
}

/// What `hex::decode` says of a text that is not hexadecimal.
pub uninterp spec fn hex_complaint(b: Seq<u8>) -> Seq<char>;

/// `hex::encode` renders each byte as two lower case hexadecimal digits.
#[verifier::external_body]
pub(crate) fn hex_encode(b: &[u8]) -> (r: String)
    ensures
        r@ == hex_text(b@),
{
    hex::encode(b)
}

/// `hex::decode` accepts an even number of hexadecimal digits of either case
/// and returns the bytes they denote. On any other text it fails, and what
/// its error then says depends on the text alone.
#[verifier::external_body]
pub(crate) fn hex_decode(s: &str) -> (r: Result<Vec<u8>, String>)
    ensures
        match r {
            Ok(b) => hex_bytes(encode_utf8(s@)) == Some(b@),
            Err(e) => hex_bytes(encode_utf8(s@)) is None && e@ == hex_complaint(encode_utf8(s@)),
        },
{
    hex::decode(s).map_err(|e| e.to_string())
}

/// Hexadecimal text is ASCII, and its UTF-8 encoding is one byte per digit.
pub proof fn lemma_hex_text_ascii(b: Seq<u8>)
    ensures
        is_ascii_chars(hex_text(b)),
        encode_utf8(hex_text(b)).len() == 2 * b.len(),
        forall|i: int|
            0 <= i < 2 * b.len() ==> #[trigger] encode_utf8(hex_text(b))[i] as char == hex_text(b)[i],
{
    let t = hex_text(b);
    assert forall|i: int| 0 <= i < t.len() implies '\0' <= #[trigger] t[i] <= '\u{7f}' by {
        assert(0 <= b[i / 2] as int / 16 < 16);
        assert(0 <= b[i / 2] as int % 16 < 16);
    }
    is_ascii_chars_encode_utf8(t);
}

/// Decoding what was encoded gives the bytes back.
pub proof fn hex_round_trip(b: Seq<u8>)
    ensures
        hex_bytes(encode_utf8(hex_text(b))) == Some(b),
{
    lemma_hex_text_ascii(b);
    let t = hex_text(b);
    let e = encode_utf8(t);
    assert forall|i: int| 0 <= i < e.len() implies hex_value(#[trigger] e[i] as char) is Some by {
        assert(e[i] as char == t[i]);
        assert(0 <= b[i / 2] as int / 16 < 16);
        assert(0 <= b[i / 2] as int % 16 < 16);
    }
    let d = hex_bytes(e)->0;
    assert forall|i: int| 0 <= i < b.len() implies d[i] == b[i] by {
        assert(e[2 * i] as char == t[2 * i]);
        assert(e[2 * i + 1] as char == t[2 * i + 1]);
        assert((2 * i) / 2 == i && (2 * i + 1) / 2 == i);
        assert(hex_value(hex_digit(b[i] as int / 16)) == Some(b[i] as int / 16));
        assert(hex_value(hex_digit(b[i] as int % 16)) == Some(b[i] as int % 16));
    }
    assert(d == b);
}

/// Two byte strings with the same hexadecimal text are the same.
pub proof fn hex_text_is_injective(a: Seq<u8>, b: Seq<u8>)
    requires
        hex_text(a) == hex_text(b),
    ensures
        a == b,
{
    hex_round_trip(a);
    hex_round_trip(b);
}

// ---- Quoted text -----------------------------------------------------------

/// The quoted form that `{:?}` gives a text.
pub uninterp spec fn quoted_text(s: Seq<char>) -> Seq<char>;

/// The `Debug` rendering of a `str`: the text in double quotes with its
/// special characters escaped. Which characters are escaped follows
/// Unicode tables, so the result is only named here.
#[verifier::external_body]
pub(crate) fn quoted(s: &str) -> (r: String)
    ensures
        r@ == quoted_text(s@),
{
    format!("{s:?}")
}

// ---- JSON text -------------------------------------------------------------

/// One character inside a JSON string.
pub open spec fn json_escaped(c: char) -> Seq<char> {
    if c == '"' {
        seq!['\\', '"']
    } else if c == '\\' {
        seq!['\\', '\\']
    } else if c == '\u{8}' {
        seq!['\\', 'b']
    } else if c == '\u{c}' {
        seq!['\\', 'f']
    } else if c == '\n' {
        seq!['\\', 'n']
    } else if c == '\r' {
        seq!['\\', 'r']
    } else if c == '\t' {
        seq!['\\', 't']
    } else if 32 > c as int {
        seq!['\\', 'u', '0', '0', hex_digit(c as int / 16), hex_digit(c as int % 16)]
    } else {
        seq![c]
    }
}

/// The characters of `s` escaped for a JSON string, in order.
pub open spec fn json_body(s: Seq<char>) -> Seq<char>
    decreases s.len(),
{
    if s.len() == 0 {
        Seq::empty()
    } else {
        json_body(s.drop_last()) + json_escaped(s.last())
    }
}

/// `s` as a JSON string.
pub open spec fn json_string(s: Seq<char>) -> Seq<char> {
    seq!['"'] + json_body(s) + seq!['"']
}

/// A JSON array of the given element texts.
pub open spec fn json_array(items: Seq<Seq<char>>) -> Seq<char> {
    seq!['['] + crate::text::joined(items, seq![',']) + seq![']']
}

/// A JSON object of the given member texts.
pub open spec fn json_object(members: Seq<Seq<char>>) -> Seq<char> {
    seq!['{'] + crate::text::joined(members, seq![',']) + seq!['}']
}

/// The member `name` with the given value text.
pub open spec fn json_member(name: Seq<char>, value: Seq<char>) -> Seq<char> {
    json_string(name) + seq![':'] + value
}

/// A JSON truth value.
pub open spec fn json_bool_text(b: bool) -> Seq<char> {
    if b {
        "true"@
    } else {
        "false"@
    }
}

/// A JSON string, or `null` for nothing.
pub open spec fn json_opt_string(s: Option<Seq<char>>) -> Seq<char> {
    match s {
        Some(t) => json_string(t),
        None => "null"@,
    }
}

/// A JSON number, or `null` for nothing.
pub open spec fn json_opt_number(n: Option<nat>) -> Seq<char> {
    match n {
        Some(v) => decimal(v),
        None => "null"@,
    }
}

/// `serde_json::to_string` renders a `str` as a JSON string: quotes,
/// backslashes and control characters are escaped, the two-character
/// escapes where JSON has one, `\u00xx` otherwise; every other character
/// stands for itself.
#[verifier::external_body]
pub(crate) fn json_str(s: &str) -> (r: String)
    ensures
        r@ == json_string(s@),
{
    serde_json::to_string(s).expect("a text always serializes")
}

/// A JSON array of the given element texts.
pub fn json_list(items: &Vec<String>) -> (r: String)
    ensures
        r@ == json_array(views(items@)),
{
    proof {
        reveal_strlit("[");
        reveal_strlit(",");
        reveal_strlit("]");
        assert("["@ == seq!['[']);
        assert(","@ == seq![',']);
        assert("]"@ == seq![']']);
    }
    let body = crate::text::join(items, ",");
    cat3("[", body.as_str(), "]")
}

/// A JSON object of the given member texts.
pub fn json_map(members: &Vec<String>) -> (r: String)
    ensures
        r@ == json_object(views(members@)),
{
    proof {
        reveal_strlit("{");
        reveal_strlit(",");
        reveal_strlit("}");
        assert("{"@ == seq!['{']);
        assert(","@ == seq![',']);
        assert("}"@ == seq!['}']);
    }
    let body = crate::text::join(members, ",");
    cat3("{", body.as_str(), "}")
}

/// The member `name` with the given value text.
pub fn json_pair(name: &str, value: &str) -> (r: String)
    ensures
        r@ == json_member(name@, value@),
{
    proof {
        reveal_strlit(":");
        assert(":"@ == seq![':']);
    }
    let key = json_str(name);
    cat3(key.as_str(), ":", value)
}

/// A JSON truth value.
pub fn json_bool(b: bool) -> (r: String)
    ensures
        r@ == json_bool_text(b),
{
    if b {
        "true".to_owned()
    } else {
        "false".to_owned()
    }
}

/// A JSON string, or `null` for nothing.
pub fn json_opt_str(s: &Option<String>) -> (r: String)
    ensures
        r@ == json_opt_string(
            match *s {
                Some(t) => Some(t@),
                None => None,
            },
        ),
{
    match s {
        Some(t) => json_str(t.as_str()),
        None => "null".to_owned(),
    }
}

/// A JSON number, or `null` for nothing.
pub fn json_opt_u64(n: Option<u64>) -> (r: String)
    ensures
        r@ == json_opt_number(
            match n {
                Some(v) => Some(v as nat),
                None => None,
            },
        ),
{
    match n {
        Some(v) => u64_text(v),
        None => "null".to_owned(),
    }
}

/// What has a JSON text.
pub trait ToJson: Sized {
    /// The JSON text.
    spec fn json(&self) -> Seq<char>;

    /// The JSON text.
    fn to_json(&self) -> (r: String)
        ensures
            r@ == self.json(),
    ;
}

/// The JSON texts of several values.
pub open spec fn jsons<T: ToJson>(v: Seq<T>) -> Seq<Seq<char>> {
    v.map_values(|t: T| t.json())
}

/// A JSON array of several values.
pub fn json_items<T: ToJson>(v: &Vec<T>) -> (r: String)
    ensures
        r@ == json_array(jsons(v@)),
{
    let ghost all = jsons(v@);
    let mut items: Vec<String> = Vec::new();
    let mut i: usize = 0;
    while i < v.len()
        invariant
            i <= v@.len(),
            all == jsons(v@),
            views(items@) == all.take(i as int),
        decreases v.len() - i,
    {
        let j = v[i].to_json();
        assert(views(items@.push(j)) =~= views(items@).push(j@));
        assert(all.take(i + 1) =~= all.take(i as int).push(j@));
        items.push(j);
        i += 1;
    }
    assert(all.take(i as int) =~= all);
    json_list(&items)
}

/// A JSON array of texts.
pub fn json_texts(v: &Vec<String>) -> (r: String)
    ensures
        r@ == json_array(views(v@).map_values(|s: Seq<char>| json_string(s))),
{
    let ghost all = views(v@).map_values(|s: Seq<char>| json_string(s));
    let mut items: Vec<String> = Vec::new();
    let mut i: usize = 0;
    while i < v.len()
        invariant
            i <= v@.len(),
            all == views(v@).map_values(|s: Seq<char>| json_string(s)),
            views(items@) == all.take(i as int),
        decreases v.len() - i,
    {
        let j = json_str(v[i].as_str());
        assert(views(items@.push(j)) =~= views(items@).push(j@));
        assert(all.take(i + 1) =~= all.take(i as int).push(j@));
        items.push(j);
        i += 1;
    }
    assert(all.take(i as int) =~= all);
    json_list(&items)
}

/// Adds a member to those of an object.
pub fn add_member(members: &mut Vec<String>, name: &str, value: &str)
    ensures
        views(final(members)@) == views(old(members)@).push(json_member(name@, value@)),
{
    let pair = json_pair(name, value);
    assert(views(members@.push(pair)) =~= views(members@).push(pair@));
    members.push(pair);
}

/// Strings are escaped character by character, and a character that needs no
/// escape stands for itself.
pub proof fn strings_are_escaped_where_they_must(a: Seq<char>, b: Seq<char>, c: char)
    ensures
        json_body(a + b) == json_body(a) + json_body(b),
        c as int >= 32 && c != '"' && c != '\\' ==> json_string(seq![c]) == seq!['"', c, '"'],
        json_string(seq!['"']) == seq!['"', '\\', '"', '"'],
        json_string(seq!['\\']) == seq!['"', '\\', '\\', '"'],
        json_string(seq!['\n']) == seq!['"', '\\', 'n', '"'],
        json_string(seq!['\r']) == seq!['"', '\\', 'r', '"'],
        json_string(seq!['\t']) == seq!['"', '\\', 't', '"'],
        json_string(Seq::empty()) == seq!['"', '"'],
    decreases b.len(),
{
    lemma_one_escape(c);
    lemma_one_escape('"');
    lemma_one_escape('\\');
    lemma_one_escape('\n');
    lemma_one_escape('\r');
    lemma_one_escape('\t');
    assert(json_string(Seq::empty()) =~= seq!['"', '"']);
    if b.len() == 0 {
        assert(a + b =~= a);
        assert(json_body(a + b) =~= json_body(a) + json_body(b));
    } else {
        strings_are_escaped_where_they_must(a, b.drop_last(), c);
        assert((a + b).drop_last() =~= a + b.drop_last());
        assert((a + b).last() == b.last());
        assert(json_body(a + b) =~= json_body(a) + json_body(b));
    }
}

/// A string of one character.
proof fn lemma_one_escape(c: char)
    ensures
        json_string(seq![c]) == seq!['"'] + json_escaped(c) + seq!['"'],
        json_escaped(c) == seq![c] ==> json_string(seq![c]) == seq!['"', c, '"'],
        json_escaped(c).len() == 2 ==> json_string(seq![c]) == seq!['"', json_escaped(c)[0], json_escaped(c)[1], '"'],
{
    reveal_with_fuel(json_body, 2);
    assert(seq![c].drop_last() =~= Seq::<char>::empty());
    assert(json_body(seq![c]) =~= json_escaped(c));
    if json_escaped(c).len() == 2 {
        assert(json_string(seq![c]) =~= seq!['"', json_escaped(c)[0], json_escaped(c)[1], '"']);
    }
    if json_escaped(c) == seq![c] {
        assert(json_string(seq![c]) =~= seq!['"', c, '"']);
    }
}

/// Other control characters are written by their number.
pub proof fn control_characters_are_numbered(c: char)
    requires
        (c as int) < 32,
        c != '\u{8}' && c != '\u{c}' && c != '\n' && c != '\r' && c != '\t',
    ensures
        ({
            let t = json_string(seq![c]);
            &&& t.len() == 8
            &&& t.subrange(0, 5) == seq!['"', '\\', 'u', '0', '0']
            &&& hex_value(t[5]) is Some && hex_value(t[6]) is Some
            &&& hex_value(t[5])->0 * 16 + hex_value(t[6])->0 == c as int
            &&& t[7] == '"'
        }),
{
    lemma_one_escape(c);
    crate::num::digits_are_worth_what_they_say(c as int / 16);
    crate::num::digits_are_worth_what_they_say(c as int % 16);
    assert(json_string(seq![c]).subrange(0, 5) =~= seq!['"', '\\', 'u', '0', '0']);
}

/// Texts of bytes have two digits for each byte, the high one first.
pub proof fn bytes_are_two_digits(b: Seq<u8>, i: int)
    requires
        0 <= i < b.len(),
    ensures
        hex_text(b).len() == 2 * b.len(),
        hex_value(hex_text(b)[2 * i]) == Some(b[i] as int / 16),
        hex_value(hex_text(b)[2 * i + 1]) == Some(b[i] as int % 16),
{
    crate::num::digits_are_worth_what_they_say(b[i] as int / 16);
    crate::num::digits_are_worth_what_they_say(b[i] as int % 16);
}

} // verus!
