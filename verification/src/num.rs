//! Numbers as text: decimal and hexadecimal rendering, and strict parsing.

use crate::text::chars_of;
use vstd::prelude::*;

verus! {

/// The decimal digit for `d`.
pub open spec fn digit(d: int) -> char {
    (48 + d) as char
}

/// The decimal rendering of `n`, without leading zeros.
pub open spec fn decimal(n: nat) -> Seq<char>
    decreases n,
{
    if n < 10 {
        seq![digit(n as int)]
    } else {
        decimal(n / 10).push(digit((n % 10) as int))
    }
}

/// The decimal rendering of a possibly negative number.
pub open spec fn signed_decimal(n: int) -> Seq<char> {
    if n < 0 {
        seq!['-'] + decimal((-n) as nat)
    } else {
        decimal(n as nat)
    }
}

/// Whether `c` is one of `0` to `9`.
pub open spec fn is_digit(c: char) -> bool {
    '0' <= c <= '9'
}

/// Whether `s` holds nothing but decimal digits.
pub open spec fn all_digits(s: Seq<char>) -> bool {
    forall|i: int| 0 <= i < s.len() ==> is_digit(#[trigger] s[i])
}

/// The number that a run of decimal digits denotes.
pub open spec fn digits_value(s: Seq<char>) -> nat
    decreases s.len(),
{
    if s.len() == 0 {
        0
    } else {
        digits_value(s.drop_last()) * 10 + (s.last() as nat - 48) as nat
    }
}

/// The digits of an unsigned number's text: one leading `+` is allowed.
pub open spec fn unsigned_body(s: Seq<char>) -> Seq<char> {
    if s.len() > 0 && s[0] == '+' {
        s.skip(1)
    } else {
        s
    }
}

/// The number that `s` denotes in decimal, if it denotes one of `0..=max`.
pub open spec fn parsed_unsigned(s: Seq<char>, max: nat) -> Option<nat> {
    let d = unsigned_body(s);
    if d.len() > 0 && all_digits(d) && digits_value(d) <= max {
        Some(digits_value(d))
    } else {
        None
    }
}

/// The number that `s` denotes in decimal, if it denotes an `i32`.
pub open spec fn parsed_i32(s: Seq<char>) -> Option<int> {
    if s.len() > 0 && s[0] == '-' {
        let d = s.skip(1);
        if d.len() > 0 && all_digits(d) && digits_value(d) <= 0x8000_0000 {
            Some(-(digits_value(d) as int))
        } else {
            None
        }
    } else {
        match parsed_unsigned(s, 0x7fff_ffff) {
            Some(n) => Some(n as int),
            None => None,
        }
    }
}

/// More digits never denote less.
proof fn lemma_digits_value_monotone(s: Seq<char>, n: int)
    requires
        0 <= n <= s.len(),
    ensures
        digits_value(s.take(n)) <= digits_value(s),
    decreases s.len(),
{
    if n < s.len() {
        lemma_digits_value_monotone(s.drop_last(), n);
        assert(s.drop_last().take(n) == s.take(n));
    } else {
        assert(s.take(n) == s);
    }
}

/// The value of `cs[from..]` as a run of decimal digits, if it is one and
/// is at most `max`.
fn digits_from(cs: &Vec<char>, from: usize, max: u64) -> (r: Option<u64>)
    requires
        from <= cs@.len(),
    ensures
        match r {
            Some(n) => all_digits(cs@.skip(from as int)) && cs@.len() > from && n == digits_value(
                cs@.skip(from as int),
            ) && n <= max,
            None => !(cs@.len() > from && all_digits(cs@.skip(from as int)) && digits_value(
                cs@.skip(from as int),
            ) <= max),
        },
{
    let ghost d = cs@.skip(from as int);
    if from == cs.len() {
        return None;
    }
    let mut acc: u64 = 0;
    let mut i: usize = from;
    while i < cs.len()
        invariant
            from <= i <= cs@.len(),
            d == cs@.skip(from as int),
            acc <= max,
            forall|j: int| 0 <= j < i - from ==> is_digit(#[trigger] d[j]),
            acc == digits_value(d.take(i - from)),
        decreases cs.len() - i,
    {
        let c = cs[i];
        assert(d[i - from] == c);
        if !('0' <= c && c <= '9') {
            return None;
        }
        let v: u64 = (c as u64) - 48;
        let wide: u128 = (acc as u128) * 10 + (v as u128);
        proof {
            assert(d.take(i - from + 1).drop_last() == d.take(i - from));
            assert(d.take(i - from + 1).last() == c);
            lemma_digits_value_monotone(d, i - from + 1);
        }
        if wide > max as u128 {
            return None;
        }
        acc = wide as u64;
        i += 1;
    }
    assert(d.take(i - from) == d);
    Some(acc)
}

/// The number that `s` denotes in decimal, if it denotes one of `0..=max`.
pub fn parse_unsigned(s: &str, max: u64) -> (r: Option<u64>)
    ensures
        match r {
            Some(n) => parsed_unsigned(s@, max as nat) == Some(n as nat) && n <= max,
            None => parsed_unsigned(s@, max as nat) is None,
        },
{
    let cs = chars_of(s);
    if cs.len() > 0 && cs[0] == '+' {
        digits_from(&cs, 1, max)
    } else {
        assert(s@.skip(0) == s@);
        digits_from(&cs, 0, max)
    }
}

/// The `i32` that `s` denotes in decimal, if it denotes one.
pub fn parse_i32(s: &str) -> (r: Option<i32>)
    ensures
        match r {
            Some(n) => parsed_i32(s@) == Some(n as int),
            None => parsed_i32(s@) is None,
        },
{
    let cs = chars_of(s);
    if cs.len() > 0 && cs[0] == '-' {
        match digits_from(&cs, 1, 0x8000_0000) {
            Some(n) => Some((-(n as i64)) as i32),
            None => None,
        }
    } else {
        match parse_unsigned(s, 0x7fff_ffff) {
            Some(n) => Some(n as i32),
            None => None,
        }
    }
}

/// The decimal rendering of `n`.
pub fn u64_text(n: u64) -> (r: String)
    ensures
        r@ == decimal(n as nat),
    decreases n,
{
    if n < 10 {
        let mut out = String::new();
        out.push((48 + (n as u8)) as char);
        out
    } else {
        let mut out = u64_text(n / 10);
        out.push((48 + ((n % 10) as u8)) as char);
        out
    }
}

/// The decimal rendering of `n`.
pub fn i32_text(n: i32) -> (r: String)
    ensures
        r@ == signed_decimal(n as int),
{
    if n < 0 {
        let mut out = String::new();
        out.push('-');
        let digits = u64_text((-(n as i64)) as u64);
        out.append(digits.as_str());
        out
    } else {
        u64_text(n as u64)
    }
}

/// The decimal rendering holds digits, at least one of them, and denotes the number.
pub proof fn lemma_decimal(n: nat)
    ensures
        decimal(n).len() > 0,
        all_digits(decimal(n)),
        digits_value(decimal(n)) == n,
    decreases n,
{
    if n >= 10 {
        lemma_decimal(n / 10);
        assert(decimal(n).drop_last() == decimal(n / 10));
    } else {
        assert(decimal(n).drop_last() == Seq::<char>::empty());
        assert(digits_value(Seq::<char>::empty()) == 0);
    }
}

/// Two numbers with the same decimal rendering are the same number.
pub proof fn decimal_is_injective(a: nat, b: nat)
    requires
        decimal(a) == decimal(b),
    ensures
        a == b,
{
    lemma_decimal(a);
    lemma_decimal(b);
}

/// What was rendered in decimal parses back to itself, within any bound that admits it.
pub proof fn decimal_parses_back(n: nat, max: nat)
    requires
        n <= max,
    ensures
        parsed_unsigned(decimal(n), max) == Some(n),
{
    lemma_decimal(n);
    assert(is_digit(decimal(n)[0]));
}

/// The lower case hexadecimal digit for `d`.
pub open spec fn hex_digit(d: int) -> char {
    if d < 10 {
        (48 + d) as char
    } else {
        (87 + d) as char
    }
}

/// The lower case hexadecimal rendering of `n`, without leading zeros.
pub open spec fn hexadecimal(n: nat) -> Seq<char>
    decreases n,
{
    if n < 16 {
        seq![hex_digit(n as int)]
    } else {
        hexadecimal(n / 16).push(hex_digit((n % 16) as int))
    }
}

/// The lower case hexadecimal rendering of `n`.
pub fn u64_hex(n: u64) -> (r: String)
    ensures
        r@ == hexadecimal(n as nat),
    decreases n,
{
    let d: u8 = (n % 16) as u8;
    let c: char = if d < 10 {
        (48 + d) as char
    } else {
        (87 + d) as char
    };
    if n < 16 {
        let mut out = String::new();
        out.push(c);
        out
    } else {
        let mut out = u64_hex(n / 16);
        out.push(c);
        out
    }
}

/// The value of a hexadecimal digit of either case.
pub open spec fn hex_value(c: char) -> Option<int> {
    if '0' <= c <= '9' {
        Some(c as int - 48)
    } else if 'a' <= c <= 'f' {
        Some(c as int - 87)
    } else if 'A' <= c <= 'F' {
        Some(c as int - 55)
    } else {
        None
    }
}

/// Whether `c` is a hexadecimal digit in lower case.
pub open spec fn is_lower_hex(c: char) -> bool {
    '0' <= c <= '9' || 'a' <= c <= 'f'
}

/// Whether `c` is a hexadecimal digit in lower case.
pub fn lower_hex(c: char) -> (r: bool)
    ensures
        r == is_lower_hex(c),
{
    ('0' <= c && c <= '9') || ('a' <= c && c <= 'f')
}

/// The number that a run of hexadecimal digits denotes.
pub open spec fn hex_run_value(s: Seq<char>) -> Option<nat>
    decreases s.len(),
{
    if s.len() == 0 {
        Some(0)
    } else {
        match (hex_run_value(s.drop_last()), hex_value(s.last())) {
            (Some(n), Some(d)) => Some((n * 16 + d) as nat),
            _ => None,
        }
    }
}

/// The number that `s` denotes in hexadecimal (one leading `+` allowed), if
/// it denotes a `u64`.
pub open spec fn parsed_hex(s: Seq<char>) -> Option<nat> {
    let d = unsigned_body(s);
    match hex_run_value(d) {
        Some(n) => if d.len() > 0 && n <= u64::MAX {
            Some(n)
        } else {
            None
        },
        None => None,
    }
}

/// Hexadecimal text denotes the number that it was made of.
pub proof fn hexadecimal_parses_back(n: nat)
    ensures
        hex_run_value(hexadecimal(n)) == Some(n),
        hexadecimal(n).len() > 0,
        forall|i: int| 0 <= i < hexadecimal(n).len() ==> is_lower_hex(#[trigger] hexadecimal(n)[i]),
        n <= u64::MAX ==> parsed_hex(hexadecimal(n)) == Some(n),
    decreases n,
{
    reveal_with_fuel(hex_run_value, 2);
    let t = hexadecimal(n);
    if n < 16 {
        assert(t.drop_last() =~= Seq::<char>::empty());
    } else {
        hexadecimal_parses_back(n / 16);
        assert(t.drop_last() =~= hexadecimal(n / 16));
    }
    assert(is_lower_hex(t[0]));
}

/// A number's text, with its sign, denotes the number.
pub proof fn signed_numbers_parse_back(n: i32)
    ensures
        parsed_i32(signed_decimal(n as int)) == Some(n as int),
{
    let d = if n < 0 {
        (-(n as int)) as nat
    } else {
        n as nat
    };
    lemma_decimal(d);
    if n < 0 {
        assert(signed_decimal(n as int).skip(1) =~= decimal(d));
    } else {
        decimal_parses_back(d, 0x7fff_ffff);
        assert(is_digit(decimal(d)[0]));
    }
}

/// Digits are worth what they say: `0` to `9` and `a` to `f`, in either case.
pub proof fn digits_are_worth_what_they_say(d: int)
    ensures
        0 <= d < 10 ==> hex_digit(d) as int == '0' as int + d && is_digit(hex_digit(d)),
        10 <= d < 16 ==> hex_digit(d) as int == 'a' as int + (d - 10),
        0 <= d < 16 ==> hex_value(hex_digit(d)) == Some(d),
        hex_value('A') == Some(10int),
        hex_value('F') == Some(15int),
        hex_value('g') is None,
        decimal(7) == seq!['7'],
        decimal(10) == seq!['1', '0'],
{
    reveal_with_fuel(decimal, 3);
    assert(decimal(10) =~= seq!['1', '0']);
    assert(decimal(7) =~= seq!['7']);
}

} // verus!
