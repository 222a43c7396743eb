//! Base64 with the standard alphabet: what HTTP Basic credentials are written in.

use crate::text::chars_of;
use vstd::prelude::*;

verus! {

/// The character that stands for six bits.
pub open spec fn sextet_char(n: int) -> char {
    if n < 26 {
        (65 + n) as char
    } else if n < 52 {
        (71 + n) as char
    } else if n < 62 {
        (n - 4) as char
    } else if n == 62 {
        '+'
    } else {
        '/'
    }
}

/// The six bits that a character stands for.
pub open spec fn sextet(c: char) -> Option<int> {
    if 65 <= c as int <= 90 {
        Some(c as int - 65)
    } else if 97 <= c as int <= 122 {
        Some(c as int - 71)
    } else if 48 <= c as int <= 57 {
        Some(c as int + 4)
    } else if c == '+' {
        Some(62)
    } else if c == '/' {
        Some(63)
    } else {
        None
    }
}

/// Bytes as base64 text, padded with `=`.
pub open spec fn base64_text(b: Seq<u8>) -> Seq<char>
    decreases b.len(),
{
    if b.len() == 0 {
        Seq::empty()
    } else {
        let b0 = b[0] as int;
        let b1 = if b.len() > 1 { b[1] as int } else { 0 };
        let b2 = if b.len() > 2 { b[2] as int } else { 0 };
        seq![
            sextet_char(b0 / 4),
            sextet_char((b0 % 4) * 16 + b1 / 16),
            if b.len() > 1 { sextet_char((b1 % 16) * 4 + b2 / 64) } else { '=' },
            if b.len() > 2 { sextet_char(b2 % 64) } else { '=' },
        ] + base64_text(if b.len() > 3 { b.skip(3) } else { Seq::empty() })
    }
}

/// The bytes behind a group of up to four characters.
pub open spec fn group_bytes(g: Seq<char>) -> Option<Seq<u8>> {
    if exists|i: int| 0 <= i < g.len() && sextet(#[trigger] g[i]) is None {
        None
    } else {
        let v0 = sextet(g[0])->0;
        let v1 = if g.len() > 1 { sextet(g[1])->0 } else { 0 };
        let v2 = if g.len() > 2 { sextet(g[2])->0 } else { 0 };
        let v3 = if g.len() > 3 { sextet(g[3])->0 } else { 0 };
        let first = seq![(v0 * 4 + v1 / 16) as u8];
        let second = if g.len() > 2 { seq![((v1 % 16) * 16 + v2 / 4) as u8] } else { Seq::empty() };
        let third = if g.len() > 3 { seq![((v2 % 4) * 64 + v3) as u8] } else { Seq::empty() };
        Some(first + second + third)
    }
}

/// The bytes behind unpadded base64 text, read in groups of four characters.
pub open spec fn run_bytes(s: Seq<char>) -> Option<Seq<u8>>
    decreases s.len(),
{
    if s.len() == 0 {
        Some(Seq::empty())
    } else {
        let n: int = if s.len() < 4 { s.len() as int } else { 4 };
        match (group_bytes(s.take(n)), run_bytes(s.skip(n))) {
            (Some(a), Some(b)) => Some(a + b),
            _ => None,
        }
    }
}

/// The bytes behind base64 text; padding is ignored wherever it stands.
pub open spec fn base64_bytes(s: Seq<char>) -> Option<Seq<u8>> {
    run_bytes(s.filter(|c: char| c != '='))
}

/// The character that stands for six bits.
fn char_of(n: u8) -> (r: char)
    requires
        n < 64,
    ensures
        r == sextet_char(n as int),
{
    if n < 26 {
        (65 + n) as char
    } else if n < 52 {
        (71 + n) as char
    } else if n < 62 {
        (n - 4) as char
    } else if n == 62 {
        '+'
    } else {
        '/'
    }
}

/// The six bits that a character stands for.
fn value_of(c: char) -> (r: Option<u8>)
    ensures
        match r {
            Some(v) => sextet(c) == Some(v as int) && v < 64,
            None => sextet(c) is None,
        },
{
    let n = c as u32;
    if n >= 65 && n <= 90 {
        Some((n - 65) as u8)
    } else if n >= 97 && n <= 122 {
        Some((n - 71) as u8)
    } else if n >= 48 && n <= 57 {
        Some((n + 4) as u8)
    } else if c == '+' {
        Some(62)
    } else if c == '/' {
        Some(63)
    } else {
        None
    }
}

/// Bytes as base64 text.
pub fn encode(b: &[u8]) -> (r: String)
    ensures
        r@ == base64_text(b@),
{
    let mut out = String::new();
    let mut i: usize = 0;
    assert(b@.skip(0) =~= b@);
    assert(out@ + base64_text(b@) =~= base64_text(b@));
    while i < b.len()
        invariant
            i <= b@.len(),
            out@ + base64_text(b@.skip(i as int)) == base64_text(b@),
        decreases b.len() - i,
    {
        let left = b.len() - i;
        let b0: u8 = b[i];
        let b1: u8 = if left > 1 { b[i + 1] } else { 0 };
        let b2: u8 = if left > 2 { b[i + 2] } else { 0 };
        let ghost before = out@;
        let ghost rest = b@.skip(i as int);
        out.push(char_of(b0 / 4));
        out.push(char_of((b0 % 4) * 16 + b1 / 16));
        out.push(if left > 1 { char_of((b1 % 16) * 4 + b2 / 64) } else { '=' });
        out.push(if left > 2 { char_of(b2 % 64) } else { '=' });
        let step: usize = if left > 3 { 3 } else { left };
        proof {
            let tail = if rest.len() > 3 { rest.skip(3) } else { Seq::empty() };
            assert(b@.skip(i + step) =~= tail);
            assert(out@ + base64_text(tail) =~= before + base64_text(rest));
        }
        i += step;
    }
    assert(base64_text(b@.skip(i as int)) =~= Seq::<char>::empty());
    assert(out@ =~= base64_text(b@));
    out
}

/// The bytes behind base64 text.
pub fn decode(s: &str) -> (r: Option<Vec<u8>>)
    ensures
        match r {
            Some(b) => base64_bytes(s@) == Some(b@),
            None => base64_bytes(s@) is None,
        },
{
    let chars = chars_of(s);
    let mut clean: Vec<char> = Vec::new();
    let mut k: usize = 0;
    let ghost keep = |c: char| c != '=';
    assert(chars@.take(0).filter(keep) =~= Seq::<char>::empty()) by {
        reveal(Seq::filter);
    }
    while k < chars.len()
        invariant
            k <= chars@.len(),
            keep == (|c: char| c != '='),
            clean@ == chars@.take(k as int).filter(keep),
        decreases chars.len() - k,
    {
        proof {
            assert(chars@.take(k + 1).drop_last() =~= chars@.take(k as int));
            reveal(Seq::filter);
        }
        if chars[k] != '=' {
            clean.push(chars[k]);
        }
        k += 1;
    }
    assert(chars@.take(k as int) =~= s@);
    let mut out: Vec<u8> = Vec::new();
    let mut i: usize = 0;
    assert(clean@.skip(0) =~= clean@);
    while i < clean.len()
        invariant
            i <= clean@.len(),
            match run_bytes(clean@.skip(i as int)) {
                Some(tail) => run_bytes(clean@) == Some(out@ + tail),
                None => run_bytes(clean@) is None,
            },
            clean@ == s@.filter(|c: char| c != '='),
        decreases clean.len() - i,
    {
        let left = clean.len() - i;
        let n: usize = if left < 4 { left } else { 4 };
        let ghost rest = clean@.skip(i as int);
        let ghost group = rest.take(n as int);
        let ghost before = out@;
        proof {
            assert(rest.skip(n as int) =~= clean@.skip(i + n));
            assert(forall|j: int| 0 <= j < n ==> group[j] == clean@[i + j]);
        }
        let mut vals: Vec<u8> = Vec::new();
        let mut j: usize = 0;
        while j < n
            invariant
                j <= n <= 4,
                i + n <= clean@.len(),
                group.len() == n,
                rest.len() > 0,
                rest == clean@.skip(i as int),
                n == (if rest.len() < 4 { rest.len() as int } else { 4 }),
                group == rest.take(n as int),
                clean@ == s@.filter(|c: char| c != '='),
                match run_bytes(rest) {
                    Some(tail) => run_bytes(clean@) == Some(out@ + tail),
                    None => run_bytes(clean@) is None,
                },
                forall|m: int| 0 <= m < n ==> group[m] == clean@[i + m],
                vals@.len() == j,
                forall|m: int| 0 <= m < j ==> sextet(#[trigger] group[m]) == Some(vals@[m] as int) && vals@[m] < 64,
            decreases n - j,
        {
            match value_of(clean[i + j]) {
                Some(v) => {
                    vals.push(v);
                },
                None => {
                    assert(sextet(group[j as int]) is None);
                    assert(group_bytes(group) is None);
                    return None;
                },
            }
            j += 1;
        }
        let v0: u8 = vals[0];
        let v1: u8 = if n > 1 { vals[1] } else { 0 };
        let v2: u8 = if n > 2 { vals[2] } else { 0 };
        let v3: u8 = if n > 3 { vals[3] } else { 0 };
        out.push(v0 * 4 + v1 / 16);
        if n > 2 {
            out.push((v1 % 16) * 16 + v2 / 4);
        }
        if n > 3 {
            out.push((v2 % 4) * 64 + v3);
        }
        proof {
            assert forall|m: int| 0 <= m < group.len() implies sextet(#[trigger] group[m]) is Some by {}
            let bytes = group_bytes(group)->0;
            assert(out@ =~= before + bytes);
            match run_bytes(clean@.skip(i + n)) {
                Some(tail) => {
                    assert(run_bytes(rest) == Some(bytes + tail));
                    assert(before + (bytes + tail) =~= out@ + tail);
                },
                None => {},
            }
        }
        i += n;
    }
    assert(run_bytes(clean@.skip(i as int)) == Some(Seq::<u8>::empty()));
    assert(out@ + Seq::<u8>::empty() =~= out@);
    Some(out)
}

/// Every six bits have a character of their own, which is never the padding.
proof fn lemma_sextet(n: int)
    requires
        0 <= n < 64,
    ensures
        sextet(sextet_char(n)) == Some(n),
        sextet_char(n) != '=',
{
}

/// Decoding gives back what was encoded.
pub proof fn base64_round_trip(b: Seq<u8>)
    ensures
        base64_bytes(base64_text(b)) == Some(b),
    decreases b.len(),
{
    let keep = |c: char| c != '=';
    if b.len() == 0 {
        assert(base64_text(b).filter(keep) =~= Seq::<char>::empty()) by {
            reveal(Seq::filter);
        }
    } else {
        let tail = if b.len() > 3 { b.skip(3) } else { Seq::empty() };
        base64_round_trip(tail);
        let b0 = b[0] as int;
        let b1 = if b.len() > 1 { b[1] as int } else { 0 };
        let b2 = if b.len() > 2 { b[2] as int } else { 0 };
        let n0 = b0 / 4;
        let n1 = (b0 % 4) * 16 + b1 / 16;
        let n2 = (b1 % 16) * 4 + b2 / 64;
        let n3 = b2 % 64;
        lemma_sextet(n0);
        lemma_sextet(n1);
        lemma_sextet(n2);
        lemma_sextet(n3);
        let head = base64_text(b).take(4);
        assert(base64_text(b) =~= head + base64_text(tail));
        Seq::filter_distributes_over_add(head, base64_text(tail), keep);
        let kept = head.filter(keep);
        let full = seq![sextet_char(n0), sextet_char(n1), sextet_char(n2), sextet_char(n3)];
        let count: int = if b.len() > 2 { 4 } else { b.len() as int + 1 };
        assert(kept =~= full.take(count)) by {
            reveal_with_fuel(Seq::filter, 5);
            assert(head.drop_last() =~= head.take(3));
            assert(head.take(3).drop_last() =~= head.take(2));
            assert(head.take(2).drop_last() =~= head.take(1));
            assert(head.take(1).drop_last() =~= head.take(0));
        }
        let whole = base64_text(b).filter(keep);
        let rest = base64_text(tail).filter(keep);
        assert(whole =~= kept + rest);
        if b.len() <= 3 {
            assert(rest =~= Seq::<char>::empty()) by {
                reveal(Seq::filter);
            }
        }
        assert(whole.take(count) =~= kept);
        assert(whole.skip(count) =~= rest);
        let bytes = b.take(if b.len() < 3 { b.len() as int } else { 3 });
        assert(group_bytes(kept) == Some(bytes)) by {
            assert(n0 * 4 + n1 / 16 == b0);
            if b.len() > 1 {
                assert((n1 % 16) * 16 + n2 / 4 == b1);
            }
            if b.len() > 2 {
                assert((n2 % 4) * 64 + n3 == b2);
            }
            assert(group_bytes(kept)->0 =~= bytes);
        }
        assert(bytes + tail =~= b);
    }
}

/// Six bits are written in the standard alphabet: capitals, small letters,
/// digits, `+` and `/`.
pub proof fn the_alphabet_is_the_standard_one(n: int)
    requires
        0 <= n < 64,
    ensures
        0 <= n < 26 ==> sextet_char(n) as int == 'A' as int + n,
        26 <= n < 52 ==> sextet_char(n) as int == 'a' as int + (n - 26),
        52 <= n < 62 ==> sextet_char(n) as int == '0' as int + (n - 52),
        sextet_char(62) == '+',
        sextet_char(63) == '/',
        sextet(sextet_char(n)) == Some(n),
{
}

/// Three bytes become four characters that write the same number, the highest
/// bits first, and the bytes behind them follow.
pub proof fn three_bytes_are_four_characters(a: u8, b: u8, c: u8, rest: Seq<u8>)
    ensures
        ({
            let t = base64_text(seq![a, b, c] + rest);
            &&& t.len() >= 4
            &&& sextet(t[0]) is Some && sextet(t[1]) is Some && sextet(t[2]) is Some && sextet(t[3]) is Some
            &&& sextet(t[0])->0 * 262144 + sextet(t[1])->0 * 4096 + sextet(t[2])->0 * 64 + sextet(t[3])->0 == a * 65536
                + b * 256 + c
            &&& t.skip(4) == base64_text(rest)
        }),
{
    let s = seq![a, b, c] + rest;
    let t = base64_text(s);
    let x = a as int;
    let y = b as int;
    let z = c as int;
    assert(s[0] == a && s[1] == b && s[2] == c);
    assert((if s.len() > 3 {
        s.skip(3)
    } else {
        Seq::empty()
    }) =~= rest);
    the_alphabet_is_the_standard_one(x / 4);
    the_alphabet_is_the_standard_one((x % 4) * 16 + y / 16);
    the_alphabet_is_the_standard_one((y % 16) * 4 + z / 64);
    the_alphabet_is_the_standard_one(z % 64);
    assert(t =~= seq![
        sextet_char(x / 4),
        sextet_char((x % 4) * 16 + y / 16),
        sextet_char((y % 16) * 4 + z / 64),
        sextet_char(z % 64),
    ] + base64_text(rest));
    assert(t.skip(4) =~= base64_text(rest));
}

} // verus!
