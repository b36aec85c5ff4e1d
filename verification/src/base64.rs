//! Base64 with the standard alphabet and padding.

use vstd::prelude::*;

verus! {

/// The symbol that stands for a value below 64.
pub open spec fn symbol(v: int) -> char {
    if v < 26 {
        ('A' as int + v) as char
    } else if v < 52 {
        ('a' as int + (v - 26)) as char
    } else if v < 62 {
        ('0' as int + (v - 52)) as char
    } else if v == 62 {
        '+'
    } else {
        '/'
    }
}

/// The value that a symbol stands for.
pub open spec fn symbol_value(c: char) -> Option<int> {
    if 'A' <= c <= 'Z' {
        Some(c as int - 'A' as int)
    } else if 'a' <= c <= 'z' {
        Some(c as int - 'a' as int + 26)
    } else if '0' <= c <= '9' {
        Some(c as int - '0' as int + 52)
    } else if c == '+' {
        Some(62)
    } else if c == '/' {
        Some(63)
    } else {
        None
    }
}

/// Three bytes as one 24-bit number, the first byte on top.
pub open spec fn group(a: u8, b: u8, c: u8) -> int {
    a * 0x10000 + b * 0x100 + c
}

/// The four symbols of a 24-bit number, six bits each, the top bits first.
pub open spec fn quad(n: int) -> Seq<char> {
    seq![
        symbol(n / 0x40000),
        symbol(n / 0x1000 % 64),
        symbol(n / 64 % 64),
        symbol(n % 64),
    ]
}

/// The base64 text of some bytes: four symbols for every three bytes; one byte
/// over gives two symbols and two `=`, two bytes over give three and one `=`.
pub open spec fn base64_text(data: Seq<u8>) -> Seq<char>
    decreases data.len(),
{
    if data.len() == 0 {
        seq![]
    } else if data.len() == 1 {
        quad(group(data[0], 0, 0)).take(2) + seq!['=', '=']
    } else if data.len() == 2 {
        quad(group(data[0], data[1], 0)).take(3) + seq!['=']
    } else {
        quad(group(data[0], data[1], data[2])) + base64_text(data.skip(3))
    }
}

/// Reads base64 text back: `None` where it is not a run of padded groups.
pub open spec fn base64_bytes(text: Seq<char>) -> Option<Seq<u8>>
    decreases text.len(),
{
    if text.len() == 0 {
        Some(seq![])
    } else if text.len() < 4 {
        None
    } else {
        match (
            symbol_value(text[0]),
            symbol_value(text[1]),
            symbol_value(text[2]),
            symbol_value(text[3]),
        ) {
            (Some(a), Some(b), Some(c), Some(d)) => {
                let n = a * 0x40000 + b * 0x1000 + c * 64 + d;
                match base64_bytes(text.skip(4)) {
                    Some(rest) => Some(
                        seq![(n / 0x10000) as u8, (n / 0x100 % 0x100) as u8, (n % 0x100) as u8]
                            + rest,
                    ),
                    None => None,
                }
            },
            (Some(a), Some(b), Some(c), None) if text.len() == 4 && text[3] == '=' => {
                let n = a * 0x40000 + b * 0x1000 + c * 64;
                Some(seq![(n / 0x10000) as u8, (n / 0x100 % 0x100) as u8])
            },
            (Some(a), Some(b), None, None) if text.len() == 4 && text[2] == '=' && text[3]
                == '=' => { Some(seq![((a * 0x40000 + b * 0x1000) / 0x10000) as u8]) },
            _ => None,
        }
    }
}

/// The symbol of a value below 64.
fn symbol_of(v: u32) -> (c: char)
    requires
        v < 64,
    ensures
        c == symbol(v as int),
{
    if v < 26 {
        (65u8 + v as u8) as char
    } else if v < 52 {
        (97u8 + (v - 26) as u8) as char
    } else if v < 62 {
        (48u8 + (v - 52) as u8) as char
    } else if v == 62 {
        '+'
    } else {
        '/'
    }
}

/// Encodes bytes as base64.
pub fn base64_encode(data: &[u8]) -> (text: String)
    ensures
        text@ == base64_text(data@),
{
    let mut out: String = String::new();
    let mut i: usize = 0;
    assert(data@.skip(0) =~= data@);
    while data.len() - i >= 3
        invariant
            i <= data@.len(),
            out@ + base64_text(data@.skip(i as int)) == base64_text(data@),
        decreases data@.len() - i,
    {
        let n: u32 = data[i] as u32 * 0x10000 + data[i + 1] as u32 * 0x100 + data[i + 2] as u32;
        let ghost before = out@;
        out.push(symbol_of(n / 0x40000));
        out.push(symbol_of(n / 0x1000 % 64));
        out.push(symbol_of(n / 64 % 64));
        out.push(symbol_of(n % 64));
        proof {
            let rest = data@.skip(i as int);
            assert(out@ =~= before + quad(group(rest[0], rest[1], rest[2])));
            assert(rest.skip(3) =~= data@.skip(i + 3));
            assert(out@ + base64_text(rest.skip(3)) =~= before + base64_text(rest));
        }
        i += 3;
    }
    let ghost before = out@;
    let ghost rest = data@.skip(i as int);
    if data.len() - i == 1 {
        let n: u32 = data[i] as u32 * 0x10000;
        out.push(symbol_of(n / 0x40000));
        out.push(symbol_of(n / 0x1000 % 64));
        out.push('=');
        out.push('=');
    } else if data.len() - i == 2 {
        let n: u32 = data[i] as u32 * 0x10000 + data[i + 1] as u32 * 0x100;
        out.push(symbol_of(n / 0x40000));
        out.push(symbol_of(n / 0x1000 % 64));
        out.push(symbol_of(n / 64 % 64));
        out.push('=');
    }
    assert(out@ =~= before + base64_text(rest));
    out
}

/// A symbol stands for the value that it was chosen for.
proof fn lemma_symbol_value(v: int)
    requires
        0 <= v < 64,
    ensures
        symbol_value(symbol(v)) == Some(v),
{
}

/// The padding character stands for no value.
proof fn lemma_padding_has_no_value()
    ensures
        symbol_value('=') is None,
{
}

/// The quotient and the remainder of a number that is given as such.
proof fn lemma_quotient(n: int, d: int, q: int, r: int)
    requires
        n == q * d + r,
        0 <= r < d,
    ensures
        n / d == q,
        n % d == r,
{
    vstd::arithmetic::div_mod::lemma_fundamental_div_mod_converse(n, d, q, r);
}

/// A 24-bit number splits into four values of six bits.
proof fn lemma_sextets(n: int)
    requires
        0 <= n < 0x1000000,
    ensures
        symbol_value(quad(n)[0]) == Some(n / 0x40000),
        symbol_value(quad(n)[1]) == Some(n / 0x1000 % 64),
        symbol_value(quad(n)[2]) == Some(n / 64 % 64),
        symbol_value(quad(n)[3]) == Some(n % 64),
        n == (n / 0x40000) * 0x40000 + (n / 0x1000 % 64) * 0x1000 + (n / 64 % 64) * 64 + n % 64,
{
    let q1 = n / 64;
    let q2 = q1 / 64;
    let q3 = q2 / 64;
    lemma_quotient(n, 0x1000, q2, (q1 % 64) * 64 + n % 64);
    lemma_quotient(n, 0x40000, q3, (q2 % 64) * 0x1000 + (q1 % 64) * 64 + n % 64);
    lemma_symbol_value(n / 0x40000);
    lemma_symbol_value(n / 0x1000 % 64);
    lemma_symbol_value(n / 64 % 64);
    lemma_symbol_value(n % 64);
}

/// A group of three bytes splits back into them, and trailing zero bytes leave
/// the six-bit values beyond the last byte zero.
proof fn lemma_group_bytes(a: u8, b: u8, c: u8)
    ensures
        0 <= group(a, b, c) < 0x1000000,
        group(a, b, c) / 0x10000 == a,
        group(a, b, c) / 0x100 % 0x100 == b,
        group(a, b, c) % 0x100 == c,
        c == 0 ==> group(a, b, c) % 64 == 0,
        b == 0 && c == 0 ==> group(a, b, c) / 64 % 64 == 0,
{
    let n = group(a, b, c);
    lemma_quotient(n, 0x10000, a as int, b * 0x100 + c);
    lemma_quotient(n, 0x100, a * 0x100 + b, c as int);
    lemma_quotient(a * 0x100 + b, 0x100, a as int, b as int);
    if c == 0 {
        lemma_quotient(n, 64, a * 1024 + b * 4, 0);
        if b == 0 {
            lemma_quotient(a * 1024, 64, a * 16, 0);
        }
    }
}

/// One padded group of one byte reads back.
proof fn lemma_one_byte(a: u8)
    ensures
        base64_bytes(quad(group(a, 0, 0)).take(2) + seq!['=', '=']) == Some(seq![a]),
{
    let text = quad(group(a, 0, 0)).take(2) + seq!['=', '='];
    lemma_group_bytes(a, 0, 0);
    lemma_sextets(group(a, 0, 0));
    lemma_padding_has_no_value();
    assert(text[0] == quad(group(a, 0, 0))[0]);
    assert(text[1] == quad(group(a, 0, 0))[1]);
    assert(text.len() == 4 && text[2] == '=' && text[3] == '=');
}

/// One padded group of two bytes reads back.
proof fn lemma_two_bytes(a: u8, b: u8)
    ensures
        base64_bytes(quad(group(a, b, 0)).take(3) + seq!['=']) == Some(seq![a, b]),
{
    let text = quad(group(a, b, 0)).take(3) + seq!['='];
    lemma_group_bytes(a, b, 0);
    lemma_sextets(group(a, b, 0));
    lemma_padding_has_no_value();
    assert(text[0] == quad(group(a, b, 0))[0]);
    assert(text[1] == quad(group(a, b, 0))[1]);
    assert(text[2] == quad(group(a, b, 0))[2]);
    assert(text.len() == 4 && text[3] == '=');
}

/// A full group in front of text that reads back adds its three bytes.
proof fn lemma_three_bytes(a: u8, b: u8, c: u8, rest: Seq<char>)
    requires
        base64_bytes(rest) is Some,
    ensures
        base64_bytes(quad(group(a, b, c)) + rest) == Some(seq![a, b, c] + base64_bytes(rest)->0),
{
    let text = quad(group(a, b, c)) + rest;
    lemma_group_bytes(a, b, c);
    lemma_sextets(group(a, b, c));
    assert(text[0] == quad(group(a, b, c))[0]);
    assert(text[1] == quad(group(a, b, c))[1]);
    assert(text[2] == quad(group(a, b, c))[2]);
    assert(text[3] == quad(group(a, b, c))[3]);
    assert(text.skip(4) =~= rest);
}

/// Reading base64 text back gives the bytes that were encoded.
pub proof fn law_base64_round_trip(data: Seq<u8>)
    ensures
        base64_bytes(base64_text(data)) == Some(data),
    decreases data.len(),
{
    if data.len() == 0 {
        assert(data =~= seq![]);
    } else if data.len() == 1 {
        lemma_one_byte(data[0]);
        assert(data =~= seq![data[0]]);
    } else if data.len() == 2 {
        lemma_two_bytes(data[0], data[1]);
        assert(data =~= seq![data[0], data[1]]);
    } else {
        law_base64_round_trip(data.skip(3));
        lemma_three_bytes(data[0], data[1], data[2], base64_text(data.skip(3)));
        assert(data =~= seq![data[0], data[1], data[2]] + data.skip(3));
    }
}

/// Base64 text holds four characters for every three bytes begun.
pub proof fn law_base64_length(data: Seq<u8>)
    ensures
        base64_text(data).len() == (data.len() + 2) / 3 * 4,
    decreases data.len(),
{
    if data.len() >= 3 {
        law_base64_length(data.skip(3));
    }
}

/// The alphabet of base64.
pub open spec fn alphabet() -> Seq<char> {
    "ABCDEFGHIJKLMNOPQRSTUVWXYZabcdefghijklmnopqrstuvwxyz0123456789+/"@
}

/// The byte at an index, and zero beyond the last one.
pub open spec fn byte_at(data: Seq<u8>, i: int) -> int {
    if 0 <= i < data.len() {
        data[i] as int
    } else {
        0
    }
}

/// The values below 64 go through the alphabet in order.
proof fn lemma_symbol_is_in_alphabet(v: int)
    requires
        0 <= v < 64,
    ensures
        alphabet().len() == 64,
        symbol(v) == alphabet()[v],
{
    reveal_strlit("ABCDEFGHIJKLMNOPQRSTUVWXYZabcdefghijklmnopqrstuvwxyz0123456789+/");
    assert(v == 0 || v == 1 || v == 2 || v == 3 || v == 4 || v == 5 || v == 6 || v == 7 || v == 8
        || v == 9 || v == 10 || v == 11 || v == 12 || v == 13 || v == 14 || v == 15 || v == 16 || v
        == 17 || v == 18 || v == 19 || v == 20 || v == 21 || v == 22 || v == 23 || v == 24 || v
        == 25 || v == 26 || v == 27 || v == 28 || v == 29 || v == 30 || v == 31 || v == 32 || v
        == 33 || v == 34 || v == 35 || v == 36 || v == 37 || v == 38 || v == 39 || v == 40 || v
        == 41 || v == 42 || v == 43 || v == 44 || v == 45 || v == 46 || v == 47 || v == 48 || v
        == 49 || v == 50 || v == 51 || v == 52 || v == 53 || v == 54 || v == 55 || v == 56 || v
        == 57 || v == 58 || v == 59 || v == 60 || v == 61 || v == 62 || v == 63);
}

/// The four symbols of three bytes, by the bits of each byte.
proof fn lemma_quad_by_bytes(a: u8, b: u8, c: u8)
    ensures
        quad(group(a, b, c)).len() == 4,
        quad(group(a, b, c))[0] == alphabet()[a as int / 4],
        quad(group(a, b, c))[1] == alphabet()[a as int % 4 * 16 + b as int / 16],
        quad(group(a, b, c))[2] == alphabet()[b as int % 16 * 4 + c as int / 64],
        quad(group(a, b, c))[3] == alphabet()[c as int % 64],
{
    let n = group(a, b, c);
    let (a0, a1) = (a as int / 4, a as int % 4);
    let (b0, b1) = (b as int / 16, b as int % 16);
    let (c0, c1) = (c as int / 64, c as int % 64);
    lemma_quotient(n, 0x40000, a0, a1 * 0x10000 + b * 0x100 + c);
    lemma_quotient(n, 0x1000, a0 * 64 + a1 * 16 + b0, b1 * 0x100 + c);
    lemma_quotient(a0 * 64 + a1 * 16 + b0, 64, a0, a1 * 16 + b0);
    lemma_quotient(n, 64, a * 1024 + b * 4 + c0, c1);
    lemma_quotient(a * 1024 + b * 4 + c0, 64, a * 16 + b0, b1 * 4 + c0);
    lemma_symbol_is_in_alphabet(a0);
    lemma_symbol_is_in_alphabet(a1 * 16 + b0);
    lemma_symbol_is_in_alphabet(b1 * 4 + c0);
    lemma_symbol_is_in_alphabet(c1);
}

/// Whether the four characters of one group are those of its bytes.
pub open spec fn group_is_encoded(text: Seq<char>, data: Seq<u8>, i: int) -> bool {
    let (a, b, c) = (byte_at(data, 3 * i), byte_at(data, 3 * i + 1), byte_at(data, 3 * i + 2));
    &&& text[4 * i] == alphabet()[a / 4]
    &&& text[4 * i + 1] == alphabet()[a % 4 * 16 + b / 16]
    &&& text[4 * i + 2] == if 3 * i + 1 < data.len() {
        alphabet()[b % 16 * 4 + c / 64]
    } else {
        '='
    }
    &&& text[4 * i + 3] == if 3 * i + 2 < data.len() {
        alphabet()[c % 64]
    } else {
        '='
    }
}

/// Every group of base64 text is encoded by its own bytes.
proof fn lemma_groups_are_encoded(data: Seq<u8>, i: int)
    requires
        0 <= i,
        3 * i < data.len(),
    ensures
        4 * i + 4 <= base64_text(data).len(),
        group_is_encoded(base64_text(data), data, i),
    decreases data.len(),
{
    let text = base64_text(data);
    if data.len() == 1 {
        lemma_quad_by_bytes(data[0], 0, 0);
    } else if data.len() == 2 {
        lemma_quad_by_bytes(data[0], data[1], 0);
    } else if i == 0 {
        lemma_quad_by_bytes(data[0], data[1], data[2]);
    } else {
        let rest = data.skip(3);
        lemma_groups_are_encoded(rest, i - 1);
        let tail = base64_text(rest);
        assert(text[4 * i] == tail[4 * (i - 1)]);
        assert(text[4 * i + 1] == tail[4 * (i - 1) + 1]);
        assert(text[4 * i + 2] == tail[4 * (i - 1) + 2]);
        assert(text[4 * i + 3] == tail[4 * (i - 1) + 3]);
        assert(byte_at(rest, 3 * (i - 1)) == byte_at(data, 3 * i));
        assert(byte_at(rest, 3 * (i - 1) + 1) == byte_at(data, 3 * i + 1));
        assert(byte_at(rest, 3 * (i - 1) + 2) == byte_at(data, 3 * i + 2));
    }
}

/// What encoding returns has four characters for every three bytes begun and nothing
/// else. The characters of a group are those that the alphabet has for its bits, six
/// at a time, with `=` where the bytes have run out, wherever the group stands.
pub proof fn law_every_group_is_encoded(data: &[u8], text: String, i: int)
    requires
        call_ensures(base64_encode, (data,), text),
    ensures
        text@.len() == (data@.len() + 2) / 3 * 4,
        0 <= i && 3 * i < data@.len() ==> group_is_encoded(text@, data@, i),
        base64_bytes(text@) == Some(data@),
{
    law_base64_length(data@);
    law_base64_round_trip(data@);
    if 0 <= i && 3 * i < data@.len() {
        lemma_groups_are_encoded(data@, i);
    }
}

} // verus!
