//! Colour codes: reading and writing hexadecimal colours such as `#E2A93B`.
//! Channels are bytes; an alpha of 255 is fully opaque.
use vstd::prelude::*;
use vstd::string::StrSliceExecFns;

use crate::text::{push_char, trim, trimmed};

verus! {

/// A colour as four bytes: red, green, blue and alpha.
#[derive(Debug, Clone, Copy, PartialEq, Eq, Structural)]
pub struct Rgba8 {
    pub r: u8,
    pub g: u8,
    pub b: u8,
    pub a: u8,
}

/// The text without its leading `#` signs.
pub open spec fn strip_hashes(s: Seq<char>) -> Seq<char>
    decreases s.len(),
{
    if s.len() > 0 && s[0] == '#' {
        strip_hashes(s.drop_first())
    } else {
        s
    }
}

/// An ASCII hexadecimal digit.
pub open spec fn is_hex_digit(c: char) -> bool {
    ('0' <= c <= '9') || ('a' <= c <= 'f') || ('A' <= c <= 'F')
}

/// The value of a hexadecimal digit.
pub open spec fn hex_value(c: char) -> int {
    if '0' <= c <= '9' {
        c as int - '0' as int
    } else if 'a' <= c <= 'f' {
        c as int - 'a' as int + 10
    } else {
        c as int - 'A' as int + 10
    }
}

/// The byte written by two digits from `i` on.
pub open spec fn byte_at(d: Seq<char>, i: int) -> u8 {
    (16 * hex_value(d[i]) + hex_value(d[i + 1])) as u8
}

/// The colour of a code: `#RGB` (each digit doubled), `#RRGGBB` or
/// `#RRGGBBAA`, after white space is trimmed; the leading `#` is optional
/// and may be repeated. The first two forms are opaque.
pub open spec fn parse_hex_code(text: Seq<char>) -> Option<Rgba8> {
    let d = strip_hashes(trim(text));
    if !(forall|i: int| 0 <= i < d.len() ==> is_hex_digit(#[trigger] d[i])) {
        None
    } else if d.len() == 3 {
        Some(
            Rgba8 {
                r: (17 * hex_value(d[0])) as u8,
                g: (17 * hex_value(d[1])) as u8,
                b: (17 * hex_value(d[2])) as u8,
                a: 255,
            },
        )
    } else if d.len() == 6 {
        Some(Rgba8 { r: byte_at(d, 0), g: byte_at(d, 2), b: byte_at(d, 4), a: 255 })
    } else if d.len() == 8 {
        Some(Rgba8 { r: byte_at(d, 0), g: byte_at(d, 2), b: byte_at(d, 4), a: byte_at(d, 6) })
    } else {
        None
    }
}

/// The upper-case digit of a value below 16.
pub open spec fn hex_digit(v: int) -> char {
    if v < 10 {
        ('0' as int + v) as char
    } else {
        ('A' as int + v - 10) as char
    }
}

/// The two upper-case digits of a byte.
pub open spec fn byte_code(b: u8) -> Seq<char> {
    seq![hex_digit(b as int / 16), hex_digit(b as int % 16)]
}

/// The code of a colour: `#RRGGBB` in upper case, followed by the alpha's
/// two digits unless the colour is opaque.
pub open spec fn hex_code(c: Rgba8) -> Seq<char> {
    let rgb = seq!['#'] + byte_code(c.r) + byte_code(c.g) + byte_code(c.b);
    if c.a == 255 {
        rgb
    } else {
        rgb + byte_code(c.a)
    }
}

fn digit_value(c: char) -> (r: Option<u8>)
    ensures
        r is Some <==> is_hex_digit(c),
        r is Some ==> r->0 == hex_value(c) && r->0 < 16,
{
    if '0' <= c && c <= '9' {
        Some((c as u32 - '0' as u32) as u8)
    } else if 'a' <= c && c <= 'f' {
        Some((c as u32 - 'a' as u32 + 10) as u8)
    } else if 'A' <= c && c <= 'F' {
        Some((c as u32 - 'A' as u32 + 10) as u8)
    } else {
        None
    }
}

fn digit_char(v: u8) -> (c: char)
    requires
        v < 16,
    ensures
        c == hex_digit(v as int),
{
    let code: u8 = if v < 10 {
        48 + v
    } else {
        55 + v
    };
    let c = code as char;
    proof {
        assert(c as int == code as int);
    }
    c
}

fn push_byte(s: &mut String, b: u8)
    ensures
        final(s)@ == old(s)@ + byte_code(b),
{
    push_char(s, digit_char(b / 16));
    push_char(s, digit_char(b % 16));
    assert(final(s)@ =~= old(s)@ + byte_code(b));
}

/// Writes the colour's code.
pub fn to_hex(color: Rgba8) -> (s: String)
    ensures
        s@ == hex_code(color),
{
    let mut s = String::new();
    push_char(&mut s, '#');
    push_byte(&mut s, color.r);
    push_byte(&mut s, color.g);
    push_byte(&mut s, color.b);
    if color.a != 255 {
        push_byte(&mut s, color.a);
    }
    proof {
        assert(s@ =~= hex_code(color));
    }
    s
}

/// Reads a colour code: `#RGB`, `#RRGGBB` or `#RRGGBBAA`; the `#` is
/// optional.
pub fn parse_hex(text: &str) -> (r: Option<Rgba8>)
    ensures
        r == parse_hex_code(text@),
{
    let t = trimmed(text);
    let n = t.unicode_len();
    let mut i: usize = 0;
    proof {
        assert(t@.subrange(0, n as int) =~= t@);
    }
    while i < n && t.get_char(i) == '#'
        invariant
            n == t@.len(),
            0 <= i <= n,
            strip_hashes(t@) == strip_hashes(t@.subrange(i as int, n as int)),
        decreases n - i,
    {
        proof {
            let u = t@.subrange(i as int, n as int);
            assert(u.drop_first() =~= t@.subrange(i + 1, n as int));
        }
        i = i + 1;
    }
    let ghost d = t@.subrange(i as int, n as int);
    proof {
        if i < n {
            assert(d[0] == t@[i as int]);
        }
        assert(strip_hashes(t@) == d);
    }
    let mut digits: Vec<u8> = Vec::new();
    let mut k = i;
    while k < n
        invariant
            n == t@.len(),
            i <= k <= n,
            d == t@.subrange(i as int, n as int),
            d == strip_hashes(trim(text@)),
            digits@.len() == k - i,
            forall|j: int| 0 <= j < k - i ==> is_hex_digit(#[trigger] d[j]) && digits@[j] == hex_value(d[j]) && digits@[j] < 16,
        decreases n - k,
    {
        match digit_value(t.get_char(k)) {
            Some(v) => {
                digits.push(v);
            },
            None => {
                proof {
                    assert(d[k - i] == t@[k as int]);
                    assert(!is_hex_digit(d[k - i]));
                    assert(!(forall|j: int| 0 <= j < d.len() ==> is_hex_digit(#[trigger] d[j])));
                }
                return None;
            },
        }
        k = k + 1;
    }
    let len = n - i;
    if len == 3 {
        Some(Rgba8 { r: digits[0] * 17, g: digits[1] * 17, b: digits[2] * 17, a: 255 })
    } else if len == 6 {
        Some(
            Rgba8 {
                r: digits[0] * 16 + digits[1],
                g: digits[2] * 16 + digits[3],
                b: digits[4] * 16 + digits[5],
                a: 255,
            },
        )
    } else if len == 8 {
        Some(
            Rgba8 {
                r: digits[0] * 16 + digits[1],
                g: digits[2] * 16 + digits[3],
                b: digits[4] * 16 + digits[5],
                a: digits[6] * 16 + digits[7],
            },
        )
    } else {
        None
    }
}

/// Reading a colour's code gives the colour back.
pub proof fn law_code_round_trip(color: Rgba8)
    ensures
        parse_hex_code(hex_code(color)) == Some(color),
{
    let code = hex_code(color);
    assert(trim_start_plain(code));
    assert(trim(code) == code) by {
        lemma_trim_plain(code);
    }
    assert(strip_hashes(code) == code.drop_first()) by {
        let rest = code.drop_first();
        assert(code[0] == '#');
        assert(rest[0] == code[1]);
        assert(rest.len() > 0 && rest[0] != '#');
        assert(strip_hashes(rest) == rest);
    }
    let d = code.drop_first();
    assert forall|i: int| 0 <= i < d.len() implies is_hex_digit(#[trigger] d[i]) by {}
    lemma_byte_code(color.r);
    lemma_byte_code(color.g);
    lemma_byte_code(color.b);
    lemma_byte_code(color.a);
    assert(byte_at(d, 0) == color.r);
    assert(byte_at(d, 2) == color.g);
    assert(byte_at(d, 4) == color.b);
    if color.a != 255 {
        assert(byte_at(d, 6) == color.a);
    }
}

/// A code's first and last characters are not white space.
pub open spec fn trim_start_plain(code: Seq<char>) -> bool {
    code.len() > 0 && !crate::text::is_white(code[0]) && !crate::text::is_white(code.last())
}

proof fn lemma_trim_plain(s: Seq<char>)
    requires
        trim_start_plain(s),
    ensures
        trim(s) == s,
{
}

proof fn lemma_byte_code(b: u8)
    ensures
        16 * hex_value(byte_code(b)[0]) + hex_value(byte_code(b)[1]) == b,
        is_hex_digit(byte_code(b)[0]),
        is_hex_digit(byte_code(b)[1]),
{
}

} // verus!
