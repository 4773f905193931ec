//! Colour names: the `#RRGGBB` hex name and the `rgb(r,g,b)` name.
use vstd::prelude::*;
use crate::text::{hex_digit, hex_byte, decimal_text, push_hex_byte, push_decimal, string_from_chars};

verus! {

/// `#` followed by two upper-case hexadecimal digits for each channel.
pub open spec fn hex_name_of(r: u8, g: u8, b: u8) -> Seq<char> {
    seq!['#'] + hex_byte(r) + hex_byte(g) + hex_byte(b)
}

/// `rgb(` the three channels in decimal separated by commas `)`.
pub open spec fn rgb_name_of(r: int, g: int, b: int) -> Seq<char> {
    seq!['r', 'g', 'b', '('] + decimal_text(r) + seq![','] + decimal_text(g) + seq![','] + decimal_text(b)
        + seq![')']
}

/// The hex name of a colour, as `format!("#{:02X}{:02X}{:02X}", r, g, b)` writes it.
pub fn rgb_to_hex(r: u8, g: u8, b: u8) -> (s: String)
    ensures
        s@ == hex_name_of(r, g, b),
{
    let mut out: Vec<char> = Vec::new();
    out.push('#');
    push_hex_byte(&mut out, r);
    push_hex_byte(&mut out, g);
    push_hex_byte(&mut out, b);
    assert(out@ =~= hex_name_of(r, g, b));
    string_from_chars(&out)
}

/// The rgb name of a colour, as `format!("rgb({},{},{})", r, g, b)` writes it.
pub fn rgb_name(r: i64, g: i64, b: i64) -> (s: String)
    ensures
        s@ == rgb_name_of(r as int, g as int, b as int),
{
    let mut out: Vec<char> = Vec::new();
    out.push('r');
    out.push('g');
    out.push('b');
    out.push('(');
    push_decimal(&mut out, r);
    out.push(',');
    push_decimal(&mut out, g);
    out.push(',');
    push_decimal(&mut out, b);
    out.push(')');
    assert(out@ =~= rgb_name_of(r as int, g as int, b as int));
    string_from_chars(&out)
}


proof fn lemma_hex_digit_injective(a: int, b: int)
    requires
        0 <= a < 16,
        0 <= b < 16,
        hex_digit(a) == hex_digit(b),
    ensures
        a == b,
{
}

proof fn lemma_hex_byte_injective(x: u8, y: u8)
    requires
        hex_byte(x) == hex_byte(y),
    ensures
        x == y,
{
    assert(hex_byte(x)[0] == hex_byte(y)[0]);
    assert(hex_byte(x)[1] == hex_byte(y)[1]);
    lemma_hex_digit_injective((x / 16) as int, (y / 16) as int);
    lemma_hex_digit_injective((x % 16) as int, (y % 16) as int);
}

/// Different colours have different hex names.
pub proof fn hex_name_identifies_color(r1: u8, g1: u8, b1: u8, r2: u8, g2: u8, b2: u8)
    requires
        hex_name_of(r1, g1, b1) == hex_name_of(r2, g2, b2),
    ensures
        r1 == r2 && g1 == g2 && b1 == b2,
{
    let h1 = hex_name_of(r1, g1, b1);
    let h2 = hex_name_of(r2, g2, b2);
    assert(h1.subrange(1, 3) =~= hex_byte(r1));
    assert(h2.subrange(1, 3) =~= hex_byte(r2));
    assert(h1.subrange(3, 5) =~= hex_byte(g1));
    assert(h2.subrange(3, 5) =~= hex_byte(g2));
    assert(h1.subrange(5, 7) =~= hex_byte(b1));
    assert(h2.subrange(5, 7) =~= hex_byte(b2));
    lemma_hex_byte_injective(r1, r2);
    lemma_hex_byte_injective(g1, g2);
    lemma_hex_byte_injective(b1, b2);
}
} // verus!
