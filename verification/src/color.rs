//! XRGB pixel components and the `#RRGGBB` hex notation of colours.

use vstd::prelude::*;
use crate::text::{IntErrorKind, all_digits, digit_value, digits_value, fold_digits, chars_of,
    lemma_fold_digits_closed_form, parse_unsigned, parse_unsigned_spec, string_from_chars};

verus! {

/// Component `k` of an XRGB pixel: 0 red, 1 green, 2 blue.
pub open spec fn channel(px: u32, k: int) -> int {
    if k == 0 {
        ((px / 0x10000) % 0x100) as int
    } else if k == 1 {
        ((px / 0x100) % 0x100) as int
    } else {
        (px % 0x100) as int
    }
}

/// The red, green and blue components of an XRGB pixel.
pub fn xrgb_channels(px: u32) -> (rgb: (u8, u8, u8))
    ensures
        rgb.0 == channel(px, 0),
        rgb.1 == channel(px, 1),
        rgb.2 == channel(px, 2),
{
    assert((px >> 16) & 0xFF == (px / 0x10000) % 0x100) by (bit_vector);
    assert((px >> 8) & 0xFF == (px / 0x100) % 0x100) by (bit_vector);
    assert(px & 0xFF == px % 0x100) by (bit_vector);
    (((px >> 16) & 0xFF) as u8, ((px >> 8) & 0xFF) as u8, (px & 0xFF) as u8)
}

/// `s` without its leading `c` characters (`str::trim_start_matches`).
pub open spec fn strip_leading(s: Seq<char>, c: char) -> Seq<char>
    decreases s.len(),
{
    if s.len() > 0 && s[0] == c {
        strip_leading(s.drop_first(), c)
    } else {
        s
    }
}

/// What a hex colour text reads as: leading `#`s dropped, the rest an
/// unsigned 32-bit integer in base 16 (`u32::from_str_radix(_, 16)`).
pub open spec fn hex_color_value(s: Seq<char>) -> Result<int, IntErrorKind> {
    parse_unsigned_spec(strip_leading(s, '#'), 16, u32::MAX as int)
}

/// Reads a `#RRGGBB` colour: every leading `#` is dropped and the rest is read
/// as a base-16 `u32`.
pub fn parse_hex_color(s: &str) -> (r: Result<u32, IntErrorKind>)
    ensures
        match r {
            Ok(v) => hex_color_value(s@) == Ok::<int, IntErrorKind>(v as int),
            Err(e) => hex_color_value(s@) == Err::<int, IntErrorKind>(e),
        },
{
    let cs = chars_of(s);
    let mut i: usize = 0;
    assert(cs@.skip(0) =~= cs@);
    while i < cs.len() && cs[i] == '#'
        invariant
            i <= cs@.len(),
            strip_leading(s@, '#') == strip_leading(cs@.skip(i as int), '#'),
            cs@ == s@,
        decreases cs.len() - i,
    {
        assert(cs@.skip(i as int).drop_first() =~= cs@.skip(i + 1));
        i = i + 1;
    }
    let mut digits: Vec<char> = Vec::new();
    let mut j: usize = i;
    while j < cs.len()
        invariant
            i <= j <= cs@.len(),
            digits@ == cs@.subrange(i as int, j as int),
        decreases cs.len() - j,
    {
        digits.push(cs[j]);
        j = j + 1;
        assert(digits@ =~= cs@.subrange(i as int, j as int));
    }
    assert(digits@ =~= cs@.skip(i as int));
    assert(strip_leading(s@, '#') == digits@) by {
        if i < cs.len() {
            assert(digits@[0] == cs@[i as int]);
        }
    }
    match parse_unsigned(&digits, 16, 0xFFFF_FFFF) {
        Ok(v) => Ok(v as u32),
        Err(e) => Err(e),
    }
}

/// The digits of a hex colour text: leading `#`s dropped, then one leading
/// `+`, if there is one.
pub open spec fn hex_body(s: Seq<char>) -> Seq<char> {
    let t = strip_leading(s, '#');
    if t.len() > 0 && t[0] == '+' {
        t.drop_first()
    } else {
        t
    }
}

/// A hex colour text reads exactly when, past its leading `#`s and an
/// optional `+`, it is one or more hex digits (either case) writing a number
/// of at most `u32::MAX`; it reads as that number.
pub proof fn lemma_hex_color_closed_form(s: Seq<char>)
    ensures
        hex_color_value(s) is Ok <==> {
            &&& hex_body(s).len() > 0
            &&& all_digits(hex_body(s), 16)
            &&& digits_value(hex_body(s), 16, 0) <= u32::MAX
        },
        hex_color_value(s) is Ok ==> hex_color_value(s) == Ok::<int, IntErrorKind>(
            digits_value(hex_body(s), 16, 0),
        ),
{
    let t = strip_leading(s, '#');
    let b = hex_body(s);
    lemma_fold_digits_closed_form(b, 16, u32::MAX as int, 0);
    if t.len() == 1 && t[0] == '-' {
        assert(b =~= t);
        assert(digit_value(b[0], 16) is None);
    }
}

/// The upper-case hex digit of `d` (0 to 15).
pub open spec fn hex_upper(d: int) -> char {
    if d < 10 {
        (48 + d) as char
    } else {
        (55 + d) as char
    }
}

/// `#` then the low 24 bits of `v` as six upper-case hex digits
/// (`format!("#{:06X}", v & 0xFFFFFF)`).
pub open spec fn hex_color_text(v: u32) -> Seq<char> {
    let m = v as int % 0x100_0000;
    seq![
        '#',
        hex_upper(m / 0x10_0000),
        hex_upper((m / 0x1_0000) % 16),
        hex_upper((m / 0x1000) % 16),
        hex_upper((m / 0x100) % 16),
        hex_upper((m / 0x10) % 16),
        hex_upper(m % 16),
    ]
}

fn hex_upper_char(d: u32) -> (c: char)
    requires
        d < 16,
    ensures
        c == hex_upper(d as int),
{
    if d < 10 {
        ((48 + d) as u8) as char
    } else {
        ((55 + d) as u8) as char
    }
}

/// Writes a colour as `#RRGGBB` from the low 24 bits of `v`.
pub fn format_hex_color(v: u32) -> (s: String)
    ensures
        s@ == hex_color_text(v),
{
    let m = v % 0x100_0000;
    let mut cs: Vec<char> = Vec::new();
    cs.push('#');
    cs.push(hex_upper_char(m / 0x10_0000));
    cs.push(hex_upper_char((m / 0x1_0000) % 16));
    cs.push(hex_upper_char((m / 0x1000) % 16));
    cs.push(hex_upper_char((m / 0x100) % 16));
    cs.push(hex_upper_char((m / 0x10) % 16));
    cs.push(hex_upper_char(m % 16));
    assert(cs@ =~= hex_color_text(v));
    string_from_chars(&cs)
}

proof fn lemma_hex_upper_digit(d: int)
    requires
        0 <= d < 16,
    ensures
        digit_value(hex_upper(d), 16) == Some(d),
        hex_upper(d) != '#',
        hex_upper(d) != '+',
        hex_upper(d) != '-',
{
}

/// Reading back a written colour gives its low 24 bits: the `#RRGGBB` text
/// of `v` parses to `v & 0xFFFFFF`.
pub proof fn lemma_hex_color_round_trip(v: u32)
    ensures
        hex_color_value(hex_color_text(v)) == Ok::<int, IntErrorKind>(v as int % 0x100_0000),
{
    let m = v as int % 0x100_0000;
    let t = hex_color_text(v);
    let d = t.drop_first();
    let ds = seq![
        m / 0x10_0000,
        (m / 0x1_0000) % 16,
        (m / 0x1000) % 16,
        (m / 0x100) % 16,
        (m / 0x10) % 16,
        m % 16,
    ];
    assert forall|i: int| 0 <= i < 6 implies 0 <= #[trigger] ds[i] < 16 && d[i] == hex_upper(ds[i]) by {}
    assert forall|i: int| 0 <= i < 6 implies digit_value(#[trigger] d[i], 16) == Some(ds[i]) by {
        lemma_hex_upper_digit(ds[i]);
    }
    assert(strip_leading(d, '#') == d) by {
        lemma_hex_upper_digit(ds[0]);
    }
    assert(strip_leading(t, '#') == d);
    lemma_hex_upper_digit(ds[0]);
    let a1 = ds[0];
    let a2 = a1 * 16 + ds[1];
    let a3 = a2 * 16 + ds[2];
    let a4 = a3 * 16 + ds[3];
    let a5 = a4 * 16 + ds[4];
    let a6 = a5 * 16 + ds[5];
    assert(a2 == m / 0x1_0000);
    assert(a3 == m / 0x1000);
    assert(a4 == m / 0x100);
    assert(a5 == m / 0x10);
    assert(a6 == m);
    assert(fold_digits(d.skip(6), 16, u32::MAX as int, a6) == Ok::<int, IntErrorKind>(a6));
    assert(d.skip(5).drop_first() =~= d.skip(6));
    assert(d.skip(4).drop_first() =~= d.skip(5));
    assert(d.skip(3).drop_first() =~= d.skip(4));
    assert(d.skip(2).drop_first() =~= d.skip(3));
    assert(d.skip(1).drop_first() =~= d.skip(2));
    assert(d.drop_first() =~= d.skip(1));
    assert(fold_digits(d.skip(5), 16, u32::MAX as int, a5) == Ok::<int, IntErrorKind>(a6));
    assert(fold_digits(d.skip(4), 16, u32::MAX as int, a4) == Ok::<int, IntErrorKind>(a6));
    assert(fold_digits(d.skip(3), 16, u32::MAX as int, a3) == Ok::<int, IntErrorKind>(a6));
    assert(fold_digits(d.skip(2), 16, u32::MAX as int, a2) == Ok::<int, IntErrorKind>(a6));
    assert(fold_digits(d.skip(1), 16, u32::MAX as int, a1) == Ok::<int, IntErrorKind>(a6));
    assert(fold_digits(d, 16, u32::MAX as int, 0) == Ok::<int, IntErrorKind>(a6));
}

} // verus!
