//! Group colours: parsing of `#RRGGBB` / `#RGB` text and its canonical form.

use vstd::prelude::*;
use crate::text::{
    trim, strip_leading, trim_chars, strip_leading_chars, string_of, is_ws, lemma_trim_start_skip,
    lemma_trim_end_take, lemma_strip_leading_skip, char_from_ascii,
};

verus! {

/// An RGBA colour, as the user interface draws it.
#[derive(Clone, Copy, Debug, PartialEq, Eq, Structural)]
pub struct Color {
    pub red: u8,
    pub green: u8,
    pub blue: u8,
    pub alpha: u8,
}

pub open spec fn opaque_rgb(r: u8, g: u8, b: u8) -> Color {
    Color { red: r, green: g, blue: b, alpha: 255 }
}

/// "No colour": fully transparent black.
pub open spec fn no_color() -> Color {
    Color { red: 0, green: 0, blue: 0, alpha: 0 }
}

impl Color {
    pub fn from_rgb_u8(red: u8, green: u8, blue: u8) -> (c: Color)
        ensures
            c == opaque_rgb(red, green, blue),
    {
        Color { red, green, blue, alpha: 255 }
    }
}

impl Default for Color {
    fn default() -> (c: Color)
        ensures
            c == no_color(),
    {
        Color { red: 0, green: 0, blue: 0, alpha: 0 }
    }
}

/// What is left of the input once surrounding whitespace and leading `#`s are
/// removed (`hex.trim().trim_start_matches('#')`).
pub open spec fn hex_body(hex: Seq<char>) -> Seq<char> {
    strip_leading(trim(hex), '#')
}

/// Value of an ASCII hexadecimal digit (either case); `None` for any other
/// character.
pub open spec fn hex_digit(c: char) -> Option<nat> {
    if '0' <= c <= '9' {
        Some((c as u32 - 48) as nat)
    } else if 'a' <= c <= 'f' {
        Some((c as u32 - 87) as nat)
    } else if 'A' <= c <= 'F' {
        Some((c as u32 - 55) as nat)
    } else {
        None
    }
}

/// Whether every character is an ASCII hexadecimal digit.
pub open spec fn all_hex(h: Seq<char>) -> bool {
    forall|i: int| 0 <= i < h.len() ==> (#[trigger] hex_digit(h[i])) is Some
}

/// The value of the digit at `i` of a text of hexadecimal digits.
pub open spec fn digit_at(h: Seq<char>, i: int) -> nat {
    hex_digit(h[i]).unwrap()
}

/// The colour written by `hex`: after trimming and dropping leading `#`s,
/// six hexadecimal digits are `RRGGBB` and three are the `RGB` shorthand
/// (each digit doubled); any other text is no colour.
pub open spec fn hex_color(hex: Seq<char>) -> Option<Color> {
    let h = hex_body(hex);
    if h.len() == 3 && all_hex(h) {
        Some(
            opaque_rgb(
                (digit_at(h, 0) * 17) as u8,
                (digit_at(h, 1) * 17) as u8,
                (digit_at(h, 2) * 17) as u8,
            ),
        )
    } else if h.len() == 6 && all_hex(h) {
        Some(
            opaque_rgb(
                (digit_at(h, 0) * 16 + digit_at(h, 1)) as u8,
                (digit_at(h, 2) * 16 + digit_at(h, 3)) as u8,
                (digit_at(h, 4) * 16 + digit_at(h, 5)) as u8,
            ),
        )
    } else {
        None
    }
}

fn hex_digit_exec(c: char) -> (r: Option<u8>)
    ensures
        match hex_digit(c) {
            Some(v) => v < 16 && r == Some(v as u8),
            None => r is None,
        },
{
    if '0' <= c && c <= '9' {
        Some((c as u32 - 48) as u8)
    } else if 'a' <= c && c <= 'f' {
        Some((c as u32 - 87) as u8)
    } else if 'A' <= c && c <= 'F' {
        Some((c as u32 - 55) as u8)
    } else {
        None
    }
}

/// Parses `"#RRGGBB"` / `"#RGB"`; the `#` may be missing, surrounding
/// whitespace is ignored; any other form is no colour.
pub fn parse_hex_color(hex: &str) -> (r: Option<Color>)
    ensures
        r == hex_color(hex@),
{
    let chars = crate::text::chars_of(hex);
    let t = trim_chars(chars.as_slice());
    let h = strip_leading_chars(t.as_slice(), '#');
    let n = h.len();
    if n != 3 && n != 6 {
        return None;
    }
    let mut d: Vec<u8> = Vec::new();
    let mut i: usize = 0;
    while i < n
        invariant
            n == h@.len(),
            h@ == hex_body(hex@),
            i <= n,
            d@.len() == i,
            forall|k: int| 0 <= k < i ==> (#[trigger] hex_digit(h@[k])) is Some && d@[k] == digit_at(h@, k),
            forall|k: int| 0 <= k < i ==> d@[k] < 16,
        decreases n - i,
    {
        match hex_digit_exec(h[i]) {
            Some(v) => {
                d.push(v);
            },
            None => {
                assert(!all_hex(h@));
                return None;
            },
        }
        i += 1;
    }
    assert(all_hex(h@));
    if n == 3 {
        Some(Color::from_rgb_u8(d[0] * 17, d[1] * 17, d[2] * 17))
    } else {
        Some(Color::from_rgb_u8(d[0] * 16 + d[1], d[2] * 16 + d[3], d[4] * 16 + d[5]))
    }
}

/// Lowercase hexadecimal digit for a value below 16.
pub open spec fn hex_char(d: nat) -> char {
    if d < 10 {
        (d + 48) as char
    } else {
        (d + 87) as char
    }
}

/// Two lowercase hexadecimal digits (`{:02x}`).
pub open spec fn hex2(v: u8) -> Seq<char> {
    seq![hex_char((v / 16) as nat), hex_char((v % 16) as nat)]
}

/// The stored form of a colour: `#rrggbb`, lowercase.
pub open spec fn canonical_hex(c: Color) -> Seq<char> {
    seq!['#'] + hex2(c.red) + hex2(c.green) + hex2(c.blue)
}

/// What [`normalize_hex`] gives for `hex`.
pub open spec fn normalized_hex(hex: Seq<char>) -> Option<Seq<char>> {
    match hex_color(hex) {
        Some(c) => Some(canonical_hex(c)),
        None => None,
    }
}

fn hex_char_exec(d: u8) -> (c: char)
    requires
        d < 16,
    ensures
        c == hex_char(d as nat),
{
    if d < 10 {
        char_from_ascii(d + 48)
    } else {
        char_from_ascii(d + 87)
    }
}

/// Two lowercase hexadecimal digits of `v` (`{:02x}`).
pub fn hex2_chars(v: u8) -> (r: Vec<char>)
    ensures
        r@ == hex2(v),
{
    let mut r: Vec<char> = Vec::new();
    r.push(hex_char_exec(v / 16));
    r.push(hex_char_exec(v % 16));
    assert(r@ =~= hex2(v));
    r
}

/// Brings a user-typed colour to its stored form `#rrggbb` (lowercase, with
/// `#`); `None` when the text is not a colour.
pub fn normalize_hex(hex: &str) -> (r: Option<String>)
    ensures
        match normalized_hex(hex@) {
            Some(n) => r is Some && r.unwrap()@ == n,
            None => r is None,
        },
{
    let c = parse_hex_color(hex)?;
    let mut v: Vec<char> = Vec::new();
    v.push('#');
    v.push(hex_char_exec(c.red / 16));
    v.push(hex_char_exec(c.red % 16));
    v.push(hex_char_exec(c.green / 16));
    v.push(hex_char_exec(c.green % 16));
    v.push(hex_char_exec(c.blue / 16));
    v.push(hex_char_exec(c.blue % 16));
    assert(v@ =~= canonical_hex(c));
    Some(string_of(v.as_slice()))
}

proof fn lemma_hex_char_digit(d: nat)
    requires
        d < 16,
    ensures
        !is_ws(hex_char(d)),
        hex_char(d) != '#',
        hex_digit(hex_char(d)) == Some(d),
{
}

/// The canonical text of an opaque colour parses back to that colour.
pub proof fn lemma_canonical_hex_parses(c: Color)
    requires
        c.alpha == 255,
    ensures
        hex_color(canonical_hex(c)) == Some(c),
{
    let n = canonical_hex(c);
    lemma_hex_char_digit((c.red / 16) as nat);
    lemma_hex_char_digit((c.red % 16) as nat);
    lemma_hex_char_digit((c.green / 16) as nat);
    lemma_hex_char_digit((c.green % 16) as nat);
    lemma_hex_char_digit((c.blue / 16) as nat);
    lemma_hex_char_digit((c.blue % 16) as nat);
    assert(n.len() == 7);
    assert(!is_ws(n[0]));
    assert(!is_ws(n[6]));
    lemma_trim_start_skip(n, 0);
    assert(n.skip(0) =~= n);
    assert forall|k: int| 7 <= k < n.len() implies is_ws(#[trigger] n[k]) by {}
    lemma_trim_end_take(n, 7);
    assert(n.take(7) =~= n);
    assert(trim(n) == n);
    assert(n[1] != '#');
    lemma_strip_leading_skip(n, '#', 1);
    let h = n.skip(1);
    assert(hex_body(n) == h);
    assert(h.len() == 6);
    assert forall|i: int| 0 <= i < h.len() implies (#[trigger] hex_digit(h[i])) is Some by {
        assert(h[i] == n[i + 1]);
    }
    assert(digit_at(h, 0) == c.red / 16);
    assert(digit_at(h, 1) == c.red % 16);
    assert(digit_at(h, 2) == c.green / 16);
    assert(digit_at(h, 3) == c.green % 16);
    assert(digit_at(h, 4) == c.blue / 16);
    assert(digit_at(h, 5) == c.blue % 16);
}

/// Normalising keeps the colour: the stored form of a colour text parses to
/// the same colour as the text itself.
pub proof fn law_normalized_hex_same_color(hex: Seq<char>)
    requires
        normalized_hex(hex) is Some,
    ensures
        hex_color(normalized_hex(hex).unwrap()) == hex_color(hex),
{
    let c = hex_color(hex).unwrap();
    assert(c.alpha == 255);
    lemma_canonical_hex_parses(c);
}

/// Normalising is idempotent: the stored form is its own stored form.
pub proof fn law_normalize_hex_idempotent(hex: Seq<char>)
    requires
        normalized_hex(hex) is Some,
    ensures
        normalized_hex(normalized_hex(hex).unwrap()) == normalized_hex(hex),
{
    law_normalized_hex_same_color(hex);
}

/// Two colour texts have the same stored form exactly when they denote the
/// same colour, so the stored form can be compared as text.
pub proof fn law_normalized_hex_identifies_color(a: Seq<char>, b: Seq<char>)
    requires
        hex_color(a) is Some,
        hex_color(b) is Some,
    ensures
        (normalized_hex(a) == normalized_hex(b)) <==> (hex_color(a) == hex_color(b)),
{
    if normalized_hex(a) == normalized_hex(b) {
        law_normalized_hex_same_color(a);
        law_normalized_hex_same_color(b);
    }
}

} // verus!
