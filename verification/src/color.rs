//! Parsing of color names and hex color strings.
use vstd::prelude::*;

use crate::error::Error;
use vstd::string::StringSliceAdditionalSpecFns;

verus! {

/// An 8-bit-per-channel RGB color, as parsed from a color string.
#[derive(Debug, Clone, Copy, PartialEq, Eq, Structural)]
pub struct Rgb8 {
    pub r: u8,
    pub g: u8,
    pub b: u8,
}

/// An ASCII hex digit (either case).
pub open spec fn is_hex_digit(c: u8) -> bool {
    (48 <= c <= 57) || (65 <= c <= 70) || (97 <= c <= 102)
}

/// The value of an ASCII hex digit.
pub open spec fn hex_value(c: u8) -> int {
    if 48 <= c <= 57 {
        c - 48
    } else if 65 <= c <= 70 {
        c - 55
    } else {
        c - 87
    }
}

/// `#RRGGBB` or `#RGB` (each digit doubled); the `#` is required and every
/// other byte must be a hex digit.
pub open spec fn parse_hex_color(s: Seq<u8>) -> Option<Rgb8> {
    if s.len() == 0 || s[0] != 35 {
        None
    } else {
        let h = s.drop_first();
        if !(forall|i: int| 0 <= i < h.len() ==> #[trigger] is_hex_digit(h[i])) {
            None
        } else if h.len() == 6 {
            Some(
                Rgb8 {
                    r: (hex_value(h[0]) * 16 + hex_value(h[1])) as u8,
                    g: (hex_value(h[2]) * 16 + hex_value(h[3])) as u8,
                    b: (hex_value(h[4]) * 16 + hex_value(h[5])) as u8,
                },
            )
        } else if h.len() == 3 {
            Some(
                Rgb8 {
                    r: (hex_value(h[0]) * 17) as u8,
                    g: (hex_value(h[1]) * 17) as u8,
                    b: (hex_value(h[2]) * 17) as u8,
                },
            )
        } else {
            None
        }
    }
}

/// ASCII lowercase of one byte.
pub open spec fn ascii_lower(c: u8) -> u8 {
    if 65 <= c <= 90 {
        (c + 32) as u8
    } else {
        c
    }
}

/// The CSS named colors that are recognized (lowercase names).
pub open spec fn named_color(name: Seq<u8>) -> Option<Rgb8> {
    if name == seq![98u8, 108, 97, 99, 107] {
        Some(Rgb8 { r: 0, g: 0, b: 0 })
    } else if name == seq![119u8, 104, 105, 116, 101] {
        Some(Rgb8 { r: 255, g: 255, b: 255 })
    } else if name == seq![114u8, 101, 100] {
        Some(Rgb8 { r: 255, g: 0, b: 0 })
    } else if name == seq![108u8, 105, 109, 101] {
        Some(Rgb8 { r: 0, g: 255, b: 0 })
    } else if name == seq![98u8, 108, 117, 101] {
        Some(Rgb8 { r: 0, g: 0, b: 255 })
    } else if name == seq![121u8, 101, 108, 108, 111, 119] {
        Some(Rgb8 { r: 255, g: 255, b: 0 })
    } else if name == seq![99u8, 121, 97, 110] {
        Some(Rgb8 { r: 0, g: 255, b: 255 })
    } else if name == seq![97u8, 113, 117, 97] {
        Some(Rgb8 { r: 0, g: 255, b: 255 })
    } else if name == seq![109u8, 97, 103, 101, 110, 116, 97] {
        Some(Rgb8 { r: 255, g: 0, b: 255 })
    } else if name == seq![102u8, 117, 99, 104, 115, 105, 97] {
        Some(Rgb8 { r: 255, g: 0, b: 255 })
    } else if name == seq![115u8, 105, 108, 118, 101, 114] {
        Some(Rgb8 { r: 192, g: 192, b: 192 })
    } else if name == seq![103u8, 114, 97, 121] {
        Some(Rgb8 { r: 128, g: 128, b: 128 })
    } else if name == seq![103u8, 114, 101, 121] {
        Some(Rgb8 { r: 128, g: 128, b: 128 })
    } else if name == seq![109u8, 97, 114, 111, 111, 110] {
        Some(Rgb8 { r: 128, g: 0, b: 0 })
    } else if name == seq![111u8, 108, 105, 118, 101] {
        Some(Rgb8 { r: 128, g: 128, b: 0 })
    } else if name == seq![103u8, 114, 101, 101, 110] {
        Some(Rgb8 { r: 0, g: 128, b: 0 })
    } else if name == seq![112u8, 117, 114, 112, 108, 101] {
        Some(Rgb8 { r: 128, g: 0, b: 128 })
    } else if name == seq![116u8, 101, 97, 108] {
        Some(Rgb8 { r: 0, g: 128, b: 128 })
    } else if name == seq![110u8, 97, 118, 121] {
        Some(Rgb8 { r: 0, g: 0, b: 128 })
    } else if name == seq![111u8, 114, 97, 110, 103, 101] {
        Some(Rgb8 { r: 255, g: 165, b: 0 })
    } else if name == seq![99u8, 111, 114, 97, 108] {
        Some(Rgb8 { r: 255, g: 127, b: 80 })
    } else if name == seq![116u8, 111, 109, 97, 116, 111] {
        Some(Rgb8 { r: 255, g: 99, b: 71 })
    } else if name == seq![115u8, 97, 108, 109, 111, 110] {
        Some(Rgb8 { r: 250, g: 128, b: 114 })
    } else if name == seq![103u8, 111, 108, 100] {
        Some(Rgb8 { r: 255, g: 215, b: 0 })
    } else if name == seq![112u8, 105, 110, 107] {
        Some(Rgb8 { r: 255, g: 192, b: 203 })
    } else if name == seq![118u8, 105, 111, 108, 101, 116] {
        Some(Rgb8 { r: 238, g: 130, b: 238 })
    } else if name == seq![105u8, 110, 100, 105, 103, 111] {
        Some(Rgb8 { r: 75, g: 0, b: 130 })
    } else if name == seq![98u8, 114, 111, 119, 110] {
        Some(Rgb8 { r: 165, g: 42, b: 42 })
    } else if name == seq![116u8, 97, 110] {
        Some(Rgb8 { r: 210, g: 180, b: 140 })
    } else if name == seq![115u8, 107, 121, 98, 108, 117, 101] {
        Some(Rgb8 { r: 135, g: 206, b: 235 })
    } else {
        None
    }
}

/// A color string: hex when it starts with `#`, else a case-insensitive name.
pub open spec fn parse_color(s: Seq<u8>) -> Option<Rgb8> {
    if s.len() > 0 && s[0] == 35 {
        parse_hex_color(s)
    } else {
        named_color(s.map_values(|c: u8| ascii_lower(c)))
    }
}

fn bytes_eq(a: &[u8], b: &[u8]) -> (r: bool)
    ensures
        r == (a@ == b@),
{
    if a.len() != b.len() {
        return false;
    }
    let n = a.len();
    for i in 0..n
        invariant
            n == a@.len(),
            n == b@.len(),
            forall|k: int| 0 <= k < i ==> #[trigger] a@[k] == b@[k],
    {
        if a[i] != b[i] {
            return false;
        }
    }
    assert(a@ =~= b@);
    true
}

fn lookup_named_color(name: &[u8]) -> (r: Option<Rgb8>)
    ensures
        r == named_color(name@),
{
    if bytes_eq(name, &[98u8, 108, 97, 99, 107]) {
        proof {
            assert(seq![98u8, 108, 97, 99, 107] =~= [98u8, 108, 97, 99, 107]@);
        }
        Some(Rgb8 { r: 0, g: 0, b: 0 })
    } else if bytes_eq(name, &[119u8, 104, 105, 116, 101]) {
        proof {
            assert(seq![119u8, 104, 105, 116, 101] =~= [119u8, 104, 105, 116, 101]@);
        }
        Some(Rgb8 { r: 255, g: 255, b: 255 })
    } else if bytes_eq(name, &[114u8, 101, 100]) {
        proof {
            assert(seq![114u8, 101, 100] =~= [114u8, 101, 100]@);
        }
        Some(Rgb8 { r: 255, g: 0, b: 0 })
    } else if bytes_eq(name, &[108u8, 105, 109, 101]) {
        proof {
            assert(seq![108u8, 105, 109, 101] =~= [108u8, 105, 109, 101]@);
        }
        Some(Rgb8 { r: 0, g: 255, b: 0 })
    } else if bytes_eq(name, &[98u8, 108, 117, 101]) {
        proof {
            assert(seq![98u8, 108, 117, 101] =~= [98u8, 108, 117, 101]@);
        }
        Some(Rgb8 { r: 0, g: 0, b: 255 })
    } else if bytes_eq(name, &[121u8, 101, 108, 108, 111, 119]) {
        proof {
            assert(seq![121u8, 101, 108, 108, 111, 119] =~= [121u8, 101, 108, 108, 111, 119]@);
        }
        Some(Rgb8 { r: 255, g: 255, b: 0 })
    } else if bytes_eq(name, &[99u8, 121, 97, 110]) {
        proof {
            assert(seq![99u8, 121, 97, 110] =~= [99u8, 121, 97, 110]@);
        }
        Some(Rgb8 { r: 0, g: 255, b: 255 })
    } else if bytes_eq(name, &[97u8, 113, 117, 97]) {
        proof {
            assert(seq![97u8, 113, 117, 97] =~= [97u8, 113, 117, 97]@);
        }
        Some(Rgb8 { r: 0, g: 255, b: 255 })
    } else if bytes_eq(name, &[109u8, 97, 103, 101, 110, 116, 97]) {
        proof {
            assert(seq![109u8, 97, 103, 101, 110, 116, 97] =~= [109u8, 97, 103, 101, 110, 116, 97]@);
        }
        Some(Rgb8 { r: 255, g: 0, b: 255 })
    } else if bytes_eq(name, &[102u8, 117, 99, 104, 115, 105, 97]) {
        proof {
            assert(seq![102u8, 117, 99, 104, 115, 105, 97] =~= [102u8, 117, 99, 104, 115, 105, 97]@);
        }
        Some(Rgb8 { r: 255, g: 0, b: 255 })
    } else if bytes_eq(name, &[115u8, 105, 108, 118, 101, 114]) {
        proof {
            assert(seq![115u8, 105, 108, 118, 101, 114] =~= [115u8, 105, 108, 118, 101, 114]@);
        }
        Some(Rgb8 { r: 192, g: 192, b: 192 })
    } else if bytes_eq(name, &[103u8, 114, 97, 121]) {
        proof {
            assert(seq![103u8, 114, 97, 121] =~= [103u8, 114, 97, 121]@);
        }
        Some(Rgb8 { r: 128, g: 128, b: 128 })
    } else if bytes_eq(name, &[103u8, 114, 101, 121]) {
        proof {
            assert(seq![103u8, 114, 101, 121] =~= [103u8, 114, 101, 121]@);
        }
        Some(Rgb8 { r: 128, g: 128, b: 128 })
    } else if bytes_eq(name, &[109u8, 97, 114, 111, 111, 110]) {
        proof {
            assert(seq![109u8, 97, 114, 111, 111, 110] =~= [109u8, 97, 114, 111, 111, 110]@);
        }
        Some(Rgb8 { r: 128, g: 0, b: 0 })
    } else if bytes_eq(name, &[111u8, 108, 105, 118, 101]) {
        proof {
            assert(seq![111u8, 108, 105, 118, 101] =~= [111u8, 108, 105, 118, 101]@);
        }
        Some(Rgb8 { r: 128, g: 128, b: 0 })
    } else if bytes_eq(name, &[103u8, 114, 101, 101, 110]) {
        proof {
            assert(seq![103u8, 114, 101, 101, 110] =~= [103u8, 114, 101, 101, 110]@);
        }
        Some(Rgb8 { r: 0, g: 128, b: 0 })
    } else if bytes_eq(name, &[112u8, 117, 114, 112, 108, 101]) {
        proof {
            assert(seq![112u8, 117, 114, 112, 108, 101] =~= [112u8, 117, 114, 112, 108, 101]@);
        }
        Some(Rgb8 { r: 128, g: 0, b: 128 })
    } else if bytes_eq(name, &[116u8, 101, 97, 108]) {
        proof {
            assert(seq![116u8, 101, 97, 108] =~= [116u8, 101, 97, 108]@);
        }
        Some(Rgb8 { r: 0, g: 128, b: 128 })
    } else if bytes_eq(name, &[110u8, 97, 118, 121]) {
        proof {
            assert(seq![110u8, 97, 118, 121] =~= [110u8, 97, 118, 121]@);
        }
        Some(Rgb8 { r: 0, g: 0, b: 128 })
    } else if bytes_eq(name, &[111u8, 114, 97, 110, 103, 101]) {
        proof {
            assert(seq![111u8, 114, 97, 110, 103, 101] =~= [111u8, 114, 97, 110, 103, 101]@);
        }
        Some(Rgb8 { r: 255, g: 165, b: 0 })
    } else if bytes_eq(name, &[99u8, 111, 114, 97, 108]) {
        proof {
            assert(seq![99u8, 111, 114, 97, 108] =~= [99u8, 111, 114, 97, 108]@);
        }
        Some(Rgb8 { r: 255, g: 127, b: 80 })
    } else if bytes_eq(name, &[116u8, 111, 109, 97, 116, 111]) {
        proof {
            assert(seq![116u8, 111, 109, 97, 116, 111] =~= [116u8, 111, 109, 97, 116, 111]@);
        }
        Some(Rgb8 { r: 255, g: 99, b: 71 })
    } else if bytes_eq(name, &[115u8, 97, 108, 109, 111, 110]) {
        proof {
            assert(seq![115u8, 97, 108, 109, 111, 110] =~= [115u8, 97, 108, 109, 111, 110]@);
        }
        Some(Rgb8 { r: 250, g: 128, b: 114 })
    } else if bytes_eq(name, &[103u8, 111, 108, 100]) {
        proof {
            assert(seq![103u8, 111, 108, 100] =~= [103u8, 111, 108, 100]@);
        }
        Some(Rgb8 { r: 255, g: 215, b: 0 })
    } else if bytes_eq(name, &[112u8, 105, 110, 107]) {
        proof {
            assert(seq![112u8, 105, 110, 107] =~= [112u8, 105, 110, 107]@);
        }
        Some(Rgb8 { r: 255, g: 192, b: 203 })
    } else if bytes_eq(name, &[118u8, 105, 111, 108, 101, 116]) {
        proof {
            assert(seq![118u8, 105, 111, 108, 101, 116] =~= [118u8, 105, 111, 108, 101, 116]@);
        }
        Some(Rgb8 { r: 238, g: 130, b: 238 })
    } else if bytes_eq(name, &[105u8, 110, 100, 105, 103, 111]) {
        proof {
            assert(seq![105u8, 110, 100, 105, 103, 111] =~= [105u8, 110, 100, 105, 103, 111]@);
        }
        Some(Rgb8 { r: 75, g: 0, b: 130 })
    } else if bytes_eq(name, &[98u8, 114, 111, 119, 110]) {
        proof {
            assert(seq![98u8, 114, 111, 119, 110] =~= [98u8, 114, 111, 119, 110]@);
        }
        Some(Rgb8 { r: 165, g: 42, b: 42 })
    } else if bytes_eq(name, &[116u8, 97, 110]) {
        proof {
            assert(seq![116u8, 97, 110] =~= [116u8, 97, 110]@);
        }
        Some(Rgb8 { r: 210, g: 180, b: 140 })
    } else if bytes_eq(name, &[115u8, 107, 121, 98, 108, 117, 101]) {
        proof {
            assert(seq![115u8, 107, 121, 98, 108, 117, 101] =~= [115u8, 107, 121, 98, 108, 117, 101]@);
        }
        Some(Rgb8 { r: 135, g: 206, b: 235 })
    } else {
        None
    }
}

fn hex_digit_value(c: u8) -> (r: u8)
    requires
        is_hex_digit(c),
    ensures
        r == hex_value(c),
        r < 16,
{
    if 48 <= c && c <= 57 {
        c - 48
    } else if 65 <= c && c <= 70 {
        c - 55
    } else {
        c - 87
    }
}

fn parse_hex_bytes(s: &[u8]) -> (r: Option<Rgb8>)
    ensures
        r == parse_hex_color(s@),
{
    if s.len() == 0 || s[0] != 35u8 {
        return None;
    }
    let ghost h = s@.drop_first();
    let n = s.len();
    for i in 1..n
        invariant
            n == s@.len(),
            h == s@.drop_first(),
            forall|k: int| 0 <= k < i - 1 ==> #[trigger] is_hex_digit(h[k]),
    {
        assert(h[i - 1] == s@[i as int]);
        if !(48u8 <= s[i] && s[i] <= 57u8) && !(65u8 <= s[i] && s[i] <= 70u8) && !(97u8 <= s[i] && s[i] <= 102u8) {
            assert(!is_hex_digit(h[i - 1]));
            return None;
        }
    }
    assert(forall|k: int| 0 <= k < h.len() ==> #[trigger] is_hex_digit(h[k]));
    if n == 7 {
        assert(h[0] == s@[1] && h[1] == s@[2] && h[2] == s@[3] && h[3] == s@[4] && h[4] == s@[5] && h[5] == s@[6]);
        let r = hex_digit_value(s[1]) * 16 + hex_digit_value(s[2]);
        let g = hex_digit_value(s[3]) * 16 + hex_digit_value(s[4]);
        let b = hex_digit_value(s[5]) * 16 + hex_digit_value(s[6]);
        Some(Rgb8 { r, g, b })
    } else if n == 4 {
        assert(h[0] == s@[1] && h[1] == s@[2] && h[2] == s@[3]);
        let r = hex_digit_value(s[1]) * 17;
        let g = hex_digit_value(s[2]) * 17;
        let b = hex_digit_value(s[3]) * 17;
        Some(Rgb8 { r, g, b })
    } else {
        None
    }
}

/// Parse a color string: CSS named colors (e.g. `"red"`, any ASCII case) or
/// hex (`"#f00"`, `"#ff0000"`). Anything else is refused with the string.
pub fn parse_color_str(s: &str) -> (r: Result<Rgb8, Error>)
    ensures
        match parse_color(s.spec_bytes()) {
            Some(c) => r == Ok::<Rgb8, Error>(c),
            None => r matches Err(Error::InvalidColor(m)) && m@ == s@,
        },
{
    let b = s.as_bytes();
    let parsed = if b.len() > 0 && b[0] == 35u8 {
        parse_hex_bytes(b)
    } else {
        let mut lower: Vec<u8> = Vec::new();
        let n = b.len();
        for i in 0..n
            invariant
                n == b@.len(),
                lower@ == b@.take(i as int).map_values(|c: u8| ascii_lower(c)),
        {
            let c = b[i];
            let l = if 65u8 <= c && c <= 90u8 {
                c + 32
            } else {
                c
            };
            lower.push(l);
            assert(lower@ =~= b@.take(i + 1).map_values(|c: u8| ascii_lower(c)));
        }
        assert(b@.take(n as int) =~= b@);
        lookup_named_color(lower.as_slice())
    };
    match parsed {
        Some(c) => Ok(c),
        None => Err(Error::InvalidColor(s.to_owned())),
    }
}

/// The CSS named colors that are recognized, as (name, hex code) pairs
/// with the hex codes that CSS gives them.
pub open spec fn css_named_colors() -> Seq<(Seq<char>, Seq<char>)> {
    seq![
        ("black"@, "#000"@),
        ("white"@, "#fff"@),
        ("red"@, "#f00"@),
        ("lime"@, "#0f0"@),
        ("blue"@, "#00f"@),
        ("yellow"@, "#ff0"@),
        ("cyan"@, "#0ff"@),
        ("aqua"@, "#0ff"@),
        ("magenta"@, "#f0f"@),
        ("fuchsia"@, "#f0f"@),
        ("silver"@, "#c0c0c0"@),
        ("gray"@, "#808080"@),
        ("grey"@, "#808080"@),
        ("maroon"@, "#800000"@),
        ("olive"@, "#808000"@),
        ("green"@, "#008000"@),
        ("purple"@, "#800080"@),
        ("teal"@, "#008080"@),
        ("navy"@, "#000080"@),
        ("orange"@, "#ffa500"@),
        ("coral"@, "#ff7f50"@),
        ("tomato"@, "#ff6347"@),
        ("salmon"@, "#fa8072"@),
        ("gold"@, "#ffd700"@),
        ("pink"@, "#ffc0cb"@),
        ("violet"@, "#ee82ee"@),
        ("indigo"@, "#4b0082"@),
        ("brown"@, "#a52a2a"@),
        ("tan"@, "#d2b48c"@),
        ("skyblue"@, "#87ceeb"@),
    ]
}

/// The bytes of an ASCII string.
pub open spec fn ascii_bytes(s: Seq<char>) -> Seq<u8> {
    s.map_values(|c: char| c as u8)
}

proof fn lemma_hex6(s: Seq<u8>, a: u8, b: u8, c: u8, d: u8, e: u8, f: u8)
    requires
        s == seq![35u8, a, b, c, d, e, f],
        is_hex_digit(a) && is_hex_digit(b) && is_hex_digit(c),
        is_hex_digit(d) && is_hex_digit(e) && is_hex_digit(f),
    ensures
        parse_hex_color(s) == Some(
            Rgb8 {
                r: (hex_value(a) * 16 + hex_value(b)) as u8,
                g: (hex_value(c) * 16 + hex_value(d)) as u8,
                b: (hex_value(e) * 16 + hex_value(f)) as u8,
            },
        ),
{
    let h = s.drop_first();
    assert(h =~= seq![a, b, c, d, e, f]);
}

proof fn lemma_hex3(s: Seq<u8>, a: u8, b: u8, c: u8)
    requires
        s == seq![35u8, a, b, c],
        is_hex_digit(a) && is_hex_digit(b) && is_hex_digit(c),
    ensures
        parse_hex_color(s) == Some(
            Rgb8 {
                r: (hex_value(a) * 17) as u8,
                g: (hex_value(b) * 17) as u8,
                b: (hex_value(c) * 17) as u8,
            },
        ),
{
    let h = s.drop_first();
    assert(h =~= seq![a, b, c]);
}

/// The rows of the named-color table from the first name to the last named
/// here decode as their hex codes.
#[verifier::spinoff_prover]
proof fn lemma_css_black_to_aqua(i: int)
    requires
        0 <= i < 8,
    ensures
        parse_color(ascii_bytes(css_named_colors()[i].0)) is Some,
        parse_color(ascii_bytes(css_named_colors()[i].0)) == parse_hex_color(
            ascii_bytes(css_named_colors()[i].1),
        ),
{
    if i == 0 {
        assert(parse_color(ascii_bytes("black"@)) == parse_hex_color(ascii_bytes("#000"@))
            && parse_color(ascii_bytes("black"@)) is Some) by {
            reveal_strlit("black");
            reveal_strlit("#000");
            assert(ascii_bytes("black"@) =~= seq![98u8, 108, 97, 99, 107]);
            assert(ascii_bytes("#000"@) =~= seq![35u8, 48, 48, 48]);
            lemma_hex3(seq![35u8, 48, 48, 48], 48u8, 48u8, 48u8);
            assert(seq![98u8, 108, 97, 99, 107].map_values(|c: u8| ascii_lower(c)) =~= seq![98u8, 108, 97, 99, 107]);
        }
    } else if i == 1 {
        assert(parse_color(ascii_bytes("white"@)) == parse_hex_color(ascii_bytes("#fff"@))
            && parse_color(ascii_bytes("white"@)) is Some) by {
            reveal_strlit("white");
            reveal_strlit("#fff");
            assert(ascii_bytes("white"@) =~= seq![119u8, 104, 105, 116, 101]);
            assert(ascii_bytes("#fff"@) =~= seq![35u8, 102, 102, 102]);
            lemma_hex3(seq![35u8, 102, 102, 102], 102u8, 102u8, 102u8);
            assert(seq![119u8, 104, 105, 116, 101].map_values(|c: u8| ascii_lower(c)) =~= seq![119u8, 104, 105, 116, 101]);
        }
    } else if i == 2 {
        assert(parse_color(ascii_bytes("red"@)) == parse_hex_color(ascii_bytes("#f00"@))
            && parse_color(ascii_bytes("red"@)) is Some) by {
            reveal_strlit("red");
            reveal_strlit("#f00");
            assert(ascii_bytes("red"@) =~= seq![114u8, 101, 100]);
            assert(ascii_bytes("#f00"@) =~= seq![35u8, 102, 48, 48]);
            lemma_hex3(seq![35u8, 102, 48, 48], 102u8, 48u8, 48u8);
            assert(seq![114u8, 101, 100].map_values(|c: u8| ascii_lower(c)) =~= seq![114u8, 101, 100]);
        }
    } else if i == 3 {
        assert(parse_color(ascii_bytes("lime"@)) == parse_hex_color(ascii_bytes("#0f0"@))
            && parse_color(ascii_bytes("lime"@)) is Some) by {
            reveal_strlit("lime");
            reveal_strlit("#0f0");
            assert(ascii_bytes("lime"@) =~= seq![108u8, 105, 109, 101]);
            assert(ascii_bytes("#0f0"@) =~= seq![35u8, 48, 102, 48]);
            lemma_hex3(seq![35u8, 48, 102, 48], 48u8, 102u8, 48u8);
            assert(seq![108u8, 105, 109, 101].map_values(|c: u8| ascii_lower(c)) =~= seq![108u8, 105, 109, 101]);
        }
    } else if i == 4 {
        assert(parse_color(ascii_bytes("blue"@)) == parse_hex_color(ascii_bytes("#00f"@))
            && parse_color(ascii_bytes("blue"@)) is Some) by {
            reveal_strlit("blue");
            reveal_strlit("#00f");
            assert(ascii_bytes("blue"@) =~= seq![98u8, 108, 117, 101]);
            assert(ascii_bytes("#00f"@) =~= seq![35u8, 48, 48, 102]);
            lemma_hex3(seq![35u8, 48, 48, 102], 48u8, 48u8, 102u8);
            assert(seq![98u8, 108, 117, 101].map_values(|c: u8| ascii_lower(c)) =~= seq![98u8, 108, 117, 101]);
        }
    } else if i == 5 {
        assert(parse_color(ascii_bytes("yellow"@)) == parse_hex_color(ascii_bytes("#ff0"@))
            && parse_color(ascii_bytes("yellow"@)) is Some) by {
            reveal_strlit("yellow");
            reveal_strlit("#ff0");
            assert(ascii_bytes("yellow"@) =~= seq![121u8, 101, 108, 108, 111, 119]);
            assert(ascii_bytes("#ff0"@) =~= seq![35u8, 102, 102, 48]);
            lemma_hex3(seq![35u8, 102, 102, 48], 102u8, 102u8, 48u8);
            assert(seq![121u8, 101, 108, 108, 111, 119].map_values(|c: u8| ascii_lower(c)) =~= seq![121u8, 101, 108, 108, 111, 119]);
        }
    } else if i == 6 {
        assert(parse_color(ascii_bytes("cyan"@)) == parse_hex_color(ascii_bytes("#0ff"@))
            && parse_color(ascii_bytes("cyan"@)) is Some) by {
            reveal_strlit("cyan");
            reveal_strlit("#0ff");
            assert(ascii_bytes("cyan"@) =~= seq![99u8, 121, 97, 110]);
            assert(ascii_bytes("#0ff"@) =~= seq![35u8, 48, 102, 102]);
            lemma_hex3(seq![35u8, 48, 102, 102], 48u8, 102u8, 102u8);
            assert(seq![99u8, 121, 97, 110].map_values(|c: u8| ascii_lower(c)) =~= seq![99u8, 121, 97, 110]);
        }
    } else if i == 7 {
        assert(parse_color(ascii_bytes("aqua"@)) == parse_hex_color(ascii_bytes("#0ff"@))
            && parse_color(ascii_bytes("aqua"@)) is Some) by {
            reveal_strlit("aqua");
            reveal_strlit("#0ff");
            assert(ascii_bytes("aqua"@) =~= seq![97u8, 113, 117, 97]);
            assert(ascii_bytes("#0ff"@) =~= seq![35u8, 48, 102, 102]);
            lemma_hex3(seq![35u8, 48, 102, 102], 48u8, 102u8, 102u8);
            assert(seq![97u8, 113, 117, 97].map_values(|c: u8| ascii_lower(c)) =~= seq![97u8, 113, 117, 97]);
        }
    }
}

/// The rows of the named-color table from the first name to the last named
/// here decode as their hex codes.
#[verifier::spinoff_prover]
proof fn lemma_css_magenta_to_olive(i: int)
    requires
        8 <= i < 15,
    ensures
        parse_color(ascii_bytes(css_named_colors()[i].0)) is Some,
        parse_color(ascii_bytes(css_named_colors()[i].0)) == parse_hex_color(
            ascii_bytes(css_named_colors()[i].1),
        ),
{
    if i == 8 {
        assert(parse_color(ascii_bytes("magenta"@)) == parse_hex_color(ascii_bytes("#f0f"@))
            && parse_color(ascii_bytes("magenta"@)) is Some) by {
            reveal_strlit("magenta");
            reveal_strlit("#f0f");
            assert(ascii_bytes("magenta"@) =~= seq![109u8, 97, 103, 101, 110, 116, 97]);
            assert(ascii_bytes("#f0f"@) =~= seq![35u8, 102, 48, 102]);
            lemma_hex3(seq![35u8, 102, 48, 102], 102u8, 48u8, 102u8);
            assert(seq![109u8, 97, 103, 101, 110, 116, 97].map_values(|c: u8| ascii_lower(c)) =~= seq![109u8, 97, 103, 101, 110, 116, 97]);
        }
    } else if i == 9 {
        assert(parse_color(ascii_bytes("fuchsia"@)) == parse_hex_color(ascii_bytes("#f0f"@))
            && parse_color(ascii_bytes("fuchsia"@)) is Some) by {
            reveal_strlit("fuchsia");
            reveal_strlit("#f0f");
            assert(ascii_bytes("fuchsia"@) =~= seq![102u8, 117, 99, 104, 115, 105, 97]);
            assert(ascii_bytes("#f0f"@) =~= seq![35u8, 102, 48, 102]);
            lemma_hex3(seq![35u8, 102, 48, 102], 102u8, 48u8, 102u8);
            assert(seq![102u8, 117, 99, 104, 115, 105, 97].map_values(|c: u8| ascii_lower(c)) =~= seq![102u8, 117, 99, 104, 115, 105, 97]);
        }
    } else if i == 10 {
        assert(parse_color(ascii_bytes("silver"@)) == parse_hex_color(ascii_bytes("#c0c0c0"@))
            && parse_color(ascii_bytes("silver"@)) is Some) by {
            reveal_strlit("silver");
            reveal_strlit("#c0c0c0");
            assert(ascii_bytes("silver"@) =~= seq![115u8, 105, 108, 118, 101, 114]);
            assert(ascii_bytes("#c0c0c0"@) =~= seq![35u8, 99, 48, 99, 48, 99, 48]);
            lemma_hex6(seq![35u8, 99, 48, 99, 48, 99, 48], 99u8, 48u8, 99u8, 48u8, 99u8, 48u8);
            assert(seq![115u8, 105, 108, 118, 101, 114].map_values(|c: u8| ascii_lower(c)) =~= seq![115u8, 105, 108, 118, 101, 114]);
        }
    } else if i == 11 {
        assert(parse_color(ascii_bytes("gray"@)) == parse_hex_color(ascii_bytes("#808080"@))
            && parse_color(ascii_bytes("gray"@)) is Some) by {
            reveal_strlit("gray");
            reveal_strlit("#808080");
            assert(ascii_bytes("gray"@) =~= seq![103u8, 114, 97, 121]);
            assert(ascii_bytes("#808080"@) =~= seq![35u8, 56, 48, 56, 48, 56, 48]);
            lemma_hex6(seq![35u8, 56, 48, 56, 48, 56, 48], 56u8, 48u8, 56u8, 48u8, 56u8, 48u8);
            assert(seq![103u8, 114, 97, 121].map_values(|c: u8| ascii_lower(c)) =~= seq![103u8, 114, 97, 121]);
        }
    } else if i == 12 {
        assert(parse_color(ascii_bytes("grey"@)) == parse_hex_color(ascii_bytes("#808080"@))
            && parse_color(ascii_bytes("grey"@)) is Some) by {
            reveal_strlit("grey");
            reveal_strlit("#808080");
            assert(ascii_bytes("grey"@) =~= seq![103u8, 114, 101, 121]);
            assert(ascii_bytes("#808080"@) =~= seq![35u8, 56, 48, 56, 48, 56, 48]);
            lemma_hex6(seq![35u8, 56, 48, 56, 48, 56, 48], 56u8, 48u8, 56u8, 48u8, 56u8, 48u8);
            assert(seq![103u8, 114, 101, 121].map_values(|c: u8| ascii_lower(c)) =~= seq![103u8, 114, 101, 121]);
        }
    } else if i == 13 {
        assert(parse_color(ascii_bytes("maroon"@)) == parse_hex_color(ascii_bytes("#800000"@))
            && parse_color(ascii_bytes("maroon"@)) is Some) by {
            reveal_strlit("maroon");
            reveal_strlit("#800000");
            assert(ascii_bytes("maroon"@) =~= seq![109u8, 97, 114, 111, 111, 110]);
            assert(ascii_bytes("#800000"@) =~= seq![35u8, 56, 48, 48, 48, 48, 48]);
            lemma_hex6(seq![35u8, 56, 48, 48, 48, 48, 48], 56u8, 48u8, 48u8, 48u8, 48u8, 48u8);
            assert(seq![109u8, 97, 114, 111, 111, 110].map_values(|c: u8| ascii_lower(c)) =~= seq![109u8, 97, 114, 111, 111, 110]);
        }
    } else if i == 14 {
        assert(parse_color(ascii_bytes("olive"@)) == parse_hex_color(ascii_bytes("#808000"@))
            && parse_color(ascii_bytes("olive"@)) is Some) by {
            reveal_strlit("olive");
            reveal_strlit("#808000");
            assert(ascii_bytes("olive"@) =~= seq![111u8, 108, 105, 118, 101]);
            assert(ascii_bytes("#808000"@) =~= seq![35u8, 56, 48, 56, 48, 48, 48]);
            lemma_hex6(seq![35u8, 56, 48, 56, 48, 48, 48], 56u8, 48u8, 56u8, 48u8, 48u8, 48u8);
            assert(seq![111u8, 108, 105, 118, 101].map_values(|c: u8| ascii_lower(c)) =~= seq![111u8, 108, 105, 118, 101]);
        }
    }
}

/// The rows of the named-color table from the first name to the last named
/// here decode as their hex codes.
#[verifier::spinoff_prover]
proof fn lemma_css_green_to_salmon(i: int)
    requires
        15 <= i < 23,
    ensures
        parse_color(ascii_bytes(css_named_colors()[i].0)) is Some,
        parse_color(ascii_bytes(css_named_colors()[i].0)) == parse_hex_color(
            ascii_bytes(css_named_colors()[i].1),
        ),
{
    if i == 15 {
        assert(parse_color(ascii_bytes("green"@)) == parse_hex_color(ascii_bytes("#008000"@))
            && parse_color(ascii_bytes("green"@)) is Some) by {
            reveal_strlit("green");
            reveal_strlit("#008000");
            assert(ascii_bytes("green"@) =~= seq![103u8, 114, 101, 101, 110]);
            assert(ascii_bytes("#008000"@) =~= seq![35u8, 48, 48, 56, 48, 48, 48]);
            lemma_hex6(seq![35u8, 48, 48, 56, 48, 48, 48], 48u8, 48u8, 56u8, 48u8, 48u8, 48u8);
            assert(seq![103u8, 114, 101, 101, 110].map_values(|c: u8| ascii_lower(c)) =~= seq![103u8, 114, 101, 101, 110]);
        }
    } else if i == 16 {
        assert(parse_color(ascii_bytes("purple"@)) == parse_hex_color(ascii_bytes("#800080"@))
            && parse_color(ascii_bytes("purple"@)) is Some) by {
            reveal_strlit("purple");
            reveal_strlit("#800080");
            assert(ascii_bytes("purple"@) =~= seq![112u8, 117, 114, 112, 108, 101]);
            assert(ascii_bytes("#800080"@) =~= seq![35u8, 56, 48, 48, 48, 56, 48]);
            lemma_hex6(seq![35u8, 56, 48, 48, 48, 56, 48], 56u8, 48u8, 48u8, 48u8, 56u8, 48u8);
            assert(seq![112u8, 117, 114, 112, 108, 101].map_values(|c: u8| ascii_lower(c)) =~= seq![112u8, 117, 114, 112, 108, 101]);
        }
    } else if i == 17 {
        assert(parse_color(ascii_bytes("teal"@)) == parse_hex_color(ascii_bytes("#008080"@))
            && parse_color(ascii_bytes("teal"@)) is Some) by {
            reveal_strlit("teal");
            reveal_strlit("#008080");
            assert(ascii_bytes("teal"@) =~= seq![116u8, 101, 97, 108]);
            assert(ascii_bytes("#008080"@) =~= seq![35u8, 48, 48, 56, 48, 56, 48]);
            lemma_hex6(seq![35u8, 48, 48, 56, 48, 56, 48], 48u8, 48u8, 56u8, 48u8, 56u8, 48u8);
            assert(seq![116u8, 101, 97, 108].map_values(|c: u8| ascii_lower(c)) =~= seq![116u8, 101, 97, 108]);
        }
    } else if i == 18 {
        assert(parse_color(ascii_bytes("navy"@)) == parse_hex_color(ascii_bytes("#000080"@))
            && parse_color(ascii_bytes("navy"@)) is Some) by {
            reveal_strlit("navy");
            reveal_strlit("#000080");
            assert(ascii_bytes("navy"@) =~= seq![110u8, 97, 118, 121]);
            assert(ascii_bytes("#000080"@) =~= seq![35u8, 48, 48, 48, 48, 56, 48]);
            lemma_hex6(seq![35u8, 48, 48, 48, 48, 56, 48], 48u8, 48u8, 48u8, 48u8, 56u8, 48u8);
            assert(seq![110u8, 97, 118, 121].map_values(|c: u8| ascii_lower(c)) =~= seq![110u8, 97, 118, 121]);
        }
    } else if i == 19 {
        assert(parse_color(ascii_bytes("orange"@)) == parse_hex_color(ascii_bytes("#ffa500"@))
            && parse_color(ascii_bytes("orange"@)) is Some) by {
            reveal_strlit("orange");
            reveal_strlit("#ffa500");
            assert(ascii_bytes("orange"@) =~= seq![111u8, 114, 97, 110, 103, 101]);
            assert(ascii_bytes("#ffa500"@) =~= seq![35u8, 102, 102, 97, 53, 48, 48]);
            lemma_hex6(seq![35u8, 102, 102, 97, 53, 48, 48], 102u8, 102u8, 97u8, 53u8, 48u8, 48u8);
            assert(seq![111u8, 114, 97, 110, 103, 101].map_values(|c: u8| ascii_lower(c)) =~= seq![111u8, 114, 97, 110, 103, 101]);
        }
    } else if i == 20 {
        assert(parse_color(ascii_bytes("coral"@)) == parse_hex_color(ascii_bytes("#ff7f50"@))
            && parse_color(ascii_bytes("coral"@)) is Some) by {
            reveal_strlit("coral");
            reveal_strlit("#ff7f50");
            assert(ascii_bytes("coral"@) =~= seq![99u8, 111, 114, 97, 108]);
            assert(ascii_bytes("#ff7f50"@) =~= seq![35u8, 102, 102, 55, 102, 53, 48]);
            lemma_hex6(seq![35u8, 102, 102, 55, 102, 53, 48], 102u8, 102u8, 55u8, 102u8, 53u8, 48u8);
            assert(seq![99u8, 111, 114, 97, 108].map_values(|c: u8| ascii_lower(c)) =~= seq![99u8, 111, 114, 97, 108]);
        }
    } else if i == 21 {
        assert(parse_color(ascii_bytes("tomato"@)) == parse_hex_color(ascii_bytes("#ff6347"@))
            && parse_color(ascii_bytes("tomato"@)) is Some) by {
            reveal_strlit("tomato");
            reveal_strlit("#ff6347");
            assert(ascii_bytes("tomato"@) =~= seq![116u8, 111, 109, 97, 116, 111]);
            assert(ascii_bytes("#ff6347"@) =~= seq![35u8, 102, 102, 54, 51, 52, 55]);
            lemma_hex6(seq![35u8, 102, 102, 54, 51, 52, 55], 102u8, 102u8, 54u8, 51u8, 52u8, 55u8);
            assert(seq![116u8, 111, 109, 97, 116, 111].map_values(|c: u8| ascii_lower(c)) =~= seq![116u8, 111, 109, 97, 116, 111]);
        }
    } else if i == 22 {
        assert(parse_color(ascii_bytes("salmon"@)) == parse_hex_color(ascii_bytes("#fa8072"@))
            && parse_color(ascii_bytes("salmon"@)) is Some) by {
            reveal_strlit("salmon");
            reveal_strlit("#fa8072");
            assert(ascii_bytes("salmon"@) =~= seq![115u8, 97, 108, 109, 111, 110]);
            assert(ascii_bytes("#fa8072"@) =~= seq![35u8, 102, 97, 56, 48, 55, 50]);
            lemma_hex6(seq![35u8, 102, 97, 56, 48, 55, 50], 102u8, 97u8, 56u8, 48u8, 55u8, 50u8);
            assert(seq![115u8, 97, 108, 109, 111, 110].map_values(|c: u8| ascii_lower(c)) =~= seq![115u8, 97, 108, 109, 111, 110]);
        }
    }
}

/// The rows of the named-color table from the first name to the last named
/// here decode as their hex codes.
#[verifier::spinoff_prover]
proof fn lemma_css_gold_to_skyblue(i: int)
    requires
        23 <= i < 30,
    ensures
        parse_color(ascii_bytes(css_named_colors()[i].0)) is Some,
        parse_color(ascii_bytes(css_named_colors()[i].0)) == parse_hex_color(
            ascii_bytes(css_named_colors()[i].1),
        ),
{
    if i == 23 {
        assert(parse_color(ascii_bytes("gold"@)) == parse_hex_color(ascii_bytes("#ffd700"@))
            && parse_color(ascii_bytes("gold"@)) is Some) by {
            reveal_strlit("gold");
            reveal_strlit("#ffd700");
            assert(ascii_bytes("gold"@) =~= seq![103u8, 111, 108, 100]);
            assert(ascii_bytes("#ffd700"@) =~= seq![35u8, 102, 102, 100, 55, 48, 48]);
            lemma_hex6(seq![35u8, 102, 102, 100, 55, 48, 48], 102u8, 102u8, 100u8, 55u8, 48u8, 48u8);
            assert(seq![103u8, 111, 108, 100].map_values(|c: u8| ascii_lower(c)) =~= seq![103u8, 111, 108, 100]);
        }
    } else if i == 24 {
        assert(parse_color(ascii_bytes("pink"@)) == parse_hex_color(ascii_bytes("#ffc0cb"@))
            && parse_color(ascii_bytes("pink"@)) is Some) by {
            reveal_strlit("pink");
            reveal_strlit("#ffc0cb");
            assert(ascii_bytes("pink"@) =~= seq![112u8, 105, 110, 107]);
            assert(ascii_bytes("#ffc0cb"@) =~= seq![35u8, 102, 102, 99, 48, 99, 98]);
            lemma_hex6(seq![35u8, 102, 102, 99, 48, 99, 98], 102u8, 102u8, 99u8, 48u8, 99u8, 98u8);
            assert(seq![112u8, 105, 110, 107].map_values(|c: u8| ascii_lower(c)) =~= seq![112u8, 105, 110, 107]);
        }
    } else if i == 25 {
        assert(parse_color(ascii_bytes("violet"@)) == parse_hex_color(ascii_bytes("#ee82ee"@))
            && parse_color(ascii_bytes("violet"@)) is Some) by {
            reveal_strlit("violet");
            reveal_strlit("#ee82ee");
            assert(ascii_bytes("violet"@) =~= seq![118u8, 105, 111, 108, 101, 116]);
            assert(ascii_bytes("#ee82ee"@) =~= seq![35u8, 101, 101, 56, 50, 101, 101]);
            lemma_hex6(seq![35u8, 101, 101, 56, 50, 101, 101], 101u8, 101u8, 56u8, 50u8, 101u8, 101u8);
            assert(seq![118u8, 105, 111, 108, 101, 116].map_values(|c: u8| ascii_lower(c)) =~= seq![118u8, 105, 111, 108, 101, 116]);
        }
    } else if i == 26 {
        assert(parse_color(ascii_bytes("indigo"@)) == parse_hex_color(ascii_bytes("#4b0082"@))
            && parse_color(ascii_bytes("indigo"@)) is Some) by {
            reveal_strlit("indigo");
            reveal_strlit("#4b0082");
            assert(ascii_bytes("indigo"@) =~= seq![105u8, 110, 100, 105, 103, 111]);
            assert(ascii_bytes("#4b0082"@) =~= seq![35u8, 52, 98, 48, 48, 56, 50]);
            lemma_hex6(seq![35u8, 52, 98, 48, 48, 56, 50], 52u8, 98u8, 48u8, 48u8, 56u8, 50u8);
            assert(seq![105u8, 110, 100, 105, 103, 111].map_values(|c: u8| ascii_lower(c)) =~= seq![105u8, 110, 100, 105, 103, 111]);
        }
    } else if i == 27 {
        assert(parse_color(ascii_bytes("brown"@)) == parse_hex_color(ascii_bytes("#a52a2a"@))
            && parse_color(ascii_bytes("brown"@)) is Some) by {
            reveal_strlit("brown");
            reveal_strlit("#a52a2a");
            assert(ascii_bytes("brown"@) =~= seq![98u8, 114, 111, 119, 110]);
            assert(ascii_bytes("#a52a2a"@) =~= seq![35u8, 97, 53, 50, 97, 50, 97]);
            lemma_hex6(seq![35u8, 97, 53, 50, 97, 50, 97], 97u8, 53u8, 50u8, 97u8, 50u8, 97u8);
            assert(seq![98u8, 114, 111, 119, 110].map_values(|c: u8| ascii_lower(c)) =~= seq![98u8, 114, 111, 119, 110]);
        }
    } else if i == 28 {
        assert(parse_color(ascii_bytes("tan"@)) == parse_hex_color(ascii_bytes("#d2b48c"@))
            && parse_color(ascii_bytes("tan"@)) is Some) by {
            reveal_strlit("tan");
            reveal_strlit("#d2b48c");
            assert(ascii_bytes("tan"@) =~= seq![116u8, 97, 110]);
            assert(ascii_bytes("#d2b48c"@) =~= seq![35u8, 100, 50, 98, 52, 56, 99]);
            lemma_hex6(seq![35u8, 100, 50, 98, 52, 56, 99], 100u8, 50u8, 98u8, 52u8, 56u8, 99u8);
            assert(seq![116u8, 97, 110].map_values(|c: u8| ascii_lower(c)) =~= seq![116u8, 97, 110]);
        }
    } else if i == 29 {
        assert(parse_color(ascii_bytes("skyblue"@)) == parse_hex_color(ascii_bytes("#87ceeb"@))
            && parse_color(ascii_bytes("skyblue"@)) is Some) by {
            reveal_strlit("skyblue");
            reveal_strlit("#87ceeb");
            assert(ascii_bytes("skyblue"@) =~= seq![115u8, 107, 121, 98, 108, 117, 101]);
            assert(ascii_bytes("#87ceeb"@) =~= seq![35u8, 56, 55, 99, 101, 101, 98]);
            lemma_hex6(seq![35u8, 56, 55, 99, 101, 101, 98], 56u8, 55u8, 99u8, 101u8, 101u8, 98u8);
            assert(seq![115u8, 107, 121, 98, 108, 117, 101].map_values(|c: u8| ascii_lower(c)) =~= seq![115u8, 107, 121, 98, 108, 117, 101]);
        }
    }
}

/// Each CSS color name, in the lowercase that the table gives, is recognized
/// and decodes to the color of its CSS hex code: the name and the hex string
/// parse to the same RGB value.
pub proof fn lemma_named_color_is_css_hex(i: int)
    requires
        0 <= i < css_named_colors().len(),
    ensures
        parse_color(ascii_bytes(css_named_colors()[i].0)) is Some,
        parse_color(ascii_bytes(css_named_colors()[i].0)) == parse_hex_color(
            ascii_bytes(css_named_colors()[i].1),
        ),
{
    if i < 8 {
        lemma_css_black_to_aqua(i);
    } else if i < 15 {
        lemma_css_magenta_to_olive(i);
    } else if i < 23 {
        lemma_css_green_to_salmon(i);
    } else {
        lemma_css_gold_to_skyblue(i);
    }
}

/// A color string that does not start with `#` is read without regard to
/// ASCII case, and it is recognized only as one of the CSS names of the table,
/// whose hex code it then decodes to.
#[verifier::spinoff_prover]
pub proof fn lemma_recognized_names_are_css(s: Seq<u8>)
    requires
        s.len() == 0 || s[0] != 35,
    ensures
        parse_color(s) == parse_color(s.map_values(|c: u8| ascii_lower(c))),
        parse_color(s) is Some ==> exists|i: int|
            0 <= i < css_named_colors().len() && ascii_bytes(#[trigger] css_named_colors()[i].0)
                == s.map_values(|c: u8| ascii_lower(c)) && parse_color(s) == parse_hex_color(
                ascii_bytes(css_named_colors()[i].1),
            ),
{
    let lower = s.map_values(|c: u8| ascii_lower(c));
    assert(lower.map_values(|c: u8| ascii_lower(c)) =~= lower);
    if lower.len() > 0 {
        assert(lower[0] != 35);
    }
    if parse_color(s) is Some {
        if lower == seq![98u8, 108, 97, 99, 107] {
            reveal_strlit("black");
            assert(ascii_bytes(css_named_colors()[0].0) =~= lower);
            lemma_named_color_is_css_hex(0);
        } else if lower == seq![119u8, 104, 105, 116, 101] {
            reveal_strlit("white");
            assert(ascii_bytes(css_named_colors()[1].0) =~= lower);
            lemma_named_color_is_css_hex(1);
        } else if lower == seq![114u8, 101, 100] {
            reveal_strlit("red");
            assert(ascii_bytes(css_named_colors()[2].0) =~= lower);
            lemma_named_color_is_css_hex(2);
        } else if lower == seq![108u8, 105, 109, 101] {
            reveal_strlit("lime");
            assert(ascii_bytes(css_named_colors()[3].0) =~= lower);
            lemma_named_color_is_css_hex(3);
        } else if lower == seq![98u8, 108, 117, 101] {
            reveal_strlit("blue");
            assert(ascii_bytes(css_named_colors()[4].0) =~= lower);
            lemma_named_color_is_css_hex(4);
        } else if lower == seq![121u8, 101, 108, 108, 111, 119] {
            reveal_strlit("yellow");
            assert(ascii_bytes(css_named_colors()[5].0) =~= lower);
            lemma_named_color_is_css_hex(5);
        } else if lower == seq![99u8, 121, 97, 110] {
            reveal_strlit("cyan");
            assert(ascii_bytes(css_named_colors()[6].0) =~= lower);
            lemma_named_color_is_css_hex(6);
        } else if lower == seq![97u8, 113, 117, 97] {
            reveal_strlit("aqua");
            assert(ascii_bytes(css_named_colors()[7].0) =~= lower);
            lemma_named_color_is_css_hex(7);
        } else if lower == seq![109u8, 97, 103, 101, 110, 116, 97] {
            reveal_strlit("magenta");
            assert(ascii_bytes(css_named_colors()[8].0) =~= lower);
            lemma_named_color_is_css_hex(8);
        } else if lower == seq![102u8, 117, 99, 104, 115, 105, 97] {
            reveal_strlit("fuchsia");
            assert(ascii_bytes(css_named_colors()[9].0) =~= lower);
            lemma_named_color_is_css_hex(9);
        } else if lower == seq![115u8, 105, 108, 118, 101, 114] {
            reveal_strlit("silver");
            assert(ascii_bytes(css_named_colors()[10].0) =~= lower);
            lemma_named_color_is_css_hex(10);
        } else if lower == seq![103u8, 114, 97, 121] {
            reveal_strlit("gray");
            assert(ascii_bytes(css_named_colors()[11].0) =~= lower);
            lemma_named_color_is_css_hex(11);
        } else if lower == seq![103u8, 114, 101, 121] {
            reveal_strlit("grey");
            assert(ascii_bytes(css_named_colors()[12].0) =~= lower);
            lemma_named_color_is_css_hex(12);
        } else if lower == seq![109u8, 97, 114, 111, 111, 110] {
            reveal_strlit("maroon");
            assert(ascii_bytes(css_named_colors()[13].0) =~= lower);
            lemma_named_color_is_css_hex(13);
        } else if lower == seq![111u8, 108, 105, 118, 101] {
            reveal_strlit("olive");
            assert(ascii_bytes(css_named_colors()[14].0) =~= lower);
            lemma_named_color_is_css_hex(14);
        } else if lower == seq![103u8, 114, 101, 101, 110] {
            reveal_strlit("green");
            assert(ascii_bytes(css_named_colors()[15].0) =~= lower);
            lemma_named_color_is_css_hex(15);
        } else if lower == seq![112u8, 117, 114, 112, 108, 101] {
            reveal_strlit("purple");
            assert(ascii_bytes(css_named_colors()[16].0) =~= lower);
            lemma_named_color_is_css_hex(16);
        } else if lower == seq![116u8, 101, 97, 108] {
            reveal_strlit("teal");
            assert(ascii_bytes(css_named_colors()[17].0) =~= lower);
            lemma_named_color_is_css_hex(17);
        } else if lower == seq![110u8, 97, 118, 121] {
            reveal_strlit("navy");
            assert(ascii_bytes(css_named_colors()[18].0) =~= lower);
            lemma_named_color_is_css_hex(18);
        } else if lower == seq![111u8, 114, 97, 110, 103, 101] {
            reveal_strlit("orange");
            assert(ascii_bytes(css_named_colors()[19].0) =~= lower);
            lemma_named_color_is_css_hex(19);
        } else if lower == seq![99u8, 111, 114, 97, 108] {
            reveal_strlit("coral");
            assert(ascii_bytes(css_named_colors()[20].0) =~= lower);
            lemma_named_color_is_css_hex(20);
        } else if lower == seq![116u8, 111, 109, 97, 116, 111] {
            reveal_strlit("tomato");
            assert(ascii_bytes(css_named_colors()[21].0) =~= lower);
            lemma_named_color_is_css_hex(21);
        } else if lower == seq![115u8, 97, 108, 109, 111, 110] {
            reveal_strlit("salmon");
            assert(ascii_bytes(css_named_colors()[22].0) =~= lower);
            lemma_named_color_is_css_hex(22);
        } else if lower == seq![103u8, 111, 108, 100] {
            reveal_strlit("gold");
            assert(ascii_bytes(css_named_colors()[23].0) =~= lower);
            lemma_named_color_is_css_hex(23);
        } else if lower == seq![112u8, 105, 110, 107] {
            reveal_strlit("pink");
            assert(ascii_bytes(css_named_colors()[24].0) =~= lower);
            lemma_named_color_is_css_hex(24);
        } else if lower == seq![118u8, 105, 111, 108, 101, 116] {
            reveal_strlit("violet");
            assert(ascii_bytes(css_named_colors()[25].0) =~= lower);
            lemma_named_color_is_css_hex(25);
        } else if lower == seq![105u8, 110, 100, 105, 103, 111] {
            reveal_strlit("indigo");
            assert(ascii_bytes(css_named_colors()[26].0) =~= lower);
            lemma_named_color_is_css_hex(26);
        } else if lower == seq![98u8, 114, 111, 119, 110] {
            reveal_strlit("brown");
            assert(ascii_bytes(css_named_colors()[27].0) =~= lower);
            lemma_named_color_is_css_hex(27);
        } else if lower == seq![116u8, 97, 110] {
            reveal_strlit("tan");
            assert(ascii_bytes(css_named_colors()[28].0) =~= lower);
            lemma_named_color_is_css_hex(28);
        } else if lower == seq![115u8, 107, 121, 98, 108, 117, 101] {
            reveal_strlit("skyblue");
            assert(ascii_bytes(css_named_colors()[29].0) =~= lower);
            lemma_named_color_is_css_hex(29);
        }
    }
}

/// A three-digit hex color is the six-digit one with each digit doubled, and
/// the one is refused exactly when the other is.
pub proof fn lemma_short_hex_doubles_digits(a: u8, b: u8, c: u8)
    ensures
        parse_hex_color(seq![35u8, a, b, c]) == parse_hex_color(seq![35u8, a, a, b, b, c, c]),
{
    let short = seq![35u8, a, b, c];
    let long = seq![35u8, a, a, b, b, c, c];
    assert(short.drop_first() =~= seq![a, b, c]);
    assert(long.drop_first() =~= seq![a, a, b, b, c, c]);
    if is_hex_digit(a) && is_hex_digit(b) && is_hex_digit(c) {
        lemma_hex3(short, a, b, c);
        lemma_hex6(long, a, a, b, b, c, c);
    } else if !is_hex_digit(a) {
        assert(!is_hex_digit(short.drop_first()[0]));
        assert(!is_hex_digit(long.drop_first()[0]));
    } else if !is_hex_digit(b) {
        assert(!is_hex_digit(short.drop_first()[1]));
        assert(!is_hex_digit(long.drop_first()[2]));
    } else {
        assert(!is_hex_digit(short.drop_first()[2]));
        assert(!is_hex_digit(long.drop_first()[4]));
    }
}

} // verus!
