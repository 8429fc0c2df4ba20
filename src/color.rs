//! Colors, the perceptual color metric and the mask-color parser.
use vstd::prelude::*;
use vstd::string::StringSliceAdditionalSpecFns;

verus! {

/// An 8-bit RGBA color.
#[derive(Clone, Copy, Debug, PartialEq, Eq, Structural)]
pub struct Color {
    pub r: u8,
    pub g: u8,
    pub b: u8,
    pub a: u8,
}

impl Color {
    pub fn new(r: u8, g: u8, b: u8, a: u8) -> (c: Color)
        ensures
            c == (Color { r, g, b, a }),
    {
        Color { r, g, b, a }
    }
}

/// Largest distance at which two colors still count as the same.
pub const TOLERANCE: u32 = 50;

/// The color metric, scaled by 512 so that it is an integer.
///
/// With `dr`, `dg`, `db` the channel differences and `rbar = dr / 2`, the
/// distance is the square root of
/// `(2 + rbar/256) dr^2 + 4 dg^2 + (2 + (255 - rbar)/256) db^2`.
/// Multiplied by 512 that sum is
/// `(1024 + dr) dr^2 + 2048 dg^2 + (1534 - dr) db^2`, which is what this
/// function gives. The alpha channel plays no part.
pub open spec fn scaled_distance_sq(a: Color, b: Color) -> int {
    let dr = a.r as int - b.r as int;
    let dg = a.g as int - b.g as int;
    let db = a.b as int - b.b as int;
    (1024 + dr) * (dr * dr) + 2048 * (dg * dg) + (1534 - dr) * (db * db)
}

/// `distance(want, got) <= TOLERANCE`, squared and scaled by 512.
pub open spec fn within_tolerance(want: Color, got: Color) -> bool {
    scaled_distance_sq(want, got) <= 512 * (TOLERANCE * TOLERANCE)
}

proof fn lemma_square_bound(d: int)
    requires
        -255 <= d <= 255,
    ensures
        0 <= d * d <= 65025,
{
    assert(0 <= d * d <= 65025) by (nonlinear_arith)
        requires
            -255 <= d <= 255,
    ;
}

/// Squared color distance times 512: exact, in integers.
pub fn distance_srgb_scaled(a: Color, b: Color) -> (d: u32)
    ensures
        d as int == scaled_distance_sq(a, b),
{
    let dr: i64 = a.r as i64 - b.r as i64;
    let dg: i64 = a.g as i64 - b.g as i64;
    let db: i64 = a.b as i64 - b.b as i64;
    proof {
        lemma_square_bound(dr as int);
        lemma_square_bound(dg as int);
        lemma_square_bound(db as int);
    }
    let sr: i64 = dr * dr;
    let sg: i64 = dg * dg;
    let sb: i64 = db * db;
    let wr: i64 = 1024 + dr;
    let wb: i64 = 1534 - dr;
    assert(0 <= wr * sr <= 1279 * 65025) by (nonlinear_arith)
        requires
            769 <= wr <= 1279,
            0 <= sr <= 65025,
    ;
    assert(0 <= wb * sb <= 1789 * 65025) by (nonlinear_arith)
        requires
            1279 <= wb <= 1789,
            0 <= sb <= 65025,
    ;
    let total: i64 = wr * sr + 2048 * sg + wb * sb;
    total as u32
}

/// Whether `got` lies within `TOLERANCE` of `want`.
pub fn close_enough(want: Color, got: Color) -> (r: bool)
    ensures
        r == within_tolerance(want, got),
{
    distance_srgb_scaled(want, got) <= 512 * (TOLERANCE * TOLERANCE)
}

/// Every color is at distance zero from itself, so it matches itself.
pub proof fn lemma_distance_to_self(a: Color)
    ensures
        scaled_distance_sq(a, a) == 0,
        within_tolerance(a, a),
{
    let z: int = 0;
    assert((1024 + z) * (z * z) + 2048 * (z * z) + (1534 - z) * (z * z) == 0);
}

/// The metric is not symmetric: swapping the arguments changes the scaled
/// square by exactly `2 dr (dr^2 - db^2)`, where `dr` and `db` are the red and
/// blue differences of the first argument minus the second. It is symmetric
/// exactly when `dr` is zero or `|dr| == |db|`.
pub proof fn lemma_distance_asymmetry(a: Color, b: Color)
    ensures
        ({
            let dr = a.r as int - b.r as int;
            let db = a.b as int - b.b as int;
            &&& scaled_distance_sq(a, b) - scaled_distance_sq(b, a) == 2 * dr * (dr * dr - db * db)
            &&& (scaled_distance_sq(a, b) == scaled_distance_sq(b, a) <==> (dr == 0 || dr * dr
                == db * db))
        }),
{
    let dr = a.r as int - b.r as int;
    let dg = a.g as int - b.g as int;
    let db = a.b as int - b.b as int;
    assert((1024 + dr) * (dr * dr) + 2048 * (dg * dg) + (1534 - dr) * (db * db) - ((1024 + (-dr))
        * ((-dr) * (-dr)) + 2048 * ((-dg) * (-dg)) + (1534 - (-dr)) * ((-db) * (-db))) == 2 * dr * (
    dr * dr - db * db)) by (nonlinear_arith);
    assert((2 * dr * (dr * dr - db * db) == 0) <==> (dr == 0 || dr * dr == db * db))
        by (nonlinear_arith);
}

/// Whether `c` is an ASCII hex digit, in either case.
pub open spec fn is_hex_digit(c: u8) -> bool {
    (48 <= c <= 57) || (65 <= c <= 70) || (97 <= c <= 102)
}

/// The value of the hex digit `c`.
pub open spec fn hex_value(c: u8) -> int {
    if 48 <= c <= 57 {
        c - 48
    } else if 65 <= c <= 70 {
        c - 55
    } else {
        c - 87
    }
}

/// An even number of hex digits.
pub open spec fn is_hex_string(s: Seq<u8>) -> bool {
    s.len() % 2 == 0 && forall|i: int| 0 <= i < s.len() ==> is_hex_digit(#[trigger] s[i])
}

/// The byte that the two hex digits `hi`, `lo` write.
pub open spec fn hex_byte(hi: u8, lo: u8) -> u8 {
    (16 * hex_value(hi) + hex_value(lo)) as u8
}

/// The bytes that a hex string writes, two digits each, high digit first.
pub open spec fn hex_decoded(s: Seq<u8>) -> Seq<u8> {
    Seq::new(s.len() / 2, |i: int| hex_byte(s[2 * i], s[2 * i + 1]))
}

/// The error of `hex::decode`, held opaque.
#[verifier::external_type_specification]
#[verifier::external_body]
pub struct ExFromHexError(hex::FromHexError);

/// Relies on `hex::decode`: it accepts exactly the strings of an even number
/// of hex digits (either case) and turns each pair into one byte, high digit
/// first; anything else is an error.
#[verifier::external_body]
fn decode_hex(digits: &[u8]) -> (r: Result<Vec<u8>, hex::FromHexError>)
    ensures
        r is Ok <==> is_hex_string(digits@),
        r matches Ok(v) ==> v@ == hex_decoded(digits@),
{
    hex::decode(digits)
}

/// The six hex digits of a mask-color string: six hex digits, optionally
/// after one `#`, and nothing else.
pub open spec fn color_digits(s: Seq<u8>) -> Option<Seq<u8>> {
    if s.len() == 6 && forall|i: int| 0 <= i < 6 ==> is_hex_digit(#[trigger] s[i]) {
        Some(s)
    } else if s.len() == 7 && s[0] == 35 && forall|i: int| 1 <= i < 7 ==> is_hex_digit(#[trigger] s[i]) {
        Some(s.subrange(1, 7))
    } else {
        None
    }
}

/// The opaque color that a mask-color string names, if it is one.
pub open spec fn parsed_color(s: Seq<u8>) -> Option<Color> {
    match color_digits(s) {
        Some(d) => Some(
            Color {
                r: hex_byte(d[0], d[1]),
                g: hex_byte(d[2], d[3]),
                b: hex_byte(d[4], d[5]),
                a: 255,
            },
        ),
        None => None,
    }
}

fn is_hex_digit_exec(c: u8) -> (r: bool)
    ensures
        r == is_hex_digit(c),
{
    (48 <= c && c <= 57) || (65 <= c && c <= 70) || (97 <= c && c <= 102)
}

/// Parses `RRGGBB` or `#RRGGBB` (hex digits of either case) into an opaque
/// color.
pub fn try_parse_rgba(color_hex: &str) -> (r: Option<Color>)
    ensures
        r == parsed_color(color_hex.spec_bytes()),
{
    let bytes = color_hex.as_bytes();
    let n = bytes.len();
    let start: usize = if n == 6 {
        0
    } else if n == 7 && bytes[0] == 35 {
        1
    } else {
        return None;
    };
    let mut digits: Vec<u8> = Vec::new();
    let mut i: usize = start;
    while i < n
        invariant
            bytes@ == color_hex.spec_bytes(),
            n == bytes@.len(),
            start == n - 6,
            start <= i <= n,
            digits@ == bytes@.subrange(start as int, i as int),
            forall|j: int| start <= j < i ==> is_hex_digit(#[trigger] bytes@[j]),
        decreases n - i,
    {
        let c = bytes[i];
        assert(c == bytes@[i as int]);
        if !is_hex_digit_exec(c) {
            return None;
        }
        digits.push(c);
        assert(digits@ =~= bytes@.subrange(start as int, i + 1));
        i = i + 1;
    }
    let ghost s = bytes@;
    assert(digits@ =~= s.subrange(start as int, n as int));
    assert(color_digits(s) == Some(digits@)) by {
        if n == 6 {
            assert(digits@ =~= s);
        }
    }
    assert(is_hex_string(digits@)) by {
        assert forall|j: int| 0 <= j < digits@.len() implies is_hex_digit(#[trigger] digits@[j]) by {
            assert(digits@[j] == s[start + j]);
        }
    }
    match decode_hex(digits.as_slice()) {
        Ok(v) => Some(Color { r: v[0], g: v[1], b: v[2], a: 255 }),
        Err(_) => None,
    }
}

} // verus!
