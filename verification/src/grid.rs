//! Maidenhead grid locators, in exact integer arithmetic.
//!
//! A position is held as sixteenths of an arc-second east of 180°W and
//! north of 90°S, so every cell edge and every cell centre is a whole
//! number. Pair `p` (0-based) of a locator has, per axis, a cell of:
//!   p=0 (field):      lng 20°,   lat 10°     letters A–R
//!   p=1 (square):     lng 2°,    lat 1°      digits 0–9
//!   p=2 (subsquare):  lng 5',    lat 2.5'    letters A–X
//!   p=3 (extended):   lng 30",   lat 15"     digits 0–9
//!   p=4 (extended):   lng 1.25", lat 0.625"  letters A–X
use vstd::prelude::*;

use crate::text::push_char;
use vstd::string::StringSliceAdditionalSpecFns;
use vstd::utf8::{encode_utf8, is_ascii_chars};

verus! {

broadcast use vstd::utf8::is_ascii_chars_encode_utf8;

/// Position units per degree (sixteenths of an arc-second).
pub const UNITS_PER_DEGREE: u32 = 57600;

/// 360° of longitude, in units.
pub const LNG_SPAN: u32 = 20736000;

/// 180° of latitude, in units.
pub const LAT_SPAN: u32 = 10368000;

/// Longitude cell width of pair `p`, in units.
pub open spec fn lng_step(p: int) -> int {
    if p == 0 {
        1152000
    } else if p == 1 {
        115200
    } else if p == 2 {
        4800
    } else if p == 3 {
        480
    } else {
        20
    }
}

/// Latitude cell height of pair `p`, in units: half the width.
pub open spec fn lat_step(p: int) -> int {
    if p == 0 {
        576000
    } else if p == 1 {
        57600
    } else if p == 2 {
        2400
    } else if p == 3 {
        240
    } else {
        10
    }
}

/// How many symbols pair `p` uses.
pub open spec fn pair_radix(p: int) -> int {
    if p == 0 {
        18
    } else if p == 2 || p == 4 {
        24
    } else {
        10
    }
}

/// A locator length: even, 2 to 10 characters.
pub open spec fn valid_grid_len(n: int) -> bool {
    2 <= n <= 10 && n % 2 == 0
}

/// The index of an ASCII letter (either case) if it is among the first
/// `radix` letters.
pub open spec fn spec_letter_idx(c: u8, radix: int) -> Option<int> {
    let u = if 97 <= c <= 122 {
        c - 32
    } else {
        c as int
    };
    if 65 <= u <= 90 && u - 65 < radix {
        Some(u - 65)
    } else {
        None
    }
}

/// The value of an ASCII digit.
pub open spec fn spec_digit_idx(c: u8) -> Option<int> {
    if 48 <= c <= 57 {
        Some(c - 48)
    } else {
        None
    }
}

/// The value of byte `c` as a symbol of pair `p`.
pub open spec fn symbol_value(p: int, c: u8) -> Option<int> {
    if p == 0 {
        spec_letter_idx(c, 18)
    } else if p == 2 || p == 4 {
        spec_letter_idx(c, 24)
    } else {
        spec_digit_idx(c)
    }
}

/// Whether byte `i` of a locator is a valid symbol for its pair.
pub open spec fn position_ok(b: Seq<u8>, i: int) -> bool {
    symbol_value(i / 2, b[i]) is Some
}

/// The value of byte `i` of a locator (0 where it is not a symbol).
pub open spec fn value_at(b: Seq<u8>, i: int) -> int {
    match symbol_value(i / 2, b[i]) {
        Some(v) => v,
        None => 0,
    }
}

/// South-west corner longitude of the cell named by the first `k` pairs.
pub open spec fn lng_corner(b: Seq<u8>, k: int) -> int
    decreases k,
{
    if k <= 0 {
        0
    } else {
        lng_corner(b, k - 1) + value_at(b, 2 * (k - 1)) * lng_step(k - 1)
    }
}

/// South-west corner latitude of the cell named by the first `k` pairs.
pub open spec fn lat_corner(b: Seq<u8>, k: int) -> int
    decreases k,
{
    if k <= 0 {
        0
    } else {
        lat_corner(b, k - 1) + value_at(b, 2 * (k - 1) + 1) * lat_step(k - 1)
    }
}

/// The centre of a decoded cell, in units east of 180°W and north of 90°S.
#[derive(Debug, Clone, Copy, PartialEq, Eq, Structural)]
pub struct GridCell {
    pub lng_units: u32,
    pub lat_units: u32,
}

/// Why a locator or an encode request is refused.
#[derive(Debug, Clone)]
pub enum GridError {
    /// The locator is not 2, 4, 6, 8 or 10 bytes long.
    InvalidLength(String),
    /// The byte at this position is not a symbol of its pair.
    InvalidChar(String, usize),
    /// The requested locator length is not even and in 2..=10.
    BadEncodeLength(usize),
}

/// What decoding the locator with bytes `b` gives: the first bad byte,
/// else the centre of the cell.
pub open spec fn decode_ok(b: Seq<u8>) -> bool {
    forall|i: int| 0 <= i < b.len() ==> position_ok(b, i)
}

/// `letter_idx`: the index of an ASCII letter (either case) among the
/// first `radix` letters of the alphabet.
pub fn letter_idx(c: u8, radix: u32) -> (r: Option<u32>)
    ensures
        match spec_letter_idx(c, radix as int) {
            Some(v) => r == Some(v as u32),
            None => r is None,
        },
{
    let upper: u8 = if 97 <= c && c <= 122 {
        c - 32
    } else {
        c
    };
    if !(65 <= upper && upper <= 90) {
        return None;
    }
    let idx: u32 = (upper - 65) as u32;
    if idx < radix {
        Some(idx)
    } else {
        None
    }
}

/// `digit_idx`: the value of an ASCII digit.
pub fn digit_idx(c: u8) -> (r: Option<u32>)
    ensures
        match spec_digit_idx(c) {
            Some(v) => r == Some(v as u32),
            None => r is None,
        },
{
    if 48 <= c && c <= 57 {
        Some((c - 48) as u32)
    } else {
        None
    }
}

/// The two symbol values of pair `pair_idx` (longitude byte `a`,
/// latitude byte `b`); a bad byte is reported at its position in `loc`.
pub fn pair_to_indices(loc: &str, pair_idx: usize, a: u8, b: u8) -> (r: Result<(u32, u32), GridError>)
    requires
        pair_idx < 5,
    ensures
        match (symbol_value(pair_idx as int, a), symbol_value(pair_idx as int, b)) {
            (Some(x), Some(y)) => r matches Ok((u, v)) && u == x && v == y,
            (None, _) => r matches Err(GridError::InvalidChar(s, pos)) && s@ == loc@ && pos == 2
                * pair_idx,
            (Some(_), None) => r matches Err(GridError::InvalidChar(s, pos)) && s@ == loc@ && pos
                == 2 * pair_idx + 1,
        },
{
    let pos = pair_idx * 2;
    let (x, y) = if pair_idx == 0 || pair_idx == 2 || pair_idx == 4 {
        let radix: u32 = if pair_idx == 0 {
            18
        } else {
            24
        };
        (letter_idx(a, radix), letter_idx(b, radix))
    } else {
        (digit_idx(a), digit_idx(b))
    };
    match x {
        None => Err(GridError::InvalidChar(loc.to_owned(), pos)),
        Some(u) => match y {
            None => Err(GridError::InvalidChar(loc.to_owned(), pos + 1)),
            Some(v) => Ok((u, v)),
        },
    }
}

/// The cell widths of pair `p`: (longitude, latitude).
fn pair_steps(p: usize) -> (r: (u32, u32))
    requires
        p < 5,
    ensures
        r.0 == lng_step(p as int),
        r.1 == lat_step(p as int),
{
    if p == 0 {
        (1152000, 576000)
    } else if p == 1 {
        (115200, 57600)
    } else if p == 2 {
        (4800, 2400)
    } else if p == 3 {
        (480, 240)
    } else {
        (20, 10)
    }
}

/// A symbol below the radix moves the corner by less than the enclosing
/// cell: the cells of a pair tile the cell of the pair before.
proof fn lemma_step_fits(p: int, x: int, y: int)
    requires
        0 <= p < 5,
        0 <= x < pair_radix(p),
        0 <= y < pair_radix(p),
    ensures
        x * lng_step(p) + lng_step(p) <= (if p == 0 {
            LNG_SPAN as int
        } else {
            lng_step(p - 1)
        }),
        y * lat_step(p) + lat_step(p) <= (if p == 0 {
            LAT_SPAN as int
        } else {
            lat_step(p - 1)
        }),
{
}

/// Decode a Maidenhead locator to the centre of its cell. Letters are
/// taken in either case. Fails on a length other than 2, 4, 6, 8 or 10
/// bytes, or at the first byte that is not a symbol of its pair.
pub fn decode_cell(loc: &str) -> (r: Result<GridCell, GridError>)
    ensures
        !valid_grid_len(loc.spec_bytes().len() as int) ==> (r matches Err(
            GridError::InvalidLength(s),
        ) && s@ == loc@),
        valid_grid_len(loc.spec_bytes().len() as int) ==> match r {
            Ok(c) => {
                let b = loc.spec_bytes();
                let k = b.len() / 2;
                &&& decode_ok(b)
                &&& c.lng_units == lng_corner(b, k as int) + lng_step(k - 1) / 2
                &&& c.lat_units == lat_corner(b, k as int) + lat_step(k - 1) / 2
            },
            Err(GridError::InvalidChar(s, pos)) => {
                let b = loc.spec_bytes();
                &&& s@ == loc@
                &&& pos < b.len()
                &&& !position_ok(b, pos as int)
                &&& forall|i: int| 0 <= i < pos ==> position_ok(b, i)
            },
            Err(_) => false,
        },
{
    let bytes = loc.as_bytes();
    let n = bytes.len();
    if n < 2 || n > 10 || n % 2 != 0 {
        return Err(GridError::InvalidLength(loc.to_owned()));
    }
    let ghost b = bytes@;
    let k = n / 2;
    let mut lng: u32 = 0;
    let mut lat: u32 = 0;
    let mut p: usize = 0;
    while p < k
        invariant
            b == bytes@,
            b == loc.spec_bytes(),
            n == b.len(),
            k == n / 2,
            valid_grid_len(n as int),
            p <= k,
            lng == lng_corner(b, p as int),
            lat == lat_corner(b, p as int),
            forall|i: int| 0 <= i < 2 * p ==> position_ok(b, i),
            p == 0 ==> lng == 0 && lat == 0,
            p > 0 ==> lng + lng_step(p - 1) <= LNG_SPAN,
            p > 0 ==> lat + lat_step(p - 1) <= LAT_SPAN,
        decreases k - p,
    {
        let a = bytes[2 * p];
        let c = bytes[2 * p + 1];
        assert((2 * p) / 2 == p);
        assert((2 * p + 1) / 2 == p);
        let (x, y) = match pair_to_indices(loc, p, a, c) {
            Ok(v) => v,
            Err(e) => {
                return Err(e);
            },
        };
        let (ls, as_) = pair_steps(p);
        proof {
            lemma_step_fits(p as int, x as int, y as int);
        }
        lng = lng + x * ls;
        lat = lat + y * as_;
        p = p + 1;
    }
    let (ls, as_) = pair_steps(k - 1);
    Ok(GridCell { lng_units: lng + ls / 2, lat_units: lat + as_ / 2 })
}

// -------- encoding --------

/// Digit `p` of a longitude: which cell of pair `p` holds it.
pub open spec fn lng_digit(lng: int, p: int) -> int {
    if p == 0 {
        lng / lng_step(0)
    } else {
        (lng % lng_step(p - 1)) / lng_step(p)
    }
}

/// Digit `p` of a latitude.
pub open spec fn lat_digit(lat: int, p: int) -> int {
    if p == 0 {
        lat / lat_step(0)
    } else {
        (lat % lat_step(p - 1)) / lat_step(p)
    }
}

/// The symbol for digit `d` of pair `p`: upper-case letters on letter
/// pairs, digits otherwise, capped at the pair's last symbol.
pub open spec fn symbol_char(p: int, d: int) -> char {
    if p == 0 {
        (65 + (if d < 17 {
            d
        } else {
            17
        })) as char
    } else if p == 2 || p == 4 {
        (65 + (if d < 23 {
            d
        } else {
            23
        })) as char
    } else {
        (48 + (if d < 9 {
            d
        } else {
            9
        })) as char
    }
}

/// The first `k` pairs of the locator of a position.
pub open spec fn spec_grid_encode(lng: int, lat: int, k: int) -> Seq<char>
    decreases k,
{
    if k <= 0 {
        seq![]
    } else {
        spec_grid_encode(lng, lat, k - 1) + seq![
            symbol_char(k - 1, lng_digit(lng, k - 1)),
            symbol_char(k - 1, lat_digit(lat, k - 1)),
        ]
    }
}

/// The symbol character for digit `d` of pair `p`.
fn symbol_of(p: usize, d: u32) -> (c: char)
    requires
        p < 5,
    ensures
        c == symbol_char(p as int, d as int),
{
    if p == 0 {
        let v: u8 = if d < 17 {
            d as u8
        } else {
            17
        };
        (65 + v) as char
    } else if p == 2 || p == 4 {
        let v: u8 = if d < 23 {
            d as u8
        } else {
            23
        };
        (65 + v) as char
    } else {
        let v: u8 = if d < 9 {
            d as u8
        } else {
            9
        };
        (48 + v) as char
    }
}

/// Encode a position (in units east of 180°W and north of 90°S) as a
/// locator of `length` characters, upper case. Fails unless `length` is
/// even and in 2..=10.
pub fn encode_units(lng_units: u32, lat_units: u32, length: usize) -> (r: Result<String, GridError>)
    requires
        lng_units <= LNG_SPAN,
        lat_units <= LAT_SPAN,
    ensures
        !valid_grid_len(length as int) ==> (r matches Err(GridError::BadEncodeLength(l))
            && l == length),
        valid_grid_len(length as int) ==> (r matches Ok(s) && s@ == spec_grid_encode(
            lng_units as int,
            lat_units as int,
            (length / 2) as int,
        )),
{
    if length < 2 || length > 10 || length % 2 != 0 {
        return Err(GridError::BadEncodeLength(length));
    }
    let k = length / 2;
    let mut out = String::new();
    let mut p: usize = 0;
    while p < k
        invariant
            k <= 5,
            p <= k,
            out@ == spec_grid_encode(lng_units as int, lat_units as int, p as int),
        decreases k - p,
    {
        let (ls, as_) = pair_steps(p);
        let (dx, dy) = if p == 0 {
            (lng_units / ls, lat_units / as_)
        } else {
            let (pls, pas) = pair_steps(p - 1);
            ((lng_units % pls) / ls, (lat_units % pas) / as_)
        };
        push_char(&mut out, symbol_of(p, dx));
        push_char(&mut out, symbol_of(p, dy));
        p = p + 1;
    }
    Ok(out)
}

// -------- round trip --------

/// The characters of the first `k` pairs: pair `p` holds the symbols of
/// the longitude and latitude digits `p`.
proof fn lemma_encode_chars(lng: int, lat: int, k: int)
    requires
        0 <= k,
    ensures
        spec_grid_encode(lng, lat, k).len() == 2 * k,
        forall|p: int|
            0 <= p < k ==> #[trigger] spec_grid_encode(lng, lat, k)[2 * p] == symbol_char(
                p,
                lng_digit(lng, p),
            ) && spec_grid_encode(lng, lat, k)[2 * p + 1] == symbol_char(p, lat_digit(lat, p)),
    decreases k,
{
    if k > 0 {
        lemma_encode_chars(lng, lat, k - 1);
    }
}

/// Each digit of a position inside the grid is below its pair's radix.
proof fn lemma_digit_bounds(lng: int, lat: int, p: int)
    requires
        0 <= lng < LNG_SPAN,
        0 <= lat < LAT_SPAN,
        0 <= p < 5,
    ensures
        0 <= lng_digit(lng, p) < pair_radix(p),
        0 <= lat_digit(lat, p) < pair_radix(p),
{
    if p == 0 {
        assert(lng / 1152000 < 18) by (nonlinear_arith)
            requires
                0 <= lng < 20736000,
        ;
        assert(lat / 576000 < 18) by (nonlinear_arith)
            requires
                0 <= lat < 10368000,
        ;
    } else {
        let a = lng % lng_step(p - 1);
        let c = lat % lat_step(p - 1);
        let s = lng_step(p);
        let t = lat_step(p);
        let m = pair_radix(p);
        assert(lng_step(p - 1) == s * m && lat_step(p - 1) == t * m);
        assert(0 <= a < s * m && 0 <= c < t * m) by {
            vstd::arithmetic::div_mod::lemma_mod_bound(lng, lng_step(p - 1));
            vstd::arithmetic::div_mod::lemma_mod_bound(lat, lat_step(p - 1));
        }
        assert(0 <= a / s < m) by (nonlinear_arith)
            requires
                0 <= a < s * m,
                0 < s,
        ;
        assert(0 <= c / t < m) by (nonlinear_arith)
            requires
                0 <= c < t * m,
                0 < t,
        ;
    }
}

/// A symbol reads back as the digit it was written for.
proof fn lemma_symbol_round_trip(p: int, d: int)
    requires
        0 <= p < 5,
        0 <= d < pair_radix(p),
    ensures
        symbol_value(p, symbol_char(p, d) as u8) == Some(d),
        '\0' <= symbol_char(p, d) <= '\u{7f}',
{
}

/// The south-west corner of the first `k` decoded pairs is the position
/// rounded down to a whole cell of pair `k - 1`.
proof fn lemma_corner(lng: int, lat: int, b: Seq<u8>, k: int)
    requires
        0 <= lng < LNG_SPAN,
        0 <= lat < LAT_SPAN,
        1 <= k <= 5,
        b.len() >= 2 * k,
        forall|p: int|
            0 <= p < k ==> #[trigger] value_at(b, 2 * p) == lng_digit(lng, p) && value_at(
                b,
                2 * p + 1,
            ) == lat_digit(lat, p),
    ensures
        lng_corner(b, k) == lng - lng % lng_step(k - 1),
        lat_corner(b, k) == lat - lat % lat_step(k - 1),
    decreases k,
{
    assert(value_at(b, 2 * (k - 1)) == lng_digit(lng, k - 1));
    assert(value_at(b, 2 * (k - 1) + 1) == lat_digit(lat, k - 1));
    if k == 1 {
        vstd::arithmetic::div_mod::lemma_fundamental_div_mod(lng, 1152000);
        vstd::arithmetic::div_mod::lemma_fundamental_div_mod(lat, 576000);
        assert(lng_corner(b, 0) == 0);
        assert(lat_corner(b, 0) == 0);
        assert((lng / 1152000) * 1152000 == 1152000 * (lng / 1152000)) by (nonlinear_arith);
        assert((lat / 576000) * 576000 == 576000 * (lat / 576000)) by (nonlinear_arith);
    } else {
        lemma_corner(lng, lat, b, k - 1);
        let s = lng_step(k - 1);
        let t = lat_step(k - 1);
        let m = pair_radix(k - 1);
        assert(lng_step(k - 2) == s * m && lat_step(k - 2) == t * m);
        let r = lng % (s * m);
        let q = lat % (t * m);
        vstd::arithmetic::div_mod::lemma_mod_mod(lng, s, m);
        vstd::arithmetic::div_mod::lemma_mod_mod(lat, t, m);
        vstd::arithmetic::div_mod::lemma_fundamental_div_mod(r, s);
        vstd::arithmetic::div_mod::lemma_fundamental_div_mod(q, t);
        assert((r / s) * s == s * (r / s)) by (nonlinear_arith);
        assert((q / t) * t == t * (q / t)) by (nonlinear_arith);
    }
}

/// Decoding the locator of a position finds the cell that holds it: for
/// every position short of the east and north edges and every locator
/// length, the locator's bytes are all valid symbols, and the decoded
/// cell's south-west corner lies within one cell of the position, at or
/// below it on each axis.
pub proof fn lemma_grid_round_trip(lng: int, lat: int, n: int)
    requires
        0 <= lng < LNG_SPAN,
        0 <= lat < LAT_SPAN,
        valid_grid_len(n),
    ensures
        ({
            let b = encode_utf8(spec_grid_encode(lng, lat, n / 2));
            let k = n / 2;
            &&& b.len() == n
            &&& decode_ok(b)
            &&& lng_corner(b, k) <= lng < lng_corner(b, k) + lng_step(k - 1)
            &&& lat_corner(b, k) <= lat < lat_corner(b, k) + lat_step(k - 1)
        }),
{
    let k = n / 2;
    let s = spec_grid_encode(lng, lat, k);
    lemma_encode_chars(lng, lat, k);
    assert forall|p: int| 0 <= p < k implies symbol_value(p, s[2 * p] as u8) == Some(
        lng_digit(lng, p),
    ) && symbol_value(p, s[2 * p + 1] as u8) == Some(lat_digit(lat, p)) && '\0' <= s[2 * p]
        <= '\u{7f}' && '\0' <= s[2 * p + 1] <= '\u{7f}' by {
        lemma_digit_bounds(lng, lat, p);
        lemma_symbol_round_trip(p, lng_digit(lng, p));
        lemma_symbol_round_trip(p, lat_digit(lat, p));
    }
    assert(is_ascii_chars(s)) by {
        assert forall|i: int| 0 <= i < s.len() implies '\0' <= #[trigger] s[i] <= '\u{7f}' by {
            let p = i / 2;
            lemma_digit_bounds(lng, lat, p);
            lemma_symbol_round_trip(p, lng_digit(lng, p));
            lemma_symbol_round_trip(p, lat_digit(lat, p));
            assert(s[2 * p] == symbol_char(p, lng_digit(lng, p)));
            if i % 2 == 0 {
                assert(i == 2 * p);
            } else {
                assert(i == 2 * p + 1);
            }
        }
    }
    let b = encode_utf8(s);
    assert(b.len() == n);
    assert forall|p: int| 0 <= p < k implies #[trigger] value_at(b, 2 * p) == lng_digit(lng, p)
        && value_at(b, 2 * p + 1) == lat_digit(lat, p) && position_ok(b, 2 * p) && position_ok(
        b,
        2 * p + 1,
    ) by {
        assert((2 * p) / 2 == p);
        assert((2 * p + 1) / 2 == p);
        assert(b[2 * p] == s[2 * p] as u8);
        assert(b[2 * p + 1] == s[2 * p + 1] as u8);
    }
    assert forall|i: int| 0 <= i < b.len() implies position_ok(b, i) by {
        let p = i / 2;
        assert(value_at(b, 2 * p) == lng_digit(lng, p));
        if i % 2 == 0 {
            assert(i == 2 * p);
            assert(position_ok(b, 2 * p));
        } else {
            assert(i == 2 * p + 1);
            assert(position_ok(b, 2 * p + 1));
        }
    }
    lemma_corner(lng, lat, b, k);
    vstd::arithmetic::div_mod::lemma_mod_bound(lng, lng_step(k - 1));
    vstd::arithmetic::div_mod::lemma_mod_bound(lat, lat_step(k - 1));
}

/// ASCII upper-case of a byte.
pub open spec fn ascii_upper(c: u8) -> u8 {
    if 97 <= c <= 122 {
        (c - 32) as u8
    } else {
        c
    }
}

proof fn lemma_corner_case(b1: Seq<u8>, b2: Seq<u8>, k: int)
    requires
        b1.len() == b2.len(),
        forall|i: int| 0 <= i < b1.len() ==> #[trigger] ascii_upper(b1[i]) == ascii_upper(b2[i]),
        0 <= k,
        2 * k <= b1.len(),
    ensures
        lng_corner(b1, k) == lng_corner(b2, k),
        lat_corner(b1, k) == lat_corner(b2, k),
    decreases k,
{
    if k > 0 {
        lemma_corner_case(b1, b2, k - 1);
        assert(ascii_upper(b1[2 * (k - 1)]) == ascii_upper(b2[2 * (k - 1)]));
        assert(ascii_upper(b1[2 * (k - 1) + 1]) == ascii_upper(b2[2 * (k - 1) + 1]));
    }
}

/// Decoding ignores the case of letters: two locators whose bytes agree
/// up to ASCII case are both valid or both not, and name the same cell.
pub proof fn lemma_decode_case_insensitive(b1: Seq<u8>, b2: Seq<u8>)
    requires
        b1.len() == b2.len(),
        forall|i: int| 0 <= i < b1.len() ==> #[trigger] ascii_upper(b1[i]) == ascii_upper(b2[i]),
    ensures
        decode_ok(b1) == decode_ok(b2),
        forall|k: int|
            0 <= k && 2 * k <= b1.len() ==> #[trigger] lng_corner(b1, k) == lng_corner(b2, k)
                && lat_corner(b1, k) == lat_corner(b2, k),
{
    assert forall|i: int| 0 <= i < b1.len() implies position_ok(b1, i) == position_ok(b2, i) by {
        assert(ascii_upper(b1[i]) == ascii_upper(b2[i]));
    }
    assert forall|k: int| 0 <= k && 2 * k <= b1.len() implies #[trigger] lng_corner(b1, k)
        == lng_corner(b2, k) && lat_corner(b1, k) == lat_corner(b2, k) by {
        lemma_corner_case(b1, b2, k);
    }
}

// -------- decode, then encode --------

/// The cell width of pair `p` on an axis (0: longitude, 1: latitude).
spec fn axis_step(axis: int, p: int) -> int {
    if axis == 0 {
        lng_step(p)
    } else {
        lat_step(p)
    }
}

/// The width of the enclosing cell of pair `p`: the whole axis for the
/// first pair.
spec fn outer_step(axis: int, p: int) -> int {
    if p == 0 {
        if axis == 0 {
            LNG_SPAN as int
        } else {
            LAT_SPAN as int
        }
    } else {
        axis_step(axis, p - 1)
    }
}

/// The decoded corner on an axis.
spec fn axis_corner(b: Seq<u8>, axis: int, k: int) -> int {
    if axis == 0 {
        lng_corner(b, k)
    } else {
        lat_corner(b, k)
    }
}

/// The part of the decoded centre contributed by pairs `p..k`, plus the
/// half cell.
spec fn axis_tail(b: Seq<u8>, axis: int, p: int, k: int) -> int
    decreases k - p,
{
    if p >= k {
        axis_step(axis, k - 1) / 2
    } else {
        value_at(b, 2 * p + axis) * axis_step(axis, p) + axis_tail(b, axis, p + 1, k)
    }
}

/// Digit `p` of a position on an axis.
spec fn axis_digit(v: int, axis: int, p: int) -> int {
    if axis == 0 {
        lng_digit(v, p)
    } else {
        lat_digit(v, p)
    }
}

proof fn lemma_steps_nest(axis: int, p: int)
    requires
        0 <= axis <= 1,
        0 <= p < 5,
    ensures
        outer_step(axis, p) == axis_step(axis, p) * pair_radix(p),
        axis_step(axis, p) > 0,
{
}

/// The corner splits into the pairs before `p` and the tail from `p`.
proof fn lemma_corner_split(b: Seq<u8>, axis: int, p: int, k: int)
    requires
        0 <= axis <= 1,
        0 <= p <= k,
    ensures
        axis_corner(b, axis, k) + axis_step(axis, k - 1) / 2 == axis_corner(b, axis, p)
            + axis_tail(b, axis, p, k),
    decreases k - p,
{
    if p < k {
        lemma_corner_split(b, axis, p + 1, k);
    }
}

/// The tail from pair `p` stays inside the cell of pair `p - 1`.
proof fn lemma_tail_bound(b: Seq<u8>, axis: int, p: int, k: int)
    requires
        0 <= axis <= 1,
        0 <= p <= k,
        1 <= k <= 5,
        forall|i: int| 0 <= i < 2 * k ==> position_ok(b, i),
        2 * k <= b.len(),
    ensures
        0 <= axis_tail(b, axis, p, k) < outer_step(axis, p),
    decreases k - p,
{
    if p == k {
        lemma_steps_nest(axis, k - 1);
        if k < 5 {
            lemma_steps_nest(axis, k);
        }
    } else {
        lemma_tail_bound(b, axis, p + 1, k);
        lemma_steps_nest(axis, p);
        let i = 2 * p + axis;
        assert(i / 2 == p);
        assert(position_ok(b, i));
        let d = value_at(b, i);
        assert(0 <= d < pair_radix(p));
        let s = axis_step(axis, p);
        let t = axis_tail(b, axis, p + 1, k);
        assert(t < s) by {
            if p + 1 < 5 {
                lemma_steps_nest(axis, p + 1);
            }
        }
        assert(d * s + t < pair_radix(p) * s) by (nonlinear_arith)
            requires
                0 <= d < pair_radix(p),
                0 <= t < s,
        ;
    }
}

/// The corner of the first `p` pairs is a whole number of cells of pair
/// `p - 1`.
proof fn lemma_corner_aligned(b: Seq<u8>, axis: int, p: int)
    requires
        0 <= axis <= 1,
        1 <= p <= 5,
    ensures
        axis_corner(b, axis, p) % axis_step(axis, p - 1) == 0,
    decreases p,
{
    let s = axis_step(axis, p - 1);
    lemma_steps_nest(axis, p - 1);
    let d = value_at(b, 2 * (p - 1) + axis);
    let prev = axis_corner(b, axis, p - 1);
    assert(axis_corner(b, axis, p) == prev + d * s);
    if p == 1 {
        assert(prev == 0);
        vstd::arithmetic::div_mod::lemma_mod_multiples_basic(d, s);
        assert(d * s == prev + d * s);
    } else {
        lemma_corner_aligned(b, axis, p - 1);
        let outer = axis_step(axis, p - 2);
        let r = pair_radix(p - 1);
        assert(outer == s * r);
        vstd::arithmetic::div_mod::lemma_fundamental_div_mod(prev, outer);
        let q0 = prev / outer;
        assert(prev == outer * q0);
        let q = q0 * r + d;
        assert(prev + d * s == q * s) by (nonlinear_arith)
            requires
                prev == outer * q0,
                outer == s * r,
                q == q0 * r + d,
        ;
        vstd::arithmetic::div_mod::lemma_mod_multiples_basic(q, s);
    }
}

/// Digit `p` of a decoded centre is the symbol value of pair `p`.
proof fn lemma_centre_digit(b: Seq<u8>, axis: int, p: int, k: int)
    requires
        0 <= axis <= 1,
        0 <= p < k,
        1 <= k <= 5,
        forall|i: int| 0 <= i < 2 * k ==> position_ok(b, i),
        2 * k <= b.len(),
    ensures
        axis_digit(axis_corner(b, axis, k) + axis_step(axis, k - 1) / 2, axis, p) == value_at(
            b,
            2 * p + axis,
        ),
{
    let c = axis_corner(b, axis, k) + axis_step(axis, k - 1) / 2;
    let s = axis_step(axis, p);
    let d = value_at(b, 2 * p + axis);
    let t1 = axis_tail(b, axis, p + 1, k);
    lemma_steps_nest(axis, p);
    lemma_tail_bound(b, axis, p + 1, k);
    assert(t1 < s) by {
        if p + 1 < 5 {
            lemma_steps_nest(axis, p + 1);
        }
    }
    lemma_corner_split(b, axis, p, k);
    assert(axis_tail(b, axis, p, k) == d * s + t1);
    if p == 0 {
        assert(axis_corner(b, axis, 0) == 0);
        assert(c == d * s + t1);
        vstd::arithmetic::div_mod::lemma_fundamental_div_mod_converse(c, s, d, t1);
    } else {
        let outer = axis_step(axis, p - 1);
        let corner = axis_corner(b, axis, p);
        lemma_corner_aligned(b, axis, p);
        lemma_tail_bound(b, axis, p, k);
        vstd::arithmetic::div_mod::lemma_fundamental_div_mod(corner, outer);
        let m = corner / outer;
        assert(c == m * outer + axis_tail(b, axis, p, k)) by (nonlinear_arith)
            requires
                c == corner + axis_tail(b, axis, p, k),
                corner == outer * (corner / outer) + corner % outer,
                corner % outer == 0,
                m == corner / outer,
        ;
        vstd::arithmetic::div_mod::lemma_fundamental_div_mod_converse(
            c,
            outer,
            m,
            axis_tail(b, axis, p, k),
        );
        vstd::arithmetic::div_mod::lemma_fundamental_div_mod_converse(
            axis_tail(b, axis, p, k),
            s,
            d,
            t1,
        );
    }
}

/// The canonical spelling of a locator: upper-case letters.
pub open spec fn canonical_locator(b: Seq<u8>) -> Seq<char> {
    Seq::new(b.len(), |i: int| symbol_char(i / 2, value_at(b, i)))
}

/// Encoding the centre of a decoded cell at the locator's length gives
/// the locator back, in upper case: decoding loses nothing but case.
pub proof fn lemma_grid_decode_encode(b: Seq<u8>)
    requires
        valid_grid_len(b.len() as int),
        decode_ok(b),
    ensures
        spec_grid_encode(
            lng_corner(b, (b.len() / 2) as int) + lng_step(b.len() / 2 - 1) / 2,
            lat_corner(b, (b.len() / 2) as int) + lat_step(b.len() / 2 - 1) / 2,
            (b.len() / 2) as int,
        ) == canonical_locator(b),
{
    let k = (b.len() / 2) as int;
    let lng = lng_corner(b, k) + lng_step(k - 1) / 2;
    let lat = lat_corner(b, k) + lat_step(k - 1) / 2;
    let e = spec_grid_encode(lng, lat, k);
    lemma_encode_chars(lng, lat, k);
    assert forall|i: int| 0 <= i < b.len() implies #[trigger] e[i] == canonical_locator(b)[i] by {
        let p = i / 2;
        if i % 2 == 0 {
            assert(i == 2 * p);
            lemma_centre_digit(b, 0, p, k);
            assert(axis_corner(b, 0, k) == lng_corner(b, k));
            assert(axis_step(0, k - 1) == lng_step(k - 1));
            assert(e[2 * p] == symbol_char(p, lng_digit(lng, p)));
        } else {
            assert(i == 2 * p + 1);
            assert(e[2 * p] == symbol_char(p, lng_digit(lng, p)));
            lemma_centre_digit(b, 1, p, k);
            assert(axis_corner(b, 1, k) == lat_corner(b, k));
            assert(axis_step(1, k - 1) == lat_step(k - 1));
            assert(e[2 * p + 1] == symbol_char(p, lat_digit(lat, p)));
        }
    }
    assert(e =~= canonical_locator(b));
}

} // verus!
