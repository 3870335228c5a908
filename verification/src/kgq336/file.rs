//! The `.kg` file format written by the Wouxun KG-Q332/Q336 CPS, and
//! the reshaping of raw radio dumps into the `.kg` image layout.
//!
//! A `.kg` file is the 16-byte ASCII header `xiepinruanjian\r\n`, the
//! image encoded as UTF-8-of-Latin-1 (bytes `0x00..0x7F` as themselves,
//! `0x80..0xFF` as the two-byte UTF-8 sequence of that code point) and a
//! trailing `\r\n`.
use vstd::prelude::*;

use super::error::KgQ336Error;

verus! {

/// Length of the `.kg` header.
pub const HEADER_LEN: usize = 16;

/// Length of the post-unmojibake `.kg` image.
pub const KG_SHAPE_LEN: usize = 50_000;

/// Length of a raw radio EEPROM dump (32 KiB).
pub const PHYSICAL_LEN: usize = 0x8000;

/// The header bytes `xiepinruanjian\r\n`.
pub open spec fn kg_header() -> Seq<u8> {
    seq![
        0x78u8, 0x69, 0x65, 0x70, 0x69, 0x6e, 0x72, 0x75, 0x61, 0x6e, 0x6a, 0x69, 0x61, 0x6e, 0x0d,
        0x0a,
    ]
}

/// The footer bytes `\r\n`.
pub open spec fn kg_footer() -> Seq<u8> {
    seq![0x0du8, 0x0a]
}

/// The `.kg` header as bytes.
pub fn header_bytes() -> (h: Vec<u8>)
    ensures
        h@ == kg_header(),
{
    let h: Vec<u8> = vec![
        0x78u8, 0x69, 0x65, 0x70, 0x69, 0x6e, 0x72, 0x75, 0x61, 0x6e, 0x6a, 0x69, 0x61, 0x6e, 0x0d,
        0x0a,
    ];
    assert(h@ =~= kg_header());
    h
}

/// Whether `bytes` begins with the `.kg` header.
pub open spec fn has_kg_header(bytes: Seq<u8>) -> bool {
    bytes.len() >= 16 && bytes.take(16) == kg_header()
}

/// Test whether `bytes` begins with the `.kg` header.
pub fn starts_with_header(bytes: &[u8]) -> (b: bool)
    ensures
        b == has_kg_header(bytes@),
{
    if bytes.len() < HEADER_LEN {
        return false;
    }
    let h = header_bytes();
    let mut i: usize = 0;
    while i < HEADER_LEN
        invariant
            bytes@.len() >= 16,
            h@ == kg_header(),
            i <= 16,
            forall|j: int| 0 <= j < i ==> bytes@[j] == h@[j],
        decreases 16 - i,
    {
        if bytes[i] != h[i] {
            return false;
        }
        i = i + 1;
    }
    assert(bytes@.take(16) =~= kg_header());
    true
}

// -------- encoding --------

/// The `.kg` encoding of one image byte.
pub open spec fn encode_byte(b: u8) -> Seq<u8> {
    if b < 0x80 {
        seq![b]
    } else {
        seq![(0xC0 + b / 64) as u8, (0x80 + b % 64) as u8]
    }
}

/// The `.kg` encoding of an image body, byte after byte.
pub open spec fn mojibake_body(raw: Seq<u8>) -> Seq<u8>
    decreases raw.len(),
{
    if raw.len() == 0 {
        seq![]
    } else {
        encode_byte(raw[0]) + mojibake_body(raw.drop_first())
    }
}

/// The complete `.kg` file of an image.
pub open spec fn spec_mojibake(raw: Seq<u8>) -> Seq<u8> {
    kg_header() + mojibake_body(raw) + kg_footer()
}

/// Re-encode a raw image as a `.kg` file; the inverse of [`unmojibake`].
pub fn mojibake(raw: &[u8]) -> (out: Vec<u8>)
    ensures
        out@ == spec_mojibake(raw@),
{
    let mut out = header_bytes();
    let mut i: usize = 0;
    assert(raw@.skip(0) =~= raw@);
    while i < raw.len()
        invariant
            i <= raw@.len(),
            kg_header() + mojibake_body(raw@) == out@ + mojibake_body(raw@.skip(i as int)),
        decreases raw@.len() - i,
    {
        let b = raw[i];
        let ghost before = out@;
        assert(raw@.skip(i as int).drop_first() =~= raw@.skip(i + 1));
        if b < 0x80 {
            out.push(b);
        } else {
            out.push(0xC0 + b / 64);
            out.push(0x80 + b % 64);
        }
        assert(out@ =~= before + encode_byte(b));
        assert(mojibake_body(raw@.skip(i as int)) == encode_byte(b) + mojibake_body(
            raw@.skip(i + 1),
        ));
        assert(before + mojibake_body(raw@.skip(i as int)) =~= out@ + mojibake_body(
            raw@.skip(i + 1),
        ));
        i = i + 1;
    }
    assert(raw@.skip(i as int) =~= Seq::<u8>::empty());
    assert(out@ + mojibake_body(raw@.skip(i as int)) =~= out@);
    out.push(0x0d);
    out.push(0x0a);
    assert(out@ =~= spec_mojibake(raw@));
    out
}

// -------- decoding --------

/// Whether `b` can continue a two-byte UTF-8 sequence.
pub open spec fn is_continuation(b: u8) -> bool {
    0x80 <= b <= 0xBF
}

/// Decode a `.kg` body whose first byte sits at file offset `offset`:
/// ASCII bytes stand for themselves, `C2 xx` / `C3 xx` for the code
/// point they encode; anything else is reported with its file offset.
pub open spec fn decode_body(body: Seq<u8>, offset: int) -> Result<Seq<u8>, KgQ336Error>
    decreases body.len(),
{
    if body.len() == 0 {
        Ok(seq![])
    } else {
        let b = body[0];
        if b < 0x80 {
            match decode_body(body.drop_first(), offset + 1) {
                Ok(rest) => Ok(seq![b] + rest),
                Err(e) => Err(e),
            }
        } else if b == 0xC2 || b == 0xC3 {
            if body.len() < 2 {
                Err(KgQ336Error::BadMojibake { offset: offset as usize, byte: b })
            } else if !is_continuation(body[1]) {
                Err(KgQ336Error::BadMojibake { offset: (offset + 1) as usize, byte: body[1] })
            } else {
                let cp = ((b % 32) * 64 + body[1] % 64) as u8;
                match decode_body(body.skip(2), offset + 2) {
                    Ok(rest) => Ok(seq![cp] + rest),
                    Err(e) => Err(e),
                }
            }
        } else {
            Err(KgQ336Error::BadMojibake { offset: offset as usize, byte: b })
        }
    }
}

/// What [`unmojibake`] makes of a file: the header and footer are
/// checked, then the body between them is decoded.
pub open spec fn spec_unmojibake(file: Seq<u8>) -> Result<Seq<u8>, KgQ336Error> {
    if !has_kg_header(file) {
        Err(KgQ336Error::MissingHeader)
    } else {
        let body = file.skip(16);
        if !(body.len() >= 2 && body.skip(body.len() - 2) == kg_footer()) {
            Err(KgQ336Error::MissingFooter)
        } else {
            decode_body(body.take(body.len() - 2), 16)
        }
    }
}

/// Decode a `.kg` file into the underlying raw image bytes.
pub fn unmojibake(file_bytes: &[u8]) -> (r: Result<Vec<u8>, KgQ336Error>)
    ensures
        match r {
            Ok(v) => spec_unmojibake(file_bytes@) == Ok::<Seq<u8>, KgQ336Error>(v@),
            Err(e) => spec_unmojibake(file_bytes@) == Err::<Seq<u8>, KgQ336Error>(e),
        },
{
    if !starts_with_header(file_bytes) {
        return Err(KgQ336Error::MissingHeader);
    }
    let n = file_bytes.len();
    if !(n >= HEADER_LEN + 2 && file_bytes[n - 2] == 0x0d && file_bytes[n - 1] == 0x0a) {
        proof {
            let body = file_bytes@.skip(16);
            if body.len() >= 2 && body.skip(body.len() - 2) == kg_footer() {
                assert(body.skip(body.len() - 2)[0] == file_bytes@[n - 2]);
                assert(body.skip(body.len() - 2)[1] == file_bytes@[n - 1]);
            }
        }
        return Err(KgQ336Error::MissingFooter);
    }
    let end = n - 2;
    let ghost body = file_bytes@.subrange(16, end as int);
    proof {
        let b = file_bytes@.skip(16);
        assert(b.skip(b.len() - 2) =~= kg_footer());
        assert(b.take(b.len() - 2) =~= body);
    }
    let mut out: Vec<u8> = Vec::new();
    let mut i: usize = HEADER_LEN;
    while i < end
        invariant
            16 <= i <= end,
            end + 2 == n,
            n == file_bytes@.len(),
            body == file_bytes@.subrange(16, end as int),
            spec_unmojibake(file_bytes@) == decode_body(body, 16),
            decode_body(body, 16) == match decode_body(file_bytes@.subrange(i as int, end as int), i as int) {
                Ok(rest) => Ok::<Seq<u8>, KgQ336Error>(out@ + rest),
                Err(e) => Err(e),
            },
        decreases end - i,
    {
        let ghost cur = file_bytes@.subrange(i as int, end as int);
        let b = file_bytes[i];
        assert(cur[0] == b);
        if b < 0x80 {
            assert(cur.drop_first() =~= file_bytes@.subrange(i + 1, end as int));
            let ghost before = out@;
            out.push(b);
            proof {
                match decode_body(cur.drop_first(), i + 1) {
                    Ok(rest) => {
                        assert(before + (seq![b] + rest) =~= out@ + rest);
                    },
                    Err(e) => {},
                }
            }
            i = i + 1;
        } else if b == 0xC2 || b == 0xC3 {
            if i + 1 >= end {
                assert(decode_body(cur, i as int) == Err::<Seq<u8>, KgQ336Error>(
                    KgQ336Error::BadMojibake { offset: i, byte: b },
                ));
                return Err(KgQ336Error::BadMojibake { offset: i, byte: b });
            }
            let b1 = file_bytes[i + 1];
            assert(cur[1] == b1);
            if !(0x80 <= b1 && b1 <= 0xBF) {
                assert(decode_body(cur, i as int) == Err::<Seq<u8>, KgQ336Error>(
                    KgQ336Error::BadMojibake { offset: (i + 1) as usize, byte: b1 },
                ));
                return Err(KgQ336Error::BadMojibake { offset: i + 1, byte: b1 });
            }
            let cp: u8 = ((b as u16 % 32) * 64 + (b1 as u16 % 64)) as u8;
            assert(cur.skip(2) =~= file_bytes@.subrange(i + 2, end as int));
            let ghost before = out@;
            out.push(cp);
            proof {
                match decode_body(cur.skip(2), i + 2) {
                    Ok(rest) => {
                        assert(before + (seq![cp] + rest) =~= out@ + rest);
                    },
                    Err(e) => {},
                }
            }
            i = i + 2;
        } else {
            assert(decode_body(cur, i as int) == Err::<Seq<u8>, KgQ336Error>(
                KgQ336Error::BadMojibake { offset: i, byte: b },
            ));
            return Err(KgQ336Error::BadMojibake { offset: i, byte: b });
        }
    }
    assert(file_bytes@.subrange(i as int, end as int) =~= Seq::<u8>::empty());
    assert(out@ + Seq::<u8>::empty() =~= out@);
    Ok(out)
}

/// Decoding the encoding of a body gives the body back, at any offset.
proof fn lemma_decode_mojibake_body(raw: Seq<u8>, offset: int)
    ensures
        decode_body(mojibake_body(raw), offset) == Ok::<Seq<u8>, KgQ336Error>(raw),
    decreases raw.len(),
{
    if raw.len() > 0 {
        let b = raw[0];
        let tail = mojibake_body(raw.drop_first());
        let body = mojibake_body(raw);
        assert(body == encode_byte(b) + tail);
        if b < 0x80 {
            lemma_decode_mojibake_body(raw.drop_first(), offset + 1);
            assert(body.drop_first() =~= tail);
            assert(seq![b] + raw.drop_first() =~= raw);
            assert(body[0] == b);
        } else {
            lemma_decode_mojibake_body(raw.drop_first(), offset + 2);
            assert(body.skip(2) =~= tail);
            assert(body[0] == (0xC0 + b / 64) as u8);
            assert(body[1] == (0x80 + b % 64) as u8);
            let q = b / 64;
            let m = b % 64;
            assert(q == 2 || q == 3);
            assert(q * 64 + m == b);
            assert(body[0] == 0xC2 || body[0] == 0xC3);
            assert(body[0] % 32 == q);
            assert(body[1] % 64 == m);
            assert(is_continuation(body[1]));
            let cp = ((body[0] % 32) * 64 + body[1] % 64) as u8;
            assert(cp == b);
            assert(seq![b] + raw.drop_first() =~= raw);
            assert(decode_body(body.skip(2), offset + 2) == Ok::<Seq<u8>, KgQ336Error>(
                raw.drop_first(),
            ));
            assert(!(body[0] < 0x80));
            assert(body.len() >= 2);
            assert(decode_body(body, offset) == Ok::<Seq<u8>, KgQ336Error>(
                seq![cp] + raw.drop_first(),
            ));
        }
    } else {
        assert(raw =~= Seq::<u8>::empty());
    }
}

/// A body that decodes is the encoding of what it decodes to: every
/// accepted byte sequence is the one [`mojibake`] writes.
proof fn lemma_mojibake_decoded_body(body: Seq<u8>, offset: int, raw: Seq<u8>)
    requires
        decode_body(body, offset) == Ok::<Seq<u8>, KgQ336Error>(raw),
    ensures
        mojibake_body(raw) == body,
    decreases body.len(),
{
    if body.len() == 0 {
        assert(raw =~= Seq::<u8>::empty());
    } else {
        let b = body[0];
        if b < 0x80 {
            let rest = decode_body(body.drop_first(), offset + 1)->Ok_0;
            lemma_mojibake_decoded_body(body.drop_first(), offset + 1, rest);
            assert(raw =~= seq![b] + rest);
            assert(raw.drop_first() =~= rest);
            assert(body =~= seq![b] + body.drop_first());
        } else {
            let c = body[1];
            let cp = ((b % 32) * 64 + c % 64) as u8;
            let rest = decode_body(body.skip(2), offset + 2)->Ok_0;
            lemma_mojibake_decoded_body(body.skip(2), offset + 2, rest);
            assert(raw =~= seq![cp] + rest);
            assert(raw.drop_first() =~= rest);
            assert(raw[0] == cp);
            assert(b == 0xC2 || b == 0xC3);
            assert(0x80 <= c <= 0xBF);
            assert(cp >= 0x80);
            assert(cp / 64 == b % 32);
            assert(cp % 64 == c % 64);
            assert((0xC0 + cp / 64) as u8 == b);
            assert((0x80 + cp % 64) as u8 == c);
            assert(body =~= seq![b, c] + body.skip(2));
        }
    }
}

/// A `.kg` file [`unmojibake`] accepts is exactly the file [`mojibake`]
/// writes for the image it decodes to: the wrapper has one spelling.
pub proof fn lemma_mojibake_unmojibake(file: Seq<u8>)
    requires
        spec_unmojibake(file) is Ok,
    ensures
        spec_mojibake(spec_unmojibake(file)->Ok_0) == file,
{
    let raw = spec_unmojibake(file)->Ok_0;
    let body = file.skip(16);
    let inner = body.take(body.len() - 2);
    lemma_mojibake_decoded_body(inner, 16, raw);
    assert(body =~= inner + kg_footer());
    assert(file =~= kg_header() + body);
}

/// A `.kg` file written by [`mojibake`] decodes back to the image it
/// was written from.
pub proof fn lemma_unmojibake_mojibake(raw: Seq<u8>)
    ensures
        spec_unmojibake(spec_mojibake(raw)) == Ok::<Seq<u8>, KgQ336Error>(raw),
{
    let f = spec_mojibake(raw);
    let m = mojibake_body(raw);
    assert(f.take(16) =~= kg_header());
    let body = f.skip(16);
    assert(body =~= m + kg_footer());
    assert(body.skip(body.len() - 2) =~= kg_footer());
    assert(body.take(body.len() - 2) =~= m);
    lemma_decode_mojibake_body(raw, 16);
}

// -------- physical to logical reshaping --------

/// Where byte `i` of the logical image comes from in a physical dump of
/// `n` bytes: within each whole 1 KiB block the four 256-byte slices are
/// stored in reverse order; a trailing partial block is kept as is.
pub open spec fn unscramble_source(n: int, i: int) -> int {
    if i < (n / 1024) * 1024 {
        (i / 1024) * 1024 + (3 - (i % 1024) / 256) * 256 + i % 256
    } else {
        i
    }
}

/// The logical image of a physical dump.
pub open spec fn spec_unscramble(physical: Seq<u8>) -> Seq<u8> {
    Seq::new(physical.len(), |i: int| physical[unscramble_source(physical.len() as int, i)])
}

proof fn lemma_unscramble_source_bounds(n: int, i: int)
    requires
        0 <= i < n,
    ensures
        0 <= unscramble_source(n, i) < n,
        unscramble_source(n, unscramble_source(n, i)) == i,
{
    if i < (n / 1024) * 1024 {
        let blk = i / 1024;
        let w = i % 1024;
        assert(0 <= w < 1024);
        assert(blk < n / 1024) by (nonlinear_arith)
            requires
                i < (n / 1024) * 1024,
                blk == i / 1024,
                i >= 0,
        ;
        let s = unscramble_source(n, i);
        assert(s == blk * 1024 + (3 - w / 256) * 256 + i % 256);
        assert(i % 256 == w % 256) by (nonlinear_arith)
            requires
                w == i % 1024,
                i >= 0,
        ;
        let w2 = (3 - w / 256) * 256 + w % 256;
        assert(0 <= w2 < 1024);
        assert(s == blk * 1024 + w2);
        assert(s / 1024 == blk && s % 1024 == w2) by (nonlinear_arith)
            requires
                s == blk * 1024 + w2,
                0 <= w2 < 1024,
                blk >= 0,
        ;
        assert(blk * 1024 + 1024 <= (n / 1024) * 1024) by (nonlinear_arith)
            requires
                blk < n / 1024,
        ;
        assert((n / 1024) * 1024 <= n) by (nonlinear_arith)
            requires
                n >= 0,
        ;
        assert(w2 / 256 == 3 - w / 256 && w2 % 256 == w % 256);
        assert(s % 256 == w2 % 256) by (nonlinear_arith)
            requires
                w2 == s % 1024,
                s >= 0,
        ;
        assert(blk * 1024 + w == i) by (nonlinear_arith)
            requires
                blk == i / 1024,
                w == i % 1024,
        ;
        assert(w == (w / 256) * 256 + w % 256);
    }
}

/// Reshaping twice gives the dump back: the slice reversal is its own
/// inverse.
pub proof fn lemma_unscramble_involution(physical: Seq<u8>)
    ensures
        spec_unscramble(spec_unscramble(physical)) == physical,
{
    let n = physical.len() as int;
    let l = spec_unscramble(physical);
    assert forall|i: int| 0 <= i < n implies #[trigger] spec_unscramble(l)[i] == physical[i] by {
        lemma_unscramble_source_bounds(n, i);
    }
    assert(spec_unscramble(l) =~= physical);
}

/// What reshaping does to a dump, byte by byte: the result is as long as
/// the dump; in every whole 1 KiB block `b`, byte `j` of slice `s` comes
/// from byte `j` of slice `3 - s` of the same block (slices 0 and 3, and 1
/// and 2, trade places); every byte of a trailing partial block stays
/// where it is.
pub proof fn lemma_unscramble_slices(physical: Seq<u8>)
    ensures
        spec_unscramble(physical).len() == physical.len(),
        forall|b: int, s: int, j: int|
            0 <= b && (b + 1) * 1024 <= physical.len() && 0 <= s < 4 && 0 <= j < 256
                ==> #[trigger] spec_unscramble(physical)[b * 1024 + s * 256 + j]
                == physical[b * 1024 + (3 - s) * 256 + j],
        forall|i: int|
            (physical.len() / 1024) * 1024 <= i < physical.len() ==> #[trigger] spec_unscramble(
                physical,
            )[i] == physical[i],
{
    let n = physical.len() as int;
    assert forall|b: int, s: int, j: int|
        0 <= b && (b + 1) * 1024 <= n && 0 <= s < 4 && 0 <= j < 256 implies #[trigger] spec_unscramble(
        physical,
    )[b * 1024 + s * 256 + j] == physical[b * 1024 + (3 - s) * 256 + j] by {
        let i = b * 1024 + s * 256 + j;
        let w = s * 256 + j;
        assert(0 <= w < 1024);
        assert(i / 1024 == b && i % 1024 == w) by (nonlinear_arith)
            requires
                i == b * 1024 + w,
                0 <= w < 1024,
                b >= 0,
        ;
        assert(w / 256 == s && w % 256 == j) by (nonlinear_arith)
            requires
                w == s * 256 + j,
                0 <= j < 256,
                s >= 0,
        ;
        assert(i % 256 == j) by (nonlinear_arith)
            requires
                i == b * 1024 + s * 256 + j,
                0 <= j < 256,
                b >= 0,
                s >= 0,
        ;
        assert(b + 1 <= n / 1024) by (nonlinear_arith)
            requires
                (b + 1) * 1024 <= n,
                b >= 0,
        ;
        assert(i < (n / 1024) * 1024) by (nonlinear_arith)
            requires
                i == b * 1024 + w,
                w < 1024,
                b + 1 <= n / 1024,
        ;
        assert(0 <= i < n);
        assert(unscramble_source(n, i) == b * 1024 + (3 - s) * 256 + j);
    }
}

/// Convert the radio's physical EEPROM layout into the logical layout:
/// each 1 KiB block's four 256-byte slices are put back in order.
pub fn unscramble(physical: &[u8]) -> (logical: Vec<u8>)
    ensures
        logical@ == spec_unscramble(physical@),
{
    let n = physical.len();
    let whole = (n / 1024) * 1024;
    let mut logical: Vec<u8> = Vec::new();
    let mut i: usize = 0;
    while i < n
        invariant
            n == physical@.len(),
            whole == (n / 1024) * 1024,
            i <= n,
            logical@.len() == i,
            forall|j: int| 0 <= j < i ==> #[trigger] logical@[j] == physical@[unscramble_source(
                n as int,
                j,
            )],
        decreases n - i,
    {
        proof {
            lemma_unscramble_source_bounds(n as int, i as int);
        }
        let src = if i < whole {
            (i / 1024) * 1024 + (3 - (i % 1024) / 256) * 256 + i % 256
        } else {
            i
        };
        logical.push(physical[src]);
        i = i + 1;
    }
    assert(logical@ =~= spec_unscramble(physical@));
    logical
}

/// One region copied from the logical image into the `.kg` image:
/// `(kg destination, logical source, length)`.
pub open spec fn kg_region(r: int) -> (int, int, int) {
    if r == 0 {
        (0x0000, 0x0440, 0x0084)
    } else if r == 1 {
        (0x0084, 0x04C4, 0x0014)
    } else if r == 2 {
        (0x0140, 0x05E0, 15984)
    } else if r == 3 {
        (0x3FBC, 0x4460, 11988)
    } else if r == 4 {
        (0x6E91, 0x7340, 999)
    } else if r == 5 {
        (0x7278, 0x7740, 40)
    } else if r == 6 {
        (0x72A0, 0x7768, 120)
    } else if r == 7 {
        (0x73E0, 0x78B0, 40)
    } else {
        (0x766C, 0x7B4C, 12)
    }
}

/// Number of mapped regions.
pub const KG_REGION_COUNT: usize = 9;

/// The mapped region table, one entry at a time.
pub fn region(r: usize) -> (t: (usize, usize, usize))
    requires
        r < 9,
    ensures
        t.0 == kg_region(r as int).0,
        t.1 == kg_region(r as int).1,
        t.2 == kg_region(r as int).2,
{
    match r {
        0 => (0x0000, 0x0440, 0x0084),
        1 => (0x0084, 0x04C4, 0x0014),
        2 => (0x0140, 0x05E0, 999 * 16),
        3 => (0x3FBC, 0x4460, 999 * 12),
        4 => (0x6E91, 0x7340, 999),
        5 => (0x7278, 0x7740, 10 * 4),
        6 => (0x72A0, 0x7768, 10 * 12),
        7 => (0x73E0, 0x78B0, 20 * 2),
        _ => (0x766C, 0x7B4C, 12),
    }
}

/// Whether `.kg` offset `k` falls in region `r`.
pub open spec fn in_region(r: int, k: int) -> bool {
    kg_region(r).0 <= k < kg_region(r).0 + kg_region(r).2
}

/// Byte `k` of the `.kg` image synthesised from `logical`: regions whose
/// source lies wholly inside `logical` are copied, everything else is 0.
pub open spec fn kg_shape_byte(logical: Seq<u8>, k: int) -> u8 {
    if exists|r: int| 0 <= r < 9 && in_region(r, k) && kg_region(r).1 + kg_region(r).2
        <= logical.len() {
        let r = choose|r: int|
            0 <= r < 9 && in_region(r, k) && kg_region(r).1 + kg_region(r).2 <= logical.len();
        logical[kg_region(r).1 + (k - kg_region(r).0)]
    } else {
        0
    }
}

/// The `.kg`-shape image synthesised from a logical image.
pub open spec fn spec_logical_to_kg_shape(logical: Seq<u8>) -> Seq<u8> {
    Seq::new(50_000, |k: int| kg_shape_byte(logical, k))
}

proof fn lemma_regions_disjoint(r1: int, r2: int, k: int)
    requires
        0 <= r1 < 9,
        0 <= r2 < 9,
        in_region(r1, k),
        in_region(r2, k),
    ensures
        r1 == r2,
{
}

/// Byte `k` of region `r` of the `.kg`-shape image is copied from the
/// logical image, when the region's source fits in it.
proof fn lemma_kg_byte_in_region(logical: Seq<u8>, r: int, k: int)
    requires
        0 <= r < 9,
        in_region(r, k),
        kg_region(r).1 + kg_region(r).2 <= logical.len(),
    ensures
        kg_shape_byte(logical, k) == logical[kg_region(r).1 + (k - kg_region(r).0)],
{
    let q = choose|q: int|
        0 <= q < 9 && in_region(q, k) && kg_region(q).1 + kg_region(q).2 <= logical.len();
    lemma_regions_disjoint(q, r, k);
}

/// Where the `.kg`-shape image takes its bytes from, for a logical image
/// that holds every mapped region (at least 0x7B58 bytes): settings 132
/// bytes from 0x0440 to 0x0000; startup message 20 bytes from 0x04C4 to
/// 0x0084; channel records 15984 bytes from 0x05E0 to 0x0140; channel names
/// 11988 bytes from 0x4460 to 0x3FBC; channel-valid flags 999 bytes from
/// 0x7340 to 0x6E91; scan-group ranges 40 bytes from 0x7740 to 0x7278;
/// scan-group names 120 bytes from 0x7768 to 0x72A0; FM presets 40 bytes
/// from 0x78B0 to 0x73E0; call-group name 12 bytes from 0x7B4C to 0x766C;
/// every other byte of the 50 000 is zero.
pub proof fn lemma_kg_shape_regions(logical: Seq<u8>)
    requires
        logical.len() >= 0x7B58,
    ensures
        spec_logical_to_kg_shape(logical).len() == 50_000,
        forall|k: int|
            #![trigger spec_logical_to_kg_shape(logical)[k]]
            0 <= k < 50_000 ==> {
                let kg = spec_logical_to_kg_shape(logical);
                &&& 0x0000 <= k < 0x0000 + 132 ==> kg[k] == logical[0x0440 + (k - 0x0000)]
                &&& 0x0084 <= k < 0x0084 + 20 ==> kg[k] == logical[0x04C4 + (k - 0x0084)]
                &&& 0x0140 <= k < 0x0140 + 15984 ==> kg[k] == logical[0x05E0 + (k - 0x0140)]
                &&& 0x3FBC <= k < 0x3FBC + 11988 ==> kg[k] == logical[0x4460 + (k - 0x3FBC)]
                &&& 0x6E91 <= k < 0x6E91 + 999 ==> kg[k] == logical[0x7340 + (k - 0x6E91)]
                &&& 0x7278 <= k < 0x7278 + 40 ==> kg[k] == logical[0x7740 + (k - 0x7278)]
                &&& 0x72A0 <= k < 0x72A0 + 120 ==> kg[k] == logical[0x7768 + (k - 0x72A0)]
                &&& 0x73E0 <= k < 0x73E0 + 40 ==> kg[k] == logical[0x78B0 + (k - 0x73E0)]
                &&& 0x766C <= k < 0x766C + 12 ==> kg[k] == logical[0x7B4C + (k - 0x766C)]
                &&& (!(0x0000 <= k < 0x0000 + 132)
                    && !(0x0084 <= k < 0x0084 + 20)
                    && !(0x0140 <= k < 0x0140 + 15984)
                    && !(0x3FBC <= k < 0x3FBC + 11988)
                    && !(0x6E91 <= k < 0x6E91 + 999)
                    && !(0x7278 <= k < 0x7278 + 40)
                    && !(0x72A0 <= k < 0x72A0 + 120)
                    && !(0x73E0 <= k < 0x73E0 + 40)
                    && !(0x766C <= k < 0x766C + 12)) ==> kg[k] == 0
            },
{
    assert forall|k: int|
        #![trigger spec_logical_to_kg_shape(logical)[k]]
        0 <= k < 50_000 implies {
            let kg = spec_logical_to_kg_shape(logical);
            &&& 0x0000 <= k < 0x0000 + 132 ==> kg[k] == logical[0x0440 + (k - 0x0000)]
            &&& 0x0084 <= k < 0x0084 + 20 ==> kg[k] == logical[0x04C4 + (k - 0x0084)]
            &&& 0x0140 <= k < 0x0140 + 15984 ==> kg[k] == logical[0x05E0 + (k - 0x0140)]
            &&& 0x3FBC <= k < 0x3FBC + 11988 ==> kg[k] == logical[0x4460 + (k - 0x3FBC)]
            &&& 0x6E91 <= k < 0x6E91 + 999 ==> kg[k] == logical[0x7340 + (k - 0x6E91)]
            &&& 0x7278 <= k < 0x7278 + 40 ==> kg[k] == logical[0x7740 + (k - 0x7278)]
            &&& 0x72A0 <= k < 0x72A0 + 120 ==> kg[k] == logical[0x7768 + (k - 0x72A0)]
            &&& 0x73E0 <= k < 0x73E0 + 40 ==> kg[k] == logical[0x78B0 + (k - 0x73E0)]
            &&& 0x766C <= k < 0x766C + 12 ==> kg[k] == logical[0x7B4C + (k - 0x766C)]
            &&& (!(0x0000 <= k < 0x0000 + 132)
                && !(0x0084 <= k < 0x0084 + 20)
                && !(0x0140 <= k < 0x0140 + 15984)
                && !(0x3FBC <= k < 0x3FBC + 11988)
                && !(0x6E91 <= k < 0x6E91 + 999)
                && !(0x7278 <= k < 0x7278 + 40)
                && !(0x72A0 <= k < 0x72A0 + 120)
                && !(0x73E0 <= k < 0x73E0 + 40)
                && !(0x766C <= k < 0x766C + 12)) ==> kg[k] == 0
        } by {
        if 0x0000 <= k < 0x0000 + 132 {
            lemma_kg_byte_in_region(logical, 0, k);
        }
        if 0x0084 <= k < 0x0084 + 20 {
            lemma_kg_byte_in_region(logical, 1, k);
        }
        if 0x0140 <= k < 0x0140 + 15984 {
            lemma_kg_byte_in_region(logical, 2, k);
        }
        if 0x3FBC <= k < 0x3FBC + 11988 {
            lemma_kg_byte_in_region(logical, 3, k);
        }
        if 0x6E91 <= k < 0x6E91 + 999 {
            lemma_kg_byte_in_region(logical, 4, k);
        }
        if 0x7278 <= k < 0x7278 + 40 {
            lemma_kg_byte_in_region(logical, 5, k);
        }
        if 0x72A0 <= k < 0x72A0 + 120 {
            lemma_kg_byte_in_region(logical, 6, k);
        }
        if 0x73E0 <= k < 0x73E0 + 40 {
            lemma_kg_byte_in_region(logical, 7, k);
        }
        if 0x766C <= k < 0x766C + 12 {
            lemma_kg_byte_in_region(logical, 8, k);
        }
    }
}

/// Build the 50 000-byte `.kg`-shape image from a logical image by
/// copying the known regions to their `.kg` offsets; unmapped bytes stay
/// zero.
pub fn logical_to_kg_shape(logical: &[u8]) -> (kg: Vec<u8>)
    ensures
        kg@ == spec_logical_to_kg_shape(logical@),
{
    let mut kg: Vec<u8> = vec![0u8; KG_SHAPE_LEN];
    let mut r: usize = 0;
    while r < KG_REGION_COUNT
        invariant
            r <= 9,
            kg@.len() == 50_000,
            forall|k: int|
                0 <= k < 50_000 ==> #[trigger] kg@[k] == (if exists|q: int|
                    0 <= q < r && in_region(q, k) && kg_region(q).1 + kg_region(q).2
                        <= logical@.len() {
                    kg_shape_byte(logical@, k)
                } else {
                    0u8
                }),
        decreases 9 - r,
    {
        let (dst, src, len) = region(r);
        if src + len <= logical.len() && dst + len <= KG_SHAPE_LEN {
            let mut j: usize = 0;
            while j < len
                invariant
                    r < 9,
                    (dst as int, src as int, len as int) == kg_region(r as int),
                    src + len <= logical@.len(),
                    dst + len <= 50_000,
                    j <= len,
                    kg@.len() == 50_000,
                    forall|k: int|
                        0 <= k < 50_000 ==> #[trigger] kg@[k] == (if (exists|q: int|
                            0 <= q < r && in_region(q, k) && kg_region(q).1 + kg_region(q).2
                                <= logical@.len()) || (dst <= k < dst + j) {
                            kg_shape_byte(logical@, k)
                        } else {
                            0u8
                        }),
                decreases len - j,
            {
                proof {
                    let k = dst + j;
                    assert(in_region(r as int, k));
                    assert forall|q: int|
                        0 <= q < 9 && in_region(q, k) && kg_region(q).1 + kg_region(q).2
                            <= logical@.len() implies q == r by {
                        lemma_regions_disjoint(q, r as int, k);
                    }
                }
                kg.set(dst + j, logical[src + j]);
                j = j + 1;
            }
            assert forall|k: int| 0 <= k < 50_000 implies #[trigger] kg@[k] == (if exists|q: int|
                0 <= q < r + 1 && in_region(q, k) && kg_region(q).1 + kg_region(q).2
                    <= logical@.len() {
                kg_shape_byte(logical@, k)
            } else {
                0u8
            }) by {
                if in_region(r as int, k) {
                    assert(dst <= k < dst + len);
                }
            }
        } else {
            assert(src + len > logical@.len() || dst + len > 50_000);
            assert(dst + len <= 50_000);
        }
        r = r + 1;
    }
    assert(kg@ =~= spec_logical_to_kg_shape(logical@));
    kg
}

/// The shapes a KG-Q336 codeplug input comes in.
#[derive(Debug, Clone, Copy, PartialEq, Eq, Structural)]
pub enum ImageShape {
    /// A `.kg` file written by the vendor software.
    KgFile,
    /// A 32 KiB physical dump read off the radio.
    RawDump,
    /// A 50 000-byte `.kg`-shape image.
    KgShape,
}

/// Which shape `bytes` has: the `.kg` header wins, then the size.
pub open spec fn spec_image_shape(bytes: Seq<u8>) -> Option<ImageShape> {
    if has_kg_header(bytes) {
        Some(ImageShape::KgFile)
    } else if bytes.len() == PHYSICAL_LEN {
        Some(ImageShape::RawDump)
    } else if bytes.len() == KG_SHAPE_LEN {
        Some(ImageShape::KgShape)
    } else {
        None
    }
}

/// Recognise a KG-Q336 codeplug input by its header, else by its size.
pub fn image_shape(bytes: &[u8]) -> (r: Option<ImageShape>)
    ensures
        r == spec_image_shape(bytes@),
{
    if starts_with_header(bytes) {
        Some(ImageShape::KgFile)
    } else if bytes.len() == PHYSICAL_LEN {
        Some(ImageShape::RawDump)
    } else if bytes.len() == KG_SHAPE_LEN {
        Some(ImageShape::KgShape)
    } else {
        None
    }
}

/// The image shapes [`to_kg_shape`] accepts, and what it makes of each.
pub open spec fn spec_to_kg_shape(bytes: Seq<u8>) -> Result<Seq<u8>, KgQ336Error> {
    if has_kg_header(bytes) {
        spec_unmojibake(bytes)
    } else if bytes.len() == PHYSICAL_LEN {
        Ok(spec_logical_to_kg_shape(spec_unscramble(bytes)))
    } else if bytes.len() == KG_SHAPE_LEN {
        Ok(bytes)
    } else {
        Err(KgQ336Error::UnknownShape { got: bytes.len() as usize })
    }
}

/// Normalise any KG-Q336 codeplug input to the 50 000-byte `.kg`-shape
/// image: a `.kg` file is decoded, a 32 KiB physical dump is reshaped,
/// a 50 000-byte image passes through.
pub fn to_kg_shape(bytes: Vec<u8>) -> (r: Result<Vec<u8>, KgQ336Error>)
    ensures
        match r {
            Ok(v) => spec_to_kg_shape(bytes@) == Ok::<Seq<u8>, KgQ336Error>(v@),
            Err(e) => spec_to_kg_shape(bytes@) == Err::<Seq<u8>, KgQ336Error>(e),
        },
{
    if starts_with_header(bytes.as_slice()) {
        return unmojibake(bytes.as_slice());
    }
    let n = bytes.len();
    if n == PHYSICAL_LEN {
        let logical = unscramble(bytes.as_slice());
        Ok(logical_to_kg_shape(logical.as_slice()))
    } else if n == KG_SHAPE_LEN {
        Ok(bytes)
    } else {
        Err(KgQ336Error::UnknownShape { got: n })
    }
}

} // verus!
