//! On-wire framing, opcode constants and the pure protocol primitives
//! (rolling-XOR cipher, checksum, frame build/parse) of the Wouxun
//! KG-Q336 serial link.
//!
//! Each frame is `[0x7C] [cmd] [dir] [len] enc(payload || cksum)`, with a
//! rolling-XOR cipher (seed `0x54`) over `payload || cksum` together.
//! `len` counts the payload only; the checksum is the trailing byte.
use vstd::prelude::*;

use super::error::KgQ336Error;

verus! {

// -------- protocol constants --------

/// UART baud rate of the programming cable.
pub const BAUD: u32 = 115_200;

/// Start-of-frame marker for every packet (both directions).
pub const SOF: u8 = 0x7C;

/// Direction byte: host to radio.
pub const DIR_OUT: u8 = 0xFF;

/// Direction byte: radio to host.
pub const DIR_IN: u8 = 0x00;

/// Session end, sent by the host after the last read or write.
pub const CMD_END: u8 = 0x81;

/// Read N bytes from a 16-bit address.
pub const CMD_RD: u8 = 0x82;

/// Write N bytes to a 16-bit address.
pub const CMD_WR: u8 = 0x83;

/// Rolling-XOR seed of the Q33x family.
pub const CIPHER_SEED: u8 = 0x54;

/// Data bytes fetched by each `CMD_RD` request.
pub const READ_BLOCK: u8 = 0x40;

/// Data bytes carried by each `CMD_WR` request.
pub const WRITE_BLOCK: u8 = 0x20;

/// The fixed `CMD_END` frame: header plus the encrypted checksum of an
/// empty payload.
pub const END_FRAME: [u8; 5] = [0x7C, 0x81, 0xFF, 0x00, 0xD7];

// -------- cipher specification --------

/// The byte that is XOR-ed into position `i` of a ciphertext: the seed
/// for the first byte, the previous ciphertext byte after that.
pub open spec fn cipher_prev(enc: Seq<u8>, i: int) -> u8 {
    if i <= 0 {
        CIPHER_SEED
    } else {
        enc[i - 1]
    }
}

/// Rolling-XOR encryption: `enc[0] = SEED ^ plain[0]`,
/// `enc[i] = enc[i-1] ^ plain[i]`.
pub open spec fn spec_encrypt(plain: Seq<u8>) -> Seq<u8>
    decreases plain.len(),
{
    if plain.len() == 0 {
        seq![]
    } else {
        let e = spec_encrypt(plain.drop_last());
        e.push(cipher_prev(e, e.len() as int) ^ plain.last())
    }
}

/// Rolling-XOR decryption: `plain[0] = SEED ^ enc[0]`,
/// `plain[i] = enc[i-1] ^ enc[i]`.
pub open spec fn spec_decrypt(enc: Seq<u8>) -> Seq<u8> {
    Seq::new(enc.len(), |i: int| cipher_prev(enc, i) ^ enc[i])
}

/// `enc` is the rolling-XOR encryption of `plain`, stated position by
/// position.
pub open spec fn is_rolling_encryption(plain: Seq<u8>, enc: Seq<u8>) -> bool {
    &&& enc.len() == plain.len()
    &&& forall|i: int| 0 <= i < enc.len() ==> #[trigger] enc[i] == cipher_prev(enc, i) ^ plain[i]
}

proof fn lemma_xor_cancel(a: u8, b: u8)
    ensures
        a ^ (a ^ b) == b,
{
    assert(a ^ (a ^ b) == b) by (bit_vector);
}

/// The recursive definition meets the positional description.
proof fn lemma_encrypt_positions(plain: Seq<u8>)
    ensures
        is_rolling_encryption(plain, spec_encrypt(plain)),
    decreases plain.len(),
{
    if plain.len() > 0 {
        lemma_encrypt_positions(plain.drop_last());
        let e = spec_encrypt(plain.drop_last());
        let r = spec_encrypt(plain);
        assert forall|i: int| 0 <= i < r.len() implies #[trigger] r[i] == cipher_prev(r, i)
            ^ plain[i] by {
            if i < e.len() {
                assert(r[i] == e[i]);
                assert(plain.drop_last()[i] == plain[i]);
            }
        }
    }
}

/// Only one sequence meets the positional description.
proof fn lemma_encrypt_unique(plain: Seq<u8>, enc: Seq<u8>)
    requires
        is_rolling_encryption(plain, enc),
    ensures
        enc == spec_encrypt(plain),
    decreases plain.len(),
{
    if plain.len() > 0 {
        let p0 = plain.drop_last();
        let e0 = enc.drop_last();
        assert forall|i: int| 0 <= i < e0.len() implies #[trigger] e0[i] == cipher_prev(e0, i)
            ^ p0[i] by {
            assert(enc[i] == cipher_prev(enc, i) ^ plain[i]);
        }
        lemma_encrypt_unique(p0, e0);
        let n = enc.len() - 1;
        assert(enc[n] == cipher_prev(enc, n) ^ plain[n]);
        assert(enc =~= e0.push(enc[n]));
    }
}

/// Decryption undoes encryption.
pub proof fn lemma_decrypt_encrypt(plain: Seq<u8>)
    ensures
        spec_decrypt(spec_encrypt(plain)) == plain,
{
    lemma_encrypt_positions(plain);
    let e = spec_encrypt(plain);
    assert forall|i: int| 0 <= i < plain.len() implies #[trigger] spec_decrypt(e)[i]
        == plain[i] by {
        lemma_xor_cancel(cipher_prev(e, i), plain[i]);
    }
    assert(spec_decrypt(e) =~= plain);
}

/// Encryption undoes decryption.
pub proof fn lemma_encrypt_decrypt(enc: Seq<u8>)
    ensures
        spec_encrypt(spec_decrypt(enc)) == enc,
{
    let d = spec_decrypt(enc);
    assert forall|i: int| 0 <= i < enc.len() implies #[trigger] enc[i] == cipher_prev(enc, i)
        ^ d[i] by {
        lemma_xor_cancel(cipher_prev(enc, i), enc[i]);
    }
    lemma_encrypt_unique(d, enc);
}

/// Unprogrammed memory shows through the cipher: a block that is one
/// byte `x` followed by zeros encrypts to `SEED ^ x` repeated.
pub proof fn lemma_encrypt_zero_run(x: u8, n: nat)
    ensures
        spec_encrypt(seq![x] + Seq::new(n, |i: int| 0u8)) == Seq::new(
            n + 1,
            |i: int| CIPHER_SEED ^ x,
        ),
{
    let plain = seq![x] + Seq::new(n, |i: int| 0u8);
    let enc = Seq::new(n + 1, |i: int| CIPHER_SEED ^ x);
    assert forall|i: int| 0 <= i < enc.len() implies #[trigger] enc[i] == cipher_prev(enc, i)
        ^ plain[i] by {
        let v = CIPHER_SEED ^ x;
        if i > 0 {
            assert(plain[i] == 0);
            assert(v ^ 0u8 == v) by (bit_vector);
        }
    }
    lemma_encrypt_unique(plain, enc);
}

// -------- cipher primitives --------

/// Encrypt `buf` in place with the rolling-XOR cipher.
pub fn encrypt_inplace(buf: &mut [u8])
    ensures
        final(buf)@ == spec_encrypt(old(buf)@),
{
    let n = buf.len();
    let mut prev: u8 = CIPHER_SEED;
    let mut i: usize = 0;
    while i < n
        invariant
            n == old(buf)@.len(),
            buf@.len() == n,
            i <= n,
            forall|j: int| 0 <= j < i ==> #[trigger] buf@[j] == cipher_prev(buf@, j) ^ old(buf)@[j],
            forall|j: int| i <= j < n ==> #[trigger] buf@[j] == old(buf)@[j],
            prev == cipher_prev(buf@, i as int),
        decreases n - i,
    {
        let ghost before = buf@;
        let b = prev ^ buf[i];
        buf[i] = b;
        assert forall|j: int| 0 <= j <= i implies #[trigger] buf@[j] == cipher_prev(buf@, j)
            ^ old(buf)@[j] by {
            if j < i {
                assert(buf@[j] == before[j]);
                assert(cipher_prev(buf@, j) == cipher_prev(before, j));
            }
        }
        prev = b;
        i = i + 1;
    }
    proof {
        lemma_encrypt_unique(old(buf)@, buf@);
    }
}

/// Decrypt `buf` in place; the inverse of [`encrypt_inplace`].
pub fn decrypt_inplace(buf: &mut [u8])
    ensures
        final(buf)@ == spec_decrypt(old(buf)@),
{
    let n = buf.len();
    let mut prev: u8 = CIPHER_SEED;
    let mut i: usize = 0;
    while i < n
        invariant
            n == old(buf)@.len(),
            buf@.len() == n,
            i <= n,
            forall|j: int| 0 <= j < i ==> #[trigger] buf@[j] == spec_decrypt(old(buf)@)[j],
            forall|j: int| i <= j < n ==> #[trigger] buf@[j] == old(buf)@[j],
            prev == cipher_prev(old(buf)@, i as int),
        decreases n - i,
    {
        let cur = buf[i];
        buf[i] = prev ^ cur;
        prev = cur;
        i = i + 1;
    }
    assert(buf@ =~= spec_decrypt(old(buf)@));
}

// -------- checksum --------

/// Sum of all bytes of `s`.
pub open spec fn byte_sum(s: Seq<u8>) -> nat
    decreases s.len(),
{
    if s.len() == 0 {
        0
    } else {
        byte_sum(s.drop_last()) + s.last() as nat
    }
}

/// The per-frame checksum adjustment keyed by the low two bits of the
/// first payload byte (0 for an empty payload): +3, +1, -1 or -3.
pub open spec fn checksum_adjust(payload: Seq<u8>) -> int {
    let first: u8 = if payload.len() == 0 {
        0
    } else {
        payload[0]
    };
    if first % 4 == 0 {
        3
    } else if first % 4 == 1 {
        1
    } else if first % 4 == 2 {
        -1
    } else {
        -3
    }
}

/// Frame checksum: sum of `cmd || dir || len || payload` plus the
/// adjustment, modulo 256.
pub open spec fn spec_checksum(cmd: u8, dir: u8, len: u8, payload: Seq<u8>) -> u8 {
    ((cmd + dir + len + byte_sum(payload) + checksum_adjust(payload)) % 256) as u8
}

/// Compute the frame checksum of `cmd || dir || len || payload`.
pub fn checksum(cmd: u8, dir: u8, len: u8, payload: &[u8]) -> (cs: u8)
    ensures
        cs == spec_checksum(cmd, dir, len, payload@),
{
    let ghost base: int = cmd + dir + len;
    let mut sum: u8 = ((cmd as u16 + dir as u16 + len as u16) % 256) as u8;
    let mut i: usize = 0;
    while i < payload.len()
        invariant
            i <= payload@.len(),
            sum as int == (base + byte_sum(payload@.take(i as int))) % 256,
        decreases payload@.len() - i,
    {
        assert(payload@.take(i + 1).drop_last() =~= payload@.take(i as int));
        sum = ((sum as u16 + payload[i] as u16) % 256) as u8;
        i = i + 1;
    }
    assert(payload@.take(i as int) =~= payload@);
    let first: u8 = if payload.len() > 0 {
        payload[0]
    } else {
        0
    };
    assert(first & 0x03 == first % 4) by (bit_vector);
    let adj: u16 = match first & 0x03 {
        0 => 3,
        1 => 1,
        2 => 255,
        _ => 253,
    };
    let cs = ((sum as u16 + adj) % 256) as u8;
    proof {
        let total = base + byte_sum(payload@);
        assert(cs as int == (total + checksum_adjust(payload@)) % 256) by {
            vstd::arithmetic::div_mod::lemma_add_mod_noop(total, adj as int, 256);
            vstd::arithmetic::div_mod::lemma_mod_add_multiples_vanish(
                total + checksum_adjust(payload@),
                256,
            );
        }
    }
    cs
}

/// The checksum in closed form: the byte sum of `cmd`, `dir`, `len` and
/// the payload, plus `3 - 2 * (first payload byte & 3)` (so +3, +1, -1,
/// -3 for low bits 0, 1, 2, 3; an empty payload counts as first byte 0),
/// modulo 256.
pub proof fn lemma_checksum_closed_form(cmd: u8, dir: u8, len: u8, payload: Seq<u8>)
    ensures
        spec_checksum(cmd, dir, len, payload) as int == (cmd + dir + len + byte_sum(payload) + 3
            - 2 * ((if payload.len() == 0 {
            0u8
        } else {
            payload[0]
        }) % 4)) % 256,
{
}

/// Raising the first payload byte by one within its group of four
/// (low bits 0 to 1, 1 to 2, 2 to 3) raises the byte sum by one and lowers
/// the adjustment by two, so the checksum drops by one; from low bits 3
/// to the next group's 0 it rises by seven.
pub proof fn lemma_checksum_first_byte_step(cmd: u8, dir: u8, len: u8, payload: Seq<u8>)
    requires
        payload.len() > 0,
        payload[0] < 255,
    ensures
        ({
            let next = payload.update(0, (payload[0] + 1) as u8);
            let a = spec_checksum(cmd, dir, len, payload) as int;
            let b = spec_checksum(cmd, dir, len, next) as int;
            &&& payload[0] % 4 != 3 ==> b == (a + 255) % 256
            &&& payload[0] % 4 == 3 ==> b == (a + 7) % 256
        }),
{
    let next = payload.update(0, (payload[0] + 1) as u8);
    lemma_byte_sum_bump_first(payload);
    assert(next[0] == payload[0] + 1);
    let t = cmd + dir + len + byte_sum(payload);
    let a = spec_checksum(cmd, dir, len, payload) as int;
    let b = spec_checksum(cmd, dir, len, next) as int;
    assert(a == (t + checksum_adjust(payload)) % 256);
    assert(b == (t + 1 + checksum_adjust(next)) % 256);
    if payload[0] % 4 != 3 {
        assert(checksum_adjust(next) == checksum_adjust(payload) - 2);
        assert(b == (a + 255) % 256) by {
            vstd::arithmetic::div_mod::lemma_add_mod_noop(t + checksum_adjust(payload), 255, 256);
            vstd::arithmetic::div_mod::lemma_mod_add_multiples_vanish(
                t + checksum_adjust(payload) - 1,
                256,
            );
            vstd::arithmetic::div_mod::lemma_mod_twice(255, 256);
        }
    } else {
        assert(checksum_adjust(next) == 3 && checksum_adjust(payload) == -3);
        assert(b == (a + 7) % 256) by {
            vstd::arithmetic::div_mod::lemma_add_mod_noop(t + checksum_adjust(payload), 7, 256);
            vstd::arithmetic::div_mod::lemma_mod_twice(7, 256);
        }
    }
}

/// Raising the first byte of a sequence by one raises its byte sum by one.
proof fn lemma_byte_sum_bump_first(payload: Seq<u8>)
    requires
        payload.len() > 0,
        payload[0] < 255,
    ensures
        byte_sum(payload.update(0, (payload[0] + 1) as u8)) == byte_sum(payload) + 1,
    decreases payload.len(),
{
    let next = payload.update(0, (payload[0] + 1) as u8);
    if payload.len() > 1 {
        assert(next.drop_last() =~= payload.drop_last().update(0, (payload[0] + 1) as u8));
        assert(payload.drop_last()[0] == payload[0]);
        lemma_byte_sum_bump_first(payload.drop_last());
        assert(next.last() == payload.last());
    } else {
        assert(next.drop_last() =~= payload.drop_last());
    }
}

// -------- frame builders --------

/// The wire bytes of a frame: plaintext header, then the encrypted
/// payload followed by its checksum. `len` is the payload length modulo
/// 256, as it fits the one-byte header field.
pub open spec fn spec_frame(cmd: u8, dir: u8, payload: Seq<u8>) -> Seq<u8> {
    let len = (payload.len() % 256) as u8;
    seq![SOF, cmd, dir, len] + spec_encrypt(payload.push(spec_checksum(cmd, dir, len, payload)))
}

/// Big-endian bytes of a 16-bit address.
pub open spec fn addr_bytes(addr: u16) -> Seq<u8> {
    seq![(addr / 256) as u8, (addr % 256) as u8]
}

/// Build a complete host-to-radio frame for `cmd` with `payload`.
pub fn build_out_frame(cmd: u8, payload: &[u8]) -> (frame: Vec<u8>)
    ensures
        frame@ == spec_frame(cmd, DIR_OUT, payload@),
{
    let len: u8 = (payload.len() % 256) as u8;
    let cs = checksum(cmd, DIR_OUT, len, payload);
    let mut blob: Vec<u8> = Vec::new();
    blob.extend_from_slice(payload);
    blob.push(cs);
    let ghost plain = blob@;
    assert(plain =~= payload@.push(cs));
    encrypt_inplace(blob.as_mut_slice());
    assert(blob@ == spec_encrypt(plain));
    let mut frame: Vec<u8> = Vec::new();
    frame.push(SOF);
    frame.push(cmd);
    frame.push(DIR_OUT);
    frame.push(len);
    let ghost head = frame@;
    frame.append(&mut blob);
    assert(frame@ =~= head + spec_encrypt(plain));
    assert(frame@ =~= spec_frame(cmd, DIR_OUT, payload@));
    frame
}

/// Build a complete `CMD_RD` frame asking for `length` bytes at `addr`.
pub fn build_read_cmd(addr: u16, length: u8) -> (frame: Vec<u8>)
    ensures
        frame@ == spec_frame(CMD_RD, DIR_OUT, addr_bytes(addr).push(length)),
{
    let payload: [u8; 3] = [(addr / 256) as u8, (addr % 256) as u8, length];
    let frame = build_out_frame(CMD_RD, &payload);
    assert(payload@ =~= addr_bytes(addr).push(length));
    frame
}

/// Build a complete `CMD_WR` frame writing `data` at `addr`.
pub fn build_write_cmd(addr: u16, data: &[u8]) -> (frame: Vec<u8>)
    ensures
        frame@ == spec_frame(CMD_WR, DIR_OUT, addr_bytes(addr) + data@),
{
    let mut payload: Vec<u8> = Vec::with_capacity(2);
    payload.push((addr / 256) as u8);
    payload.push((addr % 256) as u8);
    payload.extend_from_slice(data);
    assert(payload@ =~= addr_bytes(addr) + data@);
    build_out_frame(CMD_WR, payload.as_slice())
}

// -------- frame parser --------

/// A parsed inbound frame, decrypted and checksum-verified.
#[derive(Debug, Clone)]
pub struct InFrame {
    pub cmd: u8,
    pub payload: Vec<u8>,
}

/// What [`parse_in_frame`] makes of `bytes`: the command, the decrypted
/// payload and the number of bytes the frame occupies, or the first
/// defect found.
pub open spec fn spec_parse_in_frame(bytes: Seq<u8>) -> Result<(u8, Seq<u8>, usize), KgQ336Error> {
    if bytes.len() < 4 {
        Err(KgQ336Error::ShortFrame { got: bytes.len() as usize, want: 4 })
    } else if bytes[0] != SOF {
        Err(KgQ336Error::BadSof { got: bytes[0] })
    } else if bytes[2] != DIR_IN {
        Err(KgQ336Error::BadDirection { got: bytes[2] })
    } else if bytes.len() < 5 + bytes[3] {
        Err(KgQ336Error::ShortFrame { got: bytes.len() as usize, want: (5 + bytes[3]) as usize })
    } else {
        let want = 5 + bytes[3];
        let blob = spec_decrypt(bytes.subrange(4, want));
        let payload = blob.drop_last();
        let expected = spec_checksum(bytes[1], bytes[2], bytes[3], payload);
        if blob.last() != expected {
            Err(KgQ336Error::BadChecksum { cmd: bytes[1], expected, got: blob.last() })
        } else {
            Ok((bytes[1], payload, want as usize))
        }
    }
}

/// Parse one full inbound frame from the front of `bytes`; returns the
/// frame and the number of bytes it occupies.
pub fn parse_in_frame(bytes: &[u8]) -> (r: Result<(InFrame, usize), KgQ336Error>)
    ensures
        match r {
            Ok((f, n)) => spec_parse_in_frame(bytes@) == Ok::<(u8, Seq<u8>, usize), KgQ336Error>(
                (f.cmd, f.payload@, n),
            ),
            Err(e) => spec_parse_in_frame(bytes@) == Err::<(u8, Seq<u8>, usize), KgQ336Error>(e),
        },
{
    if bytes.len() < 4 {
        return Err(KgQ336Error::ShortFrame { got: bytes.len(), want: 4 });
    }
    if bytes[0] != SOF {
        return Err(KgQ336Error::BadSof { got: bytes[0] });
    }
    let cmd = bytes[1];
    let dir = bytes[2];
    if dir != DIR_IN {
        return Err(KgQ336Error::BadDirection { got: dir });
    }
    let len = bytes[3];
    let want: usize = 4 + len as usize + 1;
    if bytes.len() < want {
        return Err(KgQ336Error::ShortFrame { got: bytes.len(), want });
    }
    let mut blob: Vec<u8> = Vec::new();
    blob.extend_from_slice(&bytes[4..want]);
    assert(blob@ =~= bytes@.subrange(4, want as int));
    decrypt_inplace(blob.as_mut_slice());
    let ghost full = blob@;
    assert(full == spec_decrypt(bytes@.subrange(4, 5 + len)));
    let cs_actual = match blob.pop() {
        Some(c) => c,
        None => {
            return Err(KgQ336Error::ShortFrame { got: bytes.len(), want });
        },
    };
    assert(blob@ =~= full.drop_last());
    assert(cs_actual == full.last());
    let cs_expected = checksum(cmd, dir, len, blob.as_slice());
    if cs_actual != cs_expected {
        return Err(KgQ336Error::BadChecksum { cmd, expected: cs_expected, got: cs_actual });
    }
    assert(blob@ =~= full.drop_last());
    Ok((InFrame { cmd, payload: blob }, want))
}

/// Decompose a `CMD_RD` reply payload `[addr_hi, addr_lo, data...]`
/// into the echoed address and the data bytes.
pub fn split_read_reply(payload: &[u8]) -> (r: Result<(u16, &[u8]), KgQ336Error>)
    ensures
        match r {
            Ok((addr, data)) => {
                &&& payload@.len() >= 2
                &&& addr == payload@[0] * 256 + payload@[1]
                &&& data@ == payload@.subrange(2, payload@.len() as int)
            },
            Err(e) => payload@.len() < 2 && e == KgQ336Error::ShortFrame {
                got: payload@.len() as usize,
                want: 2,
            },
        },
{
    if payload.len() < 2 {
        return Err(KgQ336Error::ShortFrame { got: payload.len(), want: 2 });
    }
    let addr: u16 = (payload[0] as u16) * 256 + (payload[1] as u16);
    Ok((addr, &payload[2..payload.len()]))
}

// -------- laws --------

/// A well-formed inbound frame (any command, a payload of at most 255
/// bytes) parses back to its command and payload, whatever follows it.
pub proof fn lemma_parse_in_frame_roundtrip(cmd: u8, payload: Seq<u8>, rest: Seq<u8>)
    requires
        payload.len() < 256,
    ensures
        spec_parse_in_frame(spec_frame(cmd, DIR_IN, payload) + rest) == Ok::<
            (u8, Seq<u8>, usize),
            KgQ336Error,
        >((cmd, payload, (payload.len() + 5) as usize)),
{
    let len = (payload.len() % 256) as u8;
    let cs = spec_checksum(cmd, DIR_IN, len, payload);
    let plain = payload.push(cs);
    let enc = spec_encrypt(plain);
    lemma_decrypt_encrypt(plain);
    assert(enc.len() == plain.len()) by {
        assert(spec_decrypt(enc).len() == enc.len());
    }
    let head: Seq<u8> = seq![SOF, cmd, DIR_IN, len];
    let bytes = head + enc + rest;
    assert(spec_frame(cmd, DIR_IN, payload) == head + enc);
    assert(len as int == payload.len());
    assert(bytes[0] == SOF && bytes[1] == cmd && bytes[2] == DIR_IN && bytes[3] == len);
    assert(bytes.subrange(4, 5 + len) =~= enc);
    assert(plain.drop_last() =~= payload);
    assert(plain.last() == cs);
}

/// Every frame the host builds carries the outbound direction byte, so
/// the inbound parser rejects it.
pub proof fn lemma_out_frame_rejected_inbound(cmd: u8, payload: Seq<u8>)
    ensures
        spec_parse_in_frame(spec_frame(cmd, DIR_OUT, payload)) == Err::<
            (u8, Seq<u8>, usize),
            KgQ336Error,
        >(KgQ336Error::BadDirection { got: DIR_OUT }),
{
}

} // verus!
