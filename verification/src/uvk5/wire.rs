//! On-wire framing and pure protocol primitives of the UV-K5 link
//! (38400 8N1):
//!
//! ```text
//!   send: [AB CD] [len] [00]  XOR(payload + CRC16-XMODEM LE)  [DC BA]
//!   recv: [AB CD] [len] [00]  XOR(payload)  [XOR(CRC16):2]  [DC BA]
//! ```
//!
//! The XOR is a 16-byte cyclic key. Neither side checks the CRC.
use vstd::prelude::*;

use super::error::UvK5Error;

verus! {

/// UART baud rate.
pub const BAUD: u32 = 38400;

/// 8 KiB of EEPROM.
pub const EEPROM_SIZE: usize = 0x2000;

/// Bytes `0..0x1d00` (channels and settings) are safe to overwrite; the
/// rest is factory calibration.
pub const WRITABLE_SIZE: usize = 0x1d00;

/// Bytes fetched per read command.
pub const READ_BLOCK: u8 = 0x80;

/// Bytes sent per write command.
pub const WRITE_BLOCK: u8 = 0x80;

/// Opcode of a write reply.
pub const WRITE_REPLY_OPCODE: u8 = 0x1E;

/// The hello packet.
pub const HELLO: [u8; 8] = [0x14, 0x05, 0x04, 0x00, 0x6A, 0x39, 0x57, 0x64];

/// The 16-byte cyclic XOR key.
pub open spec fn xor_key() -> Seq<u8> {
    seq![
        0x16u8, 0x6C, 0x14, 0xE6, 0x2E, 0x91, 0x0D, 0x40, 0x21, 0x35, 0xD5, 0x40, 0x13, 0x03, 0xE9,
        0x80,
    ]
}

/// The hello packet as a sequence.
pub open spec fn hello_bytes() -> Seq<u8> {
    seq![0x14u8, 0x05, 0x04, 0x00, 0x6A, 0x39, 0x57, 0x64]
}

/// The protocol magic that ends every command header.
pub open spec fn proto_magic() -> Seq<u8> {
    seq![0x6Au8, 0x39, 0x57, 0x64]
}

/// `data` with byte `i` XOR-ed with key byte `i mod 16`.
pub open spec fn spec_xor(data: Seq<u8>) -> Seq<u8> {
    Seq::new(data.len(), |i: int| data[i] ^ xor_key()[i % 16])
}

/// Scrambling twice gives the data back.
pub proof fn lemma_xor_involution(data: Seq<u8>)
    ensures
        spec_xor(spec_xor(data)) == data,
{
    assert forall|i: int| 0 <= i < data.len() implies #[trigger] spec_xor(spec_xor(data))[i]
        == data[i] by {
        let a = data[i];
        let k = xor_key()[i % 16];
        assert((a ^ k) ^ k == a) by (bit_vector);
    }
    assert(spec_xor(spec_xor(data)) =~= data);
}

/// Key byte `i`.
fn key_byte(i: usize) -> (k: u8)
    requires
        i < 16,
    ensures
        k == xor_key()[i as int],
{
    let key: [u8; 16] = [
        0x16, 0x6C, 0x14, 0xE6, 0x2E, 0x91, 0x0D, 0x40, 0x21, 0x35, 0xD5, 0x40, 0x13, 0x03, 0xE9,
        0x80,
    ];
    assert(key@ =~= xor_key());
    key[i]
}

/// XOR `data` in place with the cyclic key.
pub fn xor_inplace(data: &mut [u8])
    ensures
        final(data)@ == spec_xor(old(data)@),
{
    let n = data.len();
    let mut i: usize = 0;
    while i < n
        invariant
            n == old(data)@.len(),
            data@.len() == n,
            i <= n,
            forall|j: int| 0 <= j < i ==> #[trigger] data@[j] == old(data)@[j] ^ xor_key()[j % 16],
            forall|j: int| i <= j < n ==> #[trigger] data@[j] == old(data)@[j],
        decreases n - i,
    {
        let k = key_byte(i % 16);
        data[i] = data[i] ^ k;
        i = i + 1;
    }
    assert(data@ =~= spec_xor(old(data)@));
}

/// One bit of CRC16/XMODEM: shift left, folding in the polynomial
/// 0x1021 where the top bit falls out.
pub open spec fn crc16_shift(crc: u16) -> u16 {
    if crc & 0x8000 != 0 {
        (crc << 1u16) ^ 0x1021u16
    } else {
        crc << 1u16
    }
}

/// `n` bits of CRC16/XMODEM.
pub open spec fn crc16_bits(crc: u16, n: nat) -> u16
    decreases n,
{
    if n == 0 {
        crc
    } else {
        crc16_bits(crc16_shift(crc), (n - 1) as nat)
    }
}

/// The CRC16/XMODEM checksum of `data`: start at 0, and for each byte,
/// most significant bit first, XOR it into the top of the register and
/// run eight bits (no reflection, no final XOR).
pub open spec fn crc16_xmodem_of(data: Seq<u8>) -> u16
    decreases data.len(),
{
    if data.len() == 0 {
        0
    } else {
        crc16_bits(crc16_xmodem_of(data.drop_last()) ^ ((data.last() as u16) << 8u16), 8)
    }
}

/// `crc::Crc::<u16>::new(&crc::CRC_16_XMODEM).checksum`: the
/// CRC16/XMODEM checksum of the bytes.
#[verifier::external_body]
pub(crate) fn crc16_xmodem(data: &[u8]) -> (c: u16)
    ensures
        c == crc16_xmodem_of(data@),
{
    crc::Crc::<u16>::new(&crc::CRC_16_XMODEM).checksum(data)
}

/// Little-endian bytes of a `u16`.
pub open spec fn le16(v: u16) -> Seq<u8> {
    seq![(v % 256) as u8, (v / 256) as u8]
}

/// The wire bytes of an outbound frame for `payload` carrying checksum
/// `crc`: `AB CD len 00`, the XOR-ed payload and little-endian checksum,
/// `DC BA`.
pub open spec fn spec_frame_with_crc(payload: Seq<u8>, crc: u16) -> Seq<u8> {
    seq![0xABu8, 0xCD, (payload.len() % 256) as u8, 0x00] + spec_xor(payload + le16(crc)) + seq![
        0xDCu8,
        0xBA,
    ]
}

/// The wire bytes of an outbound frame for `payload`.
pub open spec fn spec_frame(payload: Seq<u8>) -> Seq<u8> {
    spec_frame_with_crc(payload, crc16_xmodem_of(payload))
}

/// Frame `payload` with a given checksum.
pub fn frame_with_crc(payload: &[u8], crc: u16) -> (frame: Vec<u8>)
    ensures
        frame@ == spec_frame_with_crc(payload@, crc),
{
    let mut body: Vec<u8> = Vec::new();
    body.extend_from_slice(payload);
    body.push((crc % 256) as u8);
    body.push((crc / 256) as u8);
    let ghost plain = body@;
    assert(plain =~= payload@ + le16(crc));
    xor_inplace(body.as_mut_slice());
    let mut frame: Vec<u8> = Vec::new();
    frame.push(0xAB);
    frame.push(0xCD);
    frame.push((payload.len() % 256) as u8);
    frame.push(0x00);
    frame.append(&mut body);
    frame.push(0xDC);
    frame.push(0xBA);
    assert(frame@ =~= spec_frame_with_crc(payload@, crc));
    frame
}

/// Frame `payload` for the wire, with its CRC16/XMODEM checksum.
pub fn build_frame(payload: &[u8]) -> (frame: Vec<u8>)
    ensures
        frame@ == spec_frame(payload@),
{
    frame_with_crc(payload, crc16_xmodem(payload))
}

/// The read-block command for `len` bytes at `offset`:
/// `1B 05 08 00 [off_lo off_hi] [len] 00 6A 39 57 64`.
pub open spec fn spec_read_command(offset: u16, len: u8) -> Seq<u8> {
    seq![0x1Bu8, 0x05, 0x08, 0x00] + le16(offset) + seq![len, 0x00u8] + proto_magic()
}

/// Build the read-block command for `len` bytes at `offset`.
pub fn read_command(offset: u16, len: u8) -> (cmd: Vec<u8>)
    ensures
        cmd@ == spec_read_command(offset, len),
{
    let cmd: Vec<u8> = vec![
        0x1B,
        0x05,
        0x08,
        0x00,
        (offset % 256) as u8,
        (offset / 256) as u8,
        len,
        0x00,
        0x6A,
        0x39,
        0x57,
        0x64,
    ];
    assert(cmd@ =~= spec_read_command(offset, len));
    cmd
}

/// The write-block command: header
/// `1D 05 [dlen + 8] 00 [off_lo off_hi] [dlen] 01 6A 39 57 64`, then the
/// data.
pub open spec fn spec_write_payload(offset: u16, data: Seq<u8>) -> Seq<u8> {
    seq![0x1Du8, 0x05, (data.len() + 8) as u8, 0x00] + le16(offset) + seq![
        data.len() as u8,
        0x01u8,
    ] + proto_magic() + data
}

/// Build the write-block command bytes (before framing) for `data` at
/// `offset`.
pub fn build_write_payload(offset: u16, data: &[u8]) -> (out: Vec<u8>)
    requires
        data@.len() <= 0xff - 8,
    ensures
        out@ == spec_write_payload(offset, data@),
{
    let dlen = data.len() as u8;
    let mut out: Vec<u8> = vec![
        0x1D,
        0x05,
        dlen + 8,
        0x00,
        (offset % 256) as u8,
        (offset / 256) as u8,
        dlen,
        0x01,
        0x6A,
        0x39,
        0x57,
        0x64,
    ];
    out.extend_from_slice(data);
    assert(out@ =~= spec_write_payload(offset, data@));
    out
}

/// The reset packet `DD 05 00 00`.
pub open spec fn reset_bytes() -> Seq<u8> {
    seq![0xDDu8, 0x05, 0x00, 0x00]
}

// -------- inbound frames --------

/// The body length a reply header announces, or the header itself when
/// it lacks the `AB CD` magic or the zero padding byte.
pub open spec fn spec_check_header(h: [u8; 4]) -> Result<u8, UvK5Error> {
    if h@[0] != 0xAB || h@[1] != 0xCD || h@[3] != 0 {
        Err(UvK5Error::BadHeader(h))
    } else {
        Ok(h@[2])
    }
}

/// Validate a reply header and return the body length it announces.
pub fn check_header(h: [u8; 4]) -> (r: Result<u8, UvK5Error>)
    ensures
        r == spec_check_header(h),
{
    if h[0] != 0xAB || h[1] != 0xCD || h[3] != 0 {
        Err(UvK5Error::BadHeader(h))
    } else {
        Ok(h[2])
    }
}

/// Validate a reply footer: its last two bytes must be `DC BA`.
pub fn check_footer(f: [u8; 4]) -> (r: Result<(), UvK5Error>)
    ensures
        r == (if f@[2] != 0xDC || f@[3] != 0xBA {
            Err(UvK5Error::BadFooter(f))
        } else {
            Ok(())
        }),
{
    if f[2] != 0xDC || f[3] != 0xBA {
        Err(UvK5Error::BadFooter(f))
    } else {
        Ok(())
    }
}

/// Decode a complete reply read off the wire: its header, the body the
/// header announced, and the footer. Returns the un-XOR-ed payload.
pub fn decode_frame(header: [u8; 4], body: &[u8], footer: [u8; 4]) -> (r: Result<
    Vec<u8>,
    UvK5Error,
>)
    ensures
        match r {
            Ok(p) => spec_check_header(header) is Ok && footer@[2] == 0xDC && footer@[3] == 0xBA
                && p@ == spec_xor(body@),
            Err(e) => match spec_check_header(header) {
                Err(he) => e == he,
                Ok(_) => (footer@[2] != 0xDC || footer@[3] != 0xBA) && e == UvK5Error::BadFooter(
                    footer,
                ),
            },
        },
{
    check_header(header)?;
    check_footer(footer)?;
    let mut p: Vec<u8> = Vec::new();
    p.extend_from_slice(body);
    xor_inplace(p.as_mut_slice());
    Ok(p)
}

/// A frame built by [`build_frame`] passes the header and footer checks,
/// announces the payload length, and its first `len` body bytes
/// un-XOR to the payload.
pub proof fn lemma_frame_roundtrip(payload: Seq<u8>)
    requires
        payload.len() < 256,
    ensures
        ({
            let f = spec_frame(payload);
            let n = payload.len() as int;
            &&& f.len() == n + 8
            &&& f[0] == 0xAB && f[1] == 0xCD && f[2] == n && f[3] == 0
            &&& f[n + 6] == 0xDC && f[n + 7] == 0xBA
            &&& spec_xor(f.subrange(4, n + 4)) == payload
        }),
{
    let n = payload.len() as int;
    let plain = payload + le16(crc16_xmodem_of(payload));
    let f = spec_frame(payload);
    assert(f.subrange(4, n + 4) =~= spec_xor(plain).take(n));
    assert(spec_xor(f.subrange(4, n + 4)) =~= payload) by {
        assert forall|i: int| 0 <= i < n implies #[trigger] spec_xor(f.subrange(4, n + 4))[i]
            == payload[i] by {
            let a = payload[i];
            let k = xor_key()[i % 16];
            assert((a ^ k) ^ k == a) by (bit_vector);
        }
    }
}


} // verus!
