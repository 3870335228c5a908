//! EEPROM-image decoding: the 200 channel records at `0x0000` (16 bytes
//! each) and their names at `0x0F50` (16 bytes each, NUL/`0xFF` padded).
//!
//! Record layout (little-endian):
//!
//! ```text
//!   0..4   freq     10 Hz units (0 or 0xFFFF_FFFF: empty slot)
//!   4..8   offset   10 Hz units
//!   8      rxcode   9  txcode
//!   10     codeflags  tx flag in the high nibble, rx flag in the low
//!                     (0 none, 1 CTCSS, 2 DCS, 3 DCS reversed)
//!   11     flags1   bits 0..1 shift (01 plus, 10 minus), bit 4 AM
//!   12     flags2   bit 1 narrow, bits 2..3 power (00 low, 01 mid, 10 high)
//! ```
use vstd::prelude::*;

use super::error::UvK5Error;
use super::wire::EEPROM_SIZE;
use crate::channel::{Bandwidth, Channel, Mode, Power};
use crate::text::{dec_padded, push_decimal, push_str, slot_text, slot_text_of};

verus! {

/// Number of channel slots.
pub const CHANNEL_COUNT: usize = 200;

/// Size of a channel record.
pub const CHANNEL_SIZE: usize = 16;

/// Offset of the channel name block.
pub const CHANNEL_NAME_BASE: usize = 0xF50;

/// Size of a channel name slot.
pub const CHANNEL_NAME_SIZE: usize = 16;

/// The 50 CTCSS tones in deci-hertz, indexed as CHIRP's table.
pub open spec fn ctcss_table() -> Seq<u16> {
    seq![
        670u16, 693, 719, 744, 770, 797, 825, 854, 885, 915, 948, 974, 1000, 1035, 1072, 1109,
        1148, 1188, 1230, 1273, 1318, 1365, 1413, 1462, 1514, 1567, 1598, 1622, 1655, 1679, 1713,
        1738, 1773, 1799, 1835, 1862, 1899, 1928, 1966, 1995, 2035, 2065, 2107, 2181, 2257, 2291,
        2336, 2418, 2503, 2541,
    ]
}

/// The 104 DCS codes, indexed as CHIRP's table.
pub open spec fn dtcs_table() -> Seq<u16> {
    seq![
        23u16, 25, 26, 31, 32, 36, 43, 47, 51, 53, 54, 65, 71, 72, 73, 74, 114, 115, 116, 122, 125,
        131, 132, 134, 143, 145, 152, 155, 156, 162, 165, 172, 174, 205, 212, 223, 225, 226, 243,
        244, 245, 246, 251, 252, 255, 261, 263, 265, 266, 271, 274, 306, 311, 315, 325, 331, 332,
        343, 346, 351, 356, 364, 365, 371, 411, 412, 413, 423, 431, 432, 445, 446, 452, 454, 455,
        462, 464, 465, 466, 503, 506, 516, 523, 526, 532, 546, 565, 606, 612, 624, 627, 631, 632,
        654, 662, 664, 703, 712, 723, 731, 732, 734, 743, 754,
    ]
}

/// Table entry `i`, or none past the end.
pub open spec fn table_get(t: Seq<u16>, i: int) -> Option<u16> {
    if 0 <= i < t.len() {
        Some(t[i])
    } else {
        None
    }
}

/// CTCSS tone at index `idx`, if the index is in the table.
pub fn ctcss_tone(idx: u8) -> (t: Option<u16>)
    ensures
        t == table_get(ctcss_table(), idx as int),
{
    let table: [u16; 50] = [
        670, 693, 719, 744, 770, 797, 825, 854, 885, 915, 948, 974, 1000, 1035, 1072, 1109, 1148,
        1188, 1230, 1273, 1318, 1365, 1413, 1462, 1514, 1567, 1598, 1622, 1655, 1679, 1713, 1738,
        1773, 1799, 1835, 1862, 1899, 1928, 1966, 1995, 2035, 2065, 2107, 2181, 2257, 2291, 2336,
        2418, 2503, 2541,
    ];
    assert(table@ =~= ctcss_table());
    if (idx as usize) < 50 {
        Some(table[idx as usize])
    } else {
        None
    }
}

/// DCS code at index `idx`, if the index is in the table.
pub fn dtcs_code(idx: u8) -> (t: Option<u16>)
    ensures
        t == table_get(dtcs_table(), idx as int),
{
    let table: [u16; 104] = [
        23, 25, 26, 31, 32, 36, 43, 47, 51, 53, 54, 65, 71, 72, 73, 74, 114, 115, 116, 122, 125,
        131, 132, 134, 143, 145, 152, 155, 156, 162, 165, 172, 174, 205, 212, 223, 225, 226, 243,
        244, 245, 246, 251, 252, 255, 261, 263, 265, 266, 271, 274, 306, 311, 315, 325, 331, 332,
        343, 346, 351, 356, 364, 365, 371, 411, 412, 413, 423, 431, 432, 445, 446, 452, 454, 455,
        462, 464, 465, 466, 503, 506, 516, 523, 526, 532, 546, 565, 606, 612, 624, 627, 631, 632,
        654, 662, 664, 703, 712, 723, 731, 732, 734, 743, 754,
    ];
    assert(table@ =~= dtcs_table());
    if (idx as usize) < 104 {
        Some(table[idx as usize])
    } else {
        None
    }
}

/// The tones of a channel: `(tx CTCSS, rx CTCSS, DCS)`. DCS comes from the
/// transmit side when it carries DCS (flag 2 or 3), else from the
/// receive side.
pub open spec fn spec_tones(tx_flag: u8, txcode: u8, rx_flag: u8, rxcode: u8) -> (
    Option<u16>,
    Option<u16>,
    Option<u16>,
) {
    let tone_tx = if tx_flag == 1 {
        table_get(ctcss_table(), txcode as int)
    } else {
        None
    };
    let dcs_tx = if tx_flag == 2 || tx_flag == 3 {
        table_get(dtcs_table(), txcode as int)
    } else {
        None
    };
    let tone_rx = if rx_flag == 1 {
        table_get(ctcss_table(), rxcode as int)
    } else {
        None
    };
    let dcs = if (rx_flag == 2 || rx_flag == 3) && dcs_tx is None {
        table_get(dtcs_table(), rxcode as int)
    } else {
        dcs_tx
    };
    (tone_tx, tone_rx, dcs)
}

/// Decode the tone fields of a record.
pub fn decode_tones(tx_flag: u8, txcode: u8, rx_flag: u8, rxcode: u8) -> (t: (
    Option<u16>,
    Option<u16>,
    Option<u16>,
))
    ensures
        t == spec_tones(tx_flag, txcode, rx_flag, rxcode),
{
    let mut tone_tx: Option<u16> = None;
    let mut tone_rx: Option<u16> = None;
    let mut dcs: Option<u16> = None;
    if tx_flag == 1 {
        tone_tx = ctcss_tone(txcode);
    } else if tx_flag == 2 || tx_flag == 3 {
        dcs = dtcs_code(txcode);
    }
    if rx_flag == 1 {
        tone_rx = ctcss_tone(rxcode);
    } else if (rx_flag == 2 || rx_flag == 3) && dcs.is_none() {
        dcs = dtcs_code(rxcode);
    }
    (tone_tx, tone_rx, dcs)
}

/// Little-endian `u32` at `off`.
pub open spec fn le_u32(s: Seq<u8>, off: int) -> int {
    s[off] + 256 * s[off + 1] + 65536 * s[off + 2] + 16777216 * s[off + 3]
}

/// Whether slot `i` is empty (frequency 0 or all ones).
pub open spec fn slot_empty(e: Seq<u8>, i: int) -> bool {
    let f = le_u32(e, i * 16);
    f == 0 || f == 0xFFFF_FFFF
}

/// Shift of a record from its shift bits and offset: `01` plus, `10`
/// minus, otherwise none.
pub open spec fn spec_shift(flags1: u8, offset_hz: int) -> int {
    if flags1 % 4 == 1 {
        offset_hz
    } else if flags1 % 4 == 2 {
        -offset_hz
    } else {
        0
    }
}

/// Power from `flags2` bits 2..3.
pub open spec fn spec_power(flags2: u8) -> Power {
    if (flags2 / 4) % 4 == 2 {
        Power::High
    } else if (flags2 / 4) % 4 == 1 {
        Power::Mid
    } else {
        Power::Low
    }
}

/// Bandwidth from `flags2` bit 1.
pub open spec fn spec_bandwidth(flags2: u8) -> Bandwidth {
    if (flags2 / 2) % 2 == 0 {
        Bandwidth::Wide
    } else {
        Bandwidth::Narrow
    }
}

/// The name of slot `i`: the trimmed name slot, or `CH<i + 1, three
/// digits>` when it is blank.
pub open spec fn k5_slot_name(e: Seq<u8>, i: int) -> Seq<char> {
    let off = 0xF50 + i * 16;
    let t = slot_text(e.subrange(off, off + 16));
    if t.len() == 0 {
        "CH"@ + dec_padded((i + 1) as nat, 3)
    } else {
        t
    }
}

/// `ch` is the channel decoded from slot `i`.
pub open spec fn k5_slot_channel(e: Seq<u8>, i: int, ch: Channel) -> bool {
    let off = i * 16;
    let tones = spec_tones(e[off + 10] / 16, e[off + 9], e[off + 10] % 16, e[off + 8]);
    let bandwidth = spec_bandwidth(e[off + 12]);
    &&& ch.name@ == k5_slot_name(e, i)
    &&& ch.rx_hz == le_u32(e, off) * 10
    &&& ch.shift_hz == spec_shift(e[off + 11], le_u32(e, off + 4) * 10)
    &&& ch.power == spec_power(e[off + 12])
    &&& ch.scan
    &&& ch.source is None
    &&& ch.mode == if (e[off + 11] / 16) % 2 == 1 {
        Mode::Am {
            bandwidth,
            tone_tx_dhz: tones.0,
            tone_rx_dhz: tones.1,
            dcs_code: tones.2,
        }
    } else {
        Mode::Fm {
            bandwidth,
            tone_tx_dhz: tones.0,
            tone_rx_dhz: tones.1,
            dcs_code: tones.2,
        }
    }
}

/// The non-empty slots from `i` on, in order.
pub open spec fn k5_slots_from(e: Seq<u8>, i: int) -> Seq<int>
    decreases 200 - i,
{
    if i < 0 || i >= 200 {
        seq![]
    } else if slot_empty(e, i) {
        k5_slots_from(e, i + 1)
    } else {
        seq![i] + k5_slots_from(e, i + 1)
    }
}

/// Channels decoded from an EEPROM image. `warnings` is reserved for
/// per-channel skips and is currently always empty.
pub struct DecodeReport {
    pub channels: Vec<Channel>,
    pub warnings: Vec<String>,
}

fn read_u32(e: &[u8], off: usize) -> (v: u32)
    requires
        off + 4 <= e@.len(),
    ensures
        v == le_u32(e@, off as int),
{
    e[off] as u32 + (e[off + 1] as u32) * 256 + (e[off + 2] as u32) * 65536 + (e[off + 3] as u32)
        * 16777216
}

/// Read the name of slot `idx`.
fn read_channel_name(e: &[u8], idx: usize) -> (s: String)
    requires
        e@.len() >= 0x2000,
        idx < 200,
    ensures
        s@ == k5_slot_name(e@, idx as int),
{
    let off = CHANNEL_NAME_BASE + idx * CHANNEL_NAME_SIZE;
    let t = slot_text_of(&e[off..off + CHANNEL_NAME_SIZE]);
    if t.unicode_len() == 0 {
        let mut s = String::new();
        push_str(&mut s, "CH");
        push_decimal(&mut s, (idx + 1) as u64, 3);
        s
    } else {
        t
    }
}

/// Decode slot `i`.
fn decode_slot(e: &[u8], i: usize) -> (ch: Channel)
    requires
        e@.len() >= 0x2000,
        i < 200,
    ensures
        k5_slot_channel(e@, i as int, ch),
{
    let off = i * CHANNEL_SIZE;
    let freq = read_u32(e, off);
    let offset = read_u32(e, off + 4);
    let rxcode = e[off + 8];
    let txcode = e[off + 9];
    let codeflags = e[off + 10];
    let flags1 = e[off + 11];
    let flags2 = e[off + 12];
    assert((codeflags >> 4) & 0x0F == codeflags / 16) by (bit_vector);
    assert(codeflags & 0x0F == codeflags % 16) by (bit_vector);
    assert(flags1 & 0b11 == flags1 % 4) by (bit_vector);
    assert((flags1 >> 4) & 1 == (flags1 / 16) % 2) by (bit_vector);
    assert((flags2 >> 1) & 1 == (flags2 / 2) % 2) by (bit_vector);
    assert((flags2 >> 2) & 0b11 == (flags2 / 4) % 4) by (bit_vector);
    let tones = decode_tones((codeflags >> 4) & 0x0F, txcode, codeflags & 0x0F, rxcode);
    let bandwidth = if (flags2 >> 1) & 1 == 0 {
        Bandwidth::Wide
    } else {
        Bandwidth::Narrow
    };
    let power = match (flags2 >> 2) & 0b11 {
        0b10 => Power::High,
        0b01 => Power::Mid,
        _ => Power::Low,
    };
    let off_hz: i64 = offset as i64 * 10;
    let shift_hz: i64 = match flags1 & 0b11 {
        0b01 => off_hz,
        0b10 => -off_hz,
        _ => 0,
    };
    let (tone_tx_dhz, tone_rx_dhz, dcs_code) = tones;
    let mode = if (flags1 >> 4) & 1 != 0 {
        Mode::Am { bandwidth, tone_tx_dhz, tone_rx_dhz, dcs_code }
    } else {
        Mode::Fm { bandwidth, tone_tx_dhz, tone_rx_dhz, dcs_code }
    };
    let name = read_channel_name(e, i);
    Channel {
        name,
        rx_hz: freq as u64 * 10,
        shift_hz,
        power,
        scan: true,
        mode,
        source: None,
    }
}

/// Decode the 200 user-channel slots of a complete EEPROM dump; empty
/// slots are skipped.
pub fn decode_channels(eeprom: &[u8]) -> (r: Result<DecodeReport, UvK5Error>)
    ensures
        match r {
            Ok(rep) => {
                let slots = k5_slots_from(eeprom@, 0);
                &&& eeprom@.len() >= EEPROM_SIZE
                &&& rep.channels@.len() == slots.len()
                &&& forall|j: int|
                    0 <= j < slots.len() ==> k5_slot_channel(
                        eeprom@,
                        slots[j],
                        #[trigger] rep.channels@[j],
                    )
                &&& rep.warnings@.len() == 0
            },
            Err(e) => eeprom@.len() < EEPROM_SIZE && e == UvK5Error::ShortEeprom {
                got: eeprom@.len() as usize,
            },
        },
{
    if eeprom.len() < EEPROM_SIZE {
        return Err(UvK5Error::ShortEeprom { got: eeprom.len() });
    }
    let mut channels: Vec<Channel> = Vec::new();
    let warnings: Vec<String> = Vec::new();
    let ghost mut done: Seq<int> = seq![];
    let mut i: usize = 0;
    while i < CHANNEL_COUNT
        invariant
            eeprom@.len() >= 0x2000,
            i <= 200,
            k5_slots_from(eeprom@, 0) == done + k5_slots_from(eeprom@, i as int),
            channels@.len() == done.len(),
            forall|j: int|
                0 <= j < done.len() ==> k5_slot_channel(eeprom@, done[j], #[trigger] channels@[j]),
        decreases 200 - i,
    {
        let f = read_u32(eeprom, i * CHANNEL_SIZE);
        let ghost rest = k5_slots_from(eeprom@, i + 1);
        if !(f == 0 || f == 0xFFFF_FFFF) {
            let ch = decode_slot(eeprom, i);
            proof {
                assert(done + (seq![i as int] + rest) =~= done.push(i as int) + rest);
                done = done.push(i as int);
            }
            channels.push(ch);
        }
        i = i + 1;
    }
    assert(done + k5_slots_from(eeprom@, 200) =~= done);
    Ok(DecodeReport { channels, warnings })
}

} // verus!
