//! Channel decoding for the KG-Q332/Q336 `.kg`-shape image.
//!
//! A channel record is 16 bytes:
//!
//! ```text
//!   bytes 0..4   rx_freq      u32 LE, 10 Hz units
//!   bytes 4..8   tx_freq      u32 LE, 10 Hz units (0 = simplex)
//!   bytes 8..10  tone_rx_raw  u16 LE
//!   bytes 10..12 tone_tx_raw  u16 LE
//!   byte 12      power        0 low, 1 mid, 2 high, 3 ultrahigh
//!   byte 13      flags1       bit 0 wide bandwidth, bit 5 scan add
//!   bytes 14..16 category and an opaque flag
//! ```
//!
//! A tone slot's high nibble selects the kind (`0x8` CTCSS, `0x4` DCS
//! normal, `0x6` DCS inverted, anything else none); the low 12 bits hold
//! the CTCSS tone in deci-hertz or the DCS code as the decimal value of
//! its octal digits.
//!
//! Channels are grouped by category, each with a block of records and
//! optionally a block of 12-byte names; records outside every category
//! are still decoded when plausible, with a synthetic name and a
//! warning.
use vstd::prelude::*;

use super::error::KgQ336Error;
use crate::channel::{Bandwidth, Channel, Mode, Power};
use crate::text::{dec_padded, hex_padded, push_decimal, push_hex, push_str, slot_text, slot_text_of};

verus! {

/// Size of one channel record.
pub const RECORD_SIZE: usize = 16;

/// Size of one name slot.
pub const NAME_SIZE: usize = 12;

// -------- record fields --------

/// Little-endian `u16` at `off`.
pub open spec fn le_u16(s: Seq<u8>, off: int) -> int {
    s[off] + 256 * s[off + 1]
}

/// Little-endian `u32` at `off`.
pub open spec fn le_u32(s: Seq<u8>, off: int) -> int {
    s[off] + 256 * s[off + 1] + 65536 * s[off + 2] + 16777216 * s[off + 3]
}

/// Receive frequency of the record at `off`.
pub open spec fn rec_rx_hz(raw: Seq<u8>, off: int) -> int {
    le_u32(raw, off) * 10
}

/// Transmit frequency of the record at `off` (0 for simplex).
pub open spec fn rec_tx_hz(raw: Seq<u8>, off: int) -> int {
    le_u32(raw, off + 4) * 10
}

/// Whether a frequency lies in the range a real channel can have.
pub open spec fn plausible_hz(hz: int) -> bool {
    1_000_000 <= hz <= 1_000_000_000
}

/// Whether the record at `off` looks like a real channel: a plausible
/// receive frequency, and either simplex or a plausible transmit
/// frequency at most 50 MHz away.
pub open spec fn rec_plausible(raw: Seq<u8>, off: int) -> bool {
    let rx = rec_rx_hz(raw, off);
    let tx = rec_tx_hz(raw, off);
    plausible_hz(rx) && (tx == 0 || (plausible_hz(tx) && -50_000_000 <= tx - rx
        <= 50_000_000))
}

/// Signed shift `tx - rx`; 0 for simplex.
pub open spec fn rec_shift(raw: Seq<u8>, off: int) -> int {
    if le_u32(raw, off + 4) == 0 {
        0
    } else {
        rec_tx_hz(raw, off) - rec_rx_hz(raw, off)
    }
}

/// Power level of a power index: 0 low, 1 mid, anything else high.
pub open spec fn power_of_index(p: u8) -> Power {
    if p == 0 {
        Power::Low
    } else if p == 1 {
        Power::Mid
    } else {
        Power::High
    }
}

/// Bandwidth from `flags1` bit 0.
pub open spec fn bandwidth_of_flags(f: u8) -> Bandwidth {
    if f % 2 == 1 {
        Bandwidth::Wide
    } else {
        Bandwidth::Narrow
    }
}

/// Scan-add from `flags1` bit 5.
pub open spec fn scan_of_flags(f: u8) -> bool {
    (f / 32) % 2 == 1
}

// -------- tone slots --------

/// One decoded tone slot.
#[derive(Debug, Clone, Copy, PartialEq, Eq, Structural)]
pub enum ToneSlot {
    NoTone,
    /// CTCSS tone in deci-hertz.
    Ctcss(u16),
    /// DCS code (octal digits read as decimal) and polarity.
    Dcs { code: u16, inverted: bool },
}

/// The octal digits of `n` read as a decimal number (19 gives 23).
pub open spec fn octal_display(n: nat) -> nat
    decreases n,
{
    if n == 0 {
        0
    } else {
        octal_display(n / 8) * 10 + n % 8
    }
}

/// What a raw tone slot encodes. A CTCSS value outside 60.0–260.0 Hz is
/// noise with the CTCSS bit set and counts as no tone.
pub open spec fn spec_tone_slot(raw: u16) -> ToneSlot {
    let value = raw % 4096;
    let kind = raw / 4096;
    if kind == 8 {
        if 600 <= value <= 2600 {
            ToneSlot::Ctcss(value as u16)
        } else {
            ToneSlot::NoTone
        }
    } else if kind == 4 {
        ToneSlot::Dcs { code: octal_display(value as nat) as u16, inverted: false }
    } else if kind == 6 {
        ToneSlot::Dcs { code: octal_display(value as nat) as u16, inverted: true }
    } else {
        ToneSlot::NoTone
    }
}

proof fn lemma_octal_display_small(n: nat)
    requires
        n < 4096,
    ensures
        octal_display(n) <= 7777,
{
    let a = n / 8;
    let b = a / 8;
    let c = b / 8;
    assert(c < 8);
    assert(c / 8 == 0);
    assert(octal_display(0) == 0);
    assert(octal_display(c) == octal_display(c / 8) * 10 + c % 8);
    assert(octal_display(b) == octal_display(c) * 10 + b % 8);
    assert(octal_display(a) == octal_display(b) * 10 + a % 8);
    assert(octal_display(n) == octal_display(a) * 10 + n % 8);
}

/// Convert a stored DCS value to its octal display form: the octal
/// digits of `stored` read as a decimal number.
pub fn decimal_to_octal_display(stored: u16) -> (d: u16)
    requires
        octal_display(stored as nat) <= u16::MAX,
    ensures
        d == octal_display(stored as nat),
{
    let mut s: u32 = stored as u32;
    let mut place: u32 = 1;
    let mut out: u32 = 0;
    while s > 0
        invariant
            octal_display(stored as nat) == out + place * octal_display(s as nat),
            octal_display(stored as nat) <= u16::MAX,
            1 <= place <= 65535,
        decreases s,
    {
        let d = s % 8;
        let ghost q = octal_display((s / 8) as nat);
        proof {
            assert(octal_display(s as nat) == q * 10 + d);
            assert(place * octal_display(s as nat) == place * 10 * q + place * d)
                by (nonlinear_arith)
                requires
                    octal_display(s as nat) == q * 10 + d,
            ;
            assert(place * d <= place * octal_display(s as nat)) by (nonlinear_arith)
                requires
                    octal_display(s as nat) == q * 10 + d,
                    q >= 0,
                    place >= 1,
                    d >= 0,
            ;
            if s / 8 > 0 {
                lemma_octal_display_positive((s / 8) as nat);
                assert(place * 10 <= place * 10 * q) by (nonlinear_arith)
                    requires
                        q >= 1,
                        place >= 1,
                ;
            }
        }
        out = out + place * d;
        s = s / 8;
        if s > 0 {
            place = place * 10;
        } else {
            assert(octal_display(0) == 0);
        }
    }
    assert(octal_display(s as nat) == 0);
    assert(out == octal_display(stored as nat));
    out as u16
}

proof fn lemma_octal_display_positive(n: nat)
    requires
        n > 0,
    ensures
        octal_display(n) >= 1,
    decreases n,
{
    if n % 8 == 0 {
        assert(n / 8 > 0);
        lemma_octal_display_positive(n / 8);
    }
}

/// Decode one raw tone slot.
pub fn decode_tone_slot(raw: u16) -> (t: ToneSlot)
    ensures
        t == spec_tone_slot(raw),
{
    let value = raw & 0x0FFF;
    let kind = raw & 0xF000;
    assert((raw & 0x0FFFu16) == raw % 4096) by (bit_vector);
    assert((raw & 0xF000u16) == (raw / 4096) * 4096) by (bit_vector);
    proof {
        lemma_octal_display_small(value as nat);
    }
    if kind == 0x8000 {
        if 600 <= value && value <= 2600 {
            ToneSlot::Ctcss(value)
        } else {
            ToneSlot::NoTone
        }
    } else if kind == 0x4000 {
        ToneSlot::Dcs { code: decimal_to_octal_display(value), inverted: false }
    } else if kind == 0x6000 {
        ToneSlot::Dcs { code: decimal_to_octal_display(value), inverted: true }
    } else {
        ToneSlot::NoTone
    }
}

/// The CTCSS tone of a slot, if it holds one.
pub open spec fn ctcss_of(t: ToneSlot) -> Option<u16> {
    match t {
        ToneSlot::Ctcss(v) => Some(v),
        _ => None,
    }
}

/// The single DCS code narm keeps: the transmit slot's, else the
/// receive slot's. Polarity is not kept.
pub open spec fn dcs_of(tx: ToneSlot, rx: ToneSlot) -> Option<u16> {
    match tx {
        ToneSlot::Dcs { code, .. } => Some(code),
        _ => match rx {
            ToneSlot::Dcs { code, .. } => Some(code),
            _ => None,
        },
    }
}

/// `ch` is the channel decoded from the record at `off` under `name`.
pub open spec fn kg_record_channel(raw: Seq<u8>, off: int, name: Seq<char>, ch: Channel) -> bool {
    let tx = spec_tone_slot(le_u16(raw, off + 10) as u16);
    let rx = spec_tone_slot(le_u16(raw, off + 8) as u16);
    &&& ch.name@ == name
    &&& ch.rx_hz == rec_rx_hz(raw, off)
    &&& ch.shift_hz == rec_shift(raw, off)
    &&& ch.power == power_of_index(raw[off + 12])
    &&& ch.scan == scan_of_flags(raw[off + 13])
    &&& ch.mode == Mode::Fm {
        bandwidth: bandwidth_of_flags(raw[off + 13]),
        tone_tx_dhz: ctcss_of(tx),
        tone_rx_dhz: ctcss_of(rx),
        dcs_code: dcs_of(tx, rx),
    }
    &&& ch.source is None
}

/// Read a little-endian `u32`.
fn read_u32(raw: &[u8], off: usize) -> (v: u32)
    requires
        off + 4 <= raw@.len(),
    ensures
        v == le_u32(raw@, off as int),
{
    raw[off] as u32 + (raw[off + 1] as u32) * 256 + (raw[off + 2] as u32) * 65536 + (raw[off
        + 3] as u32) * 16777216
}

/// Read a little-endian `u16`.
fn read_u16(raw: &[u8], off: usize) -> (v: u16)
    requires
        off + 2 <= raw@.len(),
    ensures
        v == le_u16(raw@, off as int),
{
    raw[off] as u16 + (raw[off + 1] as u16) * 256
}

/// Whether the record at `off` looks like a real channel.
fn is_plausible(raw: &[u8], off: usize) -> (b: bool)
    requires
        off + 16 <= raw@.len(),
    ensures
        b == rec_plausible(raw@, off as int),
{
    let _n = raw.len();
    let rx: u64 = read_u32(raw, off) as u64 * 10;
    if !(1_000_000 <= rx && rx <= 1_000_000_000) {
        return false;
    }
    let tx: u64 = read_u32(raw, off + 4) as u64 * 10;
    if tx == 0 {
        return true;
    }
    if !(1_000_000 <= tx && tx <= 1_000_000_000) {
        return false;
    }
    let diff: i64 = tx as i64 - rx as i64;
    -50_000_000 <= diff && diff <= 50_000_000
}

/// Build the channel of the record at `off` under `name`.
fn record_to_channel(raw: &[u8], off: usize, name: String) -> (ch: Channel)
    requires
        off + 16 <= raw@.len(),
    ensures
        kg_record_channel(raw@, off as int, name@, ch),
{
    let _n = raw.len();
    let rx_freq = read_u32(raw, off);
    let tx_freq = read_u32(raw, off + 4);
    let rx_hz: u64 = rx_freq as u64 * 10;
    let shift_hz: i64 = if tx_freq == 0 {
        0
    } else {
        (tx_freq as u64 * 10) as i64 - rx_hz as i64
    };
    let tone_rx = decode_tone_slot(read_u16(raw, off + 8));
    let tone_tx = decode_tone_slot(read_u16(raw, off + 10));
    let tone_tx_dhz = match tone_tx {
        ToneSlot::Ctcss(v) => Some(v),
        _ => None,
    };
    let tone_rx_dhz = match tone_rx {
        ToneSlot::Ctcss(v) => Some(v),
        _ => None,
    };
    let dcs_code = match (tone_tx, tone_rx) {
        (ToneSlot::Dcs { code, .. }, _) => Some(code),
        (_, ToneSlot::Dcs { code, .. }) => Some(code),
        _ => None,
    };
    let p = raw[off + 12];
    let power = if p == 0 {
        Power::Low
    } else if p == 1 {
        Power::Mid
    } else {
        Power::High
    };
    let flags1 = raw[off + 13];
    assert(flags1 & 0x01 == flags1 % 2) by (bit_vector);
    assert((flags1 & 0x20 != 0) == ((flags1 / 32) % 2 == 1)) by (bit_vector);
    let bandwidth = if flags1 & 0x01 != 0 {
        Bandwidth::Wide
    } else {
        Bandwidth::Narrow
    };
    let scan = flags1 & 0x20 != 0;
    Channel {
        name,
        rx_hz,
        shift_hz,
        power,
        scan,
        mode: Mode::Fm { bandwidth, tone_tx_dhz, tone_rx_dhz, dcs_code },
        source: None,
    }
}

// -------- categories --------

/// Number of known channel categories.
pub const CATEGORY_COUNT: usize = 6;

/// Offset of a category's record block.
pub open spec fn cat_data(c: int) -> int {
    if c == 0 {
        0x00B0
    } else if c == 1 {
        0x0140
    } else if c == 2 {
        0x0780
    } else if c == 3 {
        0x0DC0
    } else if c == 4 {
        0x1400
    } else {
        0x2080
    }
}

/// Number of records in a category.
pub open spec fn cat_count(c: int) -> int {
    if c == 0 {
        8
    } else if c == 1 {
        1
    } else if c == 2 {
        7
    } else if c == 3 {
        8
    } else if c == 4 {
        16
    } else {
        18
    }
}

/// Offset of a category's name block, if it has one.
pub open spec fn cat_names(c: int) -> Option<int> {
    if c == 2 {
        Some(0x446C)
    } else if c == 3 {
        Some(0x491C)
    } else if c == 4 {
        Some(0x4DCC)
    } else if c == 5 {
        Some(0x572C)
    } else {
        None
    }
}

/// Prefix of the synthetic names of a category.
pub open spec fn cat_prefix(c: int) -> Seq<char> {
    if c == 0 {
        "BAND"@
    } else if c == 1 {
        "SIMPLEX"@
    } else if c == 2 {
        "Jakt"@
    } else if c == 3 {
        "SRBR"@
    } else if c == 4 {
        "PMR"@
    } else {
        "69M"@
    }
}

/// The layout of category `c`: record block offset, name block offset,
/// record count.
fn category(c: usize) -> (t: (usize, Option<usize>, usize))
    requires
        c < 6,
    ensures
        t.0 == cat_data(c as int),
        t.2 == cat_count(c as int),
        match t.1 {
            Some(b) => cat_names(c as int) == Some(b as int),
            None => cat_names(c as int) is None,
        },
{
    match c {
        0 => (0x00B0, None, 8),
        1 => (0x0140, None, 1),
        2 => (0x0780, Some(0x446C), 7),
        3 => (0x0DC0, Some(0x491C), 8),
        4 => (0x1400, Some(0x4DCC), 16),
        _ => (0x2080, Some(0x572C), 18),
    }
}

/// Append the synthetic-name prefix of category `c`.
fn push_prefix(s: &mut String, c: usize)
    requires
        c < 6,
    ensures
        final(s)@ == old(s)@ + cat_prefix(c as int),
{
    match c {
        0 => push_str(s, "BAND"),
        1 => push_str(s, "SIMPLEX"),
        2 => push_str(s, "Jakt"),
        3 => push_str(s, "SRBR"),
        4 => push_str(s, "PMR"),
        _ => push_str(s, "69M"),
    }
}

/// The name of slot `slot` of category `c`: the trimmed name slot when
/// the category has names and the slot is inside the image and not
/// blank, otherwise `<prefix>_<slot + 1, two digits>`.
pub open spec fn cat_slot_name(raw: Seq<u8>, c: int, slot: int) -> Seq<char> {
    let synthetic = cat_prefix(c) + "_"@ + dec_padded((slot + 1) as nat, 2);
    match cat_names(c) {
        Some(base) => {
            let off = base + slot * 12;
            if off + 12 <= raw.len() && slot_text(raw.subrange(off, off + 12)).len() > 0 {
                slot_text(raw.subrange(off, off + 12))
            } else {
                synthetic
            }
        },
        None => synthetic,
    }
}

/// Read the name of slot `slot` of category `c`.
fn decode_name(raw: &[u8], c: usize, slot: usize) -> (s: String)
    requires
        c < 6,
        slot < 18,
    ensures
        s@ == cat_slot_name(raw@, c as int, slot as int),
{
    let (_, names, _) = category(c);
    if let Some(base) = names {
        let off = base + slot * NAME_SIZE;
        if off + NAME_SIZE <= raw.len() {
            let t = slot_text_of(&raw[off..off + NAME_SIZE]);
            if t.unicode_len() > 0 {
                return t;
            }
        }
    }
    let mut s = String::new();
    push_prefix(&mut s, c);
    push_str(&mut s, "_");
    push_decimal(&mut s, (slot + 1) as u64, 2);
    s
}

/// The `(offset, name)` of each plausible record of category `c` from
/// slot `slot` on, stopping at the first record that runs past the
/// image.
pub open spec fn cat_slots_from(raw: Seq<u8>, c: int, slot: int) -> Seq<(int, Seq<char>)>
    decreases cat_count(c) - slot,
{
    let off = cat_data(c) + slot * 16;
    if slot < 0 || slot >= cat_count(c) || off + 16 > raw.len() {
        seq![]
    } else {
        let rest = cat_slots_from(raw, c, slot + 1);
        if rec_plausible(raw, off) {
            seq![(off, cat_slot_name(raw, c, slot))] + rest
        } else {
            rest
        }
    }
}

/// The categorised channels of categories `c` and after.
pub open spec fn cats_from(raw: Seq<u8>, c: int) -> Seq<(int, Seq<char>)>
    decreases 6 - c,
{
    if c < 0 || c >= 6 {
        seq![]
    } else {
        cat_slots_from(raw, c, 0) + cats_from(raw, c + 1)
    }
}

/// Whether the 16-byte slot `k` of the image belongs to a category's
/// record block.
pub open spec fn covered_slot(k: int) -> bool {
    exists|c: int| 0 <= c < 6 && #[trigger] in_cat_block(c, k)
}

/// Whether slot `k` lies in the record block of category `c`.
pub open spec fn in_cat_block(c: int, k: int) -> bool {
    cat_data(c) / 16 <= k < cat_data(c) / 16 + cat_count(c)
}

/// Synthetic name of an uncategorised record: `Q336_<offset, 4 hex>`.
pub open spec fn fallback_name(off: int) -> Seq<char> {
    "Q336_"@ + hex_padded(off as nat, 4)
}

/// The warning raised for an uncategorised record.
pub open spec fn fallback_warning(off: int) -> Seq<char> {
    "uncategorised channel at 0x"@ + hex_padded(off as nat, 4)
        + " — extend CATEGORIES if recurring"@
}

/// The plausible uncategorised records from slot `k` on.
pub open spec fn fallback_from(raw: Seq<u8>, k: int) -> Seq<(int, Seq<char>)>
    decreases raw.len() - k * 16,
{
    if k < 0 || k * 16 + 16 > raw.len() {
        seq![]
    } else {
        let rest = fallback_from(raw, k + 1);
        if !covered_slot(k) && rec_plausible(raw, k * 16) {
            seq![(k * 16, fallback_name(k * 16))] + rest
        } else {
            rest
        }
    }
}

/// Every channel the decoder emits, in order: the categorised ones, then
/// the uncategorised ones.
pub open spec fn kg_channel_slots(raw: Seq<u8>) -> Seq<(int, Seq<char>)> {
    cats_from(raw, 0) + fallback_from(raw, 0)
}

/// `chs` are the channels decoded from the records listed in `slots`.
pub open spec fn channels_match(raw: Seq<u8>, slots: Seq<(int, Seq<char>)>, chs: Seq<Channel>) -> bool {
    &&& chs.len() == slots.len()
    &&& forall|i: int|
        0 <= i < chs.len() ==> kg_record_channel(raw, slots[i].0, slots[i].1, #[trigger] chs[i])
}

/// Channels decoded from an image, plus one warning per uncategorised
/// channel.
pub struct DecodeReport {
    pub channels: Vec<Channel>,
    pub warnings: Vec<String>,
}

/// Whether slot `k` belongs to a category's record block.
fn is_covered(k: usize) -> (b: bool)
    ensures
        b == covered_slot(k as int),
{
    let mut c: usize = 0;
    while c < CATEGORY_COUNT
        invariant
            c <= 6,
            forall|q: int| 0 <= q < c ==> !#[trigger] in_cat_block(q, k as int),
        decreases 6 - c,
    {
        let (data, _, count) = category(c);
        if data / 16 <= k && k < data / 16 + count {
            assert(in_cat_block(c as int, k as int));
            return true;
        }
        c = c + 1;
    }
    false
}

/// Decode every plausible channel of a `.kg`-shape image: first the
/// records of the known categories, then any other plausible 16-byte
/// record, which also raises a warning.
pub fn decode_channels(raw: &[u8]) -> (r: Result<DecodeReport, KgQ336Error>)
    ensures
        match r {
            Ok(rep) => {
                &&& raw@.len() >= 16
                &&& channels_match(raw@, kg_channel_slots(raw@), rep.channels@)
                &&& rep.warnings@.len() == fallback_from(raw@, 0).len()
                &&& forall|i: int|
                    0 <= i < rep.warnings@.len() ==> #[trigger] rep.warnings@[i]@
                        == fallback_warning(fallback_from(raw@, 0)[i].0)
            },
            Err(e) => raw@.len() < 16 && e == KgQ336Error::ShortImage {
                got: raw@.len() as usize,
                min: 16,
            },
        },
{
    if raw.len() < RECORD_SIZE {
        return Err(KgQ336Error::ShortImage { got: raw.len(), min: RECORD_SIZE });
    }
    let mut channels: Vec<Channel> = Vec::new();
    let mut warnings: Vec<String> = Vec::new();
    let ghost mut done: Seq<(int, Seq<char>)> = seq![];
    let mut c: usize = 0;
    while c < CATEGORY_COUNT
        invariant
            c <= 6,
            cats_from(raw@, 0) == done + cats_from(raw@, c as int),
            channels_match(raw@, done, channels@),
        decreases 6 - c,
    {
        let (data, _, count) = category(c);
        let mut slot: usize = 0;
        while slot < count && data + slot * RECORD_SIZE + RECORD_SIZE <= raw.len()
            invariant
                c < 6,
                data == cat_data(c as int),
                count == cat_count(c as int),
                slot <= count,
                cats_from(raw@, 0) == done + cat_slots_from(raw@, c as int, slot as int)
                    + cats_from(raw@, c + 1),
                channels_match(raw@, done, channels@),
            decreases count - slot,
        {
            let off = data + slot * RECORD_SIZE;
            let ghost rest = cat_slots_from(raw@, c as int, slot + 1);
            if is_plausible(raw, off) {
                let name = decode_name(raw, c, slot);
                let ch = record_to_channel(raw, off, name);
                proof {
                    let item = (off as int, cat_slot_name(raw@, c as int, slot as int));
                    assert(done + (seq![item] + rest) + cats_from(raw@, c + 1) =~= done.push(item)
                        + rest + cats_from(raw@, c + 1));
                    done = done.push(item);
                }
                channels.push(ch);
            }
            slot = slot + 1;
        }
        assert(cat_slots_from(raw@, c as int, slot as int) =~= Seq::<(int, Seq<char>)>::empty());
        assert(cats_from(raw@, c as int) == cat_slots_from(raw@, c as int, 0) + cats_from(
            raw@,
            c + 1,
        ));
        proof {
            assert(done + Seq::<(int, Seq<char>)>::empty() + cats_from(raw@, c + 1) =~= done
                + cats_from(raw@, c + 1));
        }
        c = c + 1;
    }
    assert(done + Seq::<(int, Seq<char>)>::empty() =~= done);
    let ghost cats = done;
    let ghost mut fb: Seq<(int, Seq<char>)> = seq![];
    let mut k: usize = 0;
    let slots = raw.len() / RECORD_SIZE;
    while k < slots
        invariant
            slots == raw@.len() / 16,
            raw@.len() <= usize::MAX,
            cats == cats_from(raw@, 0),
            k * 16 <= raw@.len(),
            fallback_from(raw@, 0) == fb + fallback_from(raw@, k as int),
            channels_match(raw@, cats + fb, channels@),
            warnings@.len() == fb.len(),
            forall|i: int|
                0 <= i < warnings@.len() ==> #[trigger] warnings@[i]@ == fallback_warning(fb[i].0),
        decreases raw@.len() - k * 16,
    {
        assert(k * 16 + 16 <= raw@.len()) by (nonlinear_arith)
            requires
                k < slots,
                slots == raw@.len() / 16,
            raw@.len() <= usize::MAX,
        ;
        let off = k * RECORD_SIZE;
        let ghost rest = fallback_from(raw@, k + 1);
        if !is_covered(k) && is_plausible(raw, off) {
            let mut name = String::new();
            push_str(&mut name, "Q336_");
            push_hex(&mut name, off as u64, 4);
            let mut w = String::new();
            push_str(&mut w, "uncategorised channel at 0x");
            push_hex(&mut w, off as u64, 4);
            push_str(&mut w, " — extend CATEGORIES if recurring");
            let ch = record_to_channel(raw, off, name);
            proof {
                let item = (off as int, fallback_name(off as int));
                assert(fb + (seq![item] + rest) =~= fb.push(item) + rest);
                assert((cats + fb).push(item) =~= cats + fb.push(item));
                fb = fb.push(item);
            }
            warnings.push(w);
            channels.push(ch);
        }
        k = k + 1;
    }
    assert(k * 16 + 16 > raw@.len()) by (nonlinear_arith)
        requires
            k >= slots,
            slots == raw@.len() / 16,
            raw@.len() <= usize::MAX,
    ;
    assert(fallback_from(raw@, k as int) =~= Seq::<(int, Seq<char>)>::empty());
    assert(fb + Seq::<(int, Seq<char>)>::empty() =~= fb);
    Ok(DecodeReport { channels, warnings })
}


// -------- the category layout, stated over the decoder's output --------

/// The name a named category gives the record in its slot `s`: the
/// trimmed 12-byte text at `at` when it lies inside the image and is not
/// blank, otherwise `<prefix>_<s + 1, two digits>`.
pub open spec fn named_slot(raw: Seq<u8>, at: int, prefix: Seq<char>, s: int) -> Seq<char> {
    if at + 12 <= raw.len() && slot_text(raw.subrange(at, at + 12)).len() > 0 {
        slot_text(raw.subrange(at, at + 12))
    } else {
        prefix + "_"@ + dec_padded((s + 1) as nat, 2)
    }
}

/// `item` is the record of some slot of category `c`, under that slot's
/// name.
spec fn cat_item(raw: Seq<u8>, c: int, item: (int, Seq<char>)) -> bool {
    let t = (item.0 - cat_data(c)) / 16;
    &&& cat_data(c) <= item.0
    &&& (item.0 - cat_data(c)) % 16 == 0
    &&& t < cat_count(c)
    &&& item.1 == cat_slot_name(raw, c, t)
}

proof fn lemma_cat_slots_items(raw: Seq<u8>, c: int, slot: int)
    requires
        0 <= c < 6,
        0 <= slot,
    ensures
        forall|j: int|
            0 <= j < cat_slots_from(raw, c, slot).len() ==> cat_item(
                raw,
                c,
                #[trigger] cat_slots_from(raw, c, slot)[j],
            ),
    decreases cat_count(c) - slot,
{
    let off = cat_data(c) + slot * 16;
    if slot >= cat_count(c) || off + 16 > raw.len() {
    } else {
        lemma_cat_slots_items(raw, c, slot + 1);
        let rest = cat_slots_from(raw, c, slot + 1);
        if rec_plausible(raw, off) {
            let item = (off, cat_slot_name(raw, c, slot));
            assert((off - cat_data(c)) / 16 == slot);
            assert(cat_item(raw, c, item));
            assert forall|j: int| 0 <= j < (seq![item] + rest).len() implies cat_item(
                raw,
                c,
                #[trigger] (seq![item] + rest)[j],
            ) by {
                if j > 0 {
                    assert((seq![item] + rest)[j] == rest[j - 1]);
                }
            }
        }
    }
}

/// `item` is the record of some slot of a category from `c` on.
spec fn in_cats_from(raw: Seq<u8>, c: int, item: (int, Seq<char>)) -> bool {
    exists|d: int| c <= d < 6 && #[trigger] cat_item(raw, d, item)
}

proof fn lemma_cats_items(raw: Seq<u8>, c: int)
    requires
        0 <= c <= 6,
    ensures
        forall|j: int|
            0 <= j < cats_from(raw, c).len() ==> in_cats_from(raw, c, #[trigger] cats_from(raw, c)[j]),
    decreases 6 - c,
{
    if c < 6 {
        lemma_cats_items(raw, c + 1);
        lemma_cat_slots_items(raw, c, 0);
        let a = cat_slots_from(raw, c, 0);
        let b = cats_from(raw, c + 1);
        assert(cats_from(raw, c) == a + b);
        assert forall|j: int| 0 <= j < cats_from(raw, c).len() implies in_cats_from(
            raw,
            c,
            #[trigger] cats_from(raw, c)[j],
        ) by {
            if j < a.len() {
                assert((a + b)[j] == a[j]);
                assert(cat_item(raw, c, a[j]));
            } else {
                assert((a + b)[j] == b[j - a.len()]);
                assert(in_cats_from(raw, c + 1, b[j - a.len()]));
                let d = choose|d: int| c + 1 <= d < 6 && #[trigger] cat_item(raw, d, b[j - a.len()]);
                assert(cat_item(raw, d, cats_from(raw, c)[j]));
            }
        }
    } else {
        assert(cats_from(raw, c).len() == 0);
    }
}

proof fn lemma_fallback_items(raw: Seq<u8>, k: int)
    requires
        0 <= k,
    ensures
        forall|j: int|
            0 <= j < fallback_from(raw, k).len() ==> (#[trigger] fallback_from(raw, k)[j]).0 % 16
                == 0 && !covered_slot(fallback_from(raw, k)[j].0 / 16) && fallback_from(raw, k)[j].1
                == fallback_name(fallback_from(raw, k)[j].0),
    decreases raw.len() - k * 16,
{
    if k * 16 + 16 <= raw.len() {
        lemma_fallback_items(raw, k + 1);
        let rest = fallback_from(raw, k + 1);
        if !covered_slot(k) && rec_plausible(raw, k * 16) {
            let item = (k * 16, fallback_name(k * 16));
            assert((k * 16) / 16 == k);
            assert forall|j: int| 0 <= j < (seq![item] + rest).len() implies (#[trigger] (seq![
                item,
            ] + rest)[j]).0 % 16 == 0 && !covered_slot((seq![item] + rest)[j].0 / 16) && (seq![
                item,
            ] + rest)[j].1 == fallback_name((seq![item] + rest)[j].0) by {
                if j > 0 {
                    assert((seq![item] + rest)[j] == rest[j - 1]);
                }
            }
        }
    }
}

/// An item the decoder lists at an offset inside the record block of
/// category `c` is that category's record, under its slot's name.
proof fn lemma_slot_in_block(raw: Seq<u8>, i: int, c: int)
    requires
        0 <= i < kg_channel_slots(raw).len(),
        0 <= c < 6,
        cat_data(c) <= kg_channel_slots(raw)[i].0 < cat_data(c) + 16 * cat_count(c),
    ensures
        cat_item(raw, c, kg_channel_slots(raw)[i]),
{
    let a = cats_from(raw, 0);
    let b = fallback_from(raw, 0);
    let item = kg_channel_slots(raw)[i];
    assert(kg_channel_slots(raw) == a + b);
    lemma_cats_items(raw, 0);
    lemma_fallback_items(raw, 0);
    if i < a.len() {
        assert((a + b)[i] == a[i]);
        assert(in_cats_from(raw, 0, a[i]));
        let d = choose|d: int| 0 <= d < 6 && #[trigger] cat_item(raw, d, a[i]);
        assert(d == c);
    } else {
        assert((a + b)[i] == b[i - a.len()]);
        assert(in_cat_block(c, item.0 / 16));
    }
}

/// An item the decoder lists at an offset outside every category's
/// record block is an uncategorised record under its fallback name.
proof fn lemma_slot_outside_blocks(raw: Seq<u8>, i: int)
    requires
        0 <= i < kg_channel_slots(raw).len(),
        forall|c: int|
            0 <= c < 6 ==> !(#[trigger] cat_data(c) <= kg_channel_slots(raw)[i].0 < cat_data(c) + 16
                * cat_count(c)),
    ensures
        kg_channel_slots(raw)[i].1 == fallback_name(kg_channel_slots(raw)[i].0),
{
    let a = cats_from(raw, 0);
    let b = fallback_from(raw, 0);
    assert(kg_channel_slots(raw) == a + b);
    lemma_cats_items(raw, 0);
    lemma_fallback_items(raw, 0);
    if i < a.len() {
        assert((a + b)[i] == a[i]);
        assert(in_cats_from(raw, 0, a[i]));
        let d = choose|d: int| 0 <= d < 6 && #[trigger] cat_item(raw, d, a[i]);
        assert(cat_data(d) <= a[i].0 < cat_data(d) + 16 * cat_count(d));
    } else {
        assert((a + b)[i] == b[i - a.len()]);
    }
}

/// What the decoder names each channel of the six categories, by the
/// offset of its record: BAND records at 0x00B0 (8 slots) and the
/// SIMPLEX record at 0x0140 get synthetic names; Jakt (0x0780, 7 slots),
/// SRBR (0x0DC0, 8), PMR (0x1400, 16) and 69M (0x2080, 18) take the name
/// of slot `s` from the 12 bytes at 0x446C, 0x491C, 0x4DCC and 0x572C
/// plus `12 * s` respectively, falling back to `<category>_<s + 1>`; a
/// record outside these blocks is named `Q336_<offset, 4 hex digits>`.
pub proof fn lemma_kg_category_names(raw: Seq<u8>, chs: Seq<Channel>)
    requires
        channels_match(raw, kg_channel_slots(raw), chs),
    ensures
        forall|i: int|
            #![trigger chs[i]]
            0 <= i < chs.len() ==> {
                let o = kg_channel_slots(raw)[i].0;
                &&& 0x00B0 <= o < 0x00B0 + 16 * 8 ==> o % 16 == 0 && chs[i].name@ == "BAND"@ + "_"@
                    + dec_padded(((o - 0x00B0) / 16 + 1) as nat, 2)
                &&& 0x0140 <= o < 0x0140 + 16 ==> o == 0x0140 && chs[i].name@ == "SIMPLEX"@ + "_"@
            + dec_padded(1, 2)
                &&& 0x0780 <= o < 0x0780 + 16 * 7 ==> o % 16 == 0 && chs[i].name@ == named_slot(
                    raw,
                    0x446C + 12 * ((o - 0x0780) / 16),
                    "Jakt"@,
                    (o - 0x0780) / 16,
                )
                &&& 0x0DC0 <= o < 0x0DC0 + 16 * 8 ==> o % 16 == 0 && chs[i].name@ == named_slot(
                    raw,
                    0x491C + 12 * ((o - 0x0DC0) / 16),
                    "SRBR"@,
                    (o - 0x0DC0) / 16,
                )
                &&& 0x1400 <= o < 0x1400 + 16 * 16 ==> o % 16 == 0 && chs[i].name@ == named_slot(
                    raw,
                    0x4DCC + 12 * ((o - 0x1400) / 16),
                    "PMR"@,
                    (o - 0x1400) / 16,
                )
                &&& 0x2080 <= o < 0x2080 + 16 * 18 ==> o % 16 == 0 && chs[i].name@ == named_slot(
                    raw,
                    0x572C + 12 * ((o - 0x2080) / 16),
                    "69M"@,
                    (o - 0x2080) / 16,
                )
                &&& !(0x00B0 <= o < 0x00B0 + 16 * 8) && !(0x0140 <= o < 0x0140 + 16) && !(0x0780
                    <= o < 0x0780 + 16 * 7) && !(0x0DC0 <= o < 0x0DC0 + 16 * 8) && !(0x1400 <= o
                    < 0x1400 + 16 * 16) && !(0x2080 <= o < 0x2080 + 16 * 18) ==> chs[i].name@
                    == "Q336_"@ + hex_padded(o as nat, 4)
            },
{
    assert forall|i: int| #![trigger chs[i]] 0 <= i < chs.len() implies {
        let o = kg_channel_slots(raw)[i].0;
        &&& 0x00B0 <= o < 0x00B0 + 16 * 8 ==> o % 16 == 0 && chs[i].name@ == "BAND"@ + "_"@
            + dec_padded(((o - 0x00B0) / 16 + 1) as nat, 2)
        &&& 0x0140 <= o < 0x0140 + 16 ==> o == 0x0140 && chs[i].name@ == "SIMPLEX"@ + "_"@
            + dec_padded(1, 2)
        &&& 0x0780 <= o < 0x0780 + 16 * 7 ==> o % 16 == 0 && chs[i].name@ == named_slot(
            raw,
            0x446C + 12 * ((o - 0x0780) / 16),
            "Jakt"@,
            (o - 0x0780) / 16,
        )
        &&& 0x0DC0 <= o < 0x0DC0 + 16 * 8 ==> o % 16 == 0 && chs[i].name@ == named_slot(
            raw,
            0x491C + 12 * ((o - 0x0DC0) / 16),
            "SRBR"@,
            (o - 0x0DC0) / 16,
        )
        &&& 0x1400 <= o < 0x1400 + 16 * 16 ==> o % 16 == 0 && chs[i].name@ == named_slot(
            raw,
            0x4DCC + 12 * ((o - 0x1400) / 16),
            "PMR"@,
            (o - 0x1400) / 16,
        )
        &&& 0x2080 <= o < 0x2080 + 16 * 18 ==> o % 16 == 0 && chs[i].name@ == named_slot(
            raw,
            0x572C + 12 * ((o - 0x2080) / 16),
            "69M"@,
            (o - 0x2080) / 16,
        )
        &&& !(0x00B0 <= o < 0x00B0 + 16 * 8) && !(0x0140 <= o < 0x0140 + 16) && !(0x0780 <= o
            < 0x0780 + 16 * 7) && !(0x0DC0 <= o < 0x0DC0 + 16 * 8) && !(0x1400 <= o < 0x1400 + 16
            * 16) && !(0x2080 <= o < 0x2080 + 16 * 18) ==> chs[i].name@ == "Q336_"@ + hex_padded(
            o as nat,
            4,
        )
    } by {
        let item = kg_channel_slots(raw)[i];
        let o = item.0;
        assert(kg_record_channel(raw, item.0, item.1, chs[i]));
        if 0x00B0 <= o < 0x00B0 + 16 * 8 {
            lemma_slot_in_block(raw, i, 0);
        }
        if 0x0140 <= o < 0x0140 + 16 {
            lemma_slot_in_block(raw, i, 1);
        }
        if 0x0780 <= o < 0x0780 + 16 * 7 {
            lemma_slot_in_block(raw, i, 2);
        }
        if 0x0DC0 <= o < 0x0DC0 + 16 * 8 {
            lemma_slot_in_block(raw, i, 3);
        }
        if 0x1400 <= o < 0x1400 + 16 * 16 {
            lemma_slot_in_block(raw, i, 4);
        }
        if 0x2080 <= o < 0x2080 + 16 * 18 {
            lemma_slot_in_block(raw, i, 5);
        }
        if !(0x00B0 <= o < 0x00B0 + 16 * 8) && !(0x0140 <= o < 0x0140 + 16) && !(0x0780 <= o
            < 0x0780 + 16 * 7) && !(0x0DC0 <= o < 0x0DC0 + 16 * 8) && !(0x1400 <= o < 0x1400 + 16
            * 16) && !(0x2080 <= o < 0x2080 + 16 * 18) {
            assert forall|c: int| 0 <= c < 6 implies !(#[trigger] cat_data(c) <= kg_channel_slots(
                raw,
            )[i].0 < cat_data(c) + 16 * cat_count(c)) by {}
            lemma_slot_outside_blocks(raw, i);
        }
    }
}


/// The fields of every decoded channel, read off the 16-byte record at
/// offset `o` it came from: the receive frequency is the little-endian
/// `u32` at `o` in units of 10 Hz; byte `o + 12` is the power (0 low, 1
/// mid, anything else high); byte `o + 13` holds the bandwidth in bit 0
/// (set: wide) and scan-add in bit 5.
pub proof fn lemma_kg_record_fields(raw: Seq<u8>, chs: Seq<Channel>)
    requires
        channels_match(raw, kg_channel_slots(raw), chs),
    ensures
        forall|i: int|
            #![trigger chs[i]]
            0 <= i < chs.len() ==> {
                let o = kg_channel_slots(raw)[i].0;
                &&& chs[i].rx_hz == 10 * (raw[o] + 256 * raw[o + 1] + 65536 * raw[o + 2]
                    + 16777216 * raw[o + 3])
                &&& (chs[i].power == Power::Low <==> raw[o + 12] == 0)
                &&& (chs[i].power == Power::Mid <==> raw[o + 12] == 1)
                &&& (chs[i].power == Power::High <==> raw[o + 12] > 1)
                &&& (chs[i].scan <==> raw[o + 13] & 0x20 != 0)
                &&& chs[i].mode matches Mode::Fm { bandwidth, .. } && (bandwidth
                    == Bandwidth::Wide <==> raw[o + 13] & 1 == 1)
            },
{
    assert forall|i: int| #![trigger chs[i]] 0 <= i < chs.len() implies {
        let o = kg_channel_slots(raw)[i].0;
        &&& chs[i].rx_hz == 10 * (raw[o] + 256 * raw[o + 1] + 65536 * raw[o + 2] + 16777216
            * raw[o + 3])
        &&& (chs[i].power == Power::Low <==> raw[o + 12] == 0)
        &&& (chs[i].power == Power::Mid <==> raw[o + 12] == 1)
        &&& (chs[i].power == Power::High <==> raw[o + 12] > 1)
        &&& (chs[i].scan <==> raw[o + 13] & 0x20 != 0)
        &&& chs[i].mode matches Mode::Fm { bandwidth, .. } && (bandwidth == Bandwidth::Wide
            <==> raw[o + 13] & 1 == 1)
    } by {
        let item = kg_channel_slots(raw)[i];
        let o = item.0;
        assert(kg_record_channel(raw, item.0, item.1, chs[i]));
        let f = raw[o + 13];
        assert((f & 0x20 != 0) == ((f / 32) % 2 == 1)) by (bit_vector);
        assert((f & 1 == 1) == (f % 2 == 1)) by (bit_vector);
    }
}

} // verus!
