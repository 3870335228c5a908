//! CHIRP-compatible CSV export.
//!
//! Produces the column layout that CHIRP's generic CSV driver imports.
//! Covers analog FM and AM (with CTCSS / DCS) and D-STAR (DV). DMR,
//! C4FM, P25 and M17 channels are not representable and are skipped
//! with a warning: those need the manufacturer's own software.
//!
//! The cells of each row are computed and proved here; the `csv` crate
//! quotes them and joins them into lines.
use vstd::prelude::*;

use crate::channel::{Bandwidth, Channel, Mode, Power};
use crate::text::{dec_chars, dec_padded, push_char, push_chars, push_decimal, push_str, str_chars};

verus! {

// -------- outside types and calls --------

/// `csv::Error`, carried opaquely in [`ChirpError::Csv`].
#[verifier::external_type_specification]
#[verifier::external_body]
pub struct ExCsvError(csv::Error);

/// `std::string::FromUtf8Error`, carried opaquely in [`ChirpError::Utf8`].
#[verifier::external_type_specification]
#[verifier::external_body]
pub struct ExFromUtf8Error(std::string::FromUtf8Error);

/// Each `"` of a field doubled.
pub open spec fn double_quotes(f: Seq<char>) -> Seq<char>
    decreases f.len(),
{
    if f.len() == 0 {
        seq![]
    } else {
        (if f[0] == '"' {
            seq!['"', '"']
        } else {
            seq![f[0]]
        }) + double_quotes(f.drop_first())
    }
}

/// A field as the `csv` crate's default writer emits it: in quotes, with
/// each `"` doubled, where it holds `,`, `"`, `\r` or `\n`; as it is
/// otherwise.
pub open spec fn csv_field(f: Seq<char>) -> Seq<char> {
    if f.contains(',') || f.contains('"') || f.contains('\r') || f.contains('\n') {
        seq!['"'] + double_quotes(f) + seq!['"']
    } else {
        f
    }
}

/// The fields, each as [`csv_field`] emits it, joined by `,`.
pub open spec fn csv_fields_joined(fields: Seq<Seq<char>>) -> Seq<char>
    decreases fields.len(),
{
    if fields.len() == 0 {
        seq![]
    } else if fields.len() == 1 {
        csv_field(fields[0])
    } else {
        csv_fields_joined(fields.drop_last()) + seq![','] + csv_field(fields.last())
    }
}

/// One record as the `csv` crate's default writer emits it: the joined
/// fields and `\n`. A record that would be empty (no field, or a single
/// empty field) is written as `""` so that it still reads back as one
/// field.
pub open spec fn csv_line(fields: Seq<Seq<char>>) -> Seq<char> {
    if fields.len() == 0 || (fields.len() == 1 && fields[0].len() == 0) {
        seq!['"', '"', '\n']
    } else {
        csv_fields_joined(fields) + seq!['\n']
    }
}

/// `csv::Writer::write_record` on a fresh default writer over a byte
/// vector, then `into_inner`: the UTF-8 bytes of [`csv_line`] of the
/// fields. It does not fail: a lone record cannot have a field count
/// unlike an earlier one, and writing to a `Vec` cannot fail. Quoting
/// byte by byte and by characters agree, as the bytes `,`, `"`, `\r`
/// and `\n` occur in UTF-8 only as those characters.
#[verifier::external_body]
fn csv_record(fields: &Vec<String>) -> (r: Result<Vec<u8>, csv::Error>)
    ensures
        r is Ok,
        r matches Ok(b) ==> b@ == vstd::utf8::encode_utf8(csv_line(fields.deep_view())),
{
    let mut w = csv::Writer::from_writer(Vec::new());
    w.write_record(fields)?;
    w.into_inner().map_err(|e| csv::Error::from(e.into_error()))
}

/// `String::from_utf8`: succeeds exactly on valid UTF-8, with the
/// characters the bytes encode.
#[verifier::external_body]
fn string_from_utf8(bytes: Vec<u8>) -> (r: Result<String, std::string::FromUtf8Error>)
    ensures
        r is Ok <==> vstd::utf8::valid_utf8(bytes@),
        r matches Ok(s) ==> s@ == vstd::utf8::decode_utf8(bytes@),
{
    String::from_utf8(bytes)
}

// -------- the library's own types --------

/// Why the CSV could not be produced.
#[derive(Debug)]
pub enum ChirpError {
    /// The CSV writer failed.
    Csv(csv::Error),
    /// The CSV bytes were not UTF-8.
    Utf8(std::string::FromUtf8Error),
}

/// CHIRP CSV plus any per-channel warnings raised during conversion.
#[derive(Debug, Clone, Default)]
pub struct ConvertReport {
    pub csv: String,
    pub warnings: Vec<String>,
}

/// The rows of the CSV (header excluded) and the warnings, before the
/// CSV writer joins them.
#[derive(Debug, Clone)]
pub struct ChirpTable {
    pub rows: Vec<Vec<String>>,
    pub warnings: Vec<String>,
}

/// Longest channel name the generic CHIRP driver accepts.
pub const NAME_MAX: usize = 16;

// -------- the specification of one row --------

/// CHIRP's column names, in order.
pub open spec fn chirp_header() -> Seq<Seq<char>> {
    seq![
        "Location"@,
        "Name"@,
        "Frequency"@,
        "Duplex"@,
        "Offset"@,
        "Tone"@,
        "rToneFreq"@,
        "cToneFreq"@,
        "DtcsCode"@,
        "DtcsPolarity"@,
        "RxDtcsCode"@,
        "CrossMode"@,
        "Mode"@,
        "TStep"@,
        "Skip"@,
        "Power"@,
        "Comment"@,
        "URCALL"@,
        "RPT1CALL"@,
        "RPT2CALL"@,
        "DVCODE"@,
    ]
}

/// A frequency in Hz as MHz with six decimals (`145.500000`).
pub open spec fn mhz_text(hz: nat) -> Seq<char> {
    dec_chars(hz / 1000000) + seq!['.'] + dec_padded(hz % 1000000, 6)
}

/// A tone in deci-hertz as Hz with one decimal (`88.5`).
pub open spec fn tone_text(dhz: nat) -> Seq<char> {
    dec_chars(dhz / 10) + seq!['.'] + dec_chars(dhz % 10)
}

/// The duplex sign of a transmit offset.
pub open spec fn duplex_text(shift: int) -> Seq<char> {
    if shift == 0 {
        ""@
    } else if shift < 0 {
        "-"@
    } else {
        "+"@
    }
}

/// The size of a transmit offset, in MHz.
pub open spec fn offset_text(shift: int) -> Seq<char> {
    mhz_text(
        (if shift < 0 {
            -shift
        } else {
            shift
        }) as nat,
    )
}

/// The power column for a power level.
pub open spec fn power_text(p: Power) -> Seq<char> {
    match p {
        Power::Low => "1.0W"@,
        Power::Mid => "2.5W"@,
        Power::High => "5.0W"@,
    }
}

/// The five tone cells `Tone, rToneFreq, cToneFreq, DtcsCode,
/// DtcsPolarity` of a channel with no tone.
pub open spec fn no_tone_cells() -> Seq<Seq<char>> {
    seq![""@, "88.5"@, "88.5"@, "023"@, "NN"@]
}

/// The tone cells of an analog channel: DCS wins; CTCSS on transmit
/// only is `Tone`, the same tone both ways is `TSQL`, anything else
/// `Cross`.
pub open spec fn tone_cells(tx: Option<u16>, rx: Option<u16>, dcs: Option<u16>) -> Seq<
    Seq<char>,
> {
    match dcs {
        Some(d) => seq!["DTCS"@, "88.5"@, "88.5"@, dec_padded(d as nat, 3), "NN"@],
        None => match (tx, rx) {
            (None, None) => no_tone_cells(),
            (Some(t), None) => seq!["Tone"@, tone_text(t as nat), "88.5"@, "023"@, "NN"@],
            (Some(t), Some(r)) => if t == r {
                seq!["TSQL"@, tone_text(t as nat), tone_text(t as nat), "023"@, "NN"@]
            } else {
                seq!["Cross"@, tone_text(t as nat), tone_text(r as nat), "023"@, "NN"@]
            },
            (None, Some(r)) => seq!["Cross"@, "88.5"@, tone_text(r as nat), "023"@, "NN"@],
        },
    }
}

/// The mode-dependent cells: `(mode, tone cells, URCALL, RPT1CALL,
/// RPT2CALL)`, or `None` for a mode CHIRP's CSV cannot hold.
pub open spec fn mode_cells(m: Mode) -> Option<(Seq<char>, Seq<Seq<char>>, Seq<Seq<char>>)> {
    match m {
        Mode::Fm { bandwidth, tone_tx_dhz, tone_rx_dhz, dcs_code } => Some(
            (
                if bandwidth == Bandwidth::Wide {
                    "FM"@
                } else {
                    "NFM"@
                },
                tone_cells(tone_tx_dhz, tone_rx_dhz, dcs_code),
                seq![""@, ""@, ""@],
            ),
        ),
        Mode::Am { bandwidth, tone_tx_dhz, tone_rx_dhz, dcs_code } => Some(
            (
                if bandwidth == Bandwidth::Wide {
                    "AM"@
                } else {
                    "NAM"@
                },
                tone_cells(tone_tx_dhz, tone_rx_dhz, dcs_code),
                seq![""@, ""@, ""@],
            ),
        ),
        Mode::Dstar { urcall, rpt1, rpt2 } => Some(
            ("DV"@, no_tone_cells(), seq![urcall@, rpt1@, rpt2@]),
        ),
        _ => None,
    }
}

/// Why a channel of an unsupported mode is skipped.
pub open spec fn skip_reason(m: Mode) -> Seq<char> {
    match m {
        Mode::Dmr { .. } => "DMR not supported by CHIRP CSV"@,
        Mode::C4fm { .. } => "C4FM not supported by CHIRP CSV"@,
        Mode::P25 { .. } => "P25 not supported by CHIRP CSV"@,
        _ => "M17 not supported by CHIRP CSV"@,
    }
}

/// The first `NAME_MAX` characters of a name.
pub open spec fn short_name(name: Seq<char>) -> Seq<char> {
    if name.len() <= NAME_MAX {
        name
    } else {
        name.take(NAME_MAX as int)
    }
}

/// The CSV row of a channel at a location, or `None` when its mode
/// cannot be written.
pub open spec fn chirp_row(ch: Channel, location: nat) -> Option<Seq<Seq<char>>> {
    match mode_cells(ch.mode) {
        None => None,
        Some((mode, tone, calls)) => Some(
            seq![
                dec_chars(location),
                short_name(ch.name@),
                mhz_text(ch.rx_hz as nat),
                duplex_text(ch.shift_hz as int),
                offset_text(ch.shift_hz as int),
                tone[0],
                tone[1],
                tone[2],
                tone[3],
                tone[4],
                ""@,
                ""@,
                mode,
                "12.50"@,
                if ch.scan {
                    ""@
                } else {
                    "S"@
                },
                power_text(ch.power),
                ""@,
                calls[0],
                calls[1],
                calls[2],
                ""@,
            ],
        ),
    }
}

/// The rows and warnings for a channel list: rows are numbered from 1
/// in the order written; a skipped channel gets a `skipping` warning, a
/// written one whose name was cut a `truncated` warning.
pub open spec fn chirp_table(chs: Seq<Channel>) -> (Seq<Seq<Seq<char>>>, Seq<Seq<char>>)
    decreases chs.len(),
{
    if chs.len() == 0 {
        (seq![], seq![])
    } else {
        let (rows, warns) = chirp_table(chs.drop_last());
        let ch = chs.last();
        match chirp_row(ch, rows.len() + 1) {
            Some(row) => (
                rows.push(row),
                if ch.name@.len() > NAME_MAX {
                    warns.push(ch.name@ + ": name truncated to 16 chars"@)
                } else {
                    warns
                },
            ),
            None => (rows, warns.push("skipping "@ + ch.name@ + ": "@ + skip_reason(ch.mode))),
        }
    }
}

/// The CSV text of a header and rows, one line each.
pub open spec fn csv_text(rows: Seq<Seq<Seq<char>>>) -> Seq<char>
    decreases rows.len(),
{
    if rows.len() == 0 {
        csv_line(chirp_header())
    } else {
        csv_text(rows.drop_last()) + csv_line(rows.last())
    }
}

/// The UTF-8 encoding of two texts one after the other is the encoding of
/// the first followed by that of the second.
proof fn lemma_encode_utf8_concat(a: Seq<char>, b: Seq<char>)
    ensures
        vstd::utf8::encode_utf8(a + b) == vstd::utf8::encode_utf8(a) + vstd::utf8::encode_utf8(b),
    decreases a.len(),
{
    if a.len() == 0 {
        assert(a + b =~= b);
        assert(vstd::utf8::encode_utf8(a) + vstd::utf8::encode_utf8(b) =~= vstd::utf8::encode_utf8(b));
    } else {
        lemma_encode_utf8_concat(a.drop_first(), b);
        assert((a + b).drop_first() =~= a.drop_first() + b);
        assert((a + b)[0] == a[0]);
        assert(vstd::utf8::encode_utf8(a + b) =~= vstd::utf8::encode_utf8(a) + vstd::utf8::encode_utf8(b));
    }
}

/// The rows of a table are numbered 1, 2, 3, ... in order, each has the
/// header's 21 columns, and there is at most one row per channel.
pub proof fn lemma_chirp_rows_numbered(chs: Seq<Channel>)
    ensures
        ({
            let rows = chirp_table(chs).0;
            &&& rows.len() <= chs.len()
            &&& forall|i: int|
                0 <= i < rows.len() ==> (#[trigger] rows[i]).len() == chirp_header().len()
                    && rows[i][0] == dec_chars((i + 1) as nat)
        }),
    decreases chs.len(),
{
    if chs.len() > 0 {
        lemma_chirp_rows_numbered(chs.drop_last());
        let rows = chirp_table(chs.drop_last()).0;
        let ch = chs.last();
        match chirp_row(ch, rows.len() + 1) {
            Some(row) => {
                assert forall|i: int| 0 <= i < rows.len() + 1 implies (#[trigger] rows.push(
                    row,
                )[i]).len() == chirp_header().len() && rows.push(row)[i][0] == dec_chars(
                    (i + 1) as nat,
                ) by {
                    if i < rows.len() {
                        assert(rows.push(row)[i] == rows[i]);
                    }
                }
            },
            None => {},
        }
    }
}

/// Every channel the CSV can hold gets a row; every other channel a
/// `skipping` warning instead: the rows and the skip warnings together
/// account for every channel once.
pub proof fn lemma_chirp_every_channel_accounted(chs: Seq<Channel>)
    ensures
        chirp_table(chs).0.len() + skipped_count(chs) == chs.len(),
    decreases chs.len(),
{
    if chs.len() > 0 {
        lemma_chirp_every_channel_accounted(chs.drop_last());
    }
}

/// How many channels of a list have a mode the CSV cannot hold.
pub open spec fn skipped_count(chs: Seq<Channel>) -> nat
    decreases chs.len(),
{
    if chs.len() == 0 {
        0
    } else {
        skipped_count(chs.drop_last()) + (if mode_cells(chs.last().mode) is None {
            1nat
        } else {
            0nat
        })
    }
}

// -------- building the cells --------

/// A `String` with the characters of a literal.
fn owned(s: &str) -> (r: String)
    ensures
        r@ == s@,
{
    s.to_owned()
}

/// The header row.
fn header_fields() -> (v: Vec<String>)
    ensures
        v.deep_view() == chirp_header(),
{
    let mut v: Vec<String> = Vec::new();
    v.push(owned("Location"));
    v.push(owned("Name"));
    v.push(owned("Frequency"));
    v.push(owned("Duplex"));
    v.push(owned("Offset"));
    v.push(owned("Tone"));
    v.push(owned("rToneFreq"));
    v.push(owned("cToneFreq"));
    v.push(owned("DtcsCode"));
    v.push(owned("DtcsPolarity"));
    v.push(owned("RxDtcsCode"));
    v.push(owned("CrossMode"));
    v.push(owned("Mode"));
    v.push(owned("TStep"));
    v.push(owned("Skip"));
    v.push(owned("Power"));
    v.push(owned("Comment"));
    v.push(owned("URCALL"));
    v.push(owned("RPT1CALL"));
    v.push(owned("RPT2CALL"));
    v.push(owned("DVCODE"));
    assert(v.deep_view() =~= chirp_header());
    v
}

/// A frequency in Hz as MHz with six decimals.
pub fn mhz_string(hz: u64) -> (s: String)
    ensures
        s@ == mhz_text(hz as nat),
{
    let mut s = String::new();
    push_decimal(&mut s, hz / 1000000, 0);
    push_char(&mut s, '.');
    push_decimal(&mut s, hz % 1000000, 6);
    s
}

/// A tone in deci-hertz as Hz with one decimal.
pub fn tone_string(dhz: u16) -> (s: String)
    ensures
        s@ == tone_text(dhz as nat),
{
    let mut s = String::new();
    push_decimal(&mut s, (dhz / 10) as u64, 0);
    push_char(&mut s, '.');
    push_decimal(&mut s, (dhz % 10) as u64, 0);
    s
}

/// The CHIRP power column for a power level.
pub fn power_str(p: Power) -> (s: &'static str)
    ensures
        s@ == power_text(p),
{
    match p {
        Power::Low => "1.0W",
        Power::Mid => "2.5W",
        Power::High => "5.0W",
    }
}

/// The first `max` characters of `s`.
pub fn truncate(s: &str, max: usize) -> (r: String)
    ensures
        r@ == (if s@.len() <= max {
            s@
        } else {
            s@.take(max as int)
        }),
{
    let v = str_chars(s);
    let mut r = String::new();
    let mut i: usize = 0;
    while i < v.len() && i < max
        invariant
            v@ == s@,
            i <= v@.len(),
            i <= max,
            r@ == s@.take(i as int),
        decreases v@.len() - i,
    {
        push_char(&mut r, v[i]);
        assert(s@.take(i + 1) =~= s@.take(i as int).push(s@[i as int]));
        i = i + 1;
    }
    assert(s@.len() <= max ==> s@.take(i as int) =~= s@);
    r
}

/// The five tone cells of a channel with no tone.
fn empty_tone_cells() -> (v: Vec<String>)
    ensures
        v.deep_view() == no_tone_cells(),
        v@.len() == 5,
{
    let mut v: Vec<String> = Vec::new();
    v.push(owned(""));
    v.push(owned("88.5"));
    v.push(owned("88.5"));
    v.push(owned("023"));
    v.push(owned("NN"));
    assert(v.deep_view() =~= no_tone_cells());
    v
}

/// The five tone cells of an analog channel.
pub fn fm_tone_cells(tx: Option<u16>, rx: Option<u16>, dcs: Option<u16>) -> (v: Vec<String>)
    ensures
        v.deep_view() == tone_cells(tx, rx, dcs),
        v@.len() == 5,
{
    if let Some(d) = dcs {
        let mut code = String::new();
        push_decimal(&mut code, d as u64, 3);
        let mut v: Vec<String> = Vec::new();
        v.push(owned("DTCS"));
        v.push(owned("88.5"));
        v.push(owned("88.5"));
        v.push(code);
        v.push(owned("NN"));
        assert(v.deep_view() =~= tone_cells(tx, rx, dcs));
        return v;
    }
    let mut v = empty_tone_cells();
    match (tx, rx) {
        (None, None) => {},
        (Some(t), None) => {
            v.set(0, owned("Tone"));
            v.set(1, tone_string(t));
        },
        (Some(t), Some(r)) => {
            if t == r {
                v.set(0, owned("TSQL"));
                v.set(1, tone_string(t));
                v.set(2, tone_string(t));
            } else {
                v.set(0, owned("Cross"));
                v.set(1, tone_string(t));
                v.set(2, tone_string(r));
            }
        },
        (None, Some(r)) => {
            v.set(0, owned("Cross"));
            v.set(2, tone_string(r));
        },
    }
    assert(v.deep_view() =~= tone_cells(tx, rx, dcs));
    v
}

/// The CSV row of a channel at a location, or why it is skipped.
pub fn chirp_fields(ch: &Channel, location: u64) -> (r: Result<Vec<String>, &'static str>)
    ensures
        match chirp_row(*ch, location as nat) {
            Some(row) => r matches Ok(v) && v.deep_view() == row,
            None => r matches Err(reason) && reason@ == skip_reason(ch.mode),
        },
{
    let (mode, tone, calls): (&'static str, Vec<String>, (String, String, String)) = match &ch.mode {
        Mode::Fm { bandwidth, tone_tx_dhz, tone_rx_dhz, dcs_code } => {
            let m = match bandwidth {
                Bandwidth::Wide => "FM",
                Bandwidth::Narrow => "NFM",
            };
            (
                m,
                fm_tone_cells(*tone_tx_dhz, *tone_rx_dhz, *dcs_code),
                (owned(""), owned(""), owned("")),
            )
        },
        Mode::Am { bandwidth, tone_tx_dhz, tone_rx_dhz, dcs_code } => {
            let m = match bandwidth {
                Bandwidth::Wide => "AM",
                Bandwidth::Narrow => "NAM",
            };
            (
                m,
                fm_tone_cells(*tone_tx_dhz, *tone_rx_dhz, *dcs_code),
                (owned(""), owned(""), owned("")),
            )
        },
        Mode::Dstar { urcall, rpt1, rpt2 } => {
            ("DV", empty_tone_cells(), (urcall.clone(), rpt1.clone(), rpt2.clone()))
        },
        Mode::Dmr { .. } => {
            return Err("DMR not supported by CHIRP CSV");
        },
        Mode::C4fm { .. } => {
            return Err("C4FM not supported by CHIRP CSV");
        },
        Mode::P25 { .. } => {
            return Err("P25 not supported by CHIRP CSV");
        },
        Mode::M17 { .. } => {
            return Err("M17 not supported by CHIRP CSV");
        },
    };
    let mut loc = String::new();
    push_decimal(&mut loc, location, 0);
    let duplex = if ch.shift_hz == 0 {
        ""
    } else if ch.shift_hz < 0 {
        "-"
    } else {
        "+"
    };
    let abs_shift: u64 = if ch.shift_hz < 0 {
        if ch.shift_hz == i64::MIN {
            9223372036854775808u64
        } else {
            (-ch.shift_hz) as u64
        }
    } else {
        ch.shift_hz as u64
    };
    let mut v: Vec<String> = Vec::new();
    v.push(loc);
    v.push(truncate(ch.name.as_str(), NAME_MAX));
    v.push(mhz_string(ch.rx_hz));
    v.push(owned(duplex));
    v.push(mhz_string(abs_shift));
    v.push(tone[0].clone());
    v.push(tone[1].clone());
    v.push(tone[2].clone());
    v.push(tone[3].clone());
    v.push(tone[4].clone());
    v.push(owned(""));
    v.push(owned(""));
    v.push(owned(mode));
    v.push(owned("12.50"));
    v.push(
        owned(
            if ch.scan {
                ""
            } else {
                "S"
            },
        ),
    );
    v.push(owned(power_str(ch.power)));
    v.push(owned(""));
    v.push(calls.0);
    v.push(calls.1);
    v.push(calls.2);
    v.push(owned(""));
    proof {
        let row = chirp_row(*ch, location as nat)->0;
        assert(v.deep_view() =~= row);
    }
    Ok(v)
}

/// The CSV rows and warnings for a channel list.
pub fn chirp_rows(channels: &[Channel]) -> (t: ChirpTable)
    ensures
        t.rows.deep_view() == chirp_table(channels@).0,
        t.warnings.deep_view() == chirp_table(channels@).1,
{
    let mut rows: Vec<Vec<String>> = Vec::new();
    let mut warnings: Vec<String> = Vec::new();
    let mut i: usize = 0;
    while i < channels.len()
        invariant
            i <= channels@.len(),
            rows.deep_view() == chirp_table(channels@.take(i as int)).0,
            warnings.deep_view() == chirp_table(channels@.take(i as int)).1,
            rows@.len() <= i,
        decreases channels@.len() - i,
    {
        let ch = &channels[i];
        assert(channels@.take(i + 1).drop_last() =~= channels@.take(i as int));
        assert(channels@.take(i + 1).last() == channels@[i as int]);
        let location: u64 = (rows.len() as u64) + 1;
        match chirp_fields(ch, location) {
            Ok(row) => {
                let ghost before = rows.deep_view();
                let ghost rv = row.deep_view();
                rows.push(row);
                assert(rows.deep_view() =~= before.push(rv));
                if ch.name.as_str().unicode_len() > NAME_MAX {
                    let mut w = ch.name.clone();
                    push_str(&mut w, ": name truncated to 16 chars");
                    let ghost wb = warnings.deep_view();
                    warnings.push(w);
                    assert(warnings.deep_view() =~= wb.push(w@));
                }
            },
            Err(reason) => {
                let mut w = String::new();
                push_str(&mut w, "skipping ");
                push_str(&mut w, ch.name.as_str());
                push_str(&mut w, ": ");
                push_str(&mut w, reason);
                let ghost wb = warnings.deep_view();
                warnings.push(w);
                assert(warnings.deep_view() =~= wb.push(w@));
            },
        }
        i = i + 1;
    }
    assert(channels@.take(i as int) =~= channels@);
    ChirpTable { rows, warnings }
}

/// Convert channels to CHIRP CSV: the header, then one row per channel
/// that CHIRP can hold, numbered from 1; every other channel is skipped
/// with a warning, and a cut name is warned about. It always succeeds.
pub fn channels_to_csv(channels: &[Channel]) -> (r: Result<ConvertReport, ChirpError>)
    ensures
        r matches Ok(report) && report.csv@ == csv_text(chirp_table(channels@).0)
            && report.warnings.deep_view() == chirp_table(channels@).1,
{
    let table = chirp_rows(channels);
    let ghost rows = table.rows.deep_view();
    let header = header_fields();
    let mut bytes = match csv_record(&header) {
        Ok(b) => b,
        Err(e) => {
            return Err(ChirpError::Csv(e));
        },
    };
    let mut i: usize = 0;
    while i < table.rows.len()
        invariant
            rows == table.rows.deep_view(),
            i <= rows.len(),
            bytes@ == vstd::utf8::encode_utf8(csv_text(rows.take(i as int))),
        decreases rows.len() - i,
    {
        assert(rows.take(i + 1).drop_last() =~= rows.take(i as int));
        assert(table.rows[i as int].deep_view() == rows[i as int]);
        let rec = match csv_record(&table.rows[i]) {
            Ok(b) => b,
            Err(e) => {
                return Err(ChirpError::Csv(e));
            },
        };
        let mut k: usize = 0;
        let ghost start = bytes@;
        while k < rec.len()
            invariant
                k <= rec@.len(),
                bytes@ == start + rec@.take(k as int),
            decreases rec@.len() - k,
        {
            bytes.push(rec[k]);
            assert(rec@.take(k + 1) =~= rec@.take(k as int).push(rec@[k as int]));
            k = k + 1;
        }
        assert(rec@.take(k as int) =~= rec@);
        proof {
            lemma_encode_utf8_concat(csv_text(rows.take(i as int)), csv_line(rows[i as int]));
        }
        i = i + 1;
    }
    assert(rows.take(i as int) =~= rows);
    proof {
        vstd::utf8::encode_utf8_valid_utf8(csv_text(rows));
        vstd::utf8::encode_utf8_decode_utf8(csv_text(rows));
    }
    match string_from_utf8(bytes) {
        Ok(csv) => Ok(ConvertReport { csv, warnings: table.warnings }),
        Err(e) => Err(ChirpError::Utf8(e)),
    }
}

} // verus!
