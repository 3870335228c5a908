//! narm's radio-independent channel model and its validation.
//!
//! CTCSS tones are held in deci-hertz (`885` is 88.5 Hz): every tone of
//! the standard tables is a whole number of tenths of a hertz.
use vstd::prelude::*;

verus! {

/// Transmit power level.
#[derive(Debug, Clone, Copy, PartialEq, Eq, Structural)]
pub enum Power {
    Low,
    Mid,
    High,
}

/// FM channel bandwidth.
#[derive(Debug, Clone, Copy, PartialEq, Eq, Structural)]
pub enum Bandwidth {
    Narrow,
    Wide,
}

/// DMR admit criterion.
#[derive(Debug, Clone, Copy, PartialEq, Eq, Structural)]
pub enum Admit {
    Always,
    ChannelFree,
    ColorCodeFree,
}

/// C4FM data rate.
#[derive(Debug, Clone, Copy, PartialEq, Eq, Structural)]
pub enum C4fmRate {
    Dn,
    Vw,
    Voice,
    Data,
}

/// Modulation and the mode-specific channel settings.
#[derive(Debug, Clone)]
pub enum Mode {
    /// Analog FM; tones in deci-hertz, DCS as the octal code read as
    /// decimal digits (`023` is 23).
    Fm {
        bandwidth: Bandwidth,
        tone_tx_dhz: Option<u16>,
        tone_rx_dhz: Option<u16>,
        dcs_code: Option<u16>,
    },
    /// Analog AM (air band); same settings as FM.
    Am {
        bandwidth: Bandwidth,
        tone_tx_dhz: Option<u16>,
        tone_rx_dhz: Option<u16>,
        dcs_code: Option<u16>,
    },
    Dmr { color_code: u8, slot: u8, talkgroup: u32, admit_policy: Admit },
    Dstar { urcall: String, rpt1: String, rpt2: String },
    C4fm { dg_id_tx: u8, dg_id_rx: u8, data_rate: C4fmRate },
    P25 { nac: u16, talkgroup: u32 },
    M17 { destination: String, can: u8 },
}

/// The short lower-case name of a mode.
pub open spec fn mode_kind(m: Mode) -> Seq<char> {
    match m {
        Mode::Fm { .. } => "fm"@,
        Mode::Am { .. } => "am"@,
        Mode::Dmr { .. } => "dmr"@,
        Mode::Dstar { .. } => "dstar"@,
        Mode::C4fm { .. } => "c4fm"@,
        Mode::P25 { .. } => "p25"@,
        Mode::M17 { .. } => "m17"@,
    }
}

impl Mode {
    /// The short lower-case name of this mode (`"fm"`, `"dmr"`, ...).
    pub fn kind(&self) -> (k: &'static str)
        ensures
            k@ == mode_kind(*self),
    {
        match self {
            Mode::Fm { .. } => "fm",
            Mode::Am { .. } => "am",
            Mode::Dmr { .. } => "dmr",
            Mode::Dstar { .. } => "dstar",
            Mode::C4fm { .. } => "c4fm",
            Mode::P25 { .. } => "p25",
            Mode::M17 { .. } => "m17",
        }
    }
}

/// One channel.
#[derive(Debug, Clone)]
pub struct Channel {
    pub name: String,
    pub rx_hz: u64,
    /// Signed transmit offset from `rx_hz`.
    pub shift_hz: i64,
    pub power: Power,
    pub scan: bool,
    pub mode: Mode,
    /// The file the channel was loaded from, if any.
    pub source: Option<String>,
}

/// A channel list.
#[derive(Debug, Clone)]
pub struct Config {
    pub channels: Vec<Channel>,
}

/// Why a channel list fails validation.
#[derive(Debug, Clone)]
pub enum NarmError {
    /// A channel name occurs twice; `first` and `second` are the files
    /// of the two occurrences.
    DuplicateName { name: String, first: Option<String>, second: Option<String> },
    /// A receive frequency lies outside every supported amateur band.
    OutOfBand { name: String, hz: u64, source_path: Option<String> },
}

/// 2 m (144–148 MHz) or 70 cm (420–450 MHz), edges included.
pub open spec fn spec_in_supported_band(hz: u64) -> bool {
    (144_000_000 <= hz <= 148_000_000) || (420_000_000 <= hz <= 450_000_000)
}

/// Whether `hz` lies in a supported amateur band.
pub fn in_supported_band(hz: u64) -> (b: bool)
    ensures
        b == spec_in_supported_band(hz),
{
    (144_000_000 <= hz && hz <= 148_000_000) || (420_000_000 <= hz && hz <= 450_000_000)
}

/// The view of an optional string.
pub open spec fn opt_text(o: Option<String>) -> Option<Seq<char>> {
    match o {
        Some(s) => Some(s@),
        None => None,
    }
}

/// A copy of an optional string.
pub fn clone_opt_string(o: &Option<String>) -> (r: Option<String>)
    ensures
        opt_text(r) == opt_text(*o),
{
    match o {
        Some(s) => Some(s.clone()),
        None => None,
    }
}

/// Channel `i` repeats the name of an earlier channel.
pub open spec fn has_earlier_name(chs: Seq<Channel>, i: int) -> bool {
    exists|j: int| 0 <= j < i && #[trigger] chs[j].name@ == chs[i].name@
}

/// Channel `i` is rejected by validation.
pub open spec fn channel_fails(chs: Seq<Channel>, i: int) -> bool {
    has_earlier_name(chs, i) || !spec_in_supported_band(chs[i].rx_hz)
}

/// `i` is the first rejected channel.
pub open spec fn first_failure(chs: Seq<Channel>, i: int) -> bool {
    &&& 0 <= i < chs.len()
    &&& channel_fails(chs, i)
    &&& forall|k: int| 0 <= k < i ==> !#[trigger] channel_fails(chs, k)
}

/// `j` is the first channel named like channel `i`.
pub open spec fn first_with_name_of(chs: Seq<Channel>, i: int, j: int) -> bool {
    &&& 0 <= j < i
    &&& chs[j].name@ == chs[i].name@
    &&& forall|k: int| 0 <= k < j ==> #[trigger] chs[k].name@ != chs[i].name@
}

/// Index of the first channel before `upto` named `name`, if any.
fn find_name(chs: &Vec<Channel>, name: &String, upto: usize) -> (r: Option<usize>)
    requires
        upto <= chs@.len(),
    ensures
        match r {
            Some(j) => j < upto && chs@[j as int].name@ == name@ && forall|k: int|
                0 <= k < j ==> #[trigger] chs@[k].name@ != name@,
            None => forall|k: int| 0 <= k < upto ==> #[trigger] chs@[k].name@ != name@,
        },
{
    let mut j: usize = 0;
    while j < upto
        invariant
            upto <= chs@.len(),
            j <= upto,
            forall|k: int| 0 <= k < j ==> #[trigger] chs@[k].name@ != name@,
        decreases upto - j,
    {
        if chs[j].name == *name {
            return Some(j);
        }
        j = j + 1;
    }
    None
}

/// Check a channel list: every name must be unique and every receive
/// frequency must lie in a supported band. Channels are checked in
/// order, the name before the band; the first failure is reported.
pub fn validate(cfg: &Config) -> (r: Result<(), NarmError>)
    ensures
        match r {
            Ok(()) => forall|i: int| 0 <= i < cfg.channels@.len() ==> !#[trigger] channel_fails(
                cfg.channels@,
                i,
            ),
            Err(NarmError::DuplicateName { name, first, second }) => exists|i: int, j: int|
                {
                    &&& #[trigger] first_failure(cfg.channels@, i)
                    &&& #[trigger] first_with_name_of(cfg.channels@, i, j)
                    &&& name@ == cfg.channels@[i].name@
                    &&& opt_text(first) == opt_text(cfg.channels@[j].source)
                    &&& opt_text(second) == opt_text(cfg.channels@[i].source)
                },
            Err(NarmError::OutOfBand { name, hz, source_path }) => exists|i: int|
                {
                    &&& #[trigger] first_failure(cfg.channels@, i)
                    &&& !has_earlier_name(cfg.channels@, i)
                    &&& name@ == cfg.channels@[i].name@
                    &&& hz == cfg.channels@[i].rx_hz
                    &&& opt_text(source_path) == opt_text(cfg.channels@[i].source)
                },
        },
{
    let chs = &cfg.channels;
    let mut i: usize = 0;
    while i < chs.len()
        invariant
            chs@ == cfg.channels@,
            i <= chs@.len(),
            forall|k: int| 0 <= k < i ==> !#[trigger] channel_fails(chs@, k),
        decreases chs@.len() - i,
    {
        let ch = &chs[i];
        match find_name(chs, &ch.name, i) {
            Some(j) => {
                assert(channel_fails(chs@, i as int));
                assert(first_failure(chs@, i as int));
                assert(first_with_name_of(chs@, i as int, j as int));
                let name = ch.name.clone();
                let first = clone_opt_string(&chs[j].source);
                let second = clone_opt_string(&ch.source);
                assert(first_failure(cfg.channels@, i as int));
                assert(first_with_name_of(cfg.channels@, i as int, j as int));
                return Err(NarmError::DuplicateName { name, first, second });
            },
            None => {},
        }
        if !in_supported_band(ch.rx_hz) {
            assert(first_failure(chs@, i as int));
            return Err(
                NarmError::OutOfBand {
                    name: ch.name.clone(),
                    hz: ch.rx_hz,
                    source_path: clone_opt_string(&ch.source),
                },
            );
        }
        i = i + 1;
    }
    Ok(())
}

} // verus!
