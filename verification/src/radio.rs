//! The radios narm knows, and which channels each can hold.
use vstd::prelude::*;

use crate::channel::{mode_kind, Channel, Mode};
use crate::text::push_str;

verus! {

/// A supported radio model.
#[derive(Debug, Clone, Copy, PartialEq, Eq, Structural)]
pub enum Radio {
    WouxunKgQ336,
    QuanshengUvK5,
    TytMd380,
    AnytoneAtD878uv,
    YaesuFt50r,
}

/// The command-line identifier of a radio.
pub open spec fn radio_id(r: Radio) -> Seq<char> {
    match r {
        Radio::WouxunKgQ336 => "wouxun-kg-q336"@,
        Radio::QuanshengUvK5 => "quansheng-uv-k5"@,
        Radio::TytMd380 => "tyt-md-380"@,
        Radio::AnytoneAtD878uv => "anytone-at-d878uv"@,
        Radio::YaesuFt50r => "yaesu-ft-50r"@,
    }
}

/// The human-readable name of a radio.
pub open spec fn radio_display_name(r: Radio) -> Seq<char> {
    match r {
        Radio::WouxunKgQ336 => "Wouxun KG-Q336"@,
        Radio::QuanshengUvK5 => "Quansheng UV-K5"@,
        Radio::TytMd380 => "TYT MD-380"@,
        Radio::AnytoneAtD878uv => "AnyTone AT-D878UV"@,
        Radio::YaesuFt50r => "Yaesu FT-50R"@,
    }
}

/// Whether a radio carries DMR besides FM.
pub open spec fn radio_has_dmr(r: Radio) -> bool {
    r == Radio::TytMd380 || r == Radio::AnytoneAtD878uv
}

/// The modes a radio supports: FM, and DMR on the two DMR radios.
pub open spec fn radio_modes(r: Radio) -> Seq<Seq<char>> {
    if radio_has_dmr(r) {
        seq!["fm"@, "dmr"@]
    } else {
        seq!["fm"@]
    }
}

/// The receive bands of a radio, each `(low, high)` in Hz, edges
/// included.
pub open spec fn radio_rx_bands(r: Radio) -> Seq<(u64, u64)> {
    match r {
        Radio::WouxunKgQ336 => seq![
            (66_000_000u64, 88_000_000u64),
            (76_000_000, 108_000_000),
            (108_000_000, 136_000_000),
            (136_000_000, 174_000_000),
            (216_000_000, 260_000_000),
            (320_000_000, 400_000_000),
            (400_000_000, 480_000_000),
            (714_000_000, 999_000_000),
        ],
        Radio::QuanshengUvK5 => seq![
            (50_000_000u64, 76_000_000u64),
            (76_000_000, 108_000_000),
            (108_000_000, 135_997_500),
            (136_000_000, 173_997_500),
            (174_000_000, 349_997_500),
            (350_000_000, 399_997_500),
            (400_000_000, 469_997_500),
            (470_000_000, 599_997_500),
        ],
        Radio::TytMd380 => seq![(136_000_000u64, 174_000_000u64), (400_000_000, 480_000_000)],
        Radio::AnytoneAtD878uv => seq![
            (136_000_000u64, 174_000_000u64),
            (400_000_000, 480_000_000),
        ],
        Radio::YaesuFt50r => seq![
            (76_000_000u64, 200_000_000u64),
            (300_000_000, 400_000_000),
            (400_000_000, 540_000_000),
            (590_000_000, 999_000_000),
        ],
    }
}

/// The transmit bands of a radio, each `(low, high)` in Hz.
pub open spec fn radio_tx_bands(r: Radio) -> Seq<(u64, u64)> {
    match r {
        Radio::WouxunKgQ336 => seq![
            (66_000_000u64, 88_000_000u64),
            (136_000_000, 174_000_000),
            (400_000_000, 480_000_000),
        ],
        Radio::QuanshengUvK5 => seq![(136_000_000u64, 174_000_000u64), (400_000_000, 470_000_000)],
        Radio::TytMd380 => seq![(136_000_000u64, 174_000_000u64), (400_000_000, 480_000_000)],
        Radio::AnytoneAtD878uv => seq![
            (136_000_000u64, 174_000_000u64),
            (400_000_000, 480_000_000),
        ],
        Radio::YaesuFt50r => seq![(144_000_000u64, 148_000_000u64), (430_000_000, 450_000_000)],
    }
}

/// Whether a radio receives `hz`: some receive band holds it.
pub open spec fn radio_covers_rx(r: Radio, hz: u64) -> bool {
    exists|i: int|
        0 <= i < radio_rx_bands(r).len() && #[trigger] radio_rx_bands(r)[i].0 <= hz
            <= radio_rx_bands(r)[i].1
}

/// The Wouxun KG-Q336 receives exactly the frequencies from 66 to 174,
/// 216 to 260, 320 to 480, 714 to 999 MHz, band edges included.
pub proof fn lemma_rx_coverage_kg_q336(hz: u64)
    ensures
        radio_covers_rx(Radio::WouxunKgQ336, hz) <==> (
            (66_000_000 <= hz && hz <= 174_000_000) ||
            (216_000_000 <= hz && hz <= 260_000_000) ||
            (320_000_000 <= hz && hz <= 480_000_000) ||
            (714_000_000 <= hz && hz <= 999_000_000)
        ),
{
    let b = radio_rx_bands(Radio::WouxunKgQ336);
    assert(b.len() == 8);
    assert(b[0] == (66_000_000u64, 88_000_000u64));
    assert(b[1] == (76_000_000u64, 108_000_000u64));
    assert(b[2] == (108_000_000u64, 136_000_000u64));
    assert(b[3] == (136_000_000u64, 174_000_000u64));
    assert(b[4] == (216_000_000u64, 260_000_000u64));
    assert(b[5] == (320_000_000u64, 400_000_000u64));
    assert(b[6] == (400_000_000u64, 480_000_000u64));
    assert(b[7] == (714_000_000u64, 999_000_000u64));
    if 66_000_000 <= hz && hz <= 88_000_000 {
        assert(b[0].0 <= hz <= b[0].1);
    } else if 76_000_000 <= hz && hz <= 108_000_000 {
        assert(b[1].0 <= hz <= b[1].1);
    } else if 108_000_000 <= hz && hz <= 136_000_000 {
        assert(b[2].0 <= hz <= b[2].1);
    } else if 136_000_000 <= hz && hz <= 174_000_000 {
        assert(b[3].0 <= hz <= b[3].1);
    } else if 216_000_000 <= hz && hz <= 260_000_000 {
        assert(b[4].0 <= hz <= b[4].1);
    } else if 320_000_000 <= hz && hz <= 400_000_000 {
        assert(b[5].0 <= hz <= b[5].1);
    } else if 400_000_000 <= hz && hz <= 480_000_000 {
        assert(b[6].0 <= hz <= b[6].1);
    } else if 714_000_000 <= hz && hz <= 999_000_000 {
        assert(b[7].0 <= hz <= b[7].1);
    }
    if radio_covers_rx(Radio::WouxunKgQ336, hz) {
        let i = choose|i: int| 0 <= i < b.len() && #[trigger] b[i].0 <= hz <= b[i].1;
        assert(i == 0 || i == 1 || i == 2 || i == 3 || i == 4 || i == 5 || i == 6 || i == 7);
    }
}

/// The Quansheng UV-K5 receives exactly the frequencies from 50 to 76, 76
/// to 108, 108 to 135.9975, 136 to 173.9975, 174 to 349.9975, 350 to
/// 399.9975, 400 to 469.9975, 470 to 599.9975 MHz, band edges included.
pub proof fn lemma_rx_coverage_uv_k5(hz: u64)
    ensures
        radio_covers_rx(Radio::QuanshengUvK5, hz) <==> (
            (50_000_000 <= hz && hz <= 76_000_000) ||
            (76_000_000 <= hz && hz <= 108_000_000) ||
            (108_000_000 <= hz && hz <= 135_997_500) ||
            (136_000_000 <= hz && hz <= 173_997_500) ||
            (174_000_000 <= hz && hz <= 349_997_500) ||
            (350_000_000 <= hz && hz <= 399_997_500) ||
            (400_000_000 <= hz && hz <= 469_997_500) ||
            (470_000_000 <= hz && hz <= 599_997_500)
        ),
{
    let b = radio_rx_bands(Radio::QuanshengUvK5);
    assert(b.len() == 8);
    assert(b[0] == (50_000_000u64, 76_000_000u64));
    assert(b[1] == (76_000_000u64, 108_000_000u64));
    assert(b[2] == (108_000_000u64, 135_997_500u64));
    assert(b[3] == (136_000_000u64, 173_997_500u64));
    assert(b[4] == (174_000_000u64, 349_997_500u64));
    assert(b[5] == (350_000_000u64, 399_997_500u64));
    assert(b[6] == (400_000_000u64, 469_997_500u64));
    assert(b[7] == (470_000_000u64, 599_997_500u64));
    if 50_000_000 <= hz && hz <= 76_000_000 {
        assert(b[0].0 <= hz <= b[0].1);
    } else if 76_000_000 <= hz && hz <= 108_000_000 {
        assert(b[1].0 <= hz <= b[1].1);
    } else if 108_000_000 <= hz && hz <= 135_997_500 {
        assert(b[2].0 <= hz <= b[2].1);
    } else if 136_000_000 <= hz && hz <= 173_997_500 {
        assert(b[3].0 <= hz <= b[3].1);
    } else if 174_000_000 <= hz && hz <= 349_997_500 {
        assert(b[4].0 <= hz <= b[4].1);
    } else if 350_000_000 <= hz && hz <= 399_997_500 {
        assert(b[5].0 <= hz <= b[5].1);
    } else if 400_000_000 <= hz && hz <= 469_997_500 {
        assert(b[6].0 <= hz <= b[6].1);
    } else if 470_000_000 <= hz && hz <= 599_997_500 {
        assert(b[7].0 <= hz <= b[7].1);
    }
    if radio_covers_rx(Radio::QuanshengUvK5, hz) {
        let i = choose|i: int| 0 <= i < b.len() && #[trigger] b[i].0 <= hz <= b[i].1;
        assert(i == 0 || i == 1 || i == 2 || i == 3 || i == 4 || i == 5 || i == 6 || i == 7);
    }
}

/// The TYT MD-380 receives exactly the frequencies from 136 to 174, 400
/// to 480 MHz, band edges included.
pub proof fn lemma_rx_coverage_md380(hz: u64)
    ensures
        radio_covers_rx(Radio::TytMd380, hz) <==> (
            (136_000_000 <= hz && hz <= 174_000_000) ||
            (400_000_000 <= hz && hz <= 480_000_000)
        ),
{
    let b = radio_rx_bands(Radio::TytMd380);
    assert(b.len() == 2);
    assert(b[0] == (136_000_000u64, 174_000_000u64));
    assert(b[1] == (400_000_000u64, 480_000_000u64));
    if 136_000_000 <= hz && hz <= 174_000_000 {
        assert(b[0].0 <= hz <= b[0].1);
    } else if 400_000_000 <= hz && hz <= 480_000_000 {
        assert(b[1].0 <= hz <= b[1].1);
    }
    if radio_covers_rx(Radio::TytMd380, hz) {
        let i = choose|i: int| 0 <= i < b.len() && #[trigger] b[i].0 <= hz <= b[i].1;
        assert(i == 0 || i == 1);
    }
}

/// The AnyTone AT-D878UV receives exactly the frequencies from 136 to
/// 174, 400 to 480 MHz, band edges included.
pub proof fn lemma_rx_coverage_at_d878uv(hz: u64)
    ensures
        radio_covers_rx(Radio::AnytoneAtD878uv, hz) <==> (
            (136_000_000 <= hz && hz <= 174_000_000) ||
            (400_000_000 <= hz && hz <= 480_000_000)
        ),
{
    let b = radio_rx_bands(Radio::AnytoneAtD878uv);
    assert(b.len() == 2);
    assert(b[0] == (136_000_000u64, 174_000_000u64));
    assert(b[1] == (400_000_000u64, 480_000_000u64));
    if 136_000_000 <= hz && hz <= 174_000_000 {
        assert(b[0].0 <= hz <= b[0].1);
    } else if 400_000_000 <= hz && hz <= 480_000_000 {
        assert(b[1].0 <= hz <= b[1].1);
    }
    if radio_covers_rx(Radio::AnytoneAtD878uv, hz) {
        let i = choose|i: int| 0 <= i < b.len() && #[trigger] b[i].0 <= hz <= b[i].1;
        assert(i == 0 || i == 1);
    }
}

/// The Yaesu FT-50R receives exactly the frequencies from 76 to 200, 300
/// to 540, 590 to 999 MHz, band edges included.
pub proof fn lemma_rx_coverage_ft50r(hz: u64)
    ensures
        radio_covers_rx(Radio::YaesuFt50r, hz) <==> (
            (76_000_000 <= hz && hz <= 200_000_000) ||
            (300_000_000 <= hz && hz <= 540_000_000) ||
            (590_000_000 <= hz && hz <= 999_000_000)
        ),
{
    let b = radio_rx_bands(Radio::YaesuFt50r);
    assert(b.len() == 4);
    assert(b[0] == (76_000_000u64, 200_000_000u64));
    assert(b[1] == (300_000_000u64, 400_000_000u64));
    assert(b[2] == (400_000_000u64, 540_000_000u64));
    assert(b[3] == (590_000_000u64, 999_000_000u64));
    if 76_000_000 <= hz && hz <= 200_000_000 {
        assert(b[0].0 <= hz <= b[0].1);
    } else if 300_000_000 <= hz && hz <= 400_000_000 {
        assert(b[1].0 <= hz <= b[1].1);
    } else if 400_000_000 <= hz && hz <= 540_000_000 {
        assert(b[2].0 <= hz <= b[2].1);
    } else if 590_000_000 <= hz && hz <= 999_000_000 {
        assert(b[3].0 <= hz <= b[3].1);
    }
    if radio_covers_rx(Radio::YaesuFt50r, hz) {
        let i = choose|i: int| 0 <= i < b.len() && #[trigger] b[i].0 <= hz <= b[i].1;
        assert(i == 0 || i == 1 || i == 2 || i == 3);
    }
}

impl Radio {
    /// The receive bands, each `(low, high)` in Hz, edges included.
    pub fn rx_bands(self) -> (v: Vec<(u64, u64)>)
        ensures
            v@ == radio_rx_bands(self),
    {
        let v: Vec<(u64, u64)> = match self {
            Radio::WouxunKgQ336 => vec![
                (66_000_000, 88_000_000),
                (76_000_000, 108_000_000),
                (108_000_000, 136_000_000),
                (136_000_000, 174_000_000),
                (216_000_000, 260_000_000),
                (320_000_000, 400_000_000),
                (400_000_000, 480_000_000),
                (714_000_000, 999_000_000),
            ],
            Radio::QuanshengUvK5 => vec![
                (50_000_000, 76_000_000),
                (76_000_000, 108_000_000),
                (108_000_000, 135_997_500),
                (136_000_000, 173_997_500),
                (174_000_000, 349_997_500),
                (350_000_000, 399_997_500),
                (400_000_000, 469_997_500),
                (470_000_000, 599_997_500),
            ],
            Radio::TytMd380 => vec![(136_000_000, 174_000_000), (400_000_000, 480_000_000)],
            Radio::AnytoneAtD878uv => vec![(136_000_000, 174_000_000), (400_000_000, 480_000_000)],
            Radio::YaesuFt50r => vec![
                (76_000_000, 200_000_000),
                (300_000_000, 400_000_000),
                (400_000_000, 540_000_000),
                (590_000_000, 999_000_000),
            ],
        };
        assert(v@ =~= radio_rx_bands(self));
        v
    }

    /// The transmit bands, each `(low, high)` in Hz.
    pub fn tx_bands(self) -> (v: Vec<(u64, u64)>)
        ensures
            v@ == radio_tx_bands(self),
    {
        let v: Vec<(u64, u64)> = match self {
            Radio::WouxunKgQ336 => vec![
                (66_000_000, 88_000_000),
                (136_000_000, 174_000_000),
                (400_000_000, 480_000_000),
            ],
            Radio::QuanshengUvK5 => vec![(136_000_000, 174_000_000), (400_000_000, 470_000_000)],
            Radio::TytMd380 => vec![(136_000_000, 174_000_000), (400_000_000, 480_000_000)],
            Radio::AnytoneAtD878uv => vec![(136_000_000, 174_000_000), (400_000_000, 480_000_000)],
            Radio::YaesuFt50r => vec![(144_000_000, 148_000_000), (430_000_000, 450_000_000)],
        };
        assert(v@ =~= radio_tx_bands(self));
        v
    }

    /// Whether the radio receives `hz`.
    pub fn covers_rx(self, hz: u64) -> (b: bool)
        ensures
            b == radio_covers_rx(self, hz),
    {
        let bands = self.rx_bands();
        let mut i: usize = 0;
        while i < bands.len()
            invariant
                bands@ == radio_rx_bands(self),
                i <= bands@.len(),
                forall|j: int| 0 <= j < i ==> !(#[trigger] bands@[j].0 <= hz <= bands@[j].1),
            decreases bands@.len() - i,
        {
            let (lo, hi) = bands[i];
            if lo <= hz && hz <= hi {
                return true;
            }
            i = i + 1;
        }
        false
    }

    /// Every supported radio.
    pub fn all() -> (v: Vec<Radio>)
        ensures
            v@ == seq![
                Radio::WouxunKgQ336,
                Radio::QuanshengUvK5,
                Radio::TytMd380,
                Radio::AnytoneAtD878uv,
                Radio::YaesuFt50r,
            ],
    {
        let v = vec![
            Radio::WouxunKgQ336,
            Radio::QuanshengUvK5,
            Radio::TytMd380,
            Radio::AnytoneAtD878uv,
            Radio::YaesuFt50r,
        ];
        assert(v@ =~= seq![
            Radio::WouxunKgQ336,
            Radio::QuanshengUvK5,
            Radio::TytMd380,
            Radio::AnytoneAtD878uv,
            Radio::YaesuFt50r,
        ]);
        v
    }

    /// The command-line identifier (`wouxun-kg-q336`, ...).
    pub fn id(self) -> (s: &'static str)
        ensures
            s@ == radio_id(self),
    {
        match self {
            Radio::WouxunKgQ336 => "wouxun-kg-q336",
            Radio::QuanshengUvK5 => "quansheng-uv-k5",
            Radio::TytMd380 => "tyt-md-380",
            Radio::AnytoneAtD878uv => "anytone-at-d878uv",
            Radio::YaesuFt50r => "yaesu-ft-50r",
        }
    }

    /// The human-readable name (`Wouxun KG-Q336`, ...).
    pub fn display_name(self) -> (s: &'static str)
        ensures
            s@ == radio_display_name(self),
    {
        match self {
            Radio::WouxunKgQ336 => "Wouxun KG-Q336",
            Radio::QuanshengUvK5 => "Quansheng UV-K5",
            Radio::TytMd380 => "TYT MD-380",
            Radio::AnytoneAtD878uv => "AnyTone AT-D878UV",
            Radio::YaesuFt50r => "Yaesu FT-50R",
        }
    }

    /// The modes this radio supports (`"fm"`, and `"dmr"` where it has it).
    pub fn supported_modes(self) -> (m: Vec<&'static str>)
        ensures
            m@.len() == radio_modes(self).len(),
            forall|i: int| 0 <= i < m@.len() ==> #[trigger] m@[i]@ == radio_modes(self)[i],
    {
        let mut m: Vec<&'static str> = Vec::new();
        m.push("fm");
        match self {
            Radio::TytMd380 | Radio::AnytoneAtD878uv => {
                m.push("dmr");
            },
            _ => {},
        }
        m
    }
}

/// Whether a radio supports the mode of a channel.
pub open spec fn mode_supported(r: Radio, m: Mode) -> bool {
    radio_modes(r).contains(mode_kind(m))
}

/// Every radio holds FM channels; DMR channels only the TYT MD-380 and
/// the AnyTone AT-D878UV hold; no radio holds AM, D-STAR, C4FM, P25 or
/// M17 channels.
pub proof fn lemma_mode_support(r: Radio, m: Mode)
    ensures
        mode_supported(r, m) <==> (m is Fm || (m is Dmr && (r == Radio::TytMd380 || r
            == Radio::AnytoneAtD878uv))),
{
    reveal_strlit("fm");
    reveal_strlit("dmr");
    reveal_strlit("am");
    reveal_strlit("dstar");
    reveal_strlit("c4fm");
    reveal_strlit("p25");
    reveal_strlit("m17");
    let k = mode_kind(m);
    let ms = radio_modes(r);
    assert(k == "fm"@ <==> m is Fm) by {
        if !(m is Fm) {
            assert(k.len() != 2 || k[0] != 'f');
        }
    }
    assert(k == "dmr"@ <==> m is Dmr) by {
        if !(m is Dmr) {
            assert(k.len() != 3 || k[0] != 'd');
        }
    }
    if radio_has_dmr(r) {
        assert(ms == seq!["fm"@, "dmr"@]);
        if ms.contains(k) {
            let i = choose|i: int| 0 <= i < ms.len() && ms[i] == k;
            assert(i == 0 || i == 1);
        }
        if m is Fm {
            assert(ms[0] == k);
        }
        if m is Dmr {
            assert(ms[1] == k);
        }
    } else {
        assert(ms == seq!["fm"@]);
        if ms.contains(k) {
            let i = choose|i: int| 0 <= i < ms.len() && ms[i] == k;
            assert(i == 0);
        }
        if m is Fm {
            assert(ms[0] == k);
        }
    }
}

/// The channels a radio can hold, in order, and a warning for each one
/// dropped for its mode.
pub open spec fn spec_filter_supported(chs: Seq<Channel>, r: Radio) -> (Seq<Channel>, Seq<
    Seq<char>,
>)
    decreases chs.len(),
{
    if chs.len() == 0 {
        (seq![], seq![])
    } else {
        let (kept, warns) = spec_filter_supported(chs.drop_last(), r);
        let ch = chs.last();
        if mode_supported(r, ch.mode) {
            (kept.push(ch), warns)
        } else {
            (
                kept,
                warns.push(
                    "skipping "@ + ch.name@ + ": mode "@ + mode_kind(ch.mode) + " not supported by "@
                        + radio_display_name(r),
                ),
            )
        }
    }
}

/// Filtering splits the channels: every kept channel has a supported
/// mode, and each channel is either kept or warned about, never both.
pub proof fn lemma_filter_supported_partition(chs: Seq<Channel>, r: Radio)
    ensures
        ({
            let (kept, warns) = spec_filter_supported(chs, r);
            &&& kept.len() + warns.len() == chs.len()
            &&& forall|i: int| 0 <= i < kept.len() ==> mode_supported(r, #[trigger] kept[i].mode)
        }),
    decreases chs.len(),
{
    if chs.len() > 0 {
        lemma_filter_supported_partition(chs.drop_last(), r);
        let (kept, warns) = spec_filter_supported(chs.drop_last(), r);
        if mode_supported(r, chs.last().mode) {
            assert forall|i: int| 0 <= i < kept.len() + 1 implies mode_supported(
                r,
                #[trigger] kept.push(chs.last())[i].mode,
            ) by {
                if i < kept.len() {
                    assert(kept.push(chs.last())[i] == kept[i]);
                }
            }
        }
    }
}

/// Why a channel is left out of a radio's codeplug.
#[derive(Debug, Clone, Copy)]
pub enum SkipReason {
    /// The radio has no such mode; the mode's short name.
    UnsupportedMode(&'static str),
    /// The radio does not receive the channel's frequency (Hz).
    OutsideCoverage(u64),
}

/// A channel left out, by name, and why.
#[derive(Debug, Clone)]
pub struct Skipped {
    pub name: String,
    pub reason: SkipReason,
}

/// What happens to a channel: kept, or left out with a reason given as
/// `(mode unsupported, mode name, frequency)`.
pub open spec fn skip_of(ch: Channel, r: Radio) -> Option<(bool, Seq<char>, u64)> {
    if !mode_supported(r, ch.mode) {
        Some((true, mode_kind(ch.mode), ch.rx_hz))
    } else if !radio_covers_rx(r, ch.rx_hz) {
        Some((false, mode_kind(ch.mode), ch.rx_hz))
    } else {
        None
    }
}

/// The channels a radio can hold, in order, and `(name, reason)` for
/// each one left out, in order.
pub open spec fn spec_select_channels(chs: Seq<Channel>, r: Radio) -> (Seq<Channel>, Seq<
    (Seq<char>, (bool, Seq<char>, u64)),
>)
    decreases chs.len(),
{
    if chs.len() == 0 {
        (seq![], seq![])
    } else {
        let (kept, skips) = spec_select_channels(chs.drop_last(), r);
        let ch = chs.last();
        match skip_of(ch, r) {
            None => (kept.push(ch), skips),
            Some(why) => (kept, skips.push((ch.name@, why))),
        }
    }
}

/// Selecting splits the channels: every kept channel has a mode the radio
/// supports on a frequency it receives, and each channel is either kept
/// or reported, never both.
pub proof fn lemma_select_channels_partition(chs: Seq<Channel>, r: Radio)
    ensures
        ({
            let (kept, skips) = spec_select_channels(chs, r);
            &&& kept.len() + skips.len() == chs.len()
            &&& forall|i: int|
                0 <= i < kept.len() ==> mode_supported(r, (#[trigger] kept[i]).mode)
                    && radio_covers_rx(r, kept[i].rx_hz)
        }),
    decreases chs.len(),
{
    if chs.len() > 0 {
        lemma_select_channels_partition(chs.drop_last(), r);
        let (kept, skips) = spec_select_channels(chs.drop_last(), r);
        let ch = chs.last();
        if skip_of(ch, r) is None {
            assert forall|i: int| 0 <= i < kept.len() + 1 implies mode_supported(
                r,
                (#[trigger] kept.push(ch)[i]).mode,
            ) && radio_covers_rx(r, kept.push(ch)[i].rx_hz) by {
                if i < kept.len() {
                    assert(kept.push(ch)[i] == kept[i]);
                }
            }
        }
    }
}

/// `s` records the left-out channel `t`.
pub open spec fn skipped_matches(s: Skipped, t: (Seq<char>, (bool, Seq<char>, u64))) -> bool {
    &&& s.name@ == t.0
    &&& match s.reason {
        SkipReason::UnsupportedMode(k) => t.1.0 && k@ == t.1.1,
        SkipReason::OutsideCoverage(hz) => !t.1.0 && hz == t.1.2,
    }
}

/// Keep the channels `radio` can hold, in order: a channel whose mode the
/// radio lacks, or whose frequency it does not receive, is left out and
/// reported.
pub fn select_channels(channels: Vec<Channel>, radio: Radio) -> (r: (Vec<Channel>, Vec<Skipped>))
    ensures
        r.0@ == spec_select_channels(channels@, radio).0,
        r.1@.len() == spec_select_channels(channels@, radio).1.len(),
        forall|i: int|
            0 <= i < r.1@.len() ==> skipped_matches(
                #[trigger] r.1@[i],
                spec_select_channels(channels@, radio).1[i],
            ),
{
    let ghost all = channels@;
    let n = channels.len();
    let mut rest = channels;
    let mut kept: Vec<Channel> = Vec::new();
    let mut skipped: Vec<Skipped> = Vec::new();
    let mut i: usize = 0;
    while rest.len() > 0
        invariant
            i + rest@.len() == all.len(),
            all.len() == n,
            rest@ == all.skip(i as int),
            kept@ == spec_select_channels(all.take(i as int), radio).0,
            skipped@.len() == spec_select_channels(all.take(i as int), radio).1.len(),
            forall|j: int|
                0 <= j < skipped@.len() ==> skipped_matches(
                    #[trigger] skipped@[j],
                    spec_select_channels(all.take(i as int), radio).1[j],
                ),
        decreases rest@.len(),
    {
        let ch = rest.remove(0);
        assert(all.take(i + 1).drop_last() =~= all.take(i as int));
        assert(all.take(i + 1).last() == ch);
        assert(rest@ =~= all.skip(i + 1));
        let ghost before = spec_select_channels(all.take(i as int), radio).1;
        if !supports_mode(radio, &ch.mode) {
            let s = Skipped { name: ch.name, reason: SkipReason::UnsupportedMode(ch.mode.kind()) };
            skipped.push(s);
        } else if !radio.covers_rx(ch.rx_hz) {
            let s = Skipped { name: ch.name, reason: SkipReason::OutsideCoverage(ch.rx_hz) };
            skipped.push(s);
        } else {
            kept.push(ch);
        }
        proof {
            let after = spec_select_channels(all.take(i + 1), radio).1;
            assert forall|j: int| 0 <= j < skipped@.len() implies skipped_matches(
                #[trigger] skipped@[j],
                after[j],
            ) by {
                if j < before.len() {
                    assert(after[j] == before[j]);
                }
            }
        }
        i = i + 1;
    }
    assert(all.take(i as int) =~= all);
    (kept, skipped)
}

/// Whether `radio` supports `m`: FM everywhere, DMR on the DMR radios.
pub fn supports_mode(radio: Radio, m: &Mode) -> (b: bool)
    ensures
        b == mode_supported(radio, *m),
{
    proof {
        reveal_strlit("fm");
        reveal_strlit("dmr");
        reveal_strlit("am");
        reveal_strlit("dstar");
        reveal_strlit("c4fm");
        reveal_strlit("p25");
        reveal_strlit("m17");
        let k = mode_kind(*m);
        let ms = radio_modes(radio);
        assert("am"@[0] != "fm"@[0]);
        assert("m17"@[0] != "dmr"@[0]);
        assert("p25"@[0] != "dmr"@[0]);
        assert("am"@ != "fm"@);
        assert("m17"@ != "dmr"@);
        assert("p25"@ != "dmr"@);
        if radio_has_dmr(radio) {
            assert(ms.contains(k) <==> (k == "fm"@ || k == "dmr"@)) by {
                if ms.contains(k) {
                    let i = choose|i: int| 0 <= i < ms.len() && ms[i] == k;
                    assert(i == 0 || i == 1);
                }
                if k == "fm"@ {
                    assert(ms[0] == k);
                }
                if k == "dmr"@ {
                    assert(ms[1] == k);
                }
            }
        } else {
            assert(ms.contains(k) <==> k == "fm"@) by {
                if ms.contains(k) {
                    let i = choose|i: int| 0 <= i < ms.len() && ms[i] == k;
                    assert(i == 0);
                }
                if k == "fm"@ {
                    assert(ms[0] == k);
                }
            }
        }
        assert(mode_supported(radio, *m) == (ms.contains(k)));
        match *m {
            Mode::Fm { .. } => assert(k == "fm"@),
            Mode::Dmr { .. } => assert(k == "dmr"@ && k != "fm"@),
            Mode::Am { .. } => assert(k != "fm"@ && k != "dmr"@),
            Mode::Dstar { .. } => assert(k.len() == 5),
            Mode::C4fm { .. } => assert(k.len() == 4),
            Mode::P25 { .. } => assert(k != "fm"@ && k != "dmr"@),
            Mode::M17 { .. } => assert(k != "fm"@ && k != "dmr"@),
        }
        assert(mode_supported(radio, *m) == (m is Fm || (m is Dmr && radio_has_dmr(radio))));
    }
    match m {
        Mode::Fm { .. } => true,
        Mode::Dmr { .. } => match radio {
            Radio::TytMd380 | Radio::AnytoneAtD878uv => true,
            _ => false,
        },
        _ => false,
    }
}

/// Keep the channels `radio` can hold, in order; each channel of an
/// unsupported mode is dropped with a `skipping` warning.
pub fn filter_supported(channels: Vec<Channel>, radio: Radio) -> (r: (Vec<Channel>, Vec<String>))
    ensures
        r.0@ == spec_filter_supported(channels@, radio).0,
        r.1.deep_view() == spec_filter_supported(channels@, radio).1,
{
    let ghost all = channels@;
    let n = channels.len();
    let mut rest = channels;
    let mut kept: Vec<Channel> = Vec::new();
    let mut warnings: Vec<String> = Vec::new();
    let mut i: usize = 0;
    while rest.len() > 0
        invariant
            i + rest@.len() == all.len(),
            all.len() == n,
            rest@ == all.skip(i as int),
            kept@ == spec_filter_supported(all.take(i as int), radio).0,
            warnings.deep_view() == spec_filter_supported(all.take(i as int), radio).1,
        decreases rest@.len(),
    {
        let ch = rest.remove(0);
        assert(all.take(i + 1).drop_last() =~= all.take(i as int));
        assert(all.take(i + 1).last() == ch);
        assert(rest@ =~= all.skip(i + 1));
        if supports_mode(radio, &ch.mode) {
            kept.push(ch);
        } else {
            let mut w = String::new();
            push_str(&mut w, "skipping ");
            push_str(&mut w, ch.name.as_str());
            push_str(&mut w, ": mode ");
            push_str(&mut w, ch.mode.kind());
            push_str(&mut w, " not supported by ");
            push_str(&mut w, radio.display_name());
            let ghost wb = warnings.deep_view();
            warnings.push(w);
            assert(warnings.deep_view() =~= wb.push(w@));
        }
        i = i + 1;
    }
    assert(all.take(i as int) =~= all);
    (kept, warnings)
}

} // verus!
