use narm::uvk5::decode::{ctcss_tone, decode_tones, dtcs_code, CHANNEL_NAME_BASE};
use narm::uvk5::{decode_channels, UvK5Error, EEPROM_SIZE};
use narm::{Bandwidth, Channel, Mode, Power};

fn fake_eeprom() -> Vec<u8> {
    let mut e = vec![0u8; EEPROM_SIZE];
    let freq_10hz: u32 = 14_570_000;
    let offset_10hz: u32 = 60_000;
    e[0..4].copy_from_slice(&freq_10hz.to_le_bytes());
    e[4..8].copy_from_slice(&offset_10hz.to_le_bytes());
    e[8] = 8;
    e[9] = 8;
    e[10] = (1u8 << 4) | 1;
    e[11] = 0b10;
    e[12] = 0b0000_0010;
    let name = b"GB3WE";
    e[CHANNEL_NAME_BASE..CHANNEL_NAME_BASE + name.len()].copy_from_slice(name);
    e
}

#[test]
fn decode_one_channel_from_fake_eeprom() {
    let e = fake_eeprom();
    let report = decode_channels(&e).unwrap();
    assert_eq!(report.channels.len(), 1);
    let ch = &report.channels[0];
    assert_eq!(ch.name, "GB3WE");
    assert_eq!(ch.rx_hz, 145_700_000);
    assert_eq!(ch.shift_hz, -600_000);
    assert_eq!(ch.power, Power::Low);
    match &ch.mode {
        Mode::Fm {
            bandwidth,
            tone_tx_dhz,
            tone_rx_dhz,
            dcs_code,
        } => {
            assert_eq!(*bandwidth, Bandwidth::Narrow);
            assert_eq!(*tone_tx_dhz, Some(885));
            assert_eq!(*tone_rx_dhz, Some(885));
            assert!(dcs_code.is_none());
        }
        other => panic!("expected FM mode, got {other:?}"),
    }
}

#[test]
fn empty_channel_slots_are_skipped() {
    let e = vec![0u8; EEPROM_SIZE];
    let report = decode_channels(&e).unwrap();
    assert!(report.channels.is_empty());
}

#[test]
fn short_eeprom_rejected() {
    match decode_channels(&[0u8; 100]) {
        Err(UvK5Error::ShortEeprom { got: 100 }) => (),
        other => panic!("expected ShortEeprom, got {:?}", other.map(|r| r.channels.len())),
    }
}

#[test]
fn all_ff_frequency_slot_is_empty() {
    let mut e = vec![0u8; EEPROM_SIZE];
    e[0..4].copy_from_slice(&[0xFF, 0xFF, 0xFF, 0xFF]);
    let report = decode_channels(&e).unwrap();
    assert!(report.channels.is_empty());
}

#[test]
fn am_channel_decoded_as_am_mode() {
    let mut e = vec![0u8; EEPROM_SIZE];
    let freq_10hz: u32 = 12_125_000;
    e[0..4].copy_from_slice(&freq_10hz.to_le_bytes());
    e[11] = 1 << 4;
    let report = decode_channels(&e).unwrap();
    assert_eq!(report.channels.len(), 1);
    assert!(report.warnings.is_empty());
    let ch = &report.channels[0];
    assert_eq!(ch.rx_hz, 121_250_000);
    assert!(matches!(
        ch.mode,
        Mode::Am {
            bandwidth: Bandwidth::Wide,
            tone_tx_dhz: None,
            tone_rx_dhz: None,
            dcs_code: None,
        }
    ));
}

#[test]
fn am_channel_preserves_bandwidth_and_tones() {
    let mut e = vec![0u8; EEPROM_SIZE];
    let freq_10hz: u32 = 12_125_000;
    e[0..4].copy_from_slice(&freq_10hz.to_le_bytes());
    e[9] = 8;
    e[10] = 1 << 4;
    e[11] = 1 << 4;
    e[12] = 0b0000_0010;
    let r = decode_channels(&e).unwrap();
    match &r.channels[0].mode {
        Mode::Am {
            bandwidth,
            tone_tx_dhz,
            ..
        } => {
            assert_eq!(*bandwidth, Bandwidth::Narrow);
            assert_eq!(*tone_tx_dhz, Some(885));
        }
        other => panic!("expected AM, got {other:?}"),
    }
}

const REAL_SLOT_0_BYTES: [u8; 16] = [
    0x88, 0x3E, 0xDE, 0x00, 0x60, 0xEA, 0x00, 0x00, 0x00, 0x10, 0x10, 0x02, 0x08, 0x00, 0x04, 0x00,
];
const REAL_SLOT_0_NAME: [u8; 16] = [
    0x53, 0x4B, 0x36, 0x52, 0x46, 0x51, 0x20, 0x20, 0x20, 0x20, 0x00, 0x00, 0x00, 0x00, 0x00, 0x00,
];
const REAL_SLOT_1_BYTES: [u8; 16] = [
    0x28, 0x39, 0x97, 0x02, 0x40, 0x0D, 0x03, 0x00, 0x00, 0x10, 0x10, 0x02, 0x08, 0x00, 0x04, 0x00,
];
const REAL_SLOT_2_BYTES: [u8; 16] = [
    0x31, 0x8D, 0xA8, 0x02, 0x00, 0x00, 0x00, 0x00, 0x00, 0x00, 0x00, 0x00, 0x00, 0x00, 0x04, 0x00,
];
const REAL_SLOT_2_NAME: [u8; 16] = [
    0x4B, 0x31, 0x20, 0x20, 0x20, 0x20, 0x20, 0x20, 0x20, 0x20, 0x00, 0x00, 0x00, 0x00, 0x00, 0x00,
];

fn fake_eeprom_with(slot0: &[u8], slot1: Option<&[u8]>, name0: &[u8]) -> Vec<u8> {
    let mut e = vec![0u8; EEPROM_SIZE];
    e[0..16].copy_from_slice(slot0);
    if let Some(s1) = slot1 {
        e[16..32].copy_from_slice(s1);
    }
    e[CHANNEL_NAME_BASE..CHANNEL_NAME_BASE + 16].copy_from_slice(name0);
    e
}

#[test]
fn decodes_real_uvk5_slot_0_sk6rfq_2m() {
    let e = fake_eeprom_with(&REAL_SLOT_0_BYTES, None, &REAL_SLOT_0_NAME);
    let r = decode_channels(&e).unwrap();
    assert_eq!(r.channels.len(), 1);
    let ch = &r.channels[0];
    assert_eq!(ch.name, "SK6RFQ");
    assert_eq!(ch.rx_hz, 145_650_000);
    assert_eq!(ch.shift_hz, -600_000);
    assert_eq!(ch.power, Power::High);
    match &ch.mode {
        Mode::Fm {
            bandwidth,
            tone_tx_dhz,
            tone_rx_dhz,
            dcs_code,
        } => {
            assert_eq!(*bandwidth, Bandwidth::Wide);
            assert_eq!(*tone_tx_dhz, Some(1148));
            assert_eq!(*tone_rx_dhz, None);
            assert!(dcs_code.is_none());
        }
        other => panic!("expected FM, got {other:?}"),
    }
}

#[test]
fn decodes_real_uvk5_slot_1_sk6rfq_70cm() {
    let mut e = vec![0u8; EEPROM_SIZE];
    e[16..32].copy_from_slice(&REAL_SLOT_1_BYTES);
    let r = decode_channels(&e).unwrap();
    assert_eq!(r.channels.len(), 1);
    let ch = &r.channels[0];
    assert_eq!(ch.name, "CH002");
    assert_eq!(ch.rx_hz, 434_650_000);
    assert_eq!(ch.shift_hz, -2_000_000);
    assert_eq!(ch.power, Power::High);
}

#[test]
fn decodes_real_uvk5_slot_2_pmr446_k1() {
    let mut e = vec![0u8; EEPROM_SIZE];
    e[32..48].copy_from_slice(&REAL_SLOT_2_BYTES);
    e[CHANNEL_NAME_BASE + 32..CHANNEL_NAME_BASE + 48].copy_from_slice(&REAL_SLOT_2_NAME);
    let r = decode_channels(&e).unwrap();
    assert_eq!(r.channels.len(), 1);
    let ch = &r.channels[0];
    assert_eq!(ch.name, "K1");
    assert_eq!(ch.rx_hz, 446_006_250);
    assert_eq!(ch.shift_hz, 0);
    assert_eq!(ch.power, Power::Low);
    match &ch.mode {
        Mode::Fm {
            bandwidth,
            tone_tx_dhz,
            tone_rx_dhz,
            dcs_code,
        } => {
            assert_eq!(*bandwidth, Bandwidth::Wide);
            assert!(tone_tx_dhz.is_none());
            assert!(tone_rx_dhz.is_none());
            assert!(dcs_code.is_none());
        }
        _ => panic!("expected FM"),
    }
}

fn one_channel_with_flags(flags1: u8, flags2: u8, offset_10hz: u32) -> Channel {
    let mut e = vec![0u8; EEPROM_SIZE];
    let freq_10hz: u32 = 14_565_000;
    e[0..4].copy_from_slice(&freq_10hz.to_le_bytes());
    e[4..8].copy_from_slice(&offset_10hz.to_le_bytes());
    e[11] = flags1;
    e[12] = flags2;
    decode_channels(&e)
        .unwrap()
        .channels
        .into_iter()
        .next()
        .unwrap()
}

#[test]
fn shift_direction_matrix() {
    let off_10hz: u32 = 60_000;
    assert_eq!(one_channel_with_flags(0b00, 0, off_10hz).shift_hz, 0);
    assert_eq!(one_channel_with_flags(0b01, 0, off_10hz).shift_hz, 600_000);
    assert_eq!(one_channel_with_flags(0b10, 0, off_10hz).shift_hz, -600_000);
}

#[test]
fn power_levels_matrix() {
    assert_eq!(one_channel_with_flags(0, 0b0000_0000, 0).power, Power::Low);
    assert_eq!(one_channel_with_flags(0, 0b0000_0100, 0).power, Power::Mid);
    assert_eq!(one_channel_with_flags(0, 0b0000_1000, 0).power, Power::High);
}

#[test]
fn bandwidth_wide_and_narrow() {
    let wide = one_channel_with_flags(0, 0b0000_0000, 0);
    let narrow = one_channel_with_flags(0, 0b0000_0010, 0);
    assert!(matches!(
        wide.mode,
        Mode::Fm {
            bandwidth: Bandwidth::Wide,
            ..
        }
    ));
    assert!(matches!(
        narrow.mode,
        Mode::Fm {
            bandwidth: Bandwidth::Narrow,
            ..
        }
    ));
}

fn decode_with_codes(tx_flag: u8, txcode: u8, rx_flag: u8, rxcode: u8) -> Channel {
    let mut e = vec![0u8; EEPROM_SIZE];
    let freq_10hz: u32 = 14_565_000;
    e[0..4].copy_from_slice(&freq_10hz.to_le_bytes());
    e[8] = rxcode;
    e[9] = txcode;
    e[10] = (tx_flag << 4) | (rx_flag & 0x0F);
    decode_channels(&e)
        .unwrap()
        .channels
        .into_iter()
        .next()
        .unwrap()
}

#[test]
fn ctcss_index_boundaries() {
    let lo = decode_with_codes(1, 0, 0, 0);
    let hi = decode_with_codes(1, 49, 0, 0);
    let oob = decode_with_codes(1, 50, 0, 0);
    if let Mode::Fm { tone_tx_dhz, .. } = lo.mode {
        assert_eq!(tone_tx_dhz, Some(670));
    } else {
        panic!()
    }
    if let Mode::Fm { tone_tx_dhz, .. } = hi.mode {
        assert_eq!(tone_tx_dhz, Some(2541));
    } else {
        panic!()
    }
    if let Mode::Fm { tone_tx_dhz, .. } = oob.mode {
        assert!(
            tone_tx_dhz.is_none(),
            "out-of-range CTCSS index returns None"
        );
    } else {
        panic!()
    }
}

#[test]
fn dcs_index_boundaries() {
    let lo = decode_with_codes(2, 0, 0, 0);
    let hi = decode_with_codes(2, 103, 0, 0);
    let oob = decode_with_codes(2, 104, 0, 0);
    if let Mode::Fm { dcs_code, .. } = lo.mode {
        assert_eq!(dcs_code, Some(23));
    } else {
        panic!()
    }
    if let Mode::Fm { dcs_code, .. } = hi.mode {
        assert_eq!(dcs_code, Some(754));
    } else {
        panic!()
    }
    if let Mode::Fm { dcs_code, .. } = oob.mode {
        assert!(dcs_code.is_none());
    } else {
        panic!()
    }
}

#[test]
fn dcs_flag_3_reversed_polarity_treated_as_dcs() {
    let ch = decode_with_codes(3, 5, 0, 0);
    if let Mode::Fm { dcs_code, .. } = ch.mode {
        assert_eq!(dcs_code, Some(36));
    } else {
        panic!()
    }
}

#[test]
fn tx_only_ctcss_doesnt_set_rx_tone() {
    let ch = decode_with_codes(1, 8, 0, 0);
    if let Mode::Fm {
        tone_tx_dhz,
        tone_rx_dhz,
        ..
    } = ch.mode
    {
        assert_eq!(tone_tx_dhz, Some(885));
        assert!(tone_rx_dhz.is_none());
    }
}

#[test]
fn rx_only_ctcss_doesnt_set_tx_tone() {
    let ch = decode_with_codes(0, 0, 1, 8);
    if let Mode::Fm {
        tone_tx_dhz,
        tone_rx_dhz,
        ..
    } = ch.mode
    {
        assert!(tone_tx_dhz.is_none());
        assert_eq!(tone_rx_dhz, Some(885));
    }
}

#[test]
fn tx_and_rx_different_ctcss_both_recorded() {
    let ch = decode_with_codes(1, 0, 1, 49);
    if let Mode::Fm {
        tone_tx_dhz,
        tone_rx_dhz,
        ..
    } = ch.mode
    {
        assert_eq!(tone_tx_dhz, Some(670));
        assert_eq!(tone_rx_dhz, Some(2541));
    }
}

fn decode_with_name(name_bytes: &[u8]) -> Channel {
    let mut e = vec![0u8; EEPROM_SIZE];
    let freq_10hz: u32 = 14_565_000;
    e[0..4].copy_from_slice(&freq_10hz.to_le_bytes());
    e[CHANNEL_NAME_BASE..CHANNEL_NAME_BASE + name_bytes.len()].copy_from_slice(name_bytes);
    decode_channels(&e)
        .unwrap()
        .channels
        .into_iter()
        .next()
        .unwrap()
}

#[test]
fn channel_name_nul_terminated() {
    let ch = decode_with_name(b"GB3WE\x00\x00\x00\x00\x00\x00\x00\x00\x00\x00\x00");
    assert_eq!(ch.name, "GB3WE");
}

#[test]
fn channel_name_ff_terminated() {
    let ch = decode_with_name(b"GB3WE\xff\xff\xff\xff\xff\xff\xff\xff\xff\xff\xff");
    assert_eq!(ch.name, "GB3WE");
}

#[test]
fn channel_name_full_16_chars_no_terminator() {
    let ch = decode_with_name(b"ABCDEFGHIJKLMNOP");
    assert_eq!(ch.name, "ABCDEFGHIJKLMNOP");
}

#[test]
fn channel_name_trailing_spaces_trimmed() {
    let ch = decode_with_name(b"K1      \x00\x00\x00\x00\x00\x00\x00\x00");
    assert_eq!(ch.name, "K1");
}

#[test]
fn channel_name_blank_falls_back_to_synthetic() {
    let ch = decode_with_name(b"\x00\x00\x00\x00\x00\x00\x00\x00\x00\x00\x00\x00\x00\x00\x00\x00");
    assert_eq!(ch.name, "CH001");
}

#[test]
fn dcs_code_decoded() {
    let mut e = vec![0u8; EEPROM_SIZE];
    let freq_10hz: u32 = 14_570_000;
    e[0..4].copy_from_slice(&freq_10hz.to_le_bytes());
    e[8] = 5;
    e[9] = 5;
    e[10] = (2u8 << 4) | 2;
    let report = decode_channels(&e).unwrap();
    assert_eq!(report.channels.len(), 1);
    match &report.channels[0].mode {
        Mode::Fm {
            tone_tx_dhz,
            tone_rx_dhz,
            dcs_code,
            ..
        } => {
            assert!(tone_tx_dhz.is_none());
            assert!(tone_rx_dhz.is_none());
            assert_eq!(*dcs_code, Some(36));
        }
        _ => panic!("expected FM mode"),
    }
}

#[test]
fn tone_tables_and_dcs_precedence() {
    assert_eq!(ctcss_tone(8), Some(885));
    assert_eq!(ctcss_tone(50), None);
    assert_eq!(dtcs_code(0), Some(23));
    assert_eq!(dtcs_code(104), None);
    // DCS on transmit wins over DCS on receive.
    assert_eq!(decode_tones(2, 0, 2, 5), (None, None, Some(23)));
    // DCS on receive only is still reported.
    assert_eq!(decode_tones(0, 0, 2, 5), (None, None, Some(36)));
}
