use narm::kgq336::file::{header_bytes, starts_with_header};
use narm::kgq336::{
    logical_to_kg_shape, mojibake, to_kg_shape, unmojibake, unscramble, KgQ336Error,
    KG_SHAPE_LEN, PHYSICAL_LEN,
};

const FOOTER: &[u8] = b"\r\n";

#[test]
fn round_trip_empty_body() {
    let kg = mojibake(&[]);
    assert_eq!(kg, b"xiepinruanjian\r\n\r\n");
    assert_eq!(unmojibake(&kg).unwrap(), Vec::<u8>::new());
}

#[test]
fn round_trip_pure_ascii() {
    let raw = b"hello world".to_vec();
    let kg = mojibake(&raw);
    assert_eq!(unmojibake(&kg).unwrap(), raw);
}

#[test]
fn round_trip_all_byte_values() {
    let raw: Vec<u8> = (0..=255u8).collect();
    let kg = mojibake(&raw);
    assert_eq!(unmojibake(&kg).unwrap(), raw);
}

#[test]
fn boundary_byte_values_decode_correctly() {
    for &raw_byte in &[0x00u8, 0x7F, 0x80, 0xA0, 0xBF, 0xC0, 0xFC, 0xFF] {
        let kg = mojibake(&[raw_byte]);
        let got = unmojibake(&kg).unwrap();
        assert_eq!(got, vec![raw_byte], "byte 0x{:02x}", raw_byte);
    }
}

#[test]
fn handcrafted_mojibake_pairs_decode_to_expected_bytes() {
    let mut kg = Vec::from(b"xiepinruanjian\r\n" as &[u8]);
    kg.extend_from_slice(&[
        0xC2, 0x80, 0xC2, 0xA0, 0xC2, 0xBF, 0xC3, 0x80, 0xC3, 0xBC, 0xC3, 0xBF,
    ]);
    kg.extend_from_slice(b"\r\n");
    let raw = unmojibake(&kg).unwrap();
    assert_eq!(raw, [0x80, 0xA0, 0xBF, 0xC0, 0xFC, 0xFF]);
}

#[test]
fn missing_header_rejected() {
    let kg = b"not the right header\r\nbody\r\n";
    assert!(matches!(unmojibake(kg), Err(KgQ336Error::MissingHeader)));
}

#[test]
fn to_kg_shape_passes_through_50k() {
    let img = vec![0xAB; KG_SHAPE_LEN];
    let out = to_kg_shape(img.clone()).unwrap();
    assert_eq!(out, img);
}

#[test]
fn to_kg_shape_unmojibakes_kg_text() {
    let raw: Vec<u8> = (0..200u8).collect();
    let kg = mojibake(&raw);
    let out = to_kg_shape(kg).unwrap();
    assert_eq!(out, raw);
}

#[test]
fn to_kg_shape_reshapes_32k_physical() {
    let physical = vec![0u8; PHYSICAL_LEN];
    let out = to_kg_shape(physical).unwrap();
    assert_eq!(out.len(), KG_SHAPE_LEN);
}

#[test]
fn to_kg_shape_rejects_unknown_size() {
    let bytes = vec![0u8; 1234];
    assert!(matches!(
        to_kg_shape(bytes),
        Err(KgQ336Error::UnknownShape { got: 1234 })
    ));
}

#[test]
fn missing_footer_rejected() {
    let mut kg = header_bytes();
    kg.extend_from_slice(b"body without footer");
    assert!(matches!(unmojibake(&kg), Err(KgQ336Error::MissingFooter)));
}

#[test]
fn truncated_two_byte_sequence_rejected() {
    let mut kg = header_bytes();
    kg.push(0xC2);
    kg.extend_from_slice(FOOTER);
    match unmojibake(&kg) {
        Err(KgQ336Error::BadMojibake { offset, byte }) => {
            assert_eq!(byte, 0xC2);
            assert_eq!(offset, header_bytes().len());
        }
        other => panic!("expected BadMojibake, got {other:?}"),
    }
}

#[test]
fn invalid_lead_byte_rejected() {
    let mut kg = header_bytes();
    kg.push(0x80);
    kg.extend_from_slice(FOOTER);
    match unmojibake(&kg) {
        Err(KgQ336Error::BadMojibake { offset, byte }) => {
            assert_eq!(byte, 0x80);
            assert_eq!(offset, header_bytes().len());
        }
        other => panic!("expected BadMojibake, got {other:?}"),
    }
}

#[test]
fn invalid_continuation_byte_rejected() {
    let mut kg = header_bytes();
    kg.extend_from_slice(&[0xC2, 0x20]);
    kg.extend_from_slice(FOOTER);
    match unmojibake(&kg) {
        Err(KgQ336Error::BadMojibake { offset, byte }) => {
            assert_eq!(byte, 0x20);
            assert_eq!(offset, header_bytes().len() + 1);
        }
        other => panic!("expected BadMojibake, got {other:?}"),
    }
}

#[test]
fn header_is_the_cps_marker() {
    assert_eq!(header_bytes(), b"xiepinruanjian\r\n".to_vec());
    assert!(starts_with_header(b"xiepinruanjian\r\nrest"));
    assert!(!starts_with_header(b"xiepin"));
}

#[test]
fn mojibake_encodes_high_bytes_as_two_byte_utf8() {
    let kg = mojibake(&[0x41, 0xE9]);
    let mut want = header_bytes();
    want.extend_from_slice(&[0x41, 0xC3, 0xA9]);
    want.extend_from_slice(FOOTER);
    assert_eq!(kg, want);
}

#[test]
fn unscramble_is_an_involution() {
    let physical: Vec<u8> = (0..PHYSICAL_LEN).map(|i| (i * 7 % 251) as u8).collect();
    let logical = unscramble(&physical);
    assert_eq!(logical.len(), PHYSICAL_LEN);
    assert_ne!(logical, physical);
    assert_eq!(unscramble(&logical), physical);
}

#[test]
fn logical_to_kg_shape_has_kg_size() {
    let logical = vec![0x11u8; PHYSICAL_LEN];
    let kg = logical_to_kg_shape(&logical);
    assert_eq!(kg.len(), KG_SHAPE_LEN);
}

#[test]
fn accepted_kg_file_is_rewritten_byte_for_byte() {
    let mut kg = header_bytes();
    kg.extend_from_slice(&[0x41, 0xC2, 0x80, 0xC3, 0xBF, 0x00]);
    kg.extend_from_slice(FOOTER);
    let raw = unmojibake(&kg).unwrap();
    assert_eq!(mojibake(&raw), kg);
}
