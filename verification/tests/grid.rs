use narm::grid::{
    decode_cell, digit_idx, encode_units, letter_idx, pair_to_indices, GridCell, GridError,
    UNITS_PER_DEGREE,
};

fn approx(a: f64, b: f64, tol: f64) {
    assert!((a - b).abs() < tol, "{a} !≈ {b} (tol {tol})");
}

fn lat_lng(c: GridCell) -> (f64, f64) {
    let per = UNITS_PER_DEGREE as f64;
    (c.lat_units as f64 / per - 90.0, c.lng_units as f64 / per - 180.0)
}

fn units(lat: f64, lng: f64) -> (u32, u32) {
    let per = UNITS_PER_DEGREE as f64;
    (((lng + 180.0) * per).floor() as u32, ((lat + 90.0) * per).floor() as u32)
}

#[test]
fn decode_jo67at_matches_csv_centre() {
    let (lat, lng) = lat_lng(decode_cell("JO67AT").unwrap());
    approx(lat, 57.8125, 1e-4);
    approx(lng, 12.0417, 1e-4);
}

#[test]
fn decode_kp04ls_matches_csv_centre() {
    let (lat, lng) = lat_lng(decode_cell("KP04LS").unwrap());
    approx(lat, 64.7708, 1e-3);
    approx(lng, 20.9583, 1e-3);
}

#[test]
fn decode_is_case_insensitive() {
    let upper = decode_cell("JO67AT").unwrap();
    let lower = decode_cell("jo67at").unwrap();
    assert_eq!(upper, lower);
}

#[test]
fn decode_exact_units() {
    // JO: field (9, 14); 67: square (6, 7); AT: subsquare (0, 19).
    let c = decode_cell("JO67AT").unwrap();
    assert_eq!(c.lng_units, 9 * 1_152_000 + 6 * 115_200 + 2_400);
    assert_eq!(c.lat_units, 14 * 576_000 + 7 * 57_600 + 19 * 2_400 + 1_200);
    let field = decode_cell("AA").unwrap();
    assert_eq!(field, GridCell { lng_units: 576_000, lat_units: 288_000 });
}

#[test]
fn encode_jo67at_roundtrip() {
    let (lng, lat) = units(57.8125, 12.0417);
    assert_eq!(encode_units(lng, lat, 6).unwrap(), "JO67AT");
}

#[test]
fn encode_4char() {
    let (lng, lat) = units(57.5, 13.0);
    assert_eq!(encode_units(lng, lat, 4).unwrap(), "JO67");
}

#[test]
fn round_trip_random_points() {
    for &(lat, lng) in &[(0.0, 0.0), (-45.5, 100.25), (89.0, -179.0), (-89.0, 179.0)] {
        let (lu, au) = units(lat, lng);
        let loc = encode_units(lu, au, 8).unwrap();
        let (back_lat, back_lng) = lat_lng(decode_cell(&loc).unwrap());
        approx(back_lat, lat, 15.0 / 3600.0 / 2.0 + 1e-9);
        approx(back_lng, lng, 30.0 / 3600.0 / 2.0 + 1e-9);
    }
}

#[test]
fn rejects_bad_length() {
    assert!(matches!(decode_cell("J"), Err(GridError::InvalidLength(_))));
    assert!(matches!(decode_cell("JO6"), Err(GridError::InvalidLength(_))));
    assert!(matches!(decode_cell("JO67ATXY1"), Err(GridError::InvalidLength(_))));
    assert!(matches!(decode_cell(""), Err(GridError::InvalidLength(_))));
    assert!(matches!(decode_cell("JO67AT00AA00"), Err(GridError::InvalidLength(_))));
}

#[test]
fn rejects_bad_chars() {
    assert!(matches!(decode_cell("ZZ00aa"), Err(GridError::InvalidChar(_, 0))));
    assert!(matches!(decode_cell("JOAA"), Err(GridError::InvalidChar(_, 2))));
    assert!(matches!(decode_cell("JO67AY"), Err(GridError::InvalidChar(_, 5))));
    match decode_cell("JS67") {
        Err(GridError::InvalidChar(s, 1)) => assert_eq!(s, "JS67"),
        other => panic!("expected InvalidChar at 1, got {other:?}"),
    }
}

#[test]
fn rejects_bad_encode_length() {
    assert!(matches!(encode_units(0, 0, 5), Err(GridError::BadEncodeLength(5))));
    assert!(matches!(encode_units(0, 0, 12), Err(GridError::BadEncodeLength(12))));
}

#[test]
fn encode_clamps_the_east_and_north_edges() {
    // 180°E / 90°N fall on the last field's far edge.
    assert_eq!(encode_units(20_736_000, 10_368_000, 6).unwrap(), "RR00AA");
    assert_eq!(encode_units(0, 0, 10).unwrap(), "AA00AA00AA");
}

#[test]
fn symbol_helpers() {
    assert_eq!(letter_idx(b'a', 18), Some(0));
    assert_eq!(letter_idx(b'R', 18), Some(17));
    assert_eq!(letter_idx(b'S', 18), None);
    assert_eq!(letter_idx(b'x', 24), Some(23));
    assert_eq!(letter_idx(b'1', 24), None);
    assert_eq!(digit_idx(b'7'), Some(7));
    assert_eq!(digit_idx(b'a'), None);
    assert_eq!(pair_to_indices("JO67", 1, b'6', b'7').unwrap(), (6, 7));
    assert!(matches!(pair_to_indices("JOx7", 1, b'x', b'7'), Err(GridError::InvalidChar(_, 2))));
}

#[test]
fn decode_then_encode_gives_canonical_locator() {
    for loc in ["jo67at", "KP04LS", "aa", "RR99XX99XX", "io91wm00"] {
        let c = decode_cell(loc).unwrap();
        assert_eq!(
            encode_units(c.lng_units, c.lat_units, loc.len()).unwrap(),
            loc.to_ascii_uppercase()
        );
    }
}
