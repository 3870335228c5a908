use narm::uvk5::wire::{
    build_frame, build_write_payload, check_footer, check_header, decode_frame, frame_with_crc,
    read_command,
    xor_inplace, HELLO,
};
use narm::uvk5::UvK5Error;

fn xor(data: &[u8]) -> Vec<u8> {
    let mut out = data.to_vec();
    xor_inplace(&mut out);
    out
}

/// The CRC a frame carries for its payload (little-endian after the
/// payload, inside the XOR-ed body).
fn frame_crc(payload: &[u8]) -> u16 {
    let frame = build_frame(payload);
    let mut body = frame[4..frame.len() - 2].to_vec();
    xor_inplace(&mut body);
    let n = body.len();
    (body[n - 2] as u16) | ((body[n - 1] as u16) << 8)
}

#[test]
fn xor_round_trip() {
    let data = b"hello world".to_vec();
    let scrambled = xor(&data);
    assert_ne!(scrambled, data);
    let unscrambled = xor(&scrambled);
    assert_eq!(unscrambled, data);
}

#[test]
fn crc16_xmodem_known_vectors() {
    assert_eq!(frame_crc(b""), 0x0000);
    assert_eq!(frame_crc(b"123456789"), 0x31C3);
    assert_eq!(frame_crc(b"A"), 0x58E5);
}

#[test]
fn build_frame_round_trips() {
    let payload = HELLO.to_vec();
    let frame = build_frame(&payload);
    assert_eq!(frame.len(), 4 + payload.len() + 2 + 2);
    assert_eq!(&frame[..2], &[0xAB, 0xCD]);
    assert_eq!(&frame[2..4], &[payload.len() as u8, 0]);
    assert_eq!(&frame[frame.len() - 2..], &[0xDC, 0xBA]);

    let mut body = frame[4..frame.len() - 2].to_vec();
    xor_inplace(&mut body);
    assert_eq!(&body[..payload.len()], &payload[..]);
    let crc = frame_crc(&payload);
    assert_eq!(body[body.len() - 2], (crc & 0xFF) as u8);
    assert_eq!(body[body.len() - 1], (crc >> 8) as u8);
}

#[test]
fn xor_key_locks_each_byte() {
    let scrambled = xor(b"AAAAAAAAAAAAAAAA");
    assert_eq!(
        scrambled,
        vec![
            0x57, 0x2D, 0x55, 0xA7, 0x6F, 0xD0, 0x4C, 0x01, 0x60, 0x74, 0x94, 0x01, 0x52, 0x42,
            0xA8, 0xC1,
        ],
    );
}

#[test]
fn hello_payload_constant() {
    assert_eq!(HELLO, [0x14, 0x05, 0x04, 0x00, 0x6A, 0x39, 0x57, 0x64]);
}

#[test]
fn read_command_matches_chirp_format() {
    assert_eq!(
        read_command(0x0080, 0x80),
        vec![0x1B, 0x05, 0x08, 0x00, 0x80, 0x00, 0x80, 0x00, 0x6A, 0x39, 0x57, 0x64],
    );
    assert_eq!(
        read_command(0x1F80, 0x80),
        vec![0x1B, 0x05, 0x08, 0x00, 0x80, 0x1F, 0x80, 0x00, 0x6A, 0x39, 0x57, 0x64],
    );
}

#[test]
fn frame_invariants_for_arbitrary_payload() {
    for payload in [
        HELLO.to_vec(),
        read_command(0, 0x80),
        build_write_payload(0x0040, &[0xAB; 64]),
    ] {
        let frame = build_frame(&payload);
        assert_eq!(&frame[..2], &[0xAB, 0xCD]);
        assert_eq!(frame[2] as usize, payload.len());
        assert_eq!(frame[3], 0x00);
        assert_eq!(&frame[frame.len() - 2..], &[0xDC, 0xBA]);
        assert_eq!(frame.len(), payload.len() + 8);
    }
}

#[test]
fn build_write_payload_matches_chirp_format() {
    let payload = build_write_payload(0x0080, &[0x00, 0x01, 0x02, 0x03]);
    assert_eq!(
        payload,
        [
            0x1D, 0x05, 0x0C, 0x00, 0x80, 0x00, 0x04, 0x01, 0x6A, 0x39, 0x57, 0x64, 0x00, 0x01,
            0x02, 0x03,
        ],
    );
}

#[test]
fn build_write_payload_for_full_block() {
    let data: Vec<u8> = (0..128u8).collect();
    let payload = build_write_payload(0x1C80, &data);
    assert_eq!(payload.len(), 12 + 128);
    assert_eq!(&payload[0..2], &[0x1D, 0x05]);
    assert_eq!(payload[2], 128 + 8);
    assert_eq!(payload[3], 0x00);
    assert_eq!(&payload[4..6], &[0x80, 0x1C]);
    assert_eq!(payload[6], 128);
    assert_eq!(payload[7], 0x01);
    assert_eq!(&payload[8..12], &[0x6A, 0x39, 0x57, 0x64]);
    assert_eq!(&payload[12..], &data[..]);
}

#[test]
fn decode_frame_recovers_payload() {
    let payload = vec![0x18, 0x05, 0x20, 0x00, b'k', b'5'];
    let frame = build_frame(&payload);
    let n = frame.len();
    let header = [frame[0], frame[1], frame[2], frame[3]];
    let footer = [frame[n - 4], frame[n - 3], frame[n - 2], frame[n - 1]];
    let body = &frame[4..4 + payload.len()];
    assert_eq!(check_header(header).unwrap(), payload.len() as u8);
    assert!(check_footer(footer).is_ok());
    assert_eq!(decode_frame(header, body, footer).unwrap(), payload);
}

#[test]
fn decode_frame_rejects_bad_header() {
    match decode_frame([0x00, 0x00, 0x04, 0x00], &[0, 0, 0, 0], [0, 0, 0xDC, 0xBA]) {
        Err(UvK5Error::BadHeader(h)) => assert_eq!(h, [0x00, 0x00, 0x04, 0x00]),
        other => panic!("expected BadHeader, got {other:?}"),
    }
}

#[test]
fn frame_with_given_checksum_is_exact() {
    // Payload 01, checksum 0x3412: body 01 12 34 XOR-ed with 16 6C 14.
    assert_eq!(
        frame_with_crc(&[0x01], 0x3412),
        vec![0xAB, 0xCD, 0x01, 0x00, 0x01 ^ 0x16, 0x12 ^ 0x6C, 0x34 ^ 0x14, 0xDC, 0xBA]
    );
    assert_eq!(build_frame(b"123456789"), frame_with_crc(b"123456789", 0x31C3));
}
