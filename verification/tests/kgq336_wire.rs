use narm::kgq336::wire::{build_out_frame, CIPHER_SEED};
use narm::kgq336::{
    build_read_cmd, build_write_cmd, checksum, decrypt_inplace, encrypt_inplace, parse_in_frame,
    split_read_reply, KgQ336Error, CMD_END, CMD_RD, CMD_WR, DIR_IN, DIR_OUT, END_FRAME, SOF,
};

// -------- cipher --------

#[test]
fn encrypt_decrypt_round_trip() {
    let plain: Vec<u8> = (0..=200u8).collect();
    let mut buf = plain.clone();
    encrypt_inplace(&mut buf);
    assert_ne!(buf, plain);
    decrypt_inplace(&mut buf);
    assert_eq!(buf, plain);
}

#[test]
fn decrypt_first_in_reply_yields_wouxun() {
    let enc: [u8; 8] = [0x54, 0x14, 0x43, 0x0c, 0x59, 0x01, 0x54, 0x1a];
    let mut buf = enc.to_vec();
    decrypt_inplace(&mut buf);
    assert_eq!(&buf[..2], &[0x00, 0x40]);
    assert_eq!(&buf[2..8], b"WOUXUN");
}

#[test]
fn encrypt_first_read_command_matches_capture() {
    let mut buf = vec![0x00, 0x40, 0x40, 0x07];
    encrypt_inplace(&mut buf);
    assert_eq!(buf, vec![0x54, 0x14, 0x54, 0x53]);
}

#[test]
fn decrypt_then_encrypt_restores_wire_bytes() {
    let wire: Vec<u8> = (0..=255u8).rev().collect();
    let mut buf = wire.clone();
    decrypt_inplace(&mut buf);
    encrypt_inplace(&mut buf);
    assert_eq!(buf, wire);
}

#[test]
fn cipher_of_empty_buffer_is_empty() {
    let mut buf: Vec<u8> = Vec::new();
    encrypt_inplace(&mut buf);
    assert!(buf.is_empty());
    decrypt_inplace(&mut buf);
    assert!(buf.is_empty());
}

// -------- checksum --------

#[test]
fn checksum_matches_observed_read_commands() {
    assert_eq!(checksum(CMD_RD, DIR_OUT, 3, &[0x00, 0x40, 0x40]), 0x07);
    assert_eq!(checksum(CMD_RD, DIR_OUT, 3, &[0x00, 0x80, 0x40]), 0x47);
    assert_eq!(checksum(CMD_RD, DIR_OUT, 3, &[0x07, 0x00, 0x40]), 0xC8);
}

#[test]
fn checksum_matches_observed_write_anchor() {
    let mut payload = vec![0x05];
    payload.extend(std::iter::repeat_n(0x00, 33));
    assert_eq!(checksum(CMD_WR, DIR_OUT, 0x22, &payload), 0xAA);
}

// -------- frame build / parse --------

#[test]
fn build_read_cmd_matches_first_capture() {
    let frame = build_read_cmd(0x0040, 0x40);
    assert_eq!(frame, vec![0x7C, 0x82, 0xFF, 0x03, 0x54, 0x14, 0x54, 0x53]);
}

#[test]
fn build_read_cmd_addr_high_byte_increments() {
    let frame = build_read_cmd(0x0700, 0x40);
    assert_eq!(frame, vec![0x7C, 0x82, 0xFF, 0x03, 0x53, 0x53, 0x13, 0xDB]);
}

#[test]
fn build_write_cmd_anchor_block() {
    let frame = build_write_cmd(0x0500, &[0x00; 32]);
    assert_eq!(&frame[..4], &[0x7C, 0x83, 0xFF, 0x22]);
    assert_eq!(&frame[4..38], &[0x51; 34]);
    assert_eq!(frame[38], 0xFB);
}

#[test]
fn parse_in_frame_handles_first_read_reply() {
    let mut plain = vec![0u8; 67];
    plain[0] = 0x00;
    plain[1] = 0x40;
    plain[2..8].copy_from_slice(b"WOUXUN");
    let cs = checksum(CMD_RD, DIR_IN, 0x42, &plain[..66]);
    plain[66] = cs;
    let mut blob = plain.clone();
    encrypt_inplace(&mut blob);
    let mut wire = vec![0x7C, 0x82, 0x00, 0x42];
    wire.extend_from_slice(&blob);

    let (frame, n) = parse_in_frame(&wire).unwrap();
    assert_eq!(n, wire.len());
    assert_eq!(frame.cmd, CMD_RD);
    assert_eq!(&frame.payload[..2], &[0x00, 0x40]);
    assert_eq!(&frame.payload[2..8], b"WOUXUN");
}

#[test]
fn parse_in_frame_rejects_short_input() {
    match parse_in_frame(&[0x7C, 0x82]) {
        Err(KgQ336Error::ShortFrame { got: 2, want: 4 }) => (),
        other => panic!("expected ShortFrame, got {other:?}"),
    }
}

#[test]
fn parse_in_frame_rejects_bad_sof() {
    match parse_in_frame(&[0x00, 0x82, 0x00, 0x00, 0x00]) {
        Err(KgQ336Error::BadSof { got: 0x00 }) => (),
        other => panic!("expected BadSof, got {other:?}"),
    }
}

#[test]
fn parse_in_frame_rejects_outgoing_direction() {
    match parse_in_frame(&[0x7C, 0x82, 0xFF, 0x00, 0x00]) {
        Err(KgQ336Error::BadDirection { got: 0xFF }) => (),
        other => panic!("expected BadDirection, got {other:?}"),
    }
}

#[test]
fn parse_in_frame_rejects_bad_checksum() {
    let mut plain = vec![0u8; 5];
    plain[0] = 0x00;
    plain[1] = 0x40;
    plain[4] = checksum(CMD_RD, DIR_IN, 0x04, &plain[..4]);
    let mut blob = plain.clone();
    encrypt_inplace(&mut blob);
    let last = blob.len() - 1;
    blob[last] ^= 0x01;

    let mut wire = vec![0x7C, 0x82, 0x00, 0x04];
    wire.extend_from_slice(&blob);

    match parse_in_frame(&wire) {
        Err(KgQ336Error::BadChecksum { .. }) => (),
        other => panic!("expected BadChecksum, got {other:?}"),
    }
}

#[test]
fn parse_in_frame_rejects_truncated_body() {
    // The header announces 4 payload bytes plus the checksum; only 2 follow.
    match parse_in_frame(&[0x7C, 0x82, 0x00, 0x04, 0x11, 0x22]) {
        Err(KgQ336Error::ShortFrame { got: 6, want: 9 }) => (),
        other => panic!("expected ShortFrame, got {other:?}"),
    }
}

#[test]
fn parse_in_frame_ignores_trailing_bytes() {
    let mut plain = vec![0x00, 0x40, 0xAA];
    plain.push(checksum(CMD_RD, DIR_IN, 3, &plain));
    encrypt_inplace(&mut plain);
    let mut wire = vec![SOF, CMD_RD, DIR_IN, 3];
    wire.extend_from_slice(&plain);
    let used = wire.len();
    wire.extend_from_slice(&[0xEE, 0xEE]);
    let (frame, n) = parse_in_frame(&wire).unwrap();
    assert_eq!(n, used);
    assert_eq!(frame.payload, vec![0x00, 0x40, 0xAA]);
}

#[test]
fn end_frame_constants_self_consistent() {
    let cs_raw = checksum(CMD_END, DIR_OUT, 0, &[]);
    assert_eq!(cs_raw, 0x83);
    let cs_enc = CIPHER_SEED ^ cs_raw;
    assert_eq!(cs_enc, 0xD7);
    assert_eq!(END_FRAME, [SOF, CMD_END, DIR_OUT, 0x00, cs_enc]);
    assert_eq!(build_out_frame(CMD_END, &[]), END_FRAME.to_vec());
}

#[test]
fn split_read_reply_extracts_addr_and_data() {
    let payload: Vec<u8> = (0..66u8).collect();
    let (addr, data) = split_read_reply(&payload).unwrap();
    assert_eq!(addr, 0x0001);
    assert_eq!(data.len(), 64);
    assert_eq!(data[0], 2);
    assert_eq!(data[63], 65);
}

#[test]
fn split_read_reply_rejects_one_byte_payload() {
    match split_read_reply(&[0x00]) {
        Err(KgQ336Error::ShortFrame { got: 1, want: 2 }) => (),
        other => panic!("expected ShortFrame, got {other:?}"),
    }
}

#[test]
fn encrypt_zero_run_repeats_seed_xor_first() {
    let mut buf = vec![0x07u8, 0, 0, 0, 0];
    encrypt_inplace(&mut buf);
    assert_eq!(buf, vec![CIPHER_SEED ^ 0x07; 5]);
}

#[test]
fn outbound_frame_is_not_accepted_as_inbound() {
    let frame = build_read_cmd(0x0040, 0x40);
    assert!(matches!(
        parse_in_frame(&frame),
        Err(KgQ336Error::BadDirection { got: 0xFF })
    ));
}
