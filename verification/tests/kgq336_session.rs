use narm::kgq336::session::{inbound_body_len, READ_END, READ_START, WAKEUP_BLASTS};
use narm::kgq336::{
    build_read_cmd, checksum, encrypt_inplace, parse_in_frame, read_codeplug, KgQ336Error, CMD_RD,
    DIR_IN, END_FRAME, READ_BLOCK, SOF,
};
use narm::step::SessionStep;

/// A `CMD_RD` reply frame as the radio would send it for `addr` and `data`.
fn read_reply_frame(addr: u16, data: &[u8]) -> Vec<u8> {
    let mut payload = vec![(addr >> 8) as u8, addr as u8];
    payload.extend_from_slice(data);
    let len = payload.len() as u8;
    let cs = checksum(CMD_RD, DIR_IN, len, &payload);
    let mut blob = payload;
    blob.push(cs);
    encrypt_inplace(&mut blob);
    let mut frame = vec![SOF, CMD_RD, DIR_IN, len];
    frame.extend_from_slice(&blob);
    frame
}

#[test]
fn read_block_round_trips_a_known_reply() {
    let (mut session, burst) = read_codeplug();
    assert_eq!(&burst[..8], &[0x7C, 0x82, 0xFF, 0x03, 0x54, 0x14, 0x54, 0x53]);
    let payload: Vec<u8> = b"WOUXUN".iter().chain([0u8; 58].iter()).copied().collect();
    let (frame, _) = parse_in_frame(&read_reply_frame(0x0040, &payload)).unwrap();
    match session.on_reply(&frame).unwrap() {
        SessionStep::Send(next) => assert_eq!(next, build_read_cmd(0x0080, 0x40)),
        SessionStep::Finished(_) => panic!("expected another read"),
    }
}

#[test]
fn read_block_rejects_address_mismatch() {
    let (mut session, _) = read_codeplug();
    let (frame, _) = parse_in_frame(&read_reply_frame(0x0080, &[0u8; 64])).unwrap();
    match session.on_reply(&frame) {
        Err(KgQ336Error::BadReadAddress { expected, got }) => {
            assert_eq!(expected, 0x0040);
            assert_eq!(got, 0x0080);
        }
        other => panic!("expected BadReadAddress, got {:?}", other.is_ok()),
    }
}

#[test]
fn read_block_rejects_unexpected_cmd() {
    let payload = vec![0x00, 0x40];
    let len = payload.len() as u8;
    let cs = checksum(0x83, DIR_IN, len, &payload);
    let mut blob = payload;
    blob.push(cs);
    encrypt_inplace(&mut blob);
    let mut wire = vec![SOF, 0x83, DIR_IN, len];
    wire.extend_from_slice(&blob);
    let (frame, _) = parse_in_frame(&wire).unwrap();

    let (mut session, _) = read_codeplug();
    match session.on_reply(&frame) {
        Err(KgQ336Error::BadReplyCmd { want, got }) => {
            assert_eq!(want, CMD_RD);
            assert_eq!(got, 0x83);
        }
        other => panic!("expected BadReplyCmd, got {:?}", other.is_ok()),
    }
}

#[test]
fn read_codeplug_walks_the_full_address_window() {
    let (mut session, burst) = read_codeplug();
    let probe = build_read_cmd(READ_START, READ_BLOCK);
    let mut expected = Vec::new();
    for _ in 0..WAKEUP_BLASTS {
        expected.extend_from_slice(&probe);
    }
    assert_eq!(burst, expected);

    let mut addr: u16 = READ_START;
    let image = loop {
        let data = vec![(addr >> 8) as u8; READ_BLOCK as usize];
        let (frame, _) = parse_in_frame(&read_reply_frame(addr, &data)).unwrap();
        match session.on_reply(&frame).unwrap() {
            SessionStep::Send(cmd) => {
                addr += READ_BLOCK as u16;
                assert_eq!(cmd, build_read_cmd(addr, READ_BLOCK));
            }
            SessionStep::Finished((image, end)) => {
                assert_eq!(end, END_FRAME.to_vec());
                break image;
            }
        }
    };
    assert_eq!(addr, READ_END - READ_BLOCK as u16);
    assert_eq!(image.len(), READ_END as usize);
    assert!(image[..READ_START as usize].iter().all(|&b| b == 0));
    assert_eq!(image[0x0040], 0x00);
    assert_eq!(image[0x0400], 0x04);
    assert_eq!(image[0x7FC0], 0x7F);
}

#[test]
fn inbound_header_announces_body_length() {
    assert_eq!(inbound_body_len([SOF, CMD_RD, DIR_IN, 0x42]).unwrap(), 0x43);
    assert!(matches!(
        inbound_body_len([0x00, CMD_RD, DIR_IN, 0x42]),
        Err(KgQ336Error::BadSof { got: 0x00 })
    ));
}
