use narm::step::SessionStep;
use narm::uvk5::session::{check_write_reply, firmware_of, hello_frame, read_mem_data};
use narm::uvk5::wire::{build_frame, build_write_payload, decode_frame, read_command, HELLO};
use narm::uvk5::{read_eeprom, reset_radio, write_eeprom, UvK5Error, EEPROM_SIZE, WRITABLE_SIZE};

/// Split a wire frame into header, announced body and footer, and decode it.
fn recv(frame: &[u8]) -> Result<Vec<u8>, UvK5Error> {
    let header = [frame[0], frame[1], frame[2], frame[3]];
    let len = frame[2] as usize;
    let body = &frame[4..(4 + len).min(frame.len())];
    let rest = &frame[4 + body.len()..];
    let footer = [rest[0], rest[1], rest[2], rest[3]];
    decode_frame(header, body, footer)
}

fn write_reply_payload(opcode: u8, addr_echo: u16) -> Vec<u8> {
    vec![opcode, 0, 0, 0, (addr_echo & 0xFF) as u8, (addr_echo >> 8) as u8, 0, 0]
}

#[test]
fn send_writes_a_well_formed_frame() {
    let out = hello_frame();
    assert_eq!(out.len(), 4 + HELLO.len() + 2 + 2);
    assert_eq!(&out[..2], &[0xAB, 0xCD]);
    assert_eq!(out[2] as usize, HELLO.len());
    assert_eq!(&out[out.len() - 2..], &[0xDC, 0xBA]);
    assert_eq!(out, build_frame(&HELLO));
}

#[test]
fn recv_returns_un_xored_payload_for_well_formed_frame() {
    let payload = vec![0x18, 0x05, 0x20, 0x00, b'k', b'5', b'_', b'2'];
    let got = recv(&build_frame(&payload)).unwrap();
    assert_eq!(got, payload);
}

#[test]
fn recv_rejects_bad_header_magic() {
    match recv(&[0x00, 0x00, 0x04, 0x00, 0, 0, 0, 0, 0, 0, 0xDC, 0xBA]) {
        Err(UvK5Error::BadHeader(h)) => assert_eq!(h, [0x00, 0x00, 0x04, 0x00]),
        other => panic!("expected BadHeader, got {other:?}"),
    }
}

#[test]
fn recv_rejects_bad_footer_magic() {
    let mut bytes = vec![0xAB, 0xCD, 2, 0];
    bytes.extend_from_slice(&[0, 0]);
    bytes.extend_from_slice(&[0x00, 0x00, 0xFF, 0xFF]);
    match recv(&bytes) {
        Err(UvK5Error::BadFooter(f)) => assert_eq!(&f[2..], &[0xFF, 0xFF]),
        other => panic!("expected BadFooter, got {other:?}"),
    }
}

#[test]
fn write_mem_succeeds_when_radio_echoes_correct_address() {
    assert!(check_write_reply(0x0080, &write_reply_payload(0x1E, 0x0080)).is_ok());
}

#[test]
fn write_mem_rejects_wrong_opcode() {
    match check_write_reply(0x0080, &write_reply_payload(0x99, 0x0080)) {
        Err(UvK5Error::BadWriteReply { offset, .. }) => assert_eq!(offset, 0x0080),
        other => panic!("expected BadWriteReply, got {other:?}"),
    }
}

#[test]
fn write_mem_rejects_address_mismatch() {
    match check_write_reply(0x0080, &write_reply_payload(0x1E, 0x0100)) {
        Err(UvK5Error::BadWriteAddress { expected, got }) => {
            assert_eq!(expected, 0x0080);
            assert_eq!(got, 0x0100);
        }
        other => panic!("expected BadWriteAddress, got {other:?}"),
    }
}

#[test]
fn say_hello_extracts_firmware_string() {
    let mut payload = vec![0x18, 0x05, 0x20, 0x00];
    payload.extend_from_slice(b"k5prog-v0.42\x00\x00");
    let fw = firmware_of(&payload).unwrap();
    assert_eq!(fw, "k5prog-v0.42");
}

#[test]
fn hello_reply_too_short_is_rejected() {
    assert!(matches!(firmware_of(&[0x18, 0x05]), Err(UvK5Error::NoHelloReply)));
}

#[test]
fn read_mem_reply_data_follows_the_eight_byte_header() {
    let reply = vec![0x1C, 0x05, 0x08, 0x00, 0x80, 0x00, 0x04, 0x00, 1, 2, 3, 4];
    assert_eq!(read_mem_data(&reply).unwrap(), vec![1, 2, 3, 4]);
    assert!(matches!(read_mem_data(&reply[..5]), Err(UvK5Error::ShortEeprom { got: 5 })));
}

#[test]
fn reset_frame_is_the_reset_opcode() {
    assert_eq!(reset_radio(), build_frame(&[0xDD, 0x05, 0x00, 0x00]));
}

#[test]
fn read_session_walks_every_block() {
    let (mut session, first) = read_eeprom();
    assert_eq!(first, hello_frame());
    let mut hello = vec![0x18, 0x05, 0x20, 0x00];
    hello.extend_from_slice(b"fw1");
    let mut step = session.on_reply(&hello).unwrap();
    let mut offset: usize = 0;
    loop {
        match step {
            SessionStep::Send(frame) => {
                assert_eq!(frame, build_frame(&read_command(offset as u16, 0x80)));
                let mut reply = vec![0x1C, 0x05, 0x08, 0x00, 0, 0, 0x80, 0];
                reply.extend(std::iter::repeat_n((offset >> 7) as u8, 0x80));
                offset += 0x80;
                step = session.on_reply(&reply).unwrap();
            }
            SessionStep::Finished(image) => {
                assert_eq!(image.len(), EEPROM_SIZE);
                assert_eq!(image[0], 0);
                assert_eq!(image[0x80], 1);
                assert_eq!(image[0x1F80], 0x3F);
                break;
            }
        }
    }
    assert_eq!(offset, EEPROM_SIZE);
}

#[test]
fn write_session_stops_at_the_calibration_block() {
    let image: Vec<u8> = (0..EEPROM_SIZE).map(|i| (i % 251) as u8).collect();
    let (mut session, first) = write_eeprom(&image).unwrap();
    assert_eq!(first, hello_frame());
    let mut step = session.on_reply(&[0x18, 0x05, 0x20, 0x00, b'x']).unwrap();
    let mut offset: usize = 0;
    loop {
        match step {
            SessionStep::Send(frame) => {
                assert_eq!(
                    frame,
                    build_frame(&build_write_payload(offset as u16, &image[offset..offset + 0x80]))
                );
                step = session
                    .on_reply(&write_reply_payload(0x1E, offset as u16))
                    .unwrap();
                offset += 0x80;
            }
            SessionStep::Finished(written) => {
                assert_eq!(written, WRITABLE_SIZE);
                break;
            }
        }
    }
    assert_eq!(offset, WRITABLE_SIZE);
}

#[test]
fn write_session_rejects_bad_image_size() {
    assert!(matches!(
        write_eeprom(&[0u8; 100]),
        Err(UvK5Error::BadImageSize { got: 100 })
    ));
}
