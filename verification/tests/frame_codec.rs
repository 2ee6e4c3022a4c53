use backend::frame::{demask, Frame, FrameError, OpCode};

#[test]
fn test_parse_unmasked_text() {
    let data = [0x81, 0x05, 0x48, 0x65, 0x6c, 0x6c, 0x6f];
    let frame = Frame::try_parse_from(&data[..]).unwrap();
    assert!(frame.is_final());
    assert_eq!(frame.opcode(), OpCode::Text);
    assert!(frame.mask().is_none());
    assert_eq!(frame.payload(), "Hello".as_bytes());
}

#[test]
fn test_demask() {
    let mask = [0x37, 0xfa, 0x21, 0x3d];
    let mut data = [0x7f, 0x9f, 0x4d, 0x51, 0x58];
    demask(&mut data, mask);
    assert_eq!(&data[..], "Hello".as_bytes());
}

#[test]
fn test_parse_masked_text() {
    let data = [0x81, 0x85, 0x37, 0xfa, 0x21, 0x3d, 0x7f, 0x9f, 0x4d, 0x51, 0x58];
    let frame = Frame::try_parse_from(&data[..]).unwrap();
    assert!(frame.is_final());
    assert_eq!(frame.opcode(), OpCode::Text);
    assert_eq!(frame.mask(), Some([0x37, 0xfa, 0x21, 0x3d]));
    assert_eq!(frame.payload(), &[0x7f, 0x9f, 0x4d, 0x51, 0x58]);
}

#[test]
fn test_parse_non_final() {
    let data = [0x01, 0x05, 0x48, 0x65, 0x6c, 0x6c, 0x6f];
    let frame = Frame::try_parse_from(&data[..]).unwrap();
    assert!(!frame.is_final());
}

#[test]
fn test_write_unmasked() {
    let data = [0x81, 0x05, 0x48, 0x65, 0x6c, 0x6c, 0x6f];
    let frame = Frame::builder()
        .is_final()
        .with_opcode(OpCode::Text)
        .with_payload(vec![0x48, 0x65, 0x6c, 0x6c, 0x6f]);
    let mut buffer = Vec::with_capacity(data.len());
    frame.write_to(&mut buffer);
    assert_eq!(&buffer, &data);
}

#[test]
fn test_write_masked() {
    let data = [0x81, 0x85, 0x37, 0xfa, 0x21, 0x3d, 0x7f, 0x9f, 0x4d, 0x51, 0x58];
    let frame = Frame::builder()
        .is_final()
        .with_opcode(OpCode::Text)
        .with_mask([0x37, 0xfa, 0x21, 0x3d])
        .with_payload(vec![0x7f, 0x9f, 0x4d, 0x51, 0x58]);
    let mut buffer = Vec::with_capacity(data.len());
    frame.write_to(&mut buffer);
    assert_eq!(&buffer, &data);
}

#[test]
fn parse_refuses_short_input() {
    assert_eq!(Frame::try_parse_from(&[]).unwrap_err(), FrameError::ShortHeader);
    assert_eq!(Frame::try_parse_from(&[0x81]).unwrap_err(), FrameError::ShortHeader);
    assert_eq!(Frame::try_parse_from(&[0x81, 126, 0x01]).unwrap_err(), FrameError::ShortLength);
    assert_eq!(Frame::try_parse_from(&[0x81, 127, 0, 0, 0, 0]).unwrap_err(), FrameError::ShortLength);
    assert_eq!(Frame::try_parse_from(&[0x81, 0x85, 1, 2, 3]).unwrap_err(), FrameError::ShortMask);
    assert_eq!(Frame::try_parse_from(&[0x81, 0x05, 1, 2, 3, 4]).unwrap_err(), FrameError::ShortPayload);
}

fn frame_of(is_final: bool, opcode: OpCode, mask: Option<[u8; 4]>, payload: Vec<u8>) -> Frame {
    let mut builder = Frame::builder();
    if is_final {
        builder.is_final();
    } else {
        builder.is_not_final();
    }
    builder.with_opcode(opcode);
    if let Some(key) = mask {
        builder.with_mask(key);
    }
    builder.with_payload(payload)
}

fn wire_of(frame: &Frame) -> Vec<u8> {
    let mut out = Vec::new();
    frame.clone().write_to(&mut out);
    out
}

#[test]
fn builder_starts_as_final_unmasked_text() {
    let frame = Frame::builder().with_payload(vec![1, 2]);
    assert!(frame.is_final());
    assert_eq!(frame.opcode(), OpCode::Text);
    assert_eq!(frame.mask(), None);
    assert_eq!(frame.payload(), &[1, 2]);
}

#[test]
fn round_trip_gives_the_frame_back() {
    let opcodes = [
        OpCode::Continuation,
        OpCode::Text,
        OpCode::Binary,
        OpCode::NonControlReserved(3),
        OpCode::NonControlReserved(7),
        OpCode::Close,
        OpCode::Ping,
        OpCode::Pong,
        OpCode::ControlReserved(0xb),
        OpCode::ControlReserved(0xf),
    ];
    for opcode in opcodes {
        for is_final in [true, false] {
            for mask in [None, Some([0x37, 0xfa, 0x21, 0x3d])] {
                for len in [0usize, 1, 5, 125, 126, 300] {
                    let payload: Vec<u8> = (0..len).map(|i| (i % 251) as u8).collect();
                    let frame = frame_of(is_final, opcode, mask, payload);
                    let mut wire = wire_of(&frame);
                    let taken = wire.len();
                    wire.extend_from_slice(&[0xde, 0xad]);
                    let (parsed, n) = Frame::parse_prefix(&wire).unwrap();
                    assert_eq!(parsed, frame);
                    assert_eq!(n, taken);
                    assert_eq!(Frame::try_parse_from(&wire).unwrap(), frame);
                }
            }
        }
    }
}

#[test]
fn length_field_widths_at_the_boundaries() {
    let empty = wire_of(&frame_of(true, OpCode::Binary, None, vec![]));
    assert_eq!(empty, vec![0x82, 0x00]);

    let short = wire_of(&frame_of(true, OpCode::Binary, None, vec![7; 125]));
    assert_eq!(short.len(), 2 + 125);
    assert_eq!(short[1], 125);

    let first_extended = wire_of(&frame_of(true, OpCode::Binary, None, vec![7; 126]));
    assert_eq!(first_extended.len(), 4 + 126);
    assert_eq!(&first_extended[1..4], &[126, 0x00, 0x7e]);

    let ceiling = wire_of(&frame_of(true, OpCode::Binary, None, vec![7; 0x7fff]));
    assert_eq!(ceiling.len(), 4 + 0x7fff);
    assert_eq!(&ceiling[1..4], &[126, 0x7f, 0xff]);

    let above = wire_of(&frame_of(true, OpCode::Binary, None, vec![7; 0x8000]));
    assert_eq!(above.len(), 10 + 0x8000);
    assert_eq!(&above[1..10], &[127, 0, 0, 0, 0, 0, 0, 0x80, 0x00]);

    let wide = wire_of(&frame_of(true, OpCode::Binary, None, vec![7; 65535]));
    assert_eq!(wide.len(), 10 + 65535);
    assert_eq!(&wide[1..10], &[127, 0, 0, 0, 0, 0, 0, 0xff, 0xff]);

    let wider = wire_of(&frame_of(true, OpCode::Binary, Some([1, 2, 3, 4]), vec![7; 65536]));
    assert_eq!(wider.len(), 14 + 65536);
    assert_eq!(&wider[1..14], &[127 | 0x80, 0, 0, 0, 0, 0, 1, 0x00, 0x00, 1, 2, 3, 4]);

    for len in [0usize, 125, 126, 65535, 65536] {
        let frame = frame_of(false, OpCode::Text, None, vec![9; len]);
        let parsed = Frame::try_parse_from(&wire_of(&frame)).unwrap();
        assert_eq!(parsed.payload().len(), len);
        assert_eq!(parsed, frame);
    }
}

#[test]
fn parse_reads_the_two_byte_length_of_any_size() {
    let mut wire = vec![0x82, 126, 0xff, 0xff];
    wire.extend_from_slice(&vec![3; 65535]);
    let frame = Frame::try_parse_from(&wire).unwrap();
    assert_eq!(frame.payload().len(), 65535);
    assert_eq!(frame.opcode(), OpCode::Binary);
}

#[test]
fn parse_reads_the_eight_byte_length() {
    let mut wire = vec![0x82, 127, 0, 0, 0, 0, 0, 0, 0x01, 0x02];
    wire.extend_from_slice(&vec![3; 258]);
    let frame = Frame::try_parse_from(&wire).unwrap();
    assert_eq!(frame.payload().len(), 258);
    let huge = [0x82, 127, 0xff, 0xff, 0xff, 0xff, 0xff, 0xff, 0xff, 0xff, 1, 2, 3];
    assert_eq!(Frame::try_parse_from(&huge).unwrap_err(), FrameError::ShortPayload);
}

#[test]
fn header_and_payload_lengths_are_told_apart() {
    assert_eq!(backend::frame::header_len(0x05), 2);
    assert_eq!(backend::frame::header_len(0x85), 6);
    assert_eq!(backend::frame::header_len(126), 4);
    assert_eq!(backend::frame::header_len(126 | 0x80), 8);
    assert_eq!(backend::frame::header_len(127), 10);
    assert_eq!(backend::frame::header_len(0xff), 14);
    assert_eq!(backend::frame::payload_len(&[0x81, 0x05]), Ok(5));
    assert_eq!(backend::frame::payload_len(&[0x81, 126, 0x01, 0x00]), Ok(256));
    assert_eq!(
        backend::frame::payload_len(&[0x81, 127, 0, 0, 0, 1, 0, 0, 0, 2]),
        Ok(0x0000_0001_0000_0002)
    );
    assert_eq!(backend::frame::payload_len(&[0x81]), Err(FrameError::ShortHeader));
    assert_eq!(backend::frame::payload_len(&[0x81, 126, 0x01]), Err(FrameError::ShortLength));
}

#[test]
fn demask_twice_restores_the_bytes() {
    let key = [0x12, 0x00, 0xff, 0x80];
    let plain: Vec<u8> = (0..=255u8).collect();
    let mut data = plain.clone();
    demask(&mut data, key);
    assert_ne!(data, plain);
    assert_eq!(data[0], 0x12);
    assert_eq!(data[1], 0x01);
    assert_eq!(data[2], 0x02 ^ 0xff);
    assert_eq!(data[3], 0x03 ^ 0x80);
    assert_eq!(data[4], 0x04 ^ 0x12);
    demask(&mut data, key);
    assert_eq!(data, plain);
}

#[test]
fn demask_of_nothing_is_nothing() {
    let mut data: [u8; 0] = [];
    demask(&mut data, [1, 2, 3, 4]);
    assert_eq!(data.len(), 0);
}

#[test]
fn opcodes_and_their_codes() {
    assert_eq!(OpCode::try_from(0x0), Ok(OpCode::Continuation));
    assert_eq!(OpCode::try_from(0x1), Ok(OpCode::Text));
    assert_eq!(OpCode::try_from(0x2), Ok(OpCode::Binary));
    assert_eq!(OpCode::try_from(0x3), Ok(OpCode::NonControlReserved(3)));
    assert_eq!(OpCode::try_from(0x7), Ok(OpCode::NonControlReserved(7)));
    assert_eq!(OpCode::try_from(0x8), Ok(OpCode::Close));
    assert_eq!(OpCode::try_from(0x9), Ok(OpCode::Ping));
    assert_eq!(OpCode::try_from(0xa), Ok(OpCode::Pong));
    assert_eq!(OpCode::try_from(0xb), Ok(OpCode::ControlReserved(0xb)));
    assert_eq!(OpCode::try_from(0xf), Ok(OpCode::ControlReserved(0xf)));
    assert_eq!(OpCode::try_from(0x10), Err(FrameError::UnrecognizedOpcode));
    assert_eq!(OpCode::try_from(0xff), Err(FrameError::UnrecognizedOpcode));
    for code in 0u8..16 {
        assert_eq!(OpCode::try_from(code).unwrap().into(), code);
    }
}

#[test]
fn control_opcodes_are_told_from_the_others() {
    for code in 0u8..16 {
        let opcode = OpCode::try_from(code).unwrap();
        assert_eq!(opcode.is_control(), code >= 8);
        assert_eq!(opcode.is_non_control(), code < 8);
    }
}

#[test]
fn payload_can_be_changed_in_place() {
    let mut frame = frame_of(true, OpCode::Binary, Some([1, 1, 1, 1]), vec![1, 2, 3]);
    frame.payload_mut()[1] = 9;
    assert_eq!(frame.payload(), &[1, 9, 3]);
    assert_eq!(frame.mask(), Some([1, 1, 1, 1]));
    assert_eq!(frame.opcode(), OpCode::Binary);
}

#[test]
fn reserved_bits_are_not_looked_at() {
    let frame = Frame::try_parse_from(&[0xf1, 0x01, 0x41]).unwrap();
    assert!(frame.is_final());
    assert_eq!(frame.opcode(), OpCode::Text);
    assert_eq!(frame.payload(), &[0x41]);
}
