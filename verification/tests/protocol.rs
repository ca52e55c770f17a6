use pfp_bridge::protocol::{
    Command, PFPRequest, UnknownCommand, FRAME_SIZE, HEADER_SIZE, PAYLOAD_SIZE,
};
use pfp_bridge::protocol_parser::{parse, parse_push_payload, push_reading, DecodeError};

fn all_commands() -> Vec<(Command, u8)> {
    vec![
        (Command::HeloP, 0x00),
        (Command::OlehP, 0x01),
        (Command::Ident, 0x02),
        (Command::Tnedi, 0x03),
        (Command::TrustB, 0x04),
        (Command::TrustT, 0x05),
        (Command::HeloL, 0x06),
        (Command::OlehL, 0x07),
        (Command::Push, 0x08),
        (Command::PushAck, 0x09),
        (Command::ADeny, 0x0A),
        (Command::UDeny, 0x0B),
        (Command::Add, 0x0C),
        (Command::Del, 0x0D),
        (Command::Alive, 0x0E),
    ]
}

fn sample_request() -> PFPRequest {
    let mut payload = [0u8; PAYLOAD_SIZE];
    for (i, byte) in payload.iter_mut().enumerate() {
        *byte = 0xA0 + i as u8;
    }
    PFPRequest {
        command_id: 0x08,
        hop_count: 3,
        source_addr: 0x0102_0304,
        dest_addr: 0xA1B2_C3D4,
        forwarded_by_addr: 0xFFFF_FFFE,
        request_id: 7,
        request_part: 2,
        request_count: 9,
        payload,
    }
}

#[test]
fn command_codes_match_the_table() {
    for (command, byte) in all_commands() {
        assert_eq!(command.to_byte(), byte);
        assert_eq!(u8::from(command), byte);
    }
}

#[test]
fn command_roundtrip_for_every_command() {
    for (command, _) in all_commands() {
        assert_eq!(Command::from_byte(command.to_byte()), Ok(command));
    }
}

#[test]
fn from_byte_rejects_0xff() {
    assert_eq!(Command::from_byte(0xFF), Err(UnknownCommand { byte: 0xFF }));
}

#[test]
fn from_byte_rejects_every_byte_from_0x0f() {
    for byte in 0x0Fu8..=0xFF {
        assert_eq!(Command::from_byte(byte), Err(UnknownCommand { byte }));
    }
}

#[test]
fn from_byte_accepts_every_byte_up_to_0x0e() {
    for byte in 0x00u8..=0x0E {
        let command = Command::from_byte(byte).unwrap();
        assert_eq!(command.to_byte(), byte);
    }
}

#[test]
fn byte_equals_command_by_wire_byte() {
    assert!(0x08u8 == Command::Push);
    assert!(0x00u8 == Command::HeloP);
    assert!(!(0x09u8 == Command::Push));
    assert!(0x0Eu8 == Command::Alive);
}

#[test]
fn frame_sizes() {
    assert_eq!(PAYLOAD_SIZE, 32);
    assert_eq!(HEADER_SIZE, 17);
    assert_eq!(FRAME_SIZE, HEADER_SIZE + PAYLOAD_SIZE);
}

#[test]
fn encode_lays_out_fields_big_endian() {
    let frame = sample_request().encode();
    let mut expected: Vec<u8> = vec![
        0x08, 0x03, // command, hop count
        0x01, 0x02, 0x03, 0x04, // source
        0xA1, 0xB2, 0xC3, 0xD4, // destination
        0xFF, 0xFF, 0xFF, 0xFE, // forwarded by
        0x07, 0x02, 0x09, // id, part, count
    ];
    for i in 0..32u8 {
        expected.push(0xA0 + i);
    }
    assert_eq!(frame.to_vec(), expected);
}

#[test]
fn decode_inverts_encode() {
    let request = sample_request();
    let frame = request.encode();
    let (decoded, rest) = parse(&frame).unwrap();
    assert_eq!(decoded, request);
    assert!(rest.is_empty());
}

#[test]
fn decode_inverts_encode_for_many_requests() {
    let mut seed: u32 = 0x1234_5678;
    let mut next = move || {
        seed ^= seed << 13;
        seed ^= seed >> 17;
        seed ^= seed << 5;
        seed
    };
    for _ in 0..500 {
        let mut payload = [0u8; PAYLOAD_SIZE];
        for byte in payload.iter_mut() {
            *byte = next() as u8;
        }
        let request = PFPRequest {
            command_id: (next() % 15) as u8,
            hop_count: next() as u8,
            source_addr: next(),
            dest_addr: next(),
            forwarded_by_addr: next(),
            request_id: next() as u8,
            request_part: next() as u8,
            request_count: next() as u8,
            payload,
        };
        let frame = request.encode();
        assert_eq!(parse(&frame), Ok((request, &[][..])));
    }
}

#[test]
fn decode_returns_what_follows_the_frame() {
    let request = sample_request();
    let mut bytes = request.encode().to_vec();
    bytes.extend_from_slice(b"\r\n");
    let (decoded, rest) = parse(&bytes).unwrap();
    assert_eq!(decoded, request);
    assert_eq!(rest, b"\r\n");
}

#[test]
fn decode_reads_header_fields_most_significant_byte_first() {
    let mut bytes = vec![0u8; FRAME_SIZE];
    bytes[0] = 0x0E;
    bytes[1] = 0x11;
    bytes[2..6].copy_from_slice(&[0x00, 0x00, 0x01, 0x00]);
    bytes[6..10].copy_from_slice(&[0x80, 0x00, 0x00, 0x00]);
    bytes[10..14].copy_from_slice(&[0x00, 0x00, 0x00, 0x2A]);
    bytes[14] = 1;
    bytes[15] = 2;
    bytes[16] = 3;
    bytes[17] = 0xEE;
    bytes[48] = 0xDD;
    let (request, rest) = parse(&bytes).unwrap();
    assert_eq!(request.command_id, 0x0E);
    assert_eq!(request.hop_count, 0x11);
    assert_eq!(request.source_addr, 256);
    assert_eq!(request.dest_addr, 0x8000_0000);
    assert_eq!(request.forwarded_by_addr, 42);
    assert_eq!(request.request_id, 1);
    assert_eq!(request.request_part, 2);
    assert_eq!(request.request_count, 3);
    assert_eq!(request.payload[0], 0xEE);
    assert_eq!(request.payload[31], 0xDD);
    assert!(rest.is_empty());
}

#[test]
fn decode_rejects_unknown_command() {
    let mut bytes = sample_request().encode().to_vec();
    bytes[0] = 0x20;
    assert_eq!(parse(&bytes), Err(DecodeError::InvalidCommand));
    bytes[0] = 0x0F;
    assert_eq!(parse(&bytes), Err(DecodeError::InvalidCommand));
}

#[test]
fn decode_rejects_short_input() {
    let bytes = sample_request().encode();
    assert_eq!(parse(&bytes[..FRAME_SIZE - 1]), Err(DecodeError::Truncated));
    assert_eq!(parse(&bytes[..1]), Err(DecodeError::Truncated));
    assert_eq!(parse(&[]), Err(DecodeError::Truncated));
}

#[test]
fn decode_judges_the_command_before_the_length() {
    assert_eq!(parse(&[0x20]), Err(DecodeError::InvalidCommand));
    assert_eq!(parse(&[0xFF, 0x00, 0x00]), Err(DecodeError::InvalidCommand));
}

#[test]
fn push_payload_yields_address_and_intensity() {
    let mut payload = vec![0x00, 0x00, 0x00, 0x05, 0x00, 0x00, 0x00, 0x2A];
    payload.extend_from_slice(&[0u8; 24]);
    assert_eq!(payload.len(), 32);
    assert_eq!(parse_push_payload(&payload), Ok((5, 42)));
}

#[test]
fn push_payload_is_big_endian() {
    let payload = [0x12, 0x34, 0x56, 0x78, 0xFF, 0xFF, 0xFF, 0xFF];
    assert_eq!(parse_push_payload(&payload), Ok((0x1234_5678, u32::MAX)));
}

#[test]
fn push_payload_shorter_than_eight_bytes_is_truncated() {
    assert_eq!(parse_push_payload(&[0, 0, 0, 5, 0, 0, 0]), Err(DecodeError::Truncated));
    assert_eq!(parse_push_payload(&[]), Err(DecodeError::Truncated));
}

#[test]
fn push_reading_only_for_push_requests() {
    let mut request = sample_request();
    request.payload[..8].copy_from_slice(&[0, 0, 0, 5, 0, 0, 0, 42]);
    assert_eq!(push_reading(&request), Some((5, 42)));
    request.command_id = Command::PushAck.to_byte();
    assert_eq!(push_reading(&request), None);
}

#[test]
fn discovery_request_fields() {
    let request = PFPRequest::new_helop(0xDEAD_BEEF);
    assert_eq!(
        request,
        PFPRequest {
            command_id: 0x00,
            hop_count: 0,
            source_addr: 0xDEAD_BEEF,
            dest_addr: 0,
            forwarded_by_addr: 0,
            request_id: 1,
            request_part: 0,
            request_count: 1,
            payload: [0u8; PAYLOAD_SIZE],
        }
    );
}

#[test]
fn topology_add_carries_target_big_endian() {
    let request = PFPRequest::new_add(1, 0x0A0B_0C0D);
    let mut payload = [0u8; PAYLOAD_SIZE];
    payload[..4].copy_from_slice(&[0x0A, 0x0B, 0x0C, 0x0D]);
    assert_eq!(
        request,
        PFPRequest {
            command_id: 0x0C,
            hop_count: 0,
            source_addr: 1,
            dest_addr: 0,
            forwarded_by_addr: 0,
            request_id: 1,
            request_part: 0,
            request_count: 1,
            payload,
        }
    );
}

#[test]
fn topology_del_carries_target_big_endian() {
    let request = PFPRequest::new_del(2, 0x0102_0304);
    let mut payload = [0u8; PAYLOAD_SIZE];
    payload[..4].copy_from_slice(&[0x01, 0x02, 0x03, 0x04]);
    assert_eq!(request.command_id, Command::Add.to_byte());
    assert_eq!(request.source_addr, 2);
    assert_eq!(request.dest_addr, 0);
    assert_eq!(request.forwarded_by_addr, 0);
    assert_eq!(request.hop_count, 0);
    assert_eq!(request.request_id, 1);
    assert_eq!(request.request_part, 0);
    assert_eq!(request.request_count, 1);
    assert_eq!(request.payload, payload);
}

#[test]
fn request_command_is_decoded_command_byte() {
    assert_eq!(PFPRequest::new_helop(1).command(), Some(Command::HeloP));
    let mut request = sample_request();
    assert_eq!(request.command(), Some(Command::Push));
    request.command_id = 0x42;
    assert_eq!(request.command(), None);
}
