use dns_hero::data::{DecomposedPacket, Label, Packet, Question, Resource};
use dns_hero::enums::{Class, Opcode, ResponseCode, Type};
use dns_hero::util::{get_flag, get_u16, get_u32, parse_label, parse_resource, set_flag, set_u16,
    str_domain_to_dns_domain, CodecError};

fn question(domain: &str) -> Question {
    Question {
        label: Label::Domain(String::from(domain)),
        qtype: Type::A,
        qclass: Class::Internet,
    }
}

fn a_record(domain: &str, ip: [u8; 4]) -> Resource {
    Resource {
        label: Label::Domain(String::from(domain)),
        rtype: Type::A,
        rclass: Class::Internet,
        ttl: 300,
        length: 4,
        data: vec![ip[0], ip[1], ip[2], ip[3]],
    }
}

fn domain_of(label: &Label) -> String {
    match label {
        Label::Domain(d) => d.clone(),
        Label::Pointer(_) => panic!("expected a domain label"),
    }
}

#[test]
fn round_trip_full_packet() {
    let mut p = DecomposedPacket::new();
    p.id = 0xBEEF;
    p.is_response = true;
    p.recursion_desired = true;
    p.recursion_available = true;
    p.authentic_data = true;
    p.opcode = Opcode::ServerStatus;
    p.response_code = ResponseCode::Refused;
    p.questions.push(question("www.example.com"));
    p.questions.push(question("reddit.com"));
    p.answers.push(a_record("www.example.com", [93, 184, 216, 34]));
    p.authorities.push(Resource {
        label: Label::Pointer(12),
        rtype: Type::NS,
        rclass: Class::Chaos,
        ttl: 0xDEADBEEF,
        length: 3,
        data: vec![9, 8, 7],
    });
    p.additional_records.push(a_record("a.b", [1, 2, 3, 4]));

    let raw = p.to_raw().expect("encodable");
    let q = DecomposedPacket::from_packet(&raw).expect("decodable");

    assert_eq!(q.id, 0xBEEF);
    assert!(q.is_response);
    assert!(q.recursion_desired);
    assert!(q.recursion_available);
    assert!(q.authentic_data);
    assert!(!q.is_authoritative);
    assert!(!q.is_truncated);
    assert!(!q.checking_disabled);
    assert_eq!(q.opcode, Opcode::ServerStatus);
    assert_eq!(q.response_code, ResponseCode::Refused);

    assert_eq!(q.questions.len(), 2);
    assert_eq!(domain_of(&q.questions[0].label), "www.example.com");
    assert_eq!(q.questions[0].qtype, Type::A);
    assert_eq!(q.questions[0].qclass, Class::Internet);
    assert_eq!(domain_of(&q.questions[1].label), "reddit.com");

    assert_eq!(q.answers.len(), 1);
    assert_eq!(q.answers[0].ttl, 300);
    assert_eq!(q.answers[0].length, 4);
    assert_eq!(q.answers[0].data, vec![93, 184, 216, 34]);

    assert_eq!(q.authorities.len(), 1);
    match q.authorities[0].label {
        Label::Pointer(offset) => assert_eq!(offset, 12),
        Label::Domain(_) => panic!("expected a pointer label"),
    }
    assert_eq!(q.authorities[0].rtype, Type::NS);
    assert_eq!(q.authorities[0].rclass, Class::Chaos);
    assert_eq!(q.authorities[0].ttl, 0xDEADBEEF);
    assert_eq!(q.authorities[0].data, vec![9, 8, 7]);

    assert_eq!(q.additional_records.len(), 1);
    assert_eq!(domain_of(&q.additional_records[0].label), "a.b");
}

#[test]
fn header_counts_follow_section_lengths() {
    let mut p = DecomposedPacket::new();
    p.questions.push(question("a.b"));
    p.answers.push(a_record("a.b", [1, 1, 1, 1]));
    p.answers.push(a_record("c.d", [2, 2, 2, 2]));
    p.authorities.push(a_record("e.f", [3, 3, 3, 3]));
    let raw = p.to_raw().expect("encodable");
    assert_eq!(&raw.data[4..12], &[0, 1, 0, 2, 0, 1, 0, 0]);
}

#[test]
fn toggling_one_flag_moves_one_documented_bit() {
    let mut p = DecomposedPacket::new();
    p.questions.push(question("www.example.com"));
    let plain = p.to_raw().expect("encodable").data;

    p.is_truncated = true;
    let truncated = p.to_raw().expect("encodable").data;
    assert_eq!(plain.len(), truncated.len());
    for i in 0..plain.len() {
        if i == 2 {
            assert_eq!(plain[2] ^ truncated[2], 0x02);
        } else {
            assert_eq!(plain[i], truncated[i]);
        }
    }
    p.is_truncated = false;

    p.checking_disabled = true;
    let checking = p.to_raw().expect("encodable").data;
    for i in 0..plain.len() {
        if i == 3 {
            assert_eq!(plain[3] ^ checking[3], 0x10);
        } else {
            assert_eq!(plain[i], checking[i]);
        }
    }
}

#[test]
fn label_emit_length_prefixes_each_part() {
    let bytes = str_domain_to_dns_domain(&String::from("www.example.com")).expect("short parts");
    let mut expected = vec![3u8];
    expected.extend_from_slice(b"www");
    expected.push(7);
    expected.extend_from_slice(b"example");
    expected.push(3);
    expected.extend_from_slice(b"com");
    expected.push(0);
    assert_eq!(bytes, expected);
}

#[test]
fn label_emit_rejects_part_of_64_bytes() {
    let long_part = "x".repeat(64);
    let domain = format!("www.{}.com", long_part);
    assert_eq!(
        str_domain_to_dns_domain(&domain),
        Err(CodecError::LabelPartTooLong)
    );
    let just_under = format!("www.{}.com", "x".repeat(63));
    assert!(str_domain_to_dns_domain(&just_under).is_ok());
}

#[test]
fn pointer_decode_takes_low_six_bits_and_two_bytes() {
    for b in [0xC0u8, 0xC5, 0xFF] {
        let bytes = vec![b, 0x00];
        let (label, end) = parse_label(&bytes, 0).expect("pointer parses");
        match label {
            Label::Pointer(offset) => assert_eq!(offset, b & 0x3F),
            Label::Domain(_) => panic!("expected a pointer label"),
        }
        assert_eq!(end, 2);
    }
}

#[test]
fn header_only_response_decodes() {
    let bytes = vec![0x12, 0x34, 0x81, 0x80, 0, 0, 0, 0, 0, 0, 0, 0];
    let p = DecomposedPacket::from_packet(&Packet::from_vec(&bytes)).expect("decodable");
    assert_eq!(p.id, 0x1234);
    assert!(p.is_response);
    assert!(p.recursion_desired);
    assert!(p.recursion_available);
    assert_eq!(p.response_code, ResponseCode::NoError);
    assert!(p.questions.is_empty());
    assert!(p.answers.is_empty());
    assert!(p.authorities.is_empty());
    assert!(p.additional_records.is_empty());
}

#[test]
fn truncated_declared_question_is_rejected() {
    // The header declares one question but the buffer ends with the header.
    let bytes = vec![0x12, 0x34, 0x81, 0x80, 0, 1, 0, 0, 0, 0, 0, 0];
    assert_eq!(
        DecomposedPacket::from_packet(&Packet::from_vec(&bytes)).unwrap_err(),
        CodecError::BufferTooShort
    );
    let short_header = vec![0x12, 0x34];
    assert_eq!(
        DecomposedPacket::from_packet(&Packet::from_vec(&short_header)).unwrap_err(),
        CodecError::BufferTooShort
    );
}

#[test]
fn trailing_bytes_are_ignored() {
    let mut p = DecomposedPacket::new();
    p.id = 0x0102;
    p.questions.push(question("a.b"));
    let mut bytes = p.to_raw().expect("encodable").data;
    bytes.extend_from_slice(&[0xDE, 0xAD, 0xBE, 0xEF]);
    let q = DecomposedPacket::from_packet(&Packet::from_vec(&bytes)).expect("decodable");
    assert_eq!(q.id, 0x0102);
    assert_eq!(q.questions.len(), 1);
}

#[test]
fn decoded_overlong_part_cannot_be_reemitted() {
    // A length byte of 100 is a legal wire part, but no single emitted part
    // may reach 64 bytes, so the decoded label does not encode again.
    let mut bytes = vec![100u8];
    bytes.extend_from_slice(&[b'z'; 100]);
    bytes.push(0);
    let (label, end) = parse_label(&bytes, 0).expect("parses");
    assert_eq!(end, bytes.len());
    let mut out = Vec::new();
    assert_eq!(label.to_raw(&mut out).unwrap_err(), CodecError::LabelPartTooLong);
    assert!(out.is_empty());
}

#[test]
fn byte_ops_are_big_endian() {
    let mut buf = vec![0u8; 6];
    set_u16(&mut buf, 0xABCD, 2);
    assert_eq!(buf, vec![0, 0, 0xAB, 0xCD, 0, 0]);
    assert_eq!(get_u16(&buf, 2), 0xABCD);

    let word = vec![0x01, 0x02, 0x03, 0x04];
    assert_eq!(get_u32(&word, 0), 0x01020304);
}

#[test]
fn flag_ops_touch_single_bits() {
    assert!(get_flag(0b0000_0100, 2));
    assert!(!get_flag(0b0000_0100, 3));
    let mut byte = 0b1000_0001u8;
    set_flag(&mut byte, 3, true);
    assert_eq!(byte, 0b1000_1001);
    set_flag(&mut byte, 0, false);
    assert_eq!(byte, 0b1000_1000);
}

#[test]
fn packet_header_accessors() {
    let mut packet = Packet::init();
    assert_eq!(packet.data.len(), 12);
    packet.set_id(0x4242);
    packet.set_question_count(3);
    packet.set_answer_count(4);
    packet.set_authority_count(5);
    packet.set_additional_record_count(6);
    assert_eq!(packet.get_id(), 0x4242);
    assert_eq!(packet.get_question_count(), 3);
    assert_eq!(packet.get_answer_count(), 4);
    assert_eq!(packet.get_authority_count(), 5);
    assert_eq!(packet.get_additional_record_count(), 6);

    let copied = Packet::from_vec(&packet.data);
    assert_eq!(copied.data, packet.data);
    let moved = Packet::init_from_full(packet.data.clone());
    assert_eq!(moved.data, packet.data);
}

#[test]
fn enum_codes_round_trip() {
    assert_eq!(Type::from_raw(6), Type::SOA);
    assert_eq!(Type::from_raw(1), Type::A);
    assert_eq!(Type::from_raw(54), Type::Unknown(54));
    assert_eq!(Type::Unknown(54).code(), 54);
    assert_eq!(Type::SOA.code(), 6);

    assert_eq!(Class::from_raw(1), Class::Internet);
    assert_eq!(Class::from_raw(2), Class::Unknown(2));

    assert_eq!(Opcode::from_raw(2), Opcode::ServerStatus);
    assert_eq!(Opcode::from_raw(9), Opcode::Unknown);
    assert_eq!(Opcode::ServerStatus.to_raw(), 2);

    assert_eq!(ResponseCode::from_raw(3), ResponseCode::NXDomain);
    assert_eq!(ResponseCode::from_raw(15), ResponseCode::Unknown);
    assert_eq!(ResponseCode::NXDomain.to_raw(), 3);
}

#[test]
fn parse_resource_reads_declared_data_length() {
    let mut bytes = str_domain_to_dns_domain(&String::from("a.b")).expect("short parts");
    bytes.extend_from_slice(&[0, 1]); // type A
    bytes.extend_from_slice(&[0, 1]); // class Internet
    bytes.extend_from_slice(&[0, 0, 0, 10]); // ttl
    bytes.extend_from_slice(&[0, 2]); // data length
    bytes.extend_from_slice(&[0xAA, 0xBB]);
    let (resource, end) = parse_resource(&bytes, 0).expect("parses");
    assert_eq!(end, bytes.len());
    assert_eq!(resource.rtype, Type::A);
    assert_eq!(resource.rclass, Class::Internet);
    assert_eq!(resource.ttl, 10);
    assert_eq!(resource.length, 2);
    assert_eq!(resource.data, vec![0xAA, 0xBB]);

    // Declared length runs past the end of the buffer.
    let last = bytes.len() - 1;
    bytes.truncate(last);
    assert_eq!(parse_resource(&bytes, 0).unwrap_err(), CodecError::BufferTooShort);
}
