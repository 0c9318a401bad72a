use dns_hero::commands::build_query_packet;
use dns_hero::daemon::{authority_blocked_request, get_block_allow_status, make_block_packet,
    plan_response, select_response, BlockAllowStatus};
use dns_hero::data::{DecomposedPacket, Label, Packet, Resource};
use dns_hero::enums::{Class, ResponseCode, Type};
use dns_hero::util::str_domain_to_dns_domain;

fn query_for(domain: &str) -> DecomposedPacket {
    build_query_packet(&vec![String::from(domain)], 0x1234)
}

fn query_bytes_for(domain: &str) -> Vec<u8> {
    query_for(domain).to_raw().expect("encodable").data
}

/// A response with NXDomain and one SOA authority whose data starts with
/// the given name as a label.
fn nxdomain_with_soa_authority(soa_name: &str) -> Vec<u8> {
    let mut p = query_for("example.com");
    p.is_response = true;
    p.response_code = ResponseCode::NXDomain;
    let rdata = str_domain_to_dns_domain(&String::from(soa_name)).expect("short parts");
    p.authorities.push(Resource {
        label: Label::Domain(String::from("example.com")),
        rtype: Type::SOA,
        rclass: Class::Internet,
        ttl: 60,
        length: rdata.len() as u16,
        data: rdata,
    });
    p.to_raw().expect("encodable").data
}

/// A NOERROR response carrying one A answer.
fn noerror_with_a_answer(domain: &str) -> Vec<u8> {
    let mut p = query_for(domain);
    p.is_response = true;
    p.answers.push(Resource {
        label: Label::Domain(String::from(domain)),
        rtype: Type::A,
        rclass: Class::Internet,
        ttl: 60,
        length: 4,
        data: vec![93, 184, 216, 34],
    });
    p.to_raw().expect("encodable").data
}

#[test]
fn classify_blocked_domain() {
    assert_eq!(
        get_block_allow_status(&query_for("lego.com")),
        BlockAllowStatus::Block
    );
}

#[test]
fn classify_allowed_domain() {
    assert_eq!(
        get_block_allow_status(&query_for("reddit.com")),
        BlockAllowStatus::Allow
    );
}

#[test]
fn classify_unlisted_domain_is_neutral() {
    assert_eq!(
        get_block_allow_status(&query_for("example.com")),
        BlockAllowStatus::Neutral
    );
    // Exact match only: a subdomain of a blocked name is not blocked.
    assert_eq!(
        get_block_allow_status(&query_for("www.lego.com")),
        BlockAllowStatus::Neutral
    );
}

#[test]
fn classify_no_questions_is_neutral() {
    let empty = DecomposedPacket::new();
    assert_eq!(get_block_allow_status(&empty), BlockAllowStatus::Neutral);
}

#[test]
fn classify_pointer_label_is_neutral() {
    let mut p = DecomposedPacket::new();
    p.questions.push(dns_hero::data::Question {
        label: Label::Pointer(12),
        qtype: Type::A,
        qclass: Class::Internet,
    });
    assert_eq!(get_block_allow_status(&p), BlockAllowStatus::Neutral);
}

#[test]
fn block_packet_carries_sinkhole_answer() {
    let bytes = make_block_packet(query_for("lego.com")).expect("encodable");
    let p = DecomposedPacket::from_packet(&Packet::from_vec(&bytes)).expect("decodable");
    assert!(p.is_response);
    assert_eq!(p.response_code, ResponseCode::NoError);
    assert_eq!(p.answers.len(), 1);
    let answer = &p.answers[0];
    assert_eq!(answer.rtype, Type::A);
    assert_eq!(answer.rclass, Class::Internet);
    assert_eq!(answer.ttl, 10);
    assert_eq!(answer.length, 4);
    assert_eq!(answer.data, vec![208, 185, 195, 92]);
    match &answer.label {
        Label::Domain(d) => assert_eq!(d, "lego.com"),
        Label::Pointer(_) => panic!("expected a domain label"),
    }
}

#[test]
fn authority_block_marker_is_recognized() {
    let blocked = nxdomain_with_soa_authority("cleanbrowsing.rpz.noc.org");
    assert!(authority_blocked_request(&blocked));
}

#[test]
fn authority_marker_needs_nxdomain() {
    let mut p = query_for("example.com");
    p.is_response = true;
    p.response_code = ResponseCode::NoError;
    let rdata =
        str_domain_to_dns_domain(&String::from("cleanbrowsing.rpz.noc.org")).expect("short parts");
    p.authorities.push(Resource {
        label: Label::Domain(String::from("example.com")),
        rtype: Type::SOA,
        rclass: Class::Internet,
        ttl: 60,
        length: rdata.len() as u16,
        data: rdata,
    });
    let bytes = p.to_raw().expect("encodable").data;
    assert!(!authority_blocked_request(&bytes));
}

#[test]
fn authority_marker_needs_the_authority_name() {
    let other = nxdomain_with_soa_authority("ns1.example.net");
    assert!(!authority_blocked_request(&other));
}

#[test]
fn authority_marker_ignores_undecodable_bytes() {
    assert!(!authority_blocked_request(&vec![1, 2, 3]));
}

#[test]
fn selection_rule_truth_table() {
    let block = vec![1u8];
    let main = vec![2u8];
    let neutral_authority = noerror_with_a_answer("example.com");
    let blocking_authority = nxdomain_with_soa_authority("cleanbrowsing.rpz.noc.org");

    assert_eq!(
        select_response(
            BlockAllowStatus::Block,
            block.clone(),
            main.clone(),
            neutral_authority.clone()
        ),
        block
    );
    assert_eq!(
        select_response(
            BlockAllowStatus::Allow,
            block.clone(),
            main.clone(),
            blocking_authority.clone()
        ),
        main
    );
    assert_eq!(
        select_response(
            BlockAllowStatus::Neutral,
            block.clone(),
            main.clone(),
            neutral_authority.clone()
        ),
        neutral_authority
    );
    assert_eq!(
        select_response(
            BlockAllowStatus::Neutral,
            block.clone(),
            main.clone(),
            blocking_authority
        ),
        block
    );
}

#[test]
fn allowed_query_gets_the_plain_upstream_reply() {
    let query = query_bytes_for("reddit.com");
    let udp_reply = noerror_with_a_answer("reddit.com");
    let doh_reply = nxdomain_with_soa_authority("cleanbrowsing.rpz.noc.org");
    let sent = plan_response(&query, udp_reply.clone(), doh_reply).expect("handled");
    assert_eq!(sent, udp_reply);
}

#[test]
fn blocked_query_gets_the_synthesized_answer() {
    let query = query_bytes_for("lego.com");
    let udp_reply = noerror_with_a_answer("lego.com");
    let doh_reply = noerror_with_a_answer("lego.com");
    let sent = plan_response(&query, udp_reply.clone(), doh_reply.clone()).expect("handled");
    assert_ne!(sent, udp_reply);
    assert_ne!(sent, doh_reply);

    let p = DecomposedPacket::from_packet(&Packet::from_vec(&sent)).expect("decodable");
    assert!(p.is_response);
    assert_eq!(p.response_code, ResponseCode::NoError);
    assert_eq!(p.answers.len(), 1);
    assert_eq!(p.answers[0].ttl, 10);
    assert_eq!(p.answers[0].data, vec![208, 185, 195, 92]);
}

#[test]
fn authority_block_overrides_neutral_query() {
    let query = query_bytes_for("example.com");
    let udp_reply = noerror_with_a_answer("example.com");
    let doh_reply = nxdomain_with_soa_authority("cleanbrowsing.rpz.noc.org");
    let sent = plan_response(&query, udp_reply.clone(), doh_reply.clone()).expect("handled");
    assert_ne!(sent, udp_reply);
    assert_ne!(sent, doh_reply);
    let expected = make_block_packet(query_for("example.com")).expect("encodable");
    assert_eq!(sent, expected);
}

#[test]
fn neutral_query_gets_the_authority_reply() {
    let query = query_bytes_for("example.com");
    let udp_reply = noerror_with_a_answer("example.com");
    let doh_reply = noerror_with_a_answer("example.com");
    let sent = plan_response(&query, udp_reply, doh_reply.clone()).expect("handled");
    assert_eq!(sent, doh_reply);
}

#[test]
fn undecodable_query_is_dropped() {
    let query = vec![0xFFu8, 0x00];
    assert!(plan_response(&query, vec![1], vec![2]).is_none());
}
