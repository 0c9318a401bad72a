use dns_hero::commands::{b64_query, build_query_packet};
use dns_hero::data::{DecomposedPacket, Label, Packet};
use dns_hero::doh::{doh_dns_param, doh_url};
use dns_hero::enums::{Class, Type};
use dns_hero::util::CodecError;

#[test]
fn b64_of_www_example_com_matches_the_known_prefix() {
    let encoded = b64_query(&vec![String::from("www.example.com")]).expect("encodable");
    // 33 wire bytes make 44 base64 characters, padding included.
    assert_eq!(encoded.len(), 44);
    assert!(encoded.starts_with("EjQBAAABAAAA"));

    let raw = base64::decode(&encoded).expect("valid base64");
    assert_eq!(raw.len(), 33);
    let p = DecomposedPacket::from_packet(&Packet::from_vec(&raw)).expect("decodable");
    assert_eq!(p.id, 0x1234);
    assert_eq!(p.questions.len(), 1);
    match &p.questions[0].label {
        Label::Domain(d) => assert_eq!(d, "www.example.com"),
        Label::Pointer(_) => panic!("expected a domain label"),
    }
    assert_eq!(p.questions[0].qtype, Type::A);
    assert_eq!(p.questions[0].qclass, Class::Internet);
}

#[test]
fn b64_rejects_an_overlong_part() {
    let long = "y".repeat(64);
    assert_eq!(
        b64_query(&vec![long]).unwrap_err(),
        CodecError::LabelPartTooLong
    );
}

#[test]
fn query_packet_builder_sets_one_question_per_domain() {
    let domains = vec![String::from("a.example"), String::from("b.example")];
    let p = build_query_packet(&domains, 0x7777);
    assert_eq!(p.id, 0x7777);
    assert!(!p.is_response);
    assert!(p.recursion_desired);
    assert_eq!(p.questions.len(), 2);
    match &p.questions[1].label {
        Label::Domain(d) => assert_eq!(d, "b.example"),
        Label::Pointer(_) => panic!("expected a domain label"),
    }
    assert!(p.answers.is_empty());
}

#[test]
fn dns_param_is_base64_without_padding() {
    // 0xFF 0xFF encodes to "//8=" with padding; the parameter drops the '='.
    assert_eq!(doh_dns_param(&vec![0xFF, 0xFF]), "//8");
    // A length that needs no padding is left as it is.
    assert_eq!(doh_dns_param(&vec![0xFF, 0xFF, 0xFF]), "////");
    assert_eq!(doh_dns_param(&Vec::new()), "");
    // The parameter agrees with the crate's own unpadded form.
    let query = build_query_packet(&vec![String::from("www.example.com")], 0x1234)
        .to_raw()
        .expect("encodable");
    let param = doh_dns_param(&query.data);
    assert_eq!(param, base64::encode(&query.data).replace('=', ""));
    assert!(param.starts_with("EjQBAAABAAAA"));
}

#[test]
fn url_appends_the_dns_parameter() {
    let url = doh_url(
        &String::from("https://doh.cleanbrowsing.org/doh/family-filter"),
        &String::from("EjQB"),
    );
    assert_eq!(url, "https://doh.cleanbrowsing.org/doh/family-filter?dns=EjQB");
}
