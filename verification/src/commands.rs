//! The computation behind the one-shot subcommands: building an address
//! query for a list of domains and rendering its wire form as base64.

use vstd::prelude::*;

use crate::data::{DecomposedPacket, DecomposedPacketView, Label, LabelView, Question,
    QuestionView};
use crate::data::{spec_enc_packet, spec_packet_ok, spec_question_views};
use crate::doh::{b64_encode, base64_of};
use crate::enums::{Class, Opcode, ResponseCode, Type};
use crate::util::CodecError;

verus! {

/// The transaction identifier the one-shot subcommands stamp on the
/// queries they build.
pub open spec fn spec_query_id() -> u16 {
    0x1234
}

/// An address query for the given domains: one A/Internet question per
/// domain, in order, and nothing else.
pub open spec fn spec_query_packet(domains: Seq<Seq<char>>, id: u16) -> DecomposedPacketView {
    DecomposedPacketView {
        id,
        is_response: false,
        opcode: Opcode::StandardQuery,
        is_authoritative: false,
        is_truncated: false,
        recursion_desired: true,
        recursion_available: false,
        authentic_data: false,
        checking_disabled: false,
        response_code: ResponseCode::NoError,
        questions: domains.map_values(
            |d: Seq<char>|
                QuestionView { label: LabelView::Domain(d), qtype: Type::A, qclass: Class::Internet },
        ),
        answers: Seq::empty(),
        authorities: Seq::empty(),
        additional_records: Seq::empty(),
    }
}

/// The domains as character sequences, in order.
pub open spec fn spec_domain_views(domains: Seq<String>) -> Seq<Seq<char>> {
    domains.map_values(|s: String| s@)
}

/// Builds the address query carrying one A/Internet question for each of
/// the given domains, stamped with the given transaction identifier.
pub fn build_query_packet(domains: &Vec<String>, id: u16) -> (r: DecomposedPacket)
    ensures
        r@ == spec_query_packet(spec_domain_views(domains@), id),
{
    let mut packet = DecomposedPacket::new();
    packet.id = id;
    packet.recursion_desired = true;

    let ghost doms = spec_domain_views(domains@);
    let mut i: usize = 0;
    while i < domains.len()
        invariant
            i <= domains.len(),
            doms == spec_domain_views(domains@),
            doms.len() == domains.len(),
            spec_question_views(packet.questions@) =~= spec_query_packet(doms, id).questions.take(
                i as int,
            ),
            packet.id == id,
            !packet.is_response,
            packet.opcode == Opcode::StandardQuery,
            !packet.is_authoritative,
            !packet.is_truncated,
            packet.recursion_desired,
            !packet.recursion_available,
            !packet.authentic_data,
            !packet.checking_disabled,
            packet.response_code == ResponseCode::NoError,
            packet.answers@.len() == 0,
            packet.authorities@.len() == 0,
            packet.additional_records@.len() == 0,
        decreases domains.len() - i,
    {
        let ghost qs0 = packet.questions@;
        let question = Question {
            label: Label::Domain(domains[i].clone()),
            qtype: Type::A,
            qclass: Class::Internet,
        };
        packet.questions.push(question);
        i += 1;
        proof {
            let target = spec_query_packet(doms, id).questions;
            assert(spec_question_views(qs0.push(question)) =~= spec_question_views(qs0).push(
                question@,
            ));
            assert(target[i as int - 1] == question@);
            assert(target.take(i as int) =~= target.take(i as int - 1).push(
                target[i as int - 1],
            ));
        }
    }
    proof {
        let target = spec_query_packet(doms, id).questions;
        assert(target.take(target.len() as int) =~= target);
        assert(packet@ =~= spec_query_packet(doms, id));
    }
    packet
}

/// The base64 rendering, padding included, of the wire form of an address
/// query for the given domains, stamped with the standard identifier.  A
/// domain with a part of 64 or more characters is rejected.
pub fn b64_query(domains: &Vec<String>) -> (r: Result<String, CodecError>)
    ensures
        match r {
            Ok(s) => spec_packet_ok(spec_query_packet(spec_domain_views(domains@), spec_query_id()))
                && s@ == base64_of(
                spec_enc_packet(spec_query_packet(spec_domain_views(domains@), spec_query_id())),
            ),
            Err(e) => !spec_packet_ok(
                spec_query_packet(spec_domain_views(domains@), spec_query_id()),
            ) && e == CodecError::LabelPartTooLong,
        },
{
    let packet = build_query_packet(domains, 0x1234);
    let raw_packet = match packet.to_raw() {
        Ok(p) => p,
        Err(e) => {
            return Err(e);
        },
    };
    Ok(b64_encode(&raw_packet.data))
}

} // verus!
