//! The resolver daemon's decisions, one datagram at a time: classify the
//! query against the local allow and block lists, synthesize the blocked
//! answer, recognize the filtering authority's block marker, and select the
//! final response from the two upstream replies.

use vstd::prelude::*;

use crate::data::{DecomposedPacket, DecomposedPacketView, Label, LabelView, Packet, Resource,
    ResourceView};
use crate::data::{lemma_parse_resources_data_len, spec_decode_packet, spec_enc_packet,
    spec_packet_ok, spec_parse_questions, spec_parse_resources, spec_resource_views};
use crate::enums::{Class, ResponseCode, Type};
use crate::util::{parse_label, spec_get_u16, spec_parse_label, CodecError};

verus! {

/// How the local lists judge a query.
#[derive(Clone, Copy, PartialEq, Eq, Structural, Debug)]
pub enum BlockAllowStatus {
    Neutral,
    Block,
    Allow,
}

/// The domains the local policy blocks outright.
pub open spec fn spec_block_list() -> Seq<Seq<char>> {
    seq!["lego.com"@]
}

/// The domains the local policy passes to the plain upstream unfiltered.
pub open spec fn spec_allow_list() -> Seq<Seq<char>> {
    seq!["reddit.com"@]
}

/// The judgement of a decoded query: `Block` when the first question's
/// domain is on the block list, `Allow` when it is on the allow list, and
/// `Neutral` otherwise — in particular for a query without questions or
/// whose first label is a pointer.  The match is exact string equality.
pub open spec fn spec_classify(p: DecomposedPacketView) -> BlockAllowStatus {
    if p.questions.len() == 0 {
        BlockAllowStatus::Neutral
    } else {
        match p.questions[0].label {
            LabelView::Pointer(_) => BlockAllowStatus::Neutral,
            LabelView::Domain(d) => if spec_block_list().contains(d) {
                BlockAllowStatus::Block
            } else if spec_allow_list().contains(d) {
                BlockAllowStatus::Allow
            } else {
                BlockAllowStatus::Neutral
            },
        }
    }
}

/// Classifies a decoded query against the block and allow lists.
pub fn get_block_allow_status(parsed_packet: &DecomposedPacket) -> (r: BlockAllowStatus)
    ensures
        r == spec_classify(parsed_packet@),
{
    proof {
        assert(spec_block_list()[0] == "lego.com"@);
        assert(spec_allow_list()[0] == "reddit.com"@);
    }
    if parsed_packet.questions.len() == 0 {
        return BlockAllowStatus::Neutral;
    }

    proof {
        assert(parsed_packet@.questions[0] == parsed_packet.questions@[0]@);
    }
    match &parsed_packet.questions[0].label {
        Label::Pointer(_) => BlockAllowStatus::Neutral,
        Label::Domain(domain_value) => {
            let blocked = String::from_str("lego.com");
            let allowed = String::from_str("reddit.com");

            if *domain_value == blocked {
                proof {
                    assert(spec_block_list().contains(domain_value@));
                }
                BlockAllowStatus::Block
            } else if *domain_value == allowed {
                proof {
                    assert(!spec_block_list().contains(domain_value@));
                    assert(spec_allow_list().contains(domain_value@));
                }
                BlockAllowStatus::Allow
            } else {
                proof {
                    assert(!spec_block_list().contains(domain_value@));
                    assert(!spec_allow_list().contains(domain_value@));
                }
                BlockAllowStatus::Neutral
            }
        },
    }
}

/// The query turned into the synthesized blocked answer: the same message
/// with one more answer — an A record for the first question's name, class
/// Internet, a TTL of 10 and the four sinkhole address bytes — marked as a
/// response with no error.
pub open spec fn spec_block_packet(p: DecomposedPacketView) -> DecomposedPacketView {
    DecomposedPacketView {
        is_response: true,
        response_code: ResponseCode::NoError,
        answers: p.answers.push(
            ResourceView {
                label: p.questions[0].label,
                rtype: Type::A,
                rclass: Class::Internet,
                ttl: 10,
                length: 4,
                data: seq![208u8, 185u8, 195u8, 92u8],
            },
        ),
        ..p
    }
}

/// Builds the wire bytes of the synthesized blocked answer for a query.
/// Only a label with a part of 64 or more characters is rejected.
pub fn make_block_packet(work_packet: DecomposedPacket) -> (r: Result<Vec<u8>, CodecError>)
    requires
        work_packet.questions.len() > 0,
    ensures
        match r {
            Ok(bytes) => spec_packet_ok(spec_block_packet(work_packet@)) && bytes@
                == spec_enc_packet(spec_block_packet(work_packet@)),
            Err(e) => !spec_packet_ok(spec_block_packet(work_packet@)) && e
                == CodecError::LabelPartTooLong,
        },
{
    let ghost p0 = work_packet@;
    let mut work_packet = work_packet;

    let label = work_packet.questions[0].label.duplicate();
    let mut data: Vec<u8> = Vec::new();
    data.push(208);
    data.push(185);
    data.push(195);
    data.push(92);

    let ghost answers0 = work_packet.answers@;
    let block_answer = Resource {
        label,
        rtype: Type::A,
        rclass: Class::Internet,
        ttl: 10,
        length: 4,
        data,
    };
    proof {
        assert(data@ =~= seq![208u8, 185u8, 195u8, 92u8]);
    }
    work_packet.answers.push(block_answer);

    work_packet.is_response = true;
    work_packet.response_code = ResponseCode::NoError;

    proof {
        assert(p0.questions[0] == work_packet.questions@[0]@);
        assert(spec_resource_views(answers0.push(block_answer)) =~= spec_resource_views(
            answers0,
        ).push(block_answer@));
        assert(work_packet@ =~= spec_block_packet(p0));
    }

    let packet = match work_packet.to_raw() {
        Ok(p) => p,
        Err(e) => {
            return Err(e);
        },
    };
    Ok(packet.data)
}

/// The name whose appearance as an SOA authority marks a response the
/// filtering authority has blocked.
pub open spec fn spec_authority_name() -> Seq<char> {
    "cleanbrowsing.rpz.noc.org"@
}

/// One authority record that carries the block marker: an SOA record whose
/// data begins with the authority's dotted name.
pub open spec fn spec_is_block_marker(r: ResourceView) -> bool {
    &&& r.rtype == Type::SOA
    &&& match spec_parse_label(r.data, 0) {
        Option::Some((LabelView::Domain(d), _end)) => d == spec_authority_name(),
        _ => false,
    }
}

/// The filtering authority has signalled a block: the response decodes,
/// its response code is NXDomain, and some authority record carries the
/// block marker.  Any other response — including one that does not decode —
/// does not count as blocked.
pub open spec fn spec_authority_blocked(b: Seq<u8>) -> bool {
    match spec_decode_packet(b) {
        Option::None => false,
        Option::Some(p) => p.response_code == ResponseCode::NXDomain && exists|j: int|
            0 <= j < p.authorities.len() && spec_is_block_marker(#[trigger] p.authorities[j]),
    }
}

/// Decides whether an upstream response is the filtering authority's block
/// signal.
pub fn authority_blocked_request(packet: &Vec<u8>) -> (r: bool)
    requires
        packet.len() < usize::MAX,
    ensures
        r == spec_authority_blocked(packet@),
{
    let nice_packet = match DecomposedPacket::from_packet(&Packet::from_vec(packet)) {
        Ok(p) => p,
        Err(_) => {
            return false;
        },
    };
    let ghost pv = nice_packet@;
    let ghost auviews = spec_resource_views(nice_packet.authorities@);

    match nice_packet.response_code {
        ResponseCode::NXDomain => {
            let authority_name = String::from_str("cleanbrowsing.rpz.noc.org");
            proof {
                // The authority records were read off the wire, so each
                // carries at most 0xFFFF data bytes.
                let b = packet@;
                assert(spec_decode_packet(b) == Some(pv));
                let qres = spec_parse_questions(b, 12, spec_get_u16(b, 4) as nat);
                assert(qres is Some);
                let i1 = qres->Some_0.1;
                let ares = spec_parse_resources(b, i1, spec_get_u16(b, 6) as nat);
                assert(ares is Some);
                let i2 = ares->Some_0.1;
                let ures = spec_parse_resources(b, i2, spec_get_u16(b, 8) as nat);
                assert(ures is Some);
                assert(pv.authorities == ures->Some_0.0);
                lemma_parse_resources_data_len(b, i2, spec_get_u16(b, 8) as nat);
                assert(auviews == pv.authorities);
            }
            let mut j: usize = 0;
            while j < nice_packet.authorities.len()
                invariant
                    j <= nice_packet.authorities.len(),
                    spec_decode_packet(packet@) == Some(nice_packet@),
                    nice_packet@.response_code == ResponseCode::NXDomain,
                    auviews == spec_resource_views(nice_packet.authorities@),
                    auviews.len() == nice_packet.authorities.len(),
                    authority_name@ == spec_authority_name(),
                    forall|m: int| 0 <= m < auviews.len() ==> (#[trigger] auviews[m]).data.len()
                        < usize::MAX,
                    forall|m: int| 0 <= m < j ==> !spec_is_block_marker(#[trigger] auviews[m]),
                decreases nice_packet.authorities.len() - j,
            {
                let authority = &nice_packet.authorities[j];
                proof {
                    assert(auviews[j as int] == authority@);
                }
                let marked = match authority.rtype {
                    Type::SOA => {
                        match parse_label(&authority.data, 0) {
                            Ok((Label::Domain(val), _end)) => val == authority_name,
                            _ => false,
                        }
                    },
                    _ => false,
                };
                if marked {
                    proof {
                        assert(spec_is_block_marker(auviews[j as int]));
                        assert(nice_packet@.authorities[j as int] == auviews[j as int]);
                    }
                    return true;
                }
                proof {
                    assert(!spec_is_block_marker(auviews[j as int]));
                }
                j += 1;
            }
            false
        },
        _ => false,
    }
}

/// The response the daemon sends back, given how the query was classified
/// and the two upstream replies: the synthesized block for `Block`, the
/// plain upstream's reply for `Allow`, and for `Neutral` the filtering
/// authority's reply — unless that reply itself signals a block, in which
/// case the synthesized block again.
pub open spec fn spec_select_response(
    status: BlockAllowStatus,
    block: Seq<u8>,
    main: Seq<u8>,
    authority: Seq<u8>,
) -> Seq<u8> {
    match status {
        BlockAllowStatus::Block => block,
        BlockAllowStatus::Allow => main,
        BlockAllowStatus::Neutral => if spec_authority_blocked(authority) {
            block
        } else {
            authority
        },
    }
}

/// Selects the final response from the classification, the synthesized
/// block bytes and the two upstream replies.
pub fn select_response(
    status: BlockAllowStatus,
    block_res: Vec<u8>,
    main_res: Vec<u8>,
    authority_res: Vec<u8>,
) -> (r: Vec<u8>)
    requires
        authority_res.len() < usize::MAX,
    ensures
        r@ == spec_select_response(status, block_res@, main_res@, authority_res@),
{
    match status {
        BlockAllowStatus::Block => block_res,
        BlockAllowStatus::Allow => main_res,
        BlockAllowStatus::Neutral => {
            if authority_blocked_request(&authority_res) {
                block_res
            } else {
                authority_res
            }
        },
    }
}

/// What the daemon answers for one datagram, given the raw query and the
/// two upstream replies: `None` when the query does not decode (the daemon
/// drops it), or when the blocked answer is needed but cannot be built.
pub open spec fn spec_plan_response(query: Seq<u8>, main: Seq<u8>, authority: Seq<u8>) -> Option<
    Seq<u8>,
> {
    match spec_decode_packet(query) {
        Option::None => None,
        Option::Some(p) => {
            let status = spec_classify(p);
            if status == BlockAllowStatus::Block || (status == BlockAllowStatus::Neutral
                && spec_authority_blocked(authority)) {
                if p.questions.len() > 0 && spec_packet_ok(spec_block_packet(p)) {
                    Some(spec_enc_packet(spec_block_packet(p)))
                } else {
                    None
                }
            } else if status == BlockAllowStatus::Allow {
                Some(main)
            } else {
                Some(authority)
            }
        },
    }
}

/// Handles one datagram of the daemon: decodes the query, classifies it,
/// and selects the final response from the two upstream replies.  A query
/// that does not decode is dropped, as is one whose blocked answer cannot
/// be built.
pub fn plan_response(query: &Vec<u8>, main_res: Vec<u8>, authority_res: Vec<u8>) -> (r: Option<
    Vec<u8>,
>)
    requires
        query.len() < usize::MAX,
        authority_res.len() < usize::MAX,
    ensures
        match r {
            Some(bytes) => spec_plan_response(query@, main_res@, authority_res@) == Some(bytes@),
            None => spec_plan_response(query@, main_res@, authority_res@) is None,
        },
{
    let parsed_packet = match DecomposedPacket::from_packet(&Packet::from_vec(query)) {
        Ok(p) => p,
        Err(_) => {
            return None;
        },
    };

    let block_status = get_block_allow_status(&parsed_packet);

    let needs_block = match block_status {
        BlockAllowStatus::Block => true,
        BlockAllowStatus::Allow => false,
        BlockAllowStatus::Neutral => authority_blocked_request(&authority_res),
    };

    if needs_block {
        if parsed_packet.questions.len() == 0 {
            return None;
        }
        match make_block_packet(parsed_packet) {
            Ok(bytes) => Some(bytes),
            Err(_) => None,
        }
    } else {
        match block_status {
            BlockAllowStatus::Allow => Some(main_res),
            _ => Some(authority_res),
        }
    }
}

} // verus!
