//! The laws of the codec: decoding an emitted message gives back the message
//! that was emitted, the header counts mirror the section lengths, and each
//! header flag occupies exactly its documented bit.

use vstd::prelude::*;

use crate::data::{DecomposedPacketView, LabelView, QuestionView, ResourceView};
use crate::data::{spec_decode_packet, spec_enc_header, spec_enc_label, spec_enc_packet,
    spec_enc_question, spec_enc_questions, spec_enc_resource, spec_enc_resources,
    spec_hdr_flags0, spec_hdr_flags1, spec_label_wf, spec_packet_wf, spec_parse_question,
    spec_parse_questions, spec_parse_resource, spec_parse_resources, spec_question_wf,
    spec_resource_wf};
use crate::enums::{lemma_class_from_code, lemma_opcode_from_code, lemma_rcode_from_code,
    lemma_type_from_code, spec_class_code, spec_opcode_code, spec_opcode_from, spec_rcode_code,
    spec_rcode_from, spec_type_code};
use crate::util::{bytes_to_chars, chars_to_bytes, first_dot, is_ascii_seq, lemma_first_dot_is,
    spec_domain_ok,
    lemma_chars_bytes_roundtrip, lemma_first_dot_bounds, lemma_u16_bytes_roundtrip,
    lemma_u32_bytes_roundtrip, spec_domain_bytes, spec_domain_valid, spec_get_flag, spec_get_u16,
    spec_get_u32, spec_parse_domain, spec_parse_label, spec_u16_bytes, spec_u32_bytes};

verus! {

/// Reading a dotted name back from its own wire bytes gives the name,
/// joined onto whatever the decoder had already accumulated.
pub proof fn lemma_parse_domain_of_enc(b: Seq<u8>, i: nat, s: Seq<char>, acc: Seq<char>)
    requires
        spec_domain_valid(s),
        i + spec_domain_bytes(s).len() + 1 <= b.len(),
        b.subrange(i as int, (i + spec_domain_bytes(s).len() + 1) as int) == spec_domain_bytes(s)
            + seq![0u8],
    ensures
        spec_parse_domain(b, i, acc) == Some(
            (
                if acc.len() == 0 {
                    s
                } else {
                    acc + seq!['.'] + s
                },
                (i + spec_domain_bytes(s).len() + 1) as nat,
            ),
        ),
    decreases s.len(),
{
    let k = first_dot(s);
    lemma_first_dot_bounds(s);
    let part = s.take(k);
    let enc = spec_domain_bytes(s);
    let encz = enc + seq![0u8];
    let iend = i + enc.len() + 1;

    assert(is_ascii_seq(part));
    assert forall|m: int| 0 <= m < encz.len() implies b[i + m] == encz[m] by {
        assert(b.subrange(i as int, iend as int)[m] == encz[m]);
    }

    assert(encz[0] == k as u8);
    assert(b[i as int] == k as u8);
    assert(1 <= k <= 63);
    assert((b[i as int] as nat) == k as nat);

    // The length byte is neither zero nor out of range here.
    assert(i < b.len());
    assert(i + k < b.len());

    assert forall|m: int| 0 <= m < k implies b[i + 1 + m] == chars_to_bytes(part)[m] by {
        assert(encz[1 + m] == chars_to_bytes(part)[m]);
    }
    assert(b.subrange(i as int + 1, i as int + 1 + k) =~= chars_to_bytes(part));
    lemma_chars_bytes_roundtrip(part);
    assert(bytes_to_chars(b.subrange(i as int + 1, i as int + 1 + k)) == part);

    let acc2 = if acc.len() == 0 {
        part
    } else {
        acc + seq!['.'] + part
    };
    assert(spec_parse_domain(b, i, acc) == spec_parse_domain(b, (i + k + 1) as nat, acc2));

    if k == s.len() {
        // A single part: the next byte is the closing zero.
        assert(part =~= s);
        assert(enc.len() == 1 + k);
        assert(encz[k + 1] == 0u8);
        assert(b[i + k + 1] == 0u8);
        assert(i + k + 1 < b.len());
        assert(spec_parse_domain(b, (i + k + 1) as nat, acc2) == Some(
            (acc2, (i + k + 2) as nat),
        ));
    } else {
        // More parts follow after the dot.
        let s2 = s.skip(k + 1);
        let enc2 = spec_domain_bytes(s2);
        assert(spec_domain_valid(s2));
        assert(enc == seq![k as u8] + chars_to_bytes(part) + enc2);
        assert(enc.len() == 1 + k + enc2.len());

        let j = (i + k + 1) as nat;
        assert forall|m: int| 0 <= m < enc2.len() + 1 implies b.subrange(
            j as int,
            (j + enc2.len() + 1) as int,
        )[m] == (enc2 + seq![0u8])[m] by {
            assert(b.subrange(j as int, (j + enc2.len() + 1) as int)[m] == b[j + m]);
            assert(b[i + (k + 1 + m)] == encz[k + 1 + m]);
            assert(encz[k + 1 + m] == (enc2 + seq![0u8])[m]);
        }
        assert(b.subrange(j as int, (j + enc2.len() + 1) as int) =~= enc2 + seq![0u8]);

        assert(acc2.len() != 0);
        lemma_parse_domain_of_enc(b, j, s2, acc2);
        assert(spec_parse_domain(b, j, acc2) == Some(
            (acc2 + seq!['.'] + s2, (j + enc2.len() + 1) as nat),
        ));

        assert(s[k] == '.');
        if acc.len() == 0 {
            assert(acc2 + seq!['.'] + s2 =~= s);
        } else {
            assert(acc2 + seq!['.'] + s2 =~= acc + seq!['.'] + s);
        }
        assert(j + enc2.len() + 1 == iend);
    }
}

/// Reading a label back from its own wire bytes gives the label.
pub proof fn lemma_parse_label_of_enc(b: Seq<u8>, i: nat, l: LabelView)
    requires
        spec_label_wf(l),
        i + spec_enc_label(l).len() <= b.len(),
        b.subrange(i as int, (i + spec_enc_label(l).len()) as int) == spec_enc_label(l),
    ensures
        spec_parse_label(b, i) == Some((l, (i + spec_enc_label(l).len()) as nat)),
{
    let enc = spec_enc_label(l);
    assert forall|m: int| 0 <= m < enc.len() implies b[i + m] == enc[m] by {
        assert(b.subrange(i as int, (i + enc.len()) as int)[m] == enc[m]);
    }
    match l {
        LabelView::Pointer(o) => {
            assert(enc == seq![o | 0xC0, 0u8]);
            assert(b[i as int] == (o | 0xC0));
            assert((o | 0xC0) & 0xC0 == 0xC0) by (bit_vector);
            assert(o <= 0x3F ==> ((o | 0xC0) & 0x3F) == o) by (bit_vector);
        },
        LabelView::Domain(s) => {
            let k = first_dot(s);
            lemma_first_dot_bounds(s);
            assert(spec_domain_bytes(s)[0] == k as u8);
            assert(enc[0] == k as u8);
            assert(b[i as int] == k as u8);
            assert(1 <= k <= 63);
            let kb = k as u8;
            assert(kb <= 63 ==> (kb & 0xC0) != 0xC0) by (bit_vector);
            lemma_parse_domain_of_enc(b, i, s, Seq::empty());
        },
    }
}

/// Reading a question back from its own wire bytes gives the question.
pub proof fn lemma_parse_question_of_enc(b: Seq<u8>, i: nat, q: QuestionView)
    requires
        spec_question_wf(q),
        i + spec_enc_question(q).len() <= b.len(),
        b.subrange(i as int, (i + spec_enc_question(q).len()) as int) == spec_enc_question(q),
    ensures
        spec_parse_question(b, i) == Some((q, (i + spec_enc_question(q).len()) as nat)),
{
    let enc = spec_enc_question(q);
    let encl = spec_enc_label(q.label);
    let tc = spec_type_code(q.qtype);
    let cc = spec_class_code(q.qclass);
    assert(enc == encl + spec_u16_bytes(tc) + spec_u16_bytes(cc));
    assert(enc.len() == encl.len() + 4);

    assert forall|m: int| 0 <= m < enc.len() implies b[i + m] == enc[m] by {
        assert(b.subrange(i as int, (i + enc.len()) as int)[m] == enc[m]);
    }

    assert(b.subrange(i as int, (i + encl.len()) as int) =~= encl);
    lemma_parse_label_of_enc(b, i, q.label);
    let j = i + encl.len();

    assert(enc[encl.len() as int] == (tc >> 8) as u8);
    assert(enc[encl.len() as int + 1] == tc as u8);
    assert(enc[encl.len() as int + 2] == (cc >> 8) as u8);
    assert(enc[encl.len() as int + 3] == cc as u8);
    lemma_u16_bytes_roundtrip(tc, b, j as int);
    lemma_u16_bytes_roundtrip(cc, b, j as int + 2);
    lemma_type_from_code(q.qtype);
    lemma_class_from_code(q.qclass);
}

/// Reading a resource back from its own wire bytes gives the resource.
pub proof fn lemma_parse_resource_of_enc(b: Seq<u8>, i: nat, r: ResourceView)
    requires
        spec_resource_wf(r),
        i + spec_enc_resource(r).len() <= b.len(),
        b.subrange(i as int, (i + spec_enc_resource(r).len()) as int) == spec_enc_resource(r),
    ensures
        spec_parse_resource(b, i) == Some((r, (i + spec_enc_resource(r).len()) as nat)),
{
    let enc = spec_enc_resource(r);
    let encl = spec_enc_label(r.label);
    let tc = spec_type_code(r.rtype);
    let cc = spec_class_code(r.rclass);
    assert(enc == encl + spec_u16_bytes(tc) + spec_u16_bytes(cc) + spec_u32_bytes(r.ttl)
        + spec_u16_bytes(r.length) + r.data);
    assert(enc.len() == encl.len() + 10 + r.data.len());

    assert forall|m: int| 0 <= m < enc.len() implies b[i + m] == enc[m] by {
        assert(b.subrange(i as int, (i + enc.len()) as int)[m] == enc[m]);
    }

    assert(b.subrange(i as int, (i + encl.len()) as int) =~= encl);
    lemma_parse_label_of_enc(b, i, r.label);
    let j = i + encl.len();
    let jl = encl.len() as int;

    assert(enc[jl] == (tc >> 8) as u8);
    assert(enc[jl + 1] == tc as u8);
    assert(enc[jl + 2] == (cc >> 8) as u8);
    assert(enc[jl + 3] == cc as u8);
    assert(enc[jl + 4] == (r.ttl >> 24) as u8);
    assert(enc[jl + 5] == (r.ttl >> 16) as u8);
    assert(enc[jl + 6] == (r.ttl >> 8) as u8);
    assert(enc[jl + 7] == r.ttl as u8);
    assert(enc[jl + 8] == (r.length >> 8) as u8);
    assert(enc[jl + 9] == r.length as u8);
    lemma_u16_bytes_roundtrip(tc, b, j as int);
    lemma_u16_bytes_roundtrip(cc, b, j as int + 2);
    lemma_u32_bytes_roundtrip(r.ttl, b, j as int + 4);
    lemma_u16_bytes_roundtrip(r.length, b, j as int + 8);
    lemma_type_from_code(r.rtype);
    lemma_class_from_code(r.rclass);

    assert forall|m: int| 0 <= m < r.data.len() implies b.subrange(
        j as int + 10,
        j as int + 10 + r.length as int,
    )[m] == r.data[m] by {
        assert(enc[jl + 10 + m] == r.data[m]);
        assert(b[i + (jl + 10 + m)] == enc[jl + 10 + m]);
    }
    assert(b.subrange(j as int + 10, j as int + 10 + r.length as int) =~= r.data);
}

/// Reading a question section back from its own wire bytes gives every
/// question, in order.
pub proof fn lemma_parse_questions_of_enc(b: Seq<u8>, i: nat, qs: Seq<QuestionView>)
    requires
        forall|j: int| 0 <= j < qs.len() ==> spec_question_wf(#[trigger] qs[j]),
        i + spec_enc_questions(qs).len() <= b.len(),
        b.subrange(i as int, (i + spec_enc_questions(qs).len()) as int) == spec_enc_questions(qs),
    ensures
        spec_parse_questions(b, i, qs.len()) == Some(
            (qs, (i + spec_enc_questions(qs).len()) as nat),
        ),
    decreases qs.len(),
{
    let enc = spec_enc_questions(qs);
    assert forall|m: int| 0 <= m < enc.len() implies b[i + m] == enc[m] by {
        assert(b.subrange(i as int, (i + enc.len()) as int)[m] == enc[m]);
    }
    if qs.len() == 0 {
        assert(qs =~= Seq::<QuestionView>::empty());
    } else {
        let e0 = spec_enc_question(qs[0]);
        let rest = qs.skip(1);
        let er = spec_enc_questions(rest);
        assert(enc == e0 + er);
        assert(b.subrange(i as int, (i + e0.len()) as int) =~= e0);
        lemma_parse_question_of_enc(b, i, qs[0]);
        let j = i + e0.len();
        assert forall|m: int| 0 <= m < er.len() implies b.subrange(
            j as int,
            (j + er.len()) as int,
        )[m] == er[m] by {
            assert(b[i + (e0.len() + m)] == enc[e0.len() + m]);
            assert(enc[e0.len() + m] == er[m]);
        }
        assert(b.subrange(j as int, (j + er.len()) as int) =~= er);
        assert forall|m: int| 0 <= m < rest.len() implies spec_question_wf(
            #[trigger] rest[m],
        ) by {
            assert(rest[m] == qs[m + 1]);
        }
        lemma_parse_questions_of_enc(b, j, rest);
        assert(seq![qs[0]] + rest =~= qs);
        assert((qs.len() - 1) as nat == rest.len());
    }
}

/// Reading a resource section back from its own wire bytes gives every
/// resource, in order.
pub proof fn lemma_parse_resources_of_enc(b: Seq<u8>, i: nat, rs: Seq<ResourceView>)
    requires
        forall|j: int| 0 <= j < rs.len() ==> spec_resource_wf(#[trigger] rs[j]),
        i + spec_enc_resources(rs).len() <= b.len(),
        b.subrange(i as int, (i + spec_enc_resources(rs).len()) as int) == spec_enc_resources(rs),
    ensures
        spec_parse_resources(b, i, rs.len()) == Some(
            (rs, (i + spec_enc_resources(rs).len()) as nat),
        ),
    decreases rs.len(),
{
    let enc = spec_enc_resources(rs);
    assert forall|m: int| 0 <= m < enc.len() implies b[i + m] == enc[m] by {
        assert(b.subrange(i as int, (i + enc.len()) as int)[m] == enc[m]);
    }
    if rs.len() == 0 {
        assert(rs =~= Seq::<ResourceView>::empty());
    } else {
        let e0 = spec_enc_resource(rs[0]);
        let rest = rs.skip(1);
        let er = spec_enc_resources(rest);
        assert(enc == e0 + er);
        assert(b.subrange(i as int, (i + e0.len()) as int) =~= e0);
        lemma_parse_resource_of_enc(b, i, rs[0]);
        let j = i + e0.len();
        assert forall|m: int| 0 <= m < er.len() implies b.subrange(
            j as int,
            (j + er.len()) as int,
        )[m] == er[m] by {
            assert(b[i + (e0.len() + m)] == enc[e0.len() + m]);
            assert(enc[e0.len() + m] == er[m]);
        }
        assert(b.subrange(j as int, (j + er.len()) as int) =~= er);
        assert forall|m: int| 0 <= m < rest.len() implies spec_resource_wf(
            #[trigger] rest[m],
        ) by {
            assert(rest[m] == rs[m + 1]);
        }
        lemma_parse_resources_of_enc(b, j, rest);
        assert(seq![rs[0]] + rest =~= rs);
        assert((rs.len() - 1) as nat == rest.len());
    }
}

/// Each field encoded in the first flag byte reads back from its documented
/// bits: QR in bit 7, the opcode in bits 6 to 3, AA in bit 2, TC in bit 1
/// and RD in bit 0.
pub proof fn lemma_hdr_flags0_decode(p: DecomposedPacketView)
    ensures
        spec_get_flag(spec_hdr_flags0(p), 7) == p.is_response,
        spec_opcode_from((spec_hdr_flags0(p) & 0x78) >> 3) == p.opcode,
        spec_get_flag(spec_hdr_flags0(p), 2) == p.is_authoritative,
        spec_get_flag(spec_hdr_flags0(p), 1) == p.is_truncated,
        spec_get_flag(spec_hdr_flags0(p), 0) == p.recursion_desired,
{
    let qr: u8 = if p.is_response {
        0x80
    } else {
        0
    };
    let oc = spec_opcode_code(p.opcode);
    let aa: u8 = if p.is_authoritative {
        0x04
    } else {
        0
    };
    let tc: u8 = if p.is_truncated {
        0x02
    } else {
        0
    };
    let rd: u8 = if p.recursion_desired {
        0x01
    } else {
        0
    };
    lemma_opcode_from_code(p.opcode);
    assert(spec_hdr_flags0(p) == qr | ((oc & 0x0F) << 3) | aa | tc | rd);
    assert((qr == 0x80 || qr == 0) && (aa == 0x04 || aa == 0) && (tc == 0x02 || tc == 0) && (rd
        == 0x01 || rd == 0) && oc <= 7 ==> (((qr | ((oc & 0x0F) << 3) | aa | tc | rd) & (1u8 << 7)
        != 0) == (qr == 0x80)) && (((qr | ((oc & 0x0F) << 3) | aa | tc | rd) & 0x78) >> 3 == oc)
        && (((qr | ((oc & 0x0F) << 3) | aa | tc | rd) & (1u8 << 2) != 0) == (aa == 0x04)) && (((qr
        | ((oc & 0x0F) << 3) | aa | tc | rd) & (1u8 << 1) != 0) == (tc == 0x02)) && (((qr | ((oc
        & 0x0F) << 3) | aa | tc | rd) & (1u8 << 0) != 0) == (rd == 0x01))) by (bit_vector);
}

/// Each field encoded in the second flag byte reads back from its documented
/// bits: RA in bit 7, AD in bit 5, CD in bit 4 and the response code in the
/// low four bits.
pub proof fn lemma_hdr_flags1_decode(p: DecomposedPacketView)
    ensures
        spec_get_flag(spec_hdr_flags1(p), 7) == p.recursion_available,
        spec_get_flag(spec_hdr_flags1(p), 5) == p.authentic_data,
        spec_get_flag(spec_hdr_flags1(p), 4) == p.checking_disabled,
        spec_rcode_from(spec_hdr_flags1(p) & 0x0F) == p.response_code,
{
    let ra: u8 = if p.recursion_available {
        0x80
    } else {
        0
    };
    let ad: u8 = if p.authentic_data {
        0x20
    } else {
        0
    };
    let cd: u8 = if p.checking_disabled {
        0x10
    } else {
        0
    };
    let rc = spec_rcode_code(p.response_code);
    lemma_rcode_from_code(p.response_code);
    assert(spec_hdr_flags1(p) == ra | ad | cd | (rc & 0x0F));
    assert((ra == 0x80 || ra == 0) && (ad == 0x20 || ad == 0) && (cd == 0x10 || cd == 0) && rc
        <= 12 ==> (((ra | ad | cd | (rc & 0x0F)) & (1u8 << 7) != 0) == (ra == 0x80)) && (((ra | ad
        | cd | (rc & 0x0F)) & (1u8 << 5) != 0) == (ad == 0x20)) && (((ra | ad | cd | (rc & 0x0F))
        & (1u8 << 4) != 0) == (cd == 0x10)) && ((ra | ad | cd | (rc & 0x0F)) & 0x0F == rc))
        by (bit_vector);
}

/// The twelve header bytes of an encoded packet, written out.
pub proof fn lemma_enc_header_bytes(p: DecomposedPacketView)
    ensures
        spec_enc_header(p) =~= seq![
            (p.id >> 8) as u8,
            p.id as u8,
            spec_hdr_flags0(p),
            spec_hdr_flags1(p),
            ((p.questions.len() as u16) >> 8) as u8,
            p.questions.len() as u16 as u8,
            ((p.answers.len() as u16) >> 8) as u8,
            p.answers.len() as u16 as u8,
            ((p.authorities.len() as u16) >> 8) as u8,
            p.authorities.len() as u16 as u8,
            ((p.additional_records.len() as u16) >> 8) as u8,
            p.additional_records.len() as u16 as u8,
        ],
{
}

/// Decoding an encoded packet gives back the packet, field for field and
/// with all four sections in their order, for any packet the in-memory API
/// can build: every label a dotted name of parts of 1 to 63 ASCII
/// characters or a pointer of at most six bits, every resource length equal
/// to its data length, types and classes canonical, and section lengths
/// that fit the 16-bit header counts.
pub proof fn lemma_round_trip(p: DecomposedPacketView)
    requires
        spec_packet_wf(p),
    ensures
        spec_decode_packet(spec_enc_packet(p)) == Some(p),
{
    let b = spec_enc_packet(p);
    let hdr = spec_enc_header(p);
    let eq = spec_enc_questions(p.questions);
    let ea = spec_enc_resources(p.answers);
    let eu = spec_enc_resources(p.authorities);
    let ed = spec_enc_resources(p.additional_records);
    lemma_enc_header_bytes(p);
    assert(hdr.len() == 12);
    assert(b == hdr + eq + ea + eu + ed);
    let h1 = hdr + eq;
    let h2 = h1 + ea;
    let h3 = h2 + eu;
    assert(b == h3 + ed);
    assert(b.len() == 12 + eq.len() + ea.len() + eu.len() + ed.len());

    assert forall|m: int| 0 <= m < 12 implies b[m] == hdr[m] by {
        assert(h1[m] == hdr[m]);
        assert(h2[m] == h1[m]);
        assert(h3[m] == h2[m]);
        assert(b[m] == h3[m]);
    }

    // The transaction identifier and the four counts read back.
    lemma_u16_bytes_roundtrip(p.id, b, 0);
    let qc = p.questions.len() as u16;
    let ac = p.answers.len() as u16;
    let uc = p.authorities.len() as u16;
    let dc = p.additional_records.len() as u16;
    lemma_u16_bytes_roundtrip(qc, b, 4);
    lemma_u16_bytes_roundtrip(ac, b, 6);
    lemma_u16_bytes_roundtrip(uc, b, 8);
    lemma_u16_bytes_roundtrip(dc, b, 10);
    assert(qc as nat == p.questions.len());
    assert(ac as nat == p.answers.len());
    assert(uc as nat == p.authorities.len());
    assert(dc as nat == p.additional_records.len());

    // The flag bytes read back.
    assert(b[2] == spec_hdr_flags0(p));
    assert(b[3] == spec_hdr_flags1(p));
    lemma_hdr_flags0_decode(p);
    lemma_hdr_flags1_decode(p);

    // The four sections read back in order.
    let i1 = (12 + eq.len()) as nat;
    let i2 = (i1 + ea.len()) as nat;
    let i3 = (i2 + eu.len()) as nat;
    let i4 = (i3 + ed.len()) as nat;

    assert forall|m: int| 0 <= m < eq.len() implies b[12 + m] == eq[m] by {
        assert(h1[12 + m] == eq[m]);
        assert(h2[12 + m] == h1[12 + m]);
        assert(h3[12 + m] == h2[12 + m]);
        assert(b[12 + m] == h3[12 + m]);
    }
    assert(b.subrange(12, (12 + eq.len()) as int) =~= eq);
    lemma_parse_questions_of_enc(b, 12, p.questions);

    assert forall|m: int| 0 <= m < ea.len() implies b[i1 + m] == ea[m] by {
        assert(h2[i1 + m] == ea[m]);
        assert(h3[i1 + m] == h2[i1 + m]);
        assert(b[i1 + m] == h3[i1 + m]);
    }
    assert(b.subrange(i1 as int, (i1 + ea.len()) as int) =~= ea);
    lemma_parse_resources_of_enc(b, i1, p.answers);

    assert forall|m: int| 0 <= m < eu.len() implies b[i2 + m] == eu[m] by {
        assert(h3[i2 + m] == eu[m]);
        assert(b[i2 + m] == h3[i2 + m]);
    }
    assert(b.subrange(i2 as int, (i2 + eu.len()) as int) =~= eu);
    lemma_parse_resources_of_enc(b, i2, p.authorities);

    assert forall|m: int| 0 <= m < ed.len() implies b[i3 + m] == ed[m] by {
        assert(b[i3 + m] == ed[m]);
    }
    assert(b.subrange(i3 as int, (i3 + ed.len()) as int) =~= ed);
    lemma_parse_resources_of_enc(b, i3, p.additional_records);

    let dv = spec_decode_packet(b);
    assert(dv is Some);
    assert(dv->Some_0 =~= p);
}

/// After encoding, bytes 4 to 11 of the wire form hold the big-endian
/// lengths of the question, answer, authority and additional sections.
pub proof fn lemma_header_counts(p: DecomposedPacketView)
    requires
        p.questions.len() <= 0xFFFF,
        p.answers.len() <= 0xFFFF,
        p.authorities.len() <= 0xFFFF,
        p.additional_records.len() <= 0xFFFF,
    ensures
        spec_get_u16(spec_enc_packet(p), 4) == p.questions.len(),
        spec_get_u16(spec_enc_packet(p), 6) == p.answers.len(),
        spec_get_u16(spec_enc_packet(p), 8) == p.authorities.len(),
        spec_get_u16(spec_enc_packet(p), 10) == p.additional_records.len(),
{
    let b = spec_enc_packet(p);
    let hdr = spec_enc_header(p);
    lemma_enc_header_bytes(p);
    let h1 = hdr + spec_enc_questions(p.questions);
    let h2 = h1 + spec_enc_resources(p.answers);
    let h3 = h2 + spec_enc_resources(p.authorities);
    assert(b == h3 + spec_enc_resources(p.additional_records));
    assert forall|m: int| 0 <= m < 12 implies b[m] == hdr[m] by {
        assert(h1[m] == hdr[m]);
        assert(h2[m] == h1[m]);
        assert(h3[m] == h2[m]);
        assert(b[m] == h3[m]);
    }
    lemma_u16_bytes_roundtrip(p.questions.len() as u16, b, 4);
    lemma_u16_bytes_roundtrip(p.answers.len() as u16, b, 6);
    lemma_u16_bytes_roundtrip(p.authorities.len() as u16, b, 8);
    lemma_u16_bytes_roundtrip(p.additional_records.len() as u16, b, 10);
}

/// Two packets that agree on everything but the seven header flags encode
/// to wire forms of the same length that differ at most in bytes 2 and 3;
/// with `lemma_hdr_flags0_decode` and `lemma_hdr_flags1_decode`, toggling
/// one flag therefore moves exactly its documented bit.
pub proof fn lemma_flag_independence(p: DecomposedPacketView, q: DecomposedPacketView)
    requires
        q == (DecomposedPacketView {
            is_response: q.is_response,
            is_authoritative: q.is_authoritative,
            is_truncated: q.is_truncated,
            recursion_desired: q.recursion_desired,
            recursion_available: q.recursion_available,
            authentic_data: q.authentic_data,
            checking_disabled: q.checking_disabled,
            ..p
        }),
    ensures
        spec_enc_packet(p).len() == spec_enc_packet(q).len(),
        forall|m: int|
            0 <= m < spec_enc_packet(p).len() && m != 2 && m != 3 ==> spec_enc_packet(p)[m]
                == spec_enc_packet(q)[m],
        spec_enc_packet(p)[2] == spec_hdr_flags0(p) && spec_enc_packet(q)[2] == spec_hdr_flags0(q),
        spec_enc_packet(p)[3] == spec_hdr_flags1(p) && spec_enc_packet(q)[3] == spec_hdr_flags1(q),
{
    let bp = spec_enc_packet(p);
    let bq = spec_enc_packet(q);
    lemma_enc_header_bytes(p);
    lemma_enc_header_bytes(q);
    assert(spec_enc_questions(p.questions) == spec_enc_questions(q.questions));
    assert(spec_enc_resources(p.answers) == spec_enc_resources(q.answers));
    assert(spec_enc_resources(p.authorities) == spec_enc_resources(q.authorities));
    assert(spec_enc_resources(p.additional_records) == spec_enc_resources(q.additional_records));
    assert forall|m: int| 0 <= m < bp.len() && m != 2 && m != 3 implies bp[m] == bq[m] by {
        if m < 12 {
            assert(spec_enc_header(p)[m] == spec_enc_header(q)[m]);
        }
    }
}

/// The characters of the given parts joined with single dots.
pub open spec fn spec_join_parts(parts: Seq<Seq<char>>) -> Seq<char>
    decreases parts.len(),
{
    if parts.len() == 0 {
        Seq::empty()
    } else if parts.len() == 1 {
        parts[0]
    } else {
        parts[0] + seq!['.'] + spec_join_parts(parts.skip(1))
    }
}

/// One length byte then the characters' bytes, for each part in turn.
pub open spec fn spec_parts_bytes(parts: Seq<Seq<char>>) -> Seq<u8>
    decreases parts.len(),
{
    if parts.len() == 0 {
        Seq::empty()
    } else {
        seq![parts[0].len() as u8] + chars_to_bytes(parts[0]) + spec_parts_bytes(parts.skip(1))
    }
}

/// Emitting a dotted name made of dot-free parts yields, for each part in
/// turn, its length byte then its bytes; and the emit is accepted exactly
/// when no part is 64 bytes or longer.
pub proof fn lemma_label_emit(parts: Seq<Seq<char>>)
    requires
        parts.len() >= 1,
        forall|j: int| 0 <= j < parts.len() ==> !(#[trigger] parts[j]).contains('.'),
    ensures
        spec_domain_bytes(spec_join_parts(parts)) == spec_parts_bytes(parts),
        spec_domain_ok(spec_join_parts(parts)) == (forall|j: int|
            0 <= j < parts.len() ==> (#[trigger] parts[j]).len() <= 63),
    decreases parts.len(),
{
    let s = spec_join_parts(parts);
    let p0 = parts[0];
    assert(!p0.contains('.'));
    assert forall|m: int| 0 <= m < p0.len() implies s[m] != '.' by {
        assert(s[m] == p0[m]);
        assert(!p0.contains('.') ==> p0[m] != '.');
    }

    if parts.len() == 1 {
        assert(s == p0);
        lemma_first_dot_is(s, p0.len() as int);
        assert(s.take(p0.len() as int) =~= p0);
        assert(spec_domain_bytes(s) == seq![p0.len() as u8] + chars_to_bytes(p0));
        assert(parts.skip(1).len() == 0);
        assert(spec_parts_bytes(parts.skip(1)) == Seq::<u8>::empty());
        assert(spec_domain_bytes(s) =~= spec_parts_bytes(parts));
        assert(spec_domain_ok(s) == (p0.len() <= 63));
        if p0.len() <= 63 {
            assert forall|j: int| 0 <= j < parts.len() implies (#[trigger] parts[j]).len()
                <= 63 by {
                assert(parts[j] == p0);
            }
        }
    } else {
        let rest = parts.skip(1);
        let s2 = spec_join_parts(rest);
        let k = p0.len() as int;
        assert(s == p0 + seq!['.'] + s2);
        assert(s[k] == '.');
        lemma_first_dot_is(s, k);
        assert(s.take(k) =~= p0);
        assert(s.skip(k + 1) =~= s2);
        assert forall|j: int| 0 <= j < rest.len() implies !(#[trigger] rest[j]).contains('.') by {
            assert(rest[j] == parts[j + 1]);
        }
        lemma_label_emit(rest);
        assert(spec_domain_bytes(s) == seq![k as u8] + chars_to_bytes(p0) + spec_domain_bytes(
            s2,
        ));
        assert(seq![k as u8] + chars_to_bytes(p0) + spec_parts_bytes(rest) =~= spec_parts_bytes(
            parts,
        ));
        assert(spec_domain_ok(s) == (k <= 63 && spec_domain_ok(s2)));
        if spec_domain_ok(s) {
            assert forall|j: int| 0 <= j < parts.len() implies (#[trigger] parts[j]).len()
                <= 63 by {
                if j > 0 {
                    assert(rest[j - 1] == parts[j]);
                }
            }
        }
        if forall|j: int| 0 <= j < parts.len() ==> (#[trigger] parts[j]).len() <= 63 {
            assert(p0.len() <= 63);
            assert forall|j: int| 0 <= j < rest.len() implies (#[trigger] rest[j]).len() <= 63 by {
                assert(rest[j] == parts[j + 1]);
            }
        }
    }
}

/// Any byte with its two top bits set starts a pointer label: the decoder
/// yields the low six bits and advances by two.
pub proof fn lemma_pointer_decode(b: Seq<u8>, i: nat)
    requires
        i < b.len(),
        b[i as int] & 0xC0 == 0xC0,
    ensures
        spec_parse_label(b, i) == Some((LabelView::Pointer(b[i as int] & 0x3F), (i + 2) as nat)),
{
}

} // verus!
