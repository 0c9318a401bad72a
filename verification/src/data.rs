//! The in-memory model of a DNS message — labels, questions, resources and
//! the decomposed packet — together with the wire encoding and decoding.

use vstd::prelude::*;

use crate::enums::{Class, Opcode, ResponseCode, Type};
use crate::enums::{class_wf, spec_class_code, spec_class_from, spec_opcode_code, spec_opcode_from,
    spec_rcode_code, spec_rcode_from, spec_type_code, spec_type_from, type_wf};
use crate::util::{collect_questions, collect_resources, get_flag, get_u16, set_u16,
    spec_domain_bytes, spec_domain_ok, spec_domain_valid, spec_get_flag, spec_get_u16,
    spec_get_u32, spec_parse_label, spec_u16_bytes, spec_u32_bytes, str_domain_to_dns_domain,
    CodecError};

verus! {

/// A domain-name component: either a dotted name or a compression pointer
/// into the enclosing message.
#[derive(Clone, Debug)]
pub enum Label {
    Pointer(u8),
    Domain(String),
}

/// The mathematical form of a [`Label`]: the pointer offset, or the dotted
/// name as a sequence of characters.
pub enum LabelView {
    Pointer(u8),
    Domain(Seq<char>),
}

impl View for Label {
    type V = LabelView;

    open spec fn view(&self) -> LabelView {
        match self {
            Label::Pointer(offset) => LabelView::Pointer(*offset),
            Label::Domain(domain) => LabelView::Domain(domain@),
        }
    }
}

impl Label {
    /// An equal copy of the label.
    pub fn duplicate(&self) -> (r: Label)
        ensures
            r@ == self@,
    {
        match self {
            Label::Pointer(offset) => Label::Pointer(*offset),
            Label::Domain(domain) => Label::Domain(domain.clone()),
        }
    }

    /// Appends the label's raw DNS packet form to `output`: length-prefixed
    /// parts closed with a zero byte for a dotted name, or the flagged
    /// pointer byte and a zero byte.  A dotted name with a part of 64 or
    /// more characters is rejected, and `output` is left as it was.
    pub fn to_raw(&self, output: &mut Vec<u8>) -> (r: Result<(), CodecError>)
        ensures
            match r {
                Ok(_) => spec_label_ok(self@) && final(output)@ == old(output)@ + spec_enc_label(
                    self@,
                ),
                Err(e) => !spec_label_ok(self@) && final(output)@ == old(output)@ && e
                    == CodecError::LabelPartTooLong,
            },
    {
        match self {
            Label::Domain(domain) => {
                let mut label_bytes = match str_domain_to_dns_domain(domain) {
                    Ok(b) => b,
                    Err(e) => {
                        return Err(e);
                    },
                };
                output.append(&mut label_bytes);
                Ok(())
            },
            Label::Pointer(offset) => {
                // Set first two bits to flag a pointer, then end the label.
                output.push(*offset | 0xC0);
                output.push(0x00);
                proof {
                    assert(output@ =~= old(output)@ + spec_enc_label(self@));
                }
                Ok(())
            },
        }
    }
}

/// The wire bytes of a label: length-prefixed parts closed by a zero byte,
/// or the flagged pointer byte followed by a zero byte.
pub open spec fn spec_enc_label(l: LabelView) -> Seq<u8> {
    match l {
        LabelView::Domain(s) => spec_domain_bytes(s) + seq![0u8],
        LabelView::Pointer(offset) => seq![offset | 0xC0, 0u8],
    }
}

/// The label can be emitted: every part of a dotted name is at most 63 bytes.
pub open spec fn spec_label_ok(l: LabelView) -> bool {
    match l {
        LabelView::Domain(s) => spec_domain_ok(s),
        LabelView::Pointer(_) => true,
    }
}

/// The label round-trips through the wire form: a dotted name of parts of
/// 1 to 63 ASCII characters, or a pointer that fits in the low six bits.
pub open spec fn spec_label_wf(l: LabelView) -> bool {
    match l {
        LabelView::Domain(s) => spec_domain_valid(s),
        LabelView::Pointer(offset) => offset <= 0x3F,
    }
}

/// A DNS question: a queried name with its record type and class.
#[derive(Clone, Debug)]
pub struct Question {
    pub label: Label,
    pub qtype: Type,
    pub qclass: Class,
}

/// The mathematical form of a [`Question`].
pub struct QuestionView {
    pub label: LabelView,
    pub qtype: Type,
    pub qclass: Class,
}

impl View for Question {
    type V = QuestionView;

    open spec fn view(&self) -> QuestionView {
        QuestionView { label: self.label@, qtype: self.qtype, qclass: self.qclass }
    }
}

impl Question {
    /// Appends the question's raw DNS packet form to `output`: label, type,
    /// class.  On a rejected label, `output` is left as it was.
    pub fn to_raw(&self, output: &mut Vec<u8>) -> (r: Result<(), CodecError>)
        ensures
            match r {
                Ok(_) => spec_label_ok(self.label@) && final(output)@ == old(output)@
                    + spec_enc_question(self@),
                Err(e) => !spec_label_ok(self.label@) && final(output)@ == old(output)@ && e
                    == CodecError::LabelPartTooLong,
            },
    {
        match self.label.to_raw(output) {
            Ok(_) => {},
            Err(e) => {
                return Err(e);
            },
        }
        self.qtype.to_raw(output);
        self.qclass.to_raw(output);
        proof {
            assert(output@ =~= old(output)@ + spec_enc_question(self@));
        }
        Ok(())
    }
}

/// The wire bytes of a question: label, 16-bit type, 16-bit class.
pub open spec fn spec_enc_question(q: QuestionView) -> Seq<u8> {
    spec_enc_label(q.label) + spec_u16_bytes(spec_type_code(q.qtype)) + spec_u16_bytes(
        spec_class_code(q.qclass),
    )
}

/// A DNS resource record (answer, authority or additional record).
#[derive(Clone, Debug)]
pub struct Resource {
    pub label: Label,
    pub rtype: Type,
    pub rclass: Class,
    pub ttl: u32,
    pub length: u16,
    pub data: Vec<u8>,
}

/// The mathematical form of a [`Resource`].
pub struct ResourceView {
    pub label: LabelView,
    pub rtype: Type,
    pub rclass: Class,
    pub ttl: u32,
    pub length: u16,
    pub data: Seq<u8>,
}

impl View for Resource {
    type V = ResourceView;

    open spec fn view(&self) -> ResourceView {
        ResourceView {
            label: self.label@,
            rtype: self.rtype,
            rclass: self.rclass,
            ttl: self.ttl,
            length: self.length,
            data: self.data@,
        }
    }
}

impl Resource {
    /// Appends the resource's raw DNS packet form to `output`: label, type,
    /// class, TTL, data length, then the data bytes.  On a rejected label,
    /// `output` is left as it was.
    pub fn to_raw(&self, output: &mut Vec<u8>) -> (r: Result<(), CodecError>)
        ensures
            match r {
                Ok(_) => spec_label_ok(self.label@) && final(output)@ == old(output)@
                    + spec_enc_resource(self@),
                Err(e) => !spec_label_ok(self.label@) && final(output)@ == old(output)@ && e
                    == CodecError::LabelPartTooLong,
            },
    {
        match self.label.to_raw(output) {
            Ok(_) => {},
            Err(e) => {
                return Err(e);
            },
        }
        self.rtype.to_raw(output);
        self.rclass.to_raw(output);

        output.push(((self.ttl >> 24) & 0x000000FF) as u8);
        output.push(((self.ttl >> 16) & 0x000000FF) as u8);
        output.push(((self.ttl >> 8) & 0x000000FF) as u8);
        output.push((self.ttl & 0x000000FF) as u8);

        output.push(((self.length >> 8) & 0x00FF) as u8);
        output.push((self.length & 0x00FF) as u8);

        let ghost mid = output@;
        let mut b: usize = 0;
        while b < self.data.len()
            invariant
                b <= self.data.len(),
                output@ == mid + self.data@.subrange(0, b as int),
            decreases self.data.len() - b,
        {
            output.push(self.data[b]);
            b += 1;
            proof {
                assert(output@ =~= mid + self.data@.subrange(0, b as int));
            }
        }

        proof {
            let t = self.ttl;
            let l = self.length;
            assert(((t >> 24) & 0x000000FF) as u8 == (t >> 24) as u8) by (bit_vector);
            assert(((t >> 16) & 0x000000FF) as u8 == (t >> 16) as u8) by (bit_vector);
            assert(((t >> 8) & 0x000000FF) as u8 == (t >> 8) as u8) by (bit_vector);
            assert((t & 0x000000FF) as u8 == t as u8) by (bit_vector);
            assert(((l >> 8) & 0x00FF) as u8 == (l >> 8) as u8) by (bit_vector);
            assert((l & 0x00FF) as u8 == l as u8) by (bit_vector);
            assert(self.data@.subrange(0, self.data@.len() as int) =~= self.data@);
            assert(output@ =~= old(output)@ + spec_enc_resource(self@));
        }
        Ok(())
    }
}

/// The wire bytes of a resource: label, type, class, 32-bit TTL, 16-bit data
/// length, then the data bytes themselves.
pub open spec fn spec_enc_resource(r: ResourceView) -> Seq<u8> {
    spec_enc_label(r.label) + spec_u16_bytes(spec_type_code(r.rtype)) + spec_u16_bytes(
        spec_class_code(r.rclass),
    ) + spec_u32_bytes(r.ttl) + spec_u16_bytes(r.length) + r.data
}

/// The wire bytes of a question section, in order.
pub open spec fn spec_enc_questions(qs: Seq<QuestionView>) -> Seq<u8>
    decreases qs.len(),
{
    if qs.len() == 0 {
        Seq::empty()
    } else {
        spec_enc_question(qs[0]) + spec_enc_questions(qs.skip(1))
    }
}

/// The wire bytes of a resource section, in order.
pub open spec fn spec_enc_resources(rs: Seq<ResourceView>) -> Seq<u8>
    decreases rs.len(),
{
    if rs.len() == 0 {
        Seq::empty()
    } else {
        spec_enc_resource(rs[0]) + spec_enc_resources(rs.skip(1))
    }
}

/// The fully parsed form of a DNS message.
#[derive(Clone, Debug)]
pub struct DecomposedPacket {
    pub id: u16,
    pub is_response: bool,
    pub opcode: Opcode,
    pub is_authoritative: bool,
    pub is_truncated: bool,
    pub recursion_desired: bool,
    pub recursion_available: bool,
    pub authentic_data: bool,
    pub checking_disabled: bool,
    pub response_code: ResponseCode,
    pub questions: Vec<Question>,
    pub answers: Vec<Resource>,
    pub authorities: Vec<Resource>,
    pub additional_records: Vec<Resource>,
}

/// The mathematical form of a [`DecomposedPacket`].
#[verifier::ext_equal]
pub struct DecomposedPacketView {
    pub id: u16,
    pub is_response: bool,
    pub opcode: Opcode,
    pub is_authoritative: bool,
    pub is_truncated: bool,
    pub recursion_desired: bool,
    pub recursion_available: bool,
    pub authentic_data: bool,
    pub checking_disabled: bool,
    pub response_code: ResponseCode,
    pub questions: Seq<QuestionView>,
    pub answers: Seq<ResourceView>,
    pub authorities: Seq<ResourceView>,
    pub additional_records: Seq<ResourceView>,
}

/// The views of a sequence of questions, in order.
pub open spec fn spec_question_views(qs: Seq<Question>) -> Seq<QuestionView> {
    qs.map_values(|q: Question| q@)
}

/// The views of a sequence of resources, in order.
pub open spec fn spec_resource_views(rs: Seq<Resource>) -> Seq<ResourceView> {
    rs.map_values(|r: Resource| r@)
}

impl View for DecomposedPacket {
    type V = DecomposedPacketView;

    open spec fn view(&self) -> DecomposedPacketView {
        DecomposedPacketView {
            id: self.id,
            is_response: self.is_response,
            opcode: self.opcode,
            is_authoritative: self.is_authoritative,
            is_truncated: self.is_truncated,
            recursion_desired: self.recursion_desired,
            recursion_available: self.recursion_available,
            authentic_data: self.authentic_data,
            checking_disabled: self.checking_disabled,
            response_code: self.response_code,
            questions: spec_question_views(self.questions@),
            answers: spec_resource_views(self.answers@),
            authorities: spec_resource_views(self.authorities@),
            additional_records: spec_resource_views(self.additional_records@),
        }
    }
}

/// Appending one more question to a section appends its encoding.
pub proof fn lemma_enc_questions_snoc(qs: Seq<QuestionView>, j: int)
    requires
        0 <= j < qs.len(),
    ensures
        spec_enc_questions(qs.take(j + 1)) == spec_enc_questions(qs.take(j)) + spec_enc_question(
            qs[j],
        ),
    decreases j,
{
    if j == 0 {
        let single = seq![qs[0]];
        assert(qs.take(1) =~= single);
        assert(single.skip(1) =~= Seq::<QuestionView>::empty());
        assert(qs.take(0) =~= Seq::<QuestionView>::empty());
        assert(spec_enc_questions(Seq::<QuestionView>::empty()) == Seq::<u8>::empty());
        assert(spec_enc_questions(single) == spec_enc_question(single[0]) + spec_enc_questions(
            single.skip(1),
        ));
        assert(spec_enc_questions(qs.take(1)) =~= spec_enc_question(qs[0]));
        assert(spec_enc_questions(qs.take(0)) + spec_enc_question(qs[0]) =~= spec_enc_question(
            qs[0],
        ));
    } else {
        let tail = qs.skip(1);
        lemma_enc_questions_snoc(tail, j - 1);
        assert(qs.take(j + 1).skip(1) =~= tail.take(j));
        assert(qs.take(j).skip(1) =~= tail.take(j - 1));
        assert(qs.take(j + 1)[0] == qs[0]);
        assert(qs.take(j)[0] == qs[0]);
        assert(tail[j - 1] == qs[j]);
        assert(spec_enc_questions(qs.take(j + 1)) == spec_enc_question(qs[0])
            + spec_enc_questions(tail.take(j)));
        assert(spec_enc_question(qs[0]) + (spec_enc_questions(tail.take(j - 1))
            + spec_enc_question(qs[j])) =~= (spec_enc_question(qs[0]) + spec_enc_questions(
            tail.take(j - 1),
        )) + spec_enc_question(qs[j]));
    }
}

/// Appending one more resource to a section appends its encoding.
pub proof fn lemma_enc_resources_snoc(rs: Seq<ResourceView>, j: int)
    requires
        0 <= j < rs.len(),
    ensures
        spec_enc_resources(rs.take(j + 1)) == spec_enc_resources(rs.take(j)) + spec_enc_resource(
            rs[j],
        ),
    decreases j,
{
    if j == 0 {
        let single = seq![rs[0]];
        assert(rs.take(1) =~= single);
        assert(single.skip(1) =~= Seq::<ResourceView>::empty());
        assert(rs.take(0) =~= Seq::<ResourceView>::empty());
        assert(spec_enc_resources(Seq::<ResourceView>::empty()) == Seq::<u8>::empty());
        assert(spec_enc_resources(single) == spec_enc_resource(single[0]) + spec_enc_resources(
            single.skip(1),
        ));
        assert(spec_enc_resources(rs.take(1)) =~= spec_enc_resource(rs[0]));
        assert(spec_enc_resources(rs.take(0)) + spec_enc_resource(rs[0]) =~= spec_enc_resource(
            rs[0],
        ));
    } else {
        let tail = rs.skip(1);
        lemma_enc_resources_snoc(tail, j - 1);
        assert(rs.take(j + 1).skip(1) =~= tail.take(j));
        assert(rs.take(j).skip(1) =~= tail.take(j - 1));
        assert(rs.take(j + 1)[0] == rs[0]);
        assert(rs.take(j)[0] == rs[0]);
        assert(tail[j - 1] == rs[j]);
        assert(spec_enc_resources(rs.take(j + 1)) == spec_enc_resource(rs[0])
            + spec_enc_resources(tail.take(j)));
        assert(spec_enc_resource(rs[0]) + (spec_enc_resources(tail.take(j - 1))
            + spec_enc_resource(rs[j])) =~= (spec_enc_resource(rs[0]) + spec_enc_resources(
            tail.take(j - 1),
        )) + spec_enc_resource(rs[j]));
    }
}

/// The first flag byte of the header: QR bit, opcode, AA, TC and RD bits.
pub open spec fn spec_hdr_flags0(p: DecomposedPacketView) -> u8 {
    (if p.is_response {
        0x80u8
    } else {
        0u8
    }) | ((spec_opcode_code(p.opcode) & 0x0F) << 3) | (if p.is_authoritative {
        0x04u8
    } else {
        0u8
    }) | (if p.is_truncated {
        0x02u8
    } else {
        0u8
    }) | (if p.recursion_desired {
        0x01u8
    } else {
        0u8
    })
}

/// The second flag byte of the header: RA, AD and CD bits and response code.
pub open spec fn spec_hdr_flags1(p: DecomposedPacketView) -> u8 {
    (if p.recursion_available {
        0x80u8
    } else {
        0u8
    }) | (if p.authentic_data {
        0x20u8
    } else {
        0u8
    }) | (if p.checking_disabled {
        0x10u8
    } else {
        0u8
    }) | (spec_rcode_code(p.response_code) & 0x0F)
}

/// The twelve header bytes: id, the two flag bytes, and the four big-endian
/// section counts taken from the section lengths.
pub open spec fn spec_enc_header(p: DecomposedPacketView) -> Seq<u8> {
    spec_u16_bytes(p.id) + seq![spec_hdr_flags0(p), spec_hdr_flags1(p)] + spec_u16_bytes(
        p.questions.len() as u16,
    ) + spec_u16_bytes(p.answers.len() as u16) + spec_u16_bytes(p.authorities.len() as u16)
        + spec_u16_bytes(p.additional_records.len() as u16)
}

/// The full wire form of a message: header, then the four sections in order.
pub open spec fn spec_enc_packet(p: DecomposedPacketView) -> Seq<u8> {
    spec_enc_header(p) + spec_enc_questions(p.questions) + spec_enc_resources(p.answers)
        + spec_enc_resources(p.authorities) + spec_enc_resources(p.additional_records)
}

/// Every label of the packet can be emitted (no part of 64 bytes or more).
pub open spec fn spec_packet_ok(p: DecomposedPacketView) -> bool {
    &&& forall|j: int| 0 <= j < p.questions.len() ==> spec_label_ok(#[trigger] p.questions[j].label)
    &&& forall|j: int| 0 <= j < p.answers.len() ==> spec_label_ok(#[trigger] p.answers[j].label)
    &&& forall|j: int|
        0 <= j < p.authorities.len() ==> spec_label_ok(#[trigger] p.authorities[j].label)
    &&& forall|j: int|
        0 <= j < p.additional_records.len() ==> spec_label_ok(
            #[trigger] p.additional_records[j].label,
        )
}

/// One resource is well formed: its label round-trips, its declared length
/// matches its data, and its type and class are canonical.
pub open spec fn spec_resource_wf(r: ResourceView) -> bool {
    &&& spec_label_wf(r.label)
    &&& r.data.len() == r.length
    &&& type_wf(r.rtype)
    &&& class_wf(r.rclass)
}

/// One question is well formed: its label round-trips and its type and class
/// are canonical.
pub open spec fn spec_question_wf(q: QuestionView) -> bool {
    &&& spec_label_wf(q.label)
    &&& type_wf(q.qtype)
    &&& class_wf(q.qclass)
}

/// A packet as the in-memory API builds it: well-formed questions and
/// resources, and section lengths that fit the 16-bit header counts.
pub open spec fn spec_packet_wf(p: DecomposedPacketView) -> bool {
    &&& forall|j: int| 0 <= j < p.questions.len() ==> spec_question_wf(#[trigger] p.questions[j])
    &&& forall|j: int| 0 <= j < p.answers.len() ==> spec_resource_wf(#[trigger] p.answers[j])
    &&& forall|j: int|
        0 <= j < p.authorities.len() ==> spec_resource_wf(#[trigger] p.authorities[j])
    &&& forall|j: int|
        0 <= j < p.additional_records.len() ==> spec_resource_wf(
            #[trigger] p.additional_records[j],
        )
    &&& p.questions.len() <= 0xFFFF
    &&& p.answers.len() <= 0xFFFF
    &&& p.authorities.len() <= 0xFFFF
    &&& p.additional_records.len() <= 0xFFFF
}

impl DecomposedPacket {
    /// Decodes a raw packet: the header fields, then exactly as many
    /// questions and resources as the header counts declare.  A buffer too
    /// short for its declared contents is rejected.
    pub fn from_packet(raw: &Packet) -> (r: Result<DecomposedPacket, CodecError>)
        requires
            raw.data.len() < usize::MAX,
        ensures
            match r {
                Ok(p) => spec_decode_packet(raw.data@) == Some(p@),
                Err(e) => spec_decode_packet(raw.data@) is None && e == CodecError::BufferTooShort,
            },
    {
        if raw.data.len() < 12 {
            return Err(CodecError::BufferTooShort);
        }
        let id = raw.get_id();

        let flags_0 = raw.data[2];
        let is_response = get_flag(flags_0, 7);
        let raw_opcode = (flags_0 & 0x78) >> 3;
        let opcode = Opcode::from_raw(raw_opcode);
        let is_authoritative = get_flag(flags_0, 2);
        let is_truncated = get_flag(flags_0, 1);
        let recursion_desired = get_flag(flags_0, 0);

        let flags_1 = raw.data[3];
        let recursion_available = get_flag(flags_1, 7);
        let authentic_data = get_flag(flags_1, 5);
        let checking_disabled = get_flag(flags_1, 4);
        let response_code = ResponseCode::from_raw(flags_1 & 0x0F);

        let mut questions = Vec::<Question>::new();
        let i1 = match collect_questions(&mut questions, &raw.data, 12, raw.get_question_count()) {
            Ok(i) => i,
            Err(e) => {
                return Err(e);
            },
        };

        let mut answers = Vec::<Resource>::new();
        let i2 = match collect_resources(&mut answers, &raw.data, i1, raw.get_answer_count()) {
            Ok(i) => i,
            Err(e) => {
                return Err(e);
            },
        };

        let mut authorities = Vec::<Resource>::new();
        let i3 = match collect_resources(
            &mut authorities,
            &raw.data,
            i2,
            raw.get_authority_count(),
        ) {
            Ok(i) => i,
            Err(e) => {
                return Err(e);
            },
        };

        let mut additional_records = Vec::<Resource>::new();
        match collect_resources(
            &mut additional_records,
            &raw.data,
            i3,
            raw.get_additional_record_count(),
        ) {
            Ok(_) => {},
            Err(e) => {
                return Err(e);
            },
        }

        let p = DecomposedPacket {
            id,
            is_response,
            opcode,
            is_authoritative,
            is_truncated,
            recursion_desired,
            recursion_available,
            authentic_data,
            checking_disabled,
            response_code,
            questions,
            answers,
            authorities,
            additional_records,
        };
        proof {
            assert(p.questions@.skip(0) =~= p.questions@);
            assert(p.answers@.skip(0) =~= p.answers@);
            assert(p.authorities@.skip(0) =~= p.authorities@);
            assert(p.additional_records@.skip(0) =~= p.additional_records@);
            let dv = spec_decode_packet(raw.data@);
            assert(dv is Some);
            assert(dv->Some_0 =~= p@);
        }
        Ok(p)
    }

    /// A fresh query packet: all fields zero or empty, a standard query with
    /// no error.
    pub fn new() -> (p: DecomposedPacket)
        ensures
            p.id == 0,
            !p.is_response,
            p.opcode == Opcode::StandardQuery,
            !p.is_authoritative,
            !p.is_truncated,
            !p.recursion_desired,
            !p.recursion_available,
            !p.authentic_data,
            !p.checking_disabled,
            p.response_code == ResponseCode::NoError,
            p.questions@.len() == 0,
            p.answers@.len() == 0,
            p.authorities@.len() == 0,
            p.additional_records@.len() == 0,
    {
        DecomposedPacket {
            id: 0,
            is_response: false,
            opcode: Opcode::StandardQuery,
            is_authoritative: false,
            is_truncated: false,
            recursion_desired: false,
            recursion_available: false,
            authentic_data: false,
            checking_disabled: false,
            response_code: ResponseCode::NoError,
            questions: Vec::new(),
            answers: Vec::new(),
            authorities: Vec::new(),
            additional_records: Vec::new(),
        }
    }

    /// Encodes the packet into its wire form: the twelve header bytes with
    /// the four counts taken from the section lengths, then the sections in
    /// order.  A label with a part of 64 or more characters is rejected.
    pub fn to_raw(&self) -> (r: Result<Packet, CodecError>)
        ensures
            match r {
                Ok(packet) => spec_packet_ok(self@) && packet.data@ == spec_enc_packet(self@),
                Err(e) => !spec_packet_ok(self@) && e == CodecError::LabelPartTooLong,
            },
    {
        let mut packet = Packet::init();

        packet.set_id(self.id);

        let qr: u8 = if self.is_response {
            0x80
        } else {
            0
        };
        let oc: u8 = (self.opcode.to_raw() & 0x0F) << 3;
        let aa: u8 = if self.is_authoritative {
            0x04
        } else {
            0
        };
        let tc: u8 = if self.is_truncated {
            0x02
        } else {
            0
        };
        let rd: u8 = if self.recursion_desired {
            0x01
        } else {
            0
        };
        let f0: u8 = qr | oc | aa | tc | rd;
        packet.data.set(2, f0);

        let ra: u8 = if self.recursion_available {
            0x80
        } else {
            0
        };
        let ad: u8 = if self.authentic_data {
            0x20
        } else {
            0
        };
        let cd: u8 = if self.checking_disabled {
            0x10
        } else {
            0
        };
        let rc: u8 = self.response_code.to_raw() & 0x0F;
        let f1: u8 = ra | ad | cd | rc;
        packet.data.set(3, f1);

        packet.set_question_count(self.questions.len() as u16);
        packet.set_answer_count(self.answers.len() as u16);
        packet.set_authority_count(self.authorities.len() as u16);
        packet.set_additional_record_count(self.additional_records.len() as u16);

        let ghost qviews = spec_question_views(self.questions@);
        let ghost anviews = spec_resource_views(self.answers@);
        let ghost auviews = spec_resource_views(self.authorities@);
        let ghost adviews = spec_resource_views(self.additional_records@);

        proof {
            assert(packet.data@ =~= spec_enc_header(self@));
        }
        let ghost base0 = packet.data@;

        let mut qi: usize = 0;
        while qi < self.questions.len()
            invariant
                qi <= self.questions.len(),
                qviews == spec_question_views(self.questions@),
                qviews.len() == self.questions.len(),
                packet.data@ == base0 + spec_enc_questions(qviews.take(qi as int)),
                forall|j: int| 0 <= j < qi ==> spec_label_ok(#[trigger] qviews[j].label),
            decreases self.questions.len() - qi,
        {
            match self.questions[qi].to_raw(&mut packet.data) {
                Ok(_) => {},
                Err(e) => {
                    proof {
                        assert(!spec_label_ok(self@.questions[qi as int].label));
                    }
                    return Err(e);
                },
            }
            proof {
                lemma_enc_questions_snoc(qviews, qi as int);
                assert(qviews[qi as int] == self.questions@[qi as int]@);
                assert(packet.data@ =~= base0 + spec_enc_questions(qviews.take(qi as int + 1)));
            }
            qi += 1;
        }
        proof {
            assert(qviews.take(qviews.len() as int) =~= qviews);
        }
        let ghost base1 = base0 + spec_enc_questions(qviews);

        let mut ai: usize = 0;
        while ai < self.answers.len()
            invariant
                ai <= self.answers.len(),
                anviews == spec_resource_views(self.answers@),
                anviews.len() == self.answers.len(),
                packet.data@ == base1 + spec_enc_resources(anviews.take(ai as int)),
                forall|j: int| 0 <= j < ai ==> spec_label_ok(#[trigger] anviews[j].label),
            decreases self.answers.len() - ai,
        {
            match self.answers[ai].to_raw(&mut packet.data) {
                Ok(_) => {},
                Err(e) => {
                    proof {
                        assert(!spec_label_ok(self@.answers[ai as int].label));
                    }
                    return Err(e);
                },
            }
            proof {
                lemma_enc_resources_snoc(anviews, ai as int);
                assert(anviews[ai as int] == self.answers@[ai as int]@);
                assert(packet.data@ =~= base1 + spec_enc_resources(anviews.take(ai as int + 1)));
            }
            ai += 1;
        }
        proof {
            assert(anviews.take(anviews.len() as int) =~= anviews);
        }
        let ghost base2 = base1 + spec_enc_resources(anviews);

        let mut ui: usize = 0;
        while ui < self.authorities.len()
            invariant
                ui <= self.authorities.len(),
                auviews == spec_resource_views(self.authorities@),
                auviews.len() == self.authorities.len(),
                packet.data@ == base2 + spec_enc_resources(auviews.take(ui as int)),
                forall|j: int| 0 <= j < ui ==> spec_label_ok(#[trigger] auviews[j].label),
            decreases self.authorities.len() - ui,
        {
            match self.authorities[ui].to_raw(&mut packet.data) {
                Ok(_) => {},
                Err(e) => {
                    proof {
                        assert(!spec_label_ok(self@.authorities[ui as int].label));
                    }
                    return Err(e);
                },
            }
            proof {
                lemma_enc_resources_snoc(auviews, ui as int);
                assert(auviews[ui as int] == self.authorities@[ui as int]@);
                assert(packet.data@ =~= base2 + spec_enc_resources(auviews.take(ui as int + 1)));
            }
            ui += 1;
        }
        proof {
            assert(auviews.take(auviews.len() as int) =~= auviews);
        }
        let ghost base3 = base2 + spec_enc_resources(auviews);

        let mut di: usize = 0;
        while di < self.additional_records.len()
            invariant
                di <= self.additional_records.len(),
                adviews == spec_resource_views(self.additional_records@),
                adviews.len() == self.additional_records.len(),
                packet.data@ == base3 + spec_enc_resources(adviews.take(di as int)),
                forall|j: int| 0 <= j < di ==> spec_label_ok(#[trigger] adviews[j].label),
            decreases self.additional_records.len() - di,
        {
            match self.additional_records[di].to_raw(&mut packet.data) {
                Ok(_) => {},
                Err(e) => {
                    proof {
                        assert(!spec_label_ok(self@.additional_records[di as int].label));
                    }
                    return Err(e);
                },
            }
            proof {
                lemma_enc_resources_snoc(adviews, di as int);
                assert(adviews[di as int] == self.additional_records@[di as int]@);
                assert(packet.data@ =~= base3 + spec_enc_resources(adviews.take(di as int + 1)));
            }
            di += 1;
        }
        proof {
            assert(adviews.take(adviews.len() as int) =~= adviews);
            assert(packet.data@ =~= spec_enc_packet(self@));
        }

        Ok(packet)
    }
}

/// The question read at offset `i`, and the offset just past it.
pub open spec fn spec_parse_question(b: Seq<u8>, i: nat) -> Option<(QuestionView, nat)> {
    match spec_parse_label(b, i) {
        Option::None => None,
        Option::Some((label, j)) => if j + 4 <= b.len() {
            Some(
                (
                    QuestionView {
                        label,
                        qtype: spec_type_from(spec_get_u16(b, j as int)),
                        qclass: spec_class_from(spec_get_u16(b, j as int + 2)),
                    },
                    (j + 4) as nat,
                ),
            )
        } else {
            None
        },
    }
}

/// The resource read at offset `i`, and the offset just past it.
pub open spec fn spec_parse_resource(b: Seq<u8>, i: nat) -> Option<(ResourceView, nat)> {
    match spec_parse_label(b, i) {
        Option::None => None,
        Option::Some((label, j)) => if j + 10 <= b.len() {
            let length = spec_get_u16(b, j as int + 8);
            if j + 10 + length <= b.len() {
                Some(
                    (
                        ResourceView {
                            label,
                            rtype: spec_type_from(spec_get_u16(b, j as int)),
                            rclass: spec_class_from(spec_get_u16(b, j as int + 2)),
                            ttl: spec_get_u32(b, j as int + 4),
                            length,
                            data: b.subrange(j as int + 10, j as int + 10 + length as int),
                        },
                        (j + 10 + length) as nat,
                    ),
                )
            } else {
                None
            }
        } else {
            None
        },
    }
}

/// `n` questions read in sequence from offset `i`.
pub open spec fn spec_parse_questions(b: Seq<u8>, i: nat, n: nat) -> Option<
    (Seq<QuestionView>, nat),
>
    decreases n,
{
    if n == 0 {
        Some((Seq::empty(), i))
    } else {
        match spec_parse_question(b, i) {
            Option::None => None,
            Option::Some((q, j)) => match spec_parse_questions(b, j, (n - 1) as nat) {
                Option::None => None,
                Option::Some((qs, k)) => Some((seq![q] + qs, k)),
            },
        }
    }
}

/// `n` resources read in sequence from offset `i`.
pub open spec fn spec_parse_resources(b: Seq<u8>, i: nat, n: nat) -> Option<
    (Seq<ResourceView>, nat),
>
    decreases n,
{
    if n == 0 {
        Some((Seq::empty(), i))
    } else {
        match spec_parse_resource(b, i) {
            Option::None => None,
            Option::Some((r, j)) => match spec_parse_resources(b, j, (n - 1) as nat) {
                Option::None => None,
                Option::Some((rs, k)) => Some((seq![r] + rs, k)),
            },
        }
    }
}

/// Every resource read from the wire carries at most 0xFFFF data bytes: its
/// data is exactly as long as its 16-bit length field declares.
pub proof fn lemma_parse_resources_data_len(b: Seq<u8>, i: nat, n: nat)
    ensures
        match spec_parse_resources(b, i, n) {
            Option::Some((rs, _end)) => forall|j: int|
                0 <= j < rs.len() ==> (#[trigger] rs[j]).data.len() <= 0xFFFF,
            Option::None => true,
        },
    decreases n,
{
    if n == 0 {
    } else {
        match spec_parse_resource(b, i) {
            Option::None => {},
            Option::Some((r, j)) => {
                lemma_parse_resources_data_len(b, j, (n - 1) as nat);
                match spec_parse_resources(b, j, (n - 1) as nat) {
                    Option::None => {},
                    Option::Some((rs2, _end)) => {
                        assert(r.data.len() <= 0xFFFF);
                        assert forall|m: int| 0 <= m < (seq![r] + rs2).len() implies (#[trigger] (
                        seq![r] + rs2)[m]).data.len() <= 0xFFFF by {
                            if m > 0 {
                                assert((seq![r] + rs2)[m] == rs2[m - 1]);
                            }
                        }
                    },
                }
            },
        }
    }
}

/// The decomposed form of the wire bytes `b`: header fields, then as many
/// questions and resources as the header counts declare.  Trailing bytes are
/// ignored; a buffer too short for the declared counts does not decode.
pub open spec fn spec_decode_packet(b: Seq<u8>) -> Option<DecomposedPacketView> {
    if b.len() < 12 {
        None
    } else {
        let f0 = b[2];
        let f1 = b[3];
        match spec_parse_questions(b, 12, spec_get_u16(b, 4) as nat) {
            Option::None => None,
            Option::Some((qs, i1)) => match spec_parse_resources(b, i1, spec_get_u16(b, 6) as nat) {
                Option::None => None,
                Option::Some((ans, i2)) => match spec_parse_resources(
                    b,
                    i2,
                    spec_get_u16(b, 8) as nat,
                ) {
                    Option::None => None,
                    Option::Some((aus, i3)) => match spec_parse_resources(
                        b,
                        i3,
                        spec_get_u16(b, 10) as nat,
                    ) {
                        Option::None => None,
                        Option::Some((ads, _i4)) => Some(
                            DecomposedPacketView {
                                id: spec_get_u16(b, 0),
                                is_response: spec_get_flag(f0, 7),
                                opcode: spec_opcode_from((f0 & 0x78) >> 3),
                                is_authoritative: spec_get_flag(f0, 2),
                                is_truncated: spec_get_flag(f0, 1),
                                recursion_desired: spec_get_flag(f0, 0),
                                recursion_available: spec_get_flag(f1, 7),
                                authentic_data: spec_get_flag(f1, 5),
                                checking_disabled: spec_get_flag(f1, 4),
                                response_code: spec_rcode_from(f1 & 0x0F),
                                questions: qs,
                                answers: ans,
                                authorities: aus,
                                additional_records: ads,
                            },
                        ),
                    },
                },
            },
        }
    }
}

/// A raw packet: the wire bytes themselves.
#[derive(Clone, Debug)]
pub struct Packet {
    pub data: Vec<u8>,
}

impl Packet {
    /// Creates a zeroed packet of the twelve header bytes: no questions,
    /// answers or other resources.
    pub fn init() -> (p: Packet)
        ensures
            p.data@ =~= seq![0u8, 0u8, 0u8, 0u8, 0u8, 0u8, 0u8, 0u8, 0u8, 0u8, 0u8, 0u8],
    {
        let mut data: Vec<u8> = Vec::new();
        let mut i: usize = 0;
        while i < 12
            invariant
                i <= 12,
                data@.len() == i,
                forall|j: int| 0 <= j < i ==> data@[j] == 0u8,
            decreases 12 - i,
        {
            data.push(0);
            i += 1;
        }
        Packet { data }
    }

    /// Creates a packet by moving an existing vector.
    pub fn init_from_full(data: Vec<u8>) -> (p: Packet)
        ensures
            p.data@ == data@,
    {
        Packet { data }
    }

    /// Creates a packet by copying an existing vector.
    pub fn from_vec(data: &Vec<u8>) -> (p: Packet)
        ensures
            p.data@ == data@,
    {
        Packet { data: clone_bytes(data) }
    }

    /// Sets the transaction identifier of the packet.
    pub fn set_id(&mut self, id: u16)
        requires
            old(self).data.len() >= 12,
        ensures
            final(self).data@ == old(self).data@.update(0, (id >> 8) as u8).update(1, id as u8),
    {
        set_u16(&mut self.data, id, 0);
    }

    /// The transaction identifier of the packet.
    pub fn get_id(&self) -> (r: u16)
        requires
            self.data.len() >= 12,
        ensures
            r == spec_get_u16(self.data@, 0),
    {
        get_u16(&self.data, 0)
    }

    /// The number of questions the header declares.
    pub fn get_question_count(&self) -> (r: u16)
        requires
            self.data.len() >= 12,
        ensures
            r == spec_get_u16(self.data@, 4),
    {
        get_u16(&self.data, 4)
    }

    /// Declares the number of questions in the header.
    pub fn set_question_count(&mut self, count: u16)
        requires
            old(self).data.len() >= 12,
        ensures
            final(self).data@ == old(self).data@.update(4, (count >> 8) as u8).update(
                5,
                count as u8,
            ),
    {
        set_u16(&mut self.data, count, 4);
    }

    /// The number of answers the header declares.
    pub fn get_answer_count(&self) -> (r: u16)
        requires
            self.data.len() >= 12,
        ensures
            r == spec_get_u16(self.data@, 6),
    {
        get_u16(&self.data, 6)
    }

    /// Declares the number of answers in the header.
    pub fn set_answer_count(&mut self, count: u16)
        requires
            old(self).data.len() >= 12,
        ensures
            final(self).data@ == old(self).data@.update(6, (count >> 8) as u8).update(
                7,
                count as u8,
            ),
    {
        set_u16(&mut self.data, count, 6);
    }

    /// The number of authorities the header declares.
    pub fn get_authority_count(&self) -> (r: u16)
        requires
            self.data.len() >= 12,
        ensures
            r == spec_get_u16(self.data@, 8),
    {
        get_u16(&self.data, 8)
    }

    /// Declares the number of authorities in the header.
    pub fn set_authority_count(&mut self, count: u16)
        requires
            old(self).data.len() >= 12,
        ensures
            final(self).data@ == old(self).data@.update(8, (count >> 8) as u8).update(
                9,
                count as u8,
            ),
    {
        set_u16(&mut self.data, count, 8);
    }

    /// The number of additional records the header declares.
    pub fn get_additional_record_count(&self) -> (r: u16)
        requires
            self.data.len() >= 12,
        ensures
            r == spec_get_u16(self.data@, 10),
    {
        get_u16(&self.data, 10)
    }

    /// Declares the number of additional records in the header.
    pub fn set_additional_record_count(&mut self, count: u16)
        requires
            old(self).data.len() >= 12,
        ensures
            final(self).data@ == old(self).data@.update(10, (count >> 8) as u8).update(
                11,
                count as u8,
            ),
    {
        set_u16(&mut self.data, count, 10);
    }
}

/// A byte-for-byte copy of a vector.
pub fn clone_bytes(data: &Vec<u8>) -> (r: Vec<u8>)
    ensures
        r@ == data@,
{
    let mut out: Vec<u8> = Vec::new();
    let mut i: usize = 0;
    while i < data.len()
        invariant
            i <= data.len(),
            out@ =~= data@.subrange(0, i as int),
        decreases data.len() - i,
    {
        out.push(data[i]);
        i += 1;
    }
    proof {
        assert(out@ =~= data@);
    }
    out
}

} // verus!
