//! Named constants of the DNS header and record fields: record type, record
//! class, opcode and response code, with their wire values.

use vstd::prelude::*;

use crate::util::spec_u16_bytes;

verus! {

#[derive(Clone, Copy, PartialEq, Eq, Structural, Debug)]
pub enum Type {
    A,
    NS,
    MD,
    MF,
    CNAME,
    SOA,
    MB,
    MG,
    MR,
    NULLDATA,
    WKS,
    PTR,
    HINFO,
    MINFO,
    MX,
    TXT,
    RP,
    AFSDB,
    X25,
    ISDN,
    RT,
    NSAP,
    NsapPtr,
    SIG,
    KEY,
    PX,
    GPOS,
    AAAA,
    LOC,
    NXT,
    EID,
    NIMLOC,
    SRV,
    ATMA,
    NAPTR,
    KX,
    CERT,
    A6,
    DNAME,
    SINK,
    OPT,
    APL,
    DS,
    SSHFP,
    IPSECKEY,
    RRSIG,
    NSEC,
    DNSKEY,
    DHCID,
    NSEC3,
    NSEC3PARAM,
    TLSA,
    SMIMEA,
    HIP,
    NINFO,
    RKEY,
    TALINK,
    CDS,
    CDNSKEY,
    OPENPGPKEY,
    CSYNC,
    SPF,
    UINFO,
    UID,
    GID,
    UNSPEC,
    NID,
    L32,
    L64,
    LP,
    EUI48,
    EUI64,
    TKEY,
    TSIG,
    IXFR,
    AXFR,
    MAILB,
    MAILA,
    ANY,
    URI,
    CAA,
    AVC,
    DOA,
    TA,
    DLV,
    /// A wire value outside the assigned codes, kept as it came.
    Unknown(u16),
}

pub open spec fn spec_type_code(v: Type) -> u16 {
    match v {
        Type::A => 1,
        Type::NS => 2,
        Type::MD => 3,
        Type::MF => 4,
        Type::CNAME => 5,
        Type::SOA => 6,
        Type::MB => 7,
        Type::MG => 8,
        Type::MR => 9,
        Type::NULLDATA => 10,
        Type::WKS => 11,
        Type::PTR => 12,
        Type::HINFO => 13,
        Type::MINFO => 14,
        Type::MX => 15,
        Type::TXT => 16,
        Type::RP => 17,
        Type::AFSDB => 18,
        Type::X25 => 19,
        Type::ISDN => 20,
        Type::RT => 21,
        Type::NSAP => 22,
        Type::NsapPtr => 23,
        Type::SIG => 24,
        Type::KEY => 25,
        Type::PX => 26,
        Type::GPOS => 27,
        Type::AAAA => 28,
        Type::LOC => 29,
        Type::NXT => 30,
        Type::EID => 31,
        Type::NIMLOC => 32,
        Type::SRV => 33,
        Type::ATMA => 34,
        Type::NAPTR => 35,
        Type::KX => 36,
        Type::CERT => 37,
        Type::A6 => 38,
        Type::DNAME => 39,
        Type::SINK => 40,
        Type::OPT => 41,
        Type::APL => 42,
        Type::DS => 43,
        Type::SSHFP => 44,
        Type::IPSECKEY => 45,
        Type::RRSIG => 46,
        Type::NSEC => 47,
        Type::DNSKEY => 48,
        Type::DHCID => 49,
        Type::NSEC3 => 50,
        Type::NSEC3PARAM => 51,
        Type::TLSA => 52,
        Type::SMIMEA => 53,
        Type::HIP => 55,
        Type::NINFO => 56,
        Type::RKEY => 57,
        Type::TALINK => 58,
        Type::CDS => 59,
        Type::CDNSKEY => 60,
        Type::OPENPGPKEY => 61,
        Type::CSYNC => 62,
        Type::SPF => 99,
        Type::UINFO => 100,
        Type::UID => 101,
        Type::GID => 102,
        Type::UNSPEC => 103,
        Type::NID => 104,
        Type::L32 => 105,
        Type::L64 => 106,
        Type::LP => 107,
        Type::EUI48 => 108,
        Type::EUI64 => 109,
        Type::TKEY => 249,
        Type::TSIG => 250,
        Type::IXFR => 251,
        Type::AXFR => 252,
        Type::MAILB => 253,
        Type::MAILA => 254,
        Type::ANY => 255,
        Type::URI => 256,
        Type::CAA => 257,
        Type::AVC => 258,
        Type::DOA => 259,
        Type::TA => 32768,
        Type::DLV => 32769,
        Type::Unknown(raw) => raw,
    }
}

pub open spec fn spec_type_from(raw: u16) -> Type {
    if raw == 1 {
        Type::A
    } else if raw == 2 {
        Type::NS
    } else if raw == 3 {
        Type::MD
    } else if raw == 4 {
        Type::MF
    } else if raw == 5 {
        Type::CNAME
    } else if raw == 6 {
        Type::SOA
    } else if raw == 7 {
        Type::MB
    } else if raw == 8 {
        Type::MG
    } else if raw == 9 {
        Type::MR
    } else if raw == 10 {
        Type::NULLDATA
    } else if raw == 11 {
        Type::WKS
    } else if raw == 12 {
        Type::PTR
    } else if raw == 13 {
        Type::HINFO
    } else if raw == 14 {
        Type::MINFO
    } else if raw == 15 {
        Type::MX
    } else if raw == 16 {
        Type::TXT
    } else if raw == 17 {
        Type::RP
    } else if raw == 18 {
        Type::AFSDB
    } else if raw == 19 {
        Type::X25
    } else if raw == 20 {
        Type::ISDN
    } else if raw == 21 {
        Type::RT
    } else if raw == 22 {
        Type::NSAP
    } else if raw == 23 {
        Type::NsapPtr
    } else if raw == 24 {
        Type::SIG
    } else if raw == 25 {
        Type::KEY
    } else if raw == 26 {
        Type::PX
    } else if raw == 27 {
        Type::GPOS
    } else if raw == 28 {
        Type::AAAA
    } else if raw == 29 {
        Type::LOC
    } else if raw == 30 {
        Type::NXT
    } else if raw == 31 {
        Type::EID
    } else if raw == 32 {
        Type::NIMLOC
    } else if raw == 33 {
        Type::SRV
    } else if raw == 34 {
        Type::ATMA
    } else if raw == 35 {
        Type::NAPTR
    } else if raw == 36 {
        Type::KX
    } else if raw == 37 {
        Type::CERT
    } else if raw == 38 {
        Type::A6
    } else if raw == 39 {
        Type::DNAME
    } else if raw == 40 {
        Type::SINK
    } else if raw == 41 {
        Type::OPT
    } else if raw == 42 {
        Type::APL
    } else if raw == 43 {
        Type::DS
    } else if raw == 44 {
        Type::SSHFP
    } else if raw == 45 {
        Type::IPSECKEY
    } else if raw == 46 {
        Type::RRSIG
    } else if raw == 47 {
        Type::NSEC
    } else if raw == 48 {
        Type::DNSKEY
    } else if raw == 49 {
        Type::DHCID
    } else if raw == 50 {
        Type::NSEC3
    } else if raw == 51 {
        Type::NSEC3PARAM
    } else if raw == 52 {
        Type::TLSA
    } else if raw == 53 {
        Type::SMIMEA
    } else if raw == 55 {
        Type::HIP
    } else if raw == 56 {
        Type::NINFO
    } else if raw == 57 {
        Type::RKEY
    } else if raw == 58 {
        Type::TALINK
    } else if raw == 59 {
        Type::CDS
    } else if raw == 60 {
        Type::CDNSKEY
    } else if raw == 61 {
        Type::OPENPGPKEY
    } else if raw == 62 {
        Type::CSYNC
    } else if raw == 99 {
        Type::SPF
    } else if raw == 100 {
        Type::UINFO
    } else if raw == 101 {
        Type::UID
    } else if raw == 102 {
        Type::GID
    } else if raw == 103 {
        Type::UNSPEC
    } else if raw == 104 {
        Type::NID
    } else if raw == 105 {
        Type::L32
    } else if raw == 106 {
        Type::L64
    } else if raw == 107 {
        Type::LP
    } else if raw == 108 {
        Type::EUI48
    } else if raw == 109 {
        Type::EUI64
    } else if raw == 249 {
        Type::TKEY
    } else if raw == 250 {
        Type::TSIG
    } else if raw == 251 {
        Type::IXFR
    } else if raw == 252 {
        Type::AXFR
    } else if raw == 253 {
        Type::MAILB
    } else if raw == 254 {
        Type::MAILA
    } else if raw == 255 {
        Type::ANY
    } else if raw == 256 {
        Type::URI
    } else if raw == 257 {
        Type::CAA
    } else if raw == 258 {
        Type::AVC
    } else if raw == 259 {
        Type::DOA
    } else if raw == 32768 {
        Type::TA
    } else if raw == 32769 {
        Type::DLV
    } else {
        Type::Unknown(raw)
    }
}

/// A value is canonical when its `Unknown` form is not used for an assigned code.
pub open spec fn type_wf(v: Type) -> bool {
    match v {
        Type::Unknown(raw) => spec_type_from(raw) == Type::Unknown(raw),
        _ => true,
    }
}

impl Type {
    /// Reads a Type from its 16-bit wire value; unassigned codes are kept in `Unknown`.
    pub fn from_raw(raw: u16) -> (v: Type)
        ensures
            v == spec_type_from(raw),
            type_wf(v),
    {
        let v = 
        if raw == 1 {
            Type::A
        } else if raw == 2 {
            Type::NS
        } else if raw == 3 {
            Type::MD
        } else if raw == 4 {
            Type::MF
        } else if raw == 5 {
            Type::CNAME
        } else if raw == 6 {
            Type::SOA
        } else if raw == 7 {
            Type::MB
        } else if raw == 8 {
            Type::MG
        } else if raw == 9 {
            Type::MR
        } else if raw == 10 {
            Type::NULLDATA
        } else if raw == 11 {
            Type::WKS
        } else if raw == 12 {
            Type::PTR
        } else if raw == 13 {
            Type::HINFO
        } else if raw == 14 {
            Type::MINFO
        } else if raw == 15 {
            Type::MX
        } else if raw == 16 {
            Type::TXT
        } else if raw == 17 {
            Type::RP
        } else if raw == 18 {
            Type::AFSDB
        } else if raw == 19 {
            Type::X25
        } else if raw == 20 {
            Type::ISDN
        } else if raw == 21 {
            Type::RT
        } else if raw == 22 {
            Type::NSAP
        } else if raw == 23 {
            Type::NsapPtr
        } else if raw == 24 {
            Type::SIG
        } else if raw == 25 {
            Type::KEY
        } else if raw == 26 {
            Type::PX
        } else if raw == 27 {
            Type::GPOS
        } else if raw == 28 {
            Type::AAAA
        } else if raw == 29 {
            Type::LOC
        } else if raw == 30 {
            Type::NXT
        } else if raw == 31 {
            Type::EID
        } else if raw == 32 {
            Type::NIMLOC
        } else if raw == 33 {
            Type::SRV
        } else if raw == 34 {
            Type::ATMA
        } else if raw == 35 {
            Type::NAPTR
        } else if raw == 36 {
            Type::KX
        } else if raw == 37 {
            Type::CERT
        } else if raw == 38 {
            Type::A6
        } else if raw == 39 {
            Type::DNAME
        } else if raw == 40 {
            Type::SINK
        } else if raw == 41 {
            Type::OPT
        } else if raw == 42 {
            Type::APL
        } else if raw == 43 {
            Type::DS
        } else if raw == 44 {
            Type::SSHFP
        } else if raw == 45 {
            Type::IPSECKEY
        } else if raw == 46 {
            Type::RRSIG
        } else if raw == 47 {
            Type::NSEC
        } else if raw == 48 {
            Type::DNSKEY
        } else if raw == 49 {
            Type::DHCID
        } else if raw == 50 {
            Type::NSEC3
        } else if raw == 51 {
            Type::NSEC3PARAM
        } else if raw == 52 {
            Type::TLSA
        } else if raw == 53 {
            Type::SMIMEA
        } else if raw == 55 {
            Type::HIP
        } else if raw == 56 {
            Type::NINFO
        } else if raw == 57 {
            Type::RKEY
        } else if raw == 58 {
            Type::TALINK
        } else if raw == 59 {
            Type::CDS
        } else if raw == 60 {
            Type::CDNSKEY
        } else if raw == 61 {
            Type::OPENPGPKEY
        } else if raw == 62 {
            Type::CSYNC
        } else if raw == 99 {
            Type::SPF
        } else if raw == 100 {
            Type::UINFO
        } else if raw == 101 {
            Type::UID
        } else if raw == 102 {
            Type::GID
        } else if raw == 103 {
            Type::UNSPEC
        } else if raw == 104 {
            Type::NID
        } else if raw == 105 {
            Type::L32
        } else if raw == 106 {
            Type::L64
        } else if raw == 107 {
            Type::LP
        } else if raw == 108 {
            Type::EUI48
        } else if raw == 109 {
            Type::EUI64
        } else if raw == 249 {
            Type::TKEY
        } else if raw == 250 {
            Type::TSIG
        } else if raw == 251 {
            Type::IXFR
        } else if raw == 252 {
            Type::AXFR
        } else if raw == 253 {
            Type::MAILB
        } else if raw == 254 {
            Type::MAILA
        } else if raw == 255 {
            Type::ANY
        } else if raw == 256 {
            Type::URI
        } else if raw == 257 {
            Type::CAA
        } else if raw == 258 {
            Type::AVC
        } else if raw == 259 {
            Type::DOA
        } else if raw == 32768 {
            Type::TA
        } else if raw == 32769 {
            Type::DLV
        } else {
            Type::Unknown(raw)
        };
        proof {
            lemma_type_code_from(raw);
        }
        v
    }

    /// The 16-bit wire value of this Type.
    pub fn code(&self) -> (raw: u16)
        ensures
            raw == spec_type_code(*self),
    {
        match self {
            Type::A => 1,
            Type::NS => 2,
            Type::MD => 3,
            Type::MF => 4,
            Type::CNAME => 5,
            Type::SOA => 6,
            Type::MB => 7,
            Type::MG => 8,
            Type::MR => 9,
            Type::NULLDATA => 10,
            Type::WKS => 11,
            Type::PTR => 12,
            Type::HINFO => 13,
            Type::MINFO => 14,
            Type::MX => 15,
            Type::TXT => 16,
            Type::RP => 17,
            Type::AFSDB => 18,
            Type::X25 => 19,
            Type::ISDN => 20,
            Type::RT => 21,
            Type::NSAP => 22,
            Type::NsapPtr => 23,
            Type::SIG => 24,
            Type::KEY => 25,
            Type::PX => 26,
            Type::GPOS => 27,
            Type::AAAA => 28,
            Type::LOC => 29,
            Type::NXT => 30,
            Type::EID => 31,
            Type::NIMLOC => 32,
            Type::SRV => 33,
            Type::ATMA => 34,
            Type::NAPTR => 35,
            Type::KX => 36,
            Type::CERT => 37,
            Type::A6 => 38,
            Type::DNAME => 39,
            Type::SINK => 40,
            Type::OPT => 41,
            Type::APL => 42,
            Type::DS => 43,
            Type::SSHFP => 44,
            Type::IPSECKEY => 45,
            Type::RRSIG => 46,
            Type::NSEC => 47,
            Type::DNSKEY => 48,
            Type::DHCID => 49,
            Type::NSEC3 => 50,
            Type::NSEC3PARAM => 51,
            Type::TLSA => 52,
            Type::SMIMEA => 53,
            Type::HIP => 55,
            Type::NINFO => 56,
            Type::RKEY => 57,
            Type::TALINK => 58,
            Type::CDS => 59,
            Type::CDNSKEY => 60,
            Type::OPENPGPKEY => 61,
            Type::CSYNC => 62,
            Type::SPF => 99,
            Type::UINFO => 100,
            Type::UID => 101,
            Type::GID => 102,
            Type::UNSPEC => 103,
            Type::NID => 104,
            Type::L32 => 105,
            Type::L64 => 106,
            Type::LP => 107,
            Type::EUI48 => 108,
            Type::EUI64 => 109,
            Type::TKEY => 249,
            Type::TSIG => 250,
            Type::IXFR => 251,
            Type::AXFR => 252,
            Type::MAILB => 253,
            Type::MAILA => 254,
            Type::ANY => 255,
            Type::URI => 256,
            Type::CAA => 257,
            Type::AVC => 258,
            Type::DOA => 259,
            Type::TA => 32768,
            Type::DLV => 32769,
            Type::Unknown(raw) => *raw,
        }
    }

    /// Appends the big-endian 16-bit wire value of this Type.
    pub fn to_raw(&self, output: &mut Vec<u8>)
        ensures
            final(output)@ == old(output)@ + spec_u16_bytes(spec_type_code(*self)),
    {
        let raw = self.code();
        output.push(((raw >> 8) & 0x00FF) as u8);
        output.push((raw & 0x00FF) as u8);
        proof {
            let r = spec_type_code(*self);
            assert(((r >> 8) & 0x00FF) as u8 == (r >> 8) as u8) by (bit_vector);
            assert(((r & 0x00FF) as u8) == r as u8) by (bit_vector);
            assert(output@ =~= old(output)@ + spec_u16_bytes(r));
        }
    }
}

/// Decoding the wire value of a canonical Type gives it back.
pub proof fn lemma_type_from_code(v: Type)
    requires
        type_wf(v),
    ensures
        spec_type_from(spec_type_code(v)) == v,
{
}

/// Encoding a decoded wire value gives the value back.
pub proof fn lemma_type_code_from(raw: u16)
    ensures
        spec_type_code(spec_type_from(raw)) == raw,
        type_wf(spec_type_from(raw)),
{
}

#[derive(Clone, Copy, PartialEq, Eq, Structural, Debug)]
pub enum Class {
    Internet,
    Chaos,
    Hesiod,
    QclassNone,
    QclassAny,
    /// A wire value outside the assigned codes, kept as it came.
    Unknown(u16),
}

pub open spec fn spec_class_code(v: Class) -> u16 {
    match v {
        Class::Internet => 1,
        Class::Chaos => 3,
        Class::Hesiod => 4,
        Class::QclassNone => 254,
        Class::QclassAny => 255,
        Class::Unknown(raw) => raw,
    }
}

pub open spec fn spec_class_from(raw: u16) -> Class {
    if raw == 1 {
        Class::Internet
    } else if raw == 3 {
        Class::Chaos
    } else if raw == 4 {
        Class::Hesiod
    } else if raw == 254 {
        Class::QclassNone
    } else if raw == 255 {
        Class::QclassAny
    } else {
        Class::Unknown(raw)
    }
}

/// A value is canonical when its `Unknown` form is not used for an assigned code.
pub open spec fn class_wf(v: Class) -> bool {
    match v {
        Class::Unknown(raw) => spec_class_from(raw) == Class::Unknown(raw),
        _ => true,
    }
}

impl Class {
    /// Reads a Class from its 16-bit wire value; unassigned codes are kept in `Unknown`.
    pub fn from_raw(raw: u16) -> (v: Class)
        ensures
            v == spec_class_from(raw),
            class_wf(v),
    {
        let v = 
        if raw == 1 {
            Class::Internet
        } else if raw == 3 {
            Class::Chaos
        } else if raw == 4 {
            Class::Hesiod
        } else if raw == 254 {
            Class::QclassNone
        } else if raw == 255 {
            Class::QclassAny
        } else {
            Class::Unknown(raw)
        };
        proof {
            lemma_class_code_from(raw);
        }
        v
    }

    /// The 16-bit wire value of this Class.
    pub fn code(&self) -> (raw: u16)
        ensures
            raw == spec_class_code(*self),
    {
        match self {
            Class::Internet => 1,
            Class::Chaos => 3,
            Class::Hesiod => 4,
            Class::QclassNone => 254,
            Class::QclassAny => 255,
            Class::Unknown(raw) => *raw,
        }
    }

    /// Appends the big-endian 16-bit wire value of this Class.
    pub fn to_raw(&self, output: &mut Vec<u8>)
        ensures
            final(output)@ == old(output)@ + spec_u16_bytes(spec_class_code(*self)),
    {
        let raw = self.code();
        output.push(((raw >> 8) & 0x00FF) as u8);
        output.push((raw & 0x00FF) as u8);
        proof {
            let r = spec_class_code(*self);
            assert(((r >> 8) & 0x00FF) as u8 == (r >> 8) as u8) by (bit_vector);
            assert(((r & 0x00FF) as u8) == r as u8) by (bit_vector);
            assert(output@ =~= old(output)@ + spec_u16_bytes(r));
        }
    }
}

/// Decoding the wire value of a canonical Class gives it back.
pub proof fn lemma_class_from_code(v: Class)
    requires
        class_wf(v),
    ensures
        spec_class_from(spec_class_code(v)) == v,
{
}

/// Encoding a decoded wire value gives the value back.
pub proof fn lemma_class_code_from(raw: u16)
    ensures
        spec_class_code(spec_class_from(raw)) == raw,
        class_wf(spec_class_from(raw)),
{
}

#[derive(Clone, Copy, PartialEq, Eq, Structural, Debug)]
pub enum Opcode {
    StandardQuery,
    InverseQuery,
    ServerStatus,
    Unassigned,
    Notify,
    Update,
    StatefulOperations,
    Unknown,
}

pub open spec fn spec_opcode_code(v: Opcode) -> u8 {
    match v {
        Opcode::StandardQuery => 0,
        Opcode::InverseQuery => 1,
        Opcode::ServerStatus => 2,
        Opcode::Unassigned => 3,
        Opcode::Notify => 4,
        Opcode::Update => 5,
        Opcode::StatefulOperations => 6,
        Opcode::Unknown => 7,
    }
}

pub open spec fn spec_opcode_from(raw: u8) -> Opcode {
    if raw == 0 {
        Opcode::StandardQuery
    } else if raw == 1 {
        Opcode::InverseQuery
    } else if raw == 2 {
        Opcode::ServerStatus
    } else if raw == 3 {
        Opcode::Unassigned
    } else if raw == 4 {
        Opcode::Notify
    } else if raw == 5 {
        Opcode::Update
    } else if raw == 6 {
        Opcode::StatefulOperations
    } else {
        Opcode::Unknown
    }
}

impl Opcode {
    /// Reads a Opcode from its raw field value; out-of-range codes give `Unknown`.
    pub fn from_raw(raw: u8) -> (v: Opcode)
        ensures
            v == spec_opcode_from(raw),
    {
        if raw == 0 {
            Opcode::StandardQuery
        } else if raw == 1 {
            Opcode::InverseQuery
        } else if raw == 2 {
            Opcode::ServerStatus
        } else if raw == 3 {
            Opcode::Unassigned
        } else if raw == 4 {
            Opcode::Notify
        } else if raw == 5 {
            Opcode::Update
        } else if raw == 6 {
            Opcode::StatefulOperations
        } else {
            Opcode::Unknown
        }
    }

    /// The raw field value of this Opcode.
    pub fn to_raw(&self) -> (raw: u8)
        ensures
            raw == spec_opcode_code(*self),
    {
        match self {
            Opcode::StandardQuery => 0,
            Opcode::InverseQuery => 1,
            Opcode::ServerStatus => 2,
            Opcode::Unassigned => 3,
            Opcode::Notify => 4,
            Opcode::Update => 5,
            Opcode::StatefulOperations => 6,
            Opcode::Unknown => 7,
        }
    }
}

/// Decoding the emitted field value of a Opcode gives it back.
pub proof fn lemma_opcode_from_code(v: Opcode)
    ensures
        spec_opcode_from(spec_opcode_code(v)) == v,
        spec_opcode_code(v) <= 7,
{
}

#[derive(Clone, Copy, PartialEq, Eq, Structural, Debug)]
pub enum ResponseCode {
    NoError,
    FormErr,
    ServFail,
    NXDomain,
    NotImp,
    Refused,
    YXDomain,
    YXRRSet,
    NXRRSet,
    NotAuth,
    NotZone,
    DSOTYPENI,
    Unknown,
}

pub open spec fn spec_rcode_code(v: ResponseCode) -> u8 {
    match v {
        ResponseCode::NoError => 0,
        ResponseCode::FormErr => 1,
        ResponseCode::ServFail => 2,
        ResponseCode::NXDomain => 3,
        ResponseCode::NotImp => 4,
        ResponseCode::Refused => 5,
        ResponseCode::YXDomain => 6,
        ResponseCode::YXRRSet => 7,
        ResponseCode::NXRRSet => 8,
        ResponseCode::NotAuth => 9,
        ResponseCode::NotZone => 10,
        ResponseCode::DSOTYPENI => 11,
        ResponseCode::Unknown => 12,
    }
}

pub open spec fn spec_rcode_from(raw: u8) -> ResponseCode {
    if raw == 0 {
        ResponseCode::NoError
    } else if raw == 1 {
        ResponseCode::FormErr
    } else if raw == 2 {
        ResponseCode::ServFail
    } else if raw == 3 {
        ResponseCode::NXDomain
    } else if raw == 4 {
        ResponseCode::NotImp
    } else if raw == 5 {
        ResponseCode::Refused
    } else if raw == 6 {
        ResponseCode::YXDomain
    } else if raw == 7 {
        ResponseCode::YXRRSet
    } else if raw == 8 {
        ResponseCode::NXRRSet
    } else if raw == 9 {
        ResponseCode::NotAuth
    } else if raw == 10 {
        ResponseCode::NotZone
    } else if raw == 11 {
        ResponseCode::DSOTYPENI
    } else {
        ResponseCode::Unknown
    }
}

impl ResponseCode {
    /// Reads a ResponseCode from its raw field value; out-of-range codes give `Unknown`.
    pub fn from_raw(raw: u8) -> (v: ResponseCode)
        ensures
            v == spec_rcode_from(raw),
    {
        if raw == 0 {
            ResponseCode::NoError
        } else if raw == 1 {
            ResponseCode::FormErr
        } else if raw == 2 {
            ResponseCode::ServFail
        } else if raw == 3 {
            ResponseCode::NXDomain
        } else if raw == 4 {
            ResponseCode::NotImp
        } else if raw == 5 {
            ResponseCode::Refused
        } else if raw == 6 {
            ResponseCode::YXDomain
        } else if raw == 7 {
            ResponseCode::YXRRSet
        } else if raw == 8 {
            ResponseCode::NXRRSet
        } else if raw == 9 {
            ResponseCode::NotAuth
        } else if raw == 10 {
            ResponseCode::NotZone
        } else if raw == 11 {
            ResponseCode::DSOTYPENI
        } else {
            ResponseCode::Unknown
        }
    }

    /// The raw field value of this ResponseCode.
    pub fn to_raw(&self) -> (raw: u8)
        ensures
            raw == spec_rcode_code(*self),
    {
        match self {
            ResponseCode::NoError => 0,
            ResponseCode::FormErr => 1,
            ResponseCode::ServFail => 2,
            ResponseCode::NXDomain => 3,
            ResponseCode::NotImp => 4,
            ResponseCode::Refused => 5,
            ResponseCode::YXDomain => 6,
            ResponseCode::YXRRSet => 7,
            ResponseCode::NXRRSet => 8,
            ResponseCode::NotAuth => 9,
            ResponseCode::NotZone => 10,
            ResponseCode::DSOTYPENI => 11,
            ResponseCode::Unknown => 12,
        }
    }
}

/// Decoding the emitted field value of a ResponseCode gives it back.
pub proof fn lemma_rcode_from_code(v: ResponseCode)
    ensures
        spec_rcode_from(spec_rcode_code(v)) == v,
        spec_rcode_code(v) <= 12,
{
}

} // verus!
