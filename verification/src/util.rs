//! Endian-correct access to 16- and 32-bit fields and to single flag bits of
//! a byte buffer, and the parsers for labels, questions and resources.

use vstd::prelude::*;

use crate::data::{Label, LabelView, Question, QuestionView, Resource, ResourceView};
use crate::data::{spec_parse_question, spec_parse_questions, spec_parse_resource,
    spec_parse_resources, spec_question_views, spec_resource_views};
use crate::enums::{Class, Type};

verus! {

/// Relies on std's `String::push`: appends the given character to the end of
/// the string.
pub assume_specification[ String::push ](s: &mut String, c: char)
    ensures
        final(s)@ == old(s)@.push(c),
;

/// Why an encode or a decode of a DNS message failed.
#[derive(Clone, Copy, PartialEq, Eq, Structural, Debug)]
pub enum CodecError {
    /// A read or a write would fall outside the buffer.
    BufferTooShort,
    /// A domain part of 64 or more bytes cannot be emitted as one label part.
    LabelPartTooLong,
}

/// The two bytes of a 16-bit value, high byte first.
pub open spec fn spec_u16_bytes(v: u16) -> Seq<u8> {
    seq![(v >> 8) as u8, v as u8]
}

/// The four bytes of a 32-bit value, high byte first.
pub open spec fn spec_u32_bytes(v: u32) -> Seq<u8> {
    seq![(v >> 24) as u8, (v >> 16) as u8, (v >> 8) as u8, v as u8]
}

/// The big-endian 16-bit value read at `offset`.
pub open spec fn spec_get_u16(b: Seq<u8>, offset: int) -> u16 {
    ((b[offset] as u16) << 8) | (b[offset + 1] as u16)
}

/// The big-endian 32-bit value read at `offset`.
pub open spec fn spec_get_u32(b: Seq<u8>, offset: int) -> u32 {
    ((b[offset] as u32) << 24) | ((b[offset + 1] as u32) << 16) | ((b[offset + 2] as u32) << 8)
        | (b[offset + 3] as u32)
}

/// Reading back the two emitted bytes of a 16-bit value gives the value.
pub proof fn lemma_u16_bytes_roundtrip(v: u16, b: Seq<u8>, offset: int)
    requires
        0 <= offset,
        offset + 1 < b.len(),
        b[offset] == (v >> 8) as u8,
        b[offset + 1] == v as u8,
    ensures
        spec_get_u16(b, offset) == v,
{
    let hi = b[offset];
    let lo = b[offset + 1];
    assert(hi == (v >> 8) as u8 && lo == v as u8 ==> ((hi as u16) << 8) | (lo as u16) == v)
        by (bit_vector);
}

/// Reading back the four emitted bytes of a 32-bit value gives the value.
pub proof fn lemma_u32_bytes_roundtrip(v: u32, b: Seq<u8>, offset: int)
    requires
        0 <= offset,
        offset + 3 < b.len(),
        b[offset] == (v >> 24) as u8,
        b[offset + 1] == (v >> 16) as u8,
        b[offset + 2] == (v >> 8) as u8,
        b[offset + 3] == v as u8,
    ensures
        spec_get_u32(b, offset) == v,
{
    let b0 = b[offset];
    let b1 = b[offset + 1];
    let b2 = b[offset + 2];
    let b3 = b[offset + 3];
    assert(b0 == (v >> 24) as u8 && b1 == (v >> 16) as u8 && b2 == (v >> 8) as u8 && b3
        == v as u8 ==> ((b0 as u32) << 24) | ((b1 as u32) << 16) | ((b2 as u32) << 8) | (b3
        as u32) == v) by (bit_vector);
}

/// Writes `value` big-endian into the two bytes at `offset`.
pub fn set_u16(bytes: &mut Vec<u8>, value: u16, offset: usize)
    requires
        offset + 1 < old(bytes).len(),
    ensures
        final(bytes)@ == old(bytes)@.update(offset as int, (value >> 8) as u8).update(
            offset as int + 1,
            value as u8,
        ),
{
    let b1 = ((value >> 8) & 0x00FF) as u8;
    let b2 = (value & 0x00FF) as u8;

    bytes.set(offset, b1);
    bytes.set(offset + 1, b2);
    proof {
        assert(((value >> 8) & 0x00FF) as u8 == (value >> 8) as u8) by (bit_vector);
        assert((value & 0x00FF) as u8 == value as u8) by (bit_vector);
    }
}

/// Reads the big-endian 16-bit value at `offset`.
pub fn get_u16(bytes: &Vec<u8>, offset: usize) -> (r: u16)
    requires
        offset + 1 < bytes.len(),
    ensures
        r == spec_get_u16(bytes@, offset as int),
{
    let mut datum: u16 = bytes[offset] as u16;
    datum <<= 8;
    datum |= bytes[offset + 1] as u16;

    datum
}

/// Reads the big-endian 32-bit value at `offset`.
pub fn get_u32(bytes: &Vec<u8>, offset: usize) -> (r: u32)
    requires
        offset + 3 < bytes.len(),
    ensures
        r == spec_get_u32(bytes@, offset as int),
{
    let mut datum: u32 = bytes[offset] as u32;
    datum <<= 24;
    datum |= (bytes[offset + 1] as u32) << 16;
    datum |= (bytes[offset + 2] as u32) << 8;
    datum |= bytes[offset + 3] as u32;

    datum
}

/// Reads a single bit of a byte; bit 0 is the least significant.
pub open spec fn spec_get_flag(byte: u8, index: u8) -> bool {
    byte & (1u8 << index) != 0
}

/// The byte after one bit has been set or cleared.
pub open spec fn spec_set_flag(byte: u8, index: u8, value: bool) -> u8 {
    if value {
        byte | (1u8 << index)
    } else {
        byte & !(1u8 << index)
    }
}

/// Reads a single bit of a byte; bit 0 is the least significant.
pub fn get_flag(byte: u8, index: u8) -> (r: bool)
    requires
        index < 8,
    ensures
        r == spec_get_flag(byte, index),
{
    byte & (0x01u8 << index) != 0
}

/// Sets or clears a single bit of a byte, leaving every other bit as it was.
pub fn set_flag(byte: &mut u8, index: u8, value: bool)
    requires
        index < 8,
    ensures
        *final(byte) == spec_set_flag(*old(byte), index, value),
        spec_get_flag(*final(byte), index) == value,
        forall|j: u8| j < 8 && j != index ==> spec_get_flag(*final(byte), j) == spec_get_flag(
            *old(byte),
            j,
        ),
{
    let mask: u8 = 0x01u8 << index;
    if value {
        *byte |= mask;
    } else {
        *byte &= !mask;
    }
    proof {
        lemma_set_flag_frame(*old(byte), index, value);
    }
}

/// Setting one bit changes that bit alone.
pub proof fn lemma_set_flag_frame(byte: u8, index: u8, value: bool)
    requires
        index < 8,
    ensures
        spec_get_flag(spec_set_flag(byte, index, value), index) == value,
        forall|j: u8| j < 8 && j != index ==> spec_get_flag(spec_set_flag(byte, index, value), j)
            == spec_get_flag(byte, j),
{
    assert(index < 8 ==> ((byte | (1u8 << index)) & (1u8 << index) != 0)) by (bit_vector);
    assert(index < 8 ==> ((byte & !(1u8 << index)) & (1u8 << index) == 0)) by (bit_vector);
    assert forall|j: u8| j < 8 && j != index implies spec_get_flag(
        spec_set_flag(byte, index, value),
        j,
    ) == spec_get_flag(byte, j) by {
        assert(j < 8 && index < 8 && j != index ==> ((byte | (1u8 << index)) & (1u8 << j) == byte
            & (1u8 << j)) && ((byte & !(1u8 << index)) & (1u8 << j) == byte & (1u8 << j)))
            by (bit_vector);
    }
}

/// Index of the first `'.'` in `s`, or `s.len()` when there is none.
pub open spec fn first_dot(s: Seq<char>) -> int
    decreases s.len(),
{
    if s.len() == 0 {
        0
    } else if s[0] == '.' {
        0
    } else {
        1 + first_dot(s.skip(1))
    }
}

/// `first_dot` lies between 0 and the length, points at a dot when it is not
/// the length, and nothing before it is a dot.
pub proof fn lemma_first_dot_bounds(s: Seq<char>)
    ensures
        0 <= first_dot(s) <= s.len(),
        first_dot(s) < s.len() ==> s[first_dot(s)] == '.',
        forall|j: int| 0 <= j < first_dot(s) ==> s[j] != '.',
    decreases s.len(),
{
    if s.len() == 0 {
    } else if s[0] == '.' {
    } else {
        lemma_first_dot_bounds(s.skip(1));
        let k = first_dot(s);
        assert forall|j: int| 0 <= j < k implies s[j] != '.' by {
            if j > 0 {
                assert(s.skip(1)[j - 1] == s[j]);
            }
        }
        if k < s.len() {
            assert(s.skip(1)[k - 1] == s[k]);
        }
    }
}

/// An index with no dot before it, and a dot (or the end) at it, is
/// `first_dot`.
pub proof fn lemma_first_dot_is(s: Seq<char>, k: int)
    requires
        0 <= k <= s.len(),
        forall|j: int| 0 <= j < k ==> s[j] != '.',
        k < s.len() ==> s[k] == '.',
    ensures
        first_dot(s) == k,
    decreases s.len(),
{
    if s.len() == 0 {
    } else if s[0] == '.' {
        assert(k == 0);
    } else {
        assert(k >= 1);
        assert forall|j: int| 0 <= j < k - 1 implies s.skip(1)[j] != '.' by {
            assert(s.skip(1)[j] == s[j + 1]);
        }
        if k - 1 < s.skip(1).len() {
            assert(s.skip(1)[k - 1] == s[k]);
        }
        lemma_first_dot_is(s.skip(1), k - 1);
    }
}

/// The characters taken as bytes, one each.
pub open spec fn chars_to_bytes(s: Seq<char>) -> Seq<u8> {
    s.map_values(|c: char| c as u8)
}

/// The bytes taken as characters, one each.
pub open spec fn bytes_to_chars(b: Seq<u8>) -> Seq<char> {
    b.map_values(|x: u8| x as char)
}

/// A plain ASCII character.
pub open spec fn is_ascii_char(c: char) -> bool {
    (c as u32) < 128
}

/// Every character is plain ASCII.
pub open spec fn is_ascii_seq(s: Seq<char>) -> bool {
    forall|j: int| 0 <= j < s.len() ==> is_ascii_char(#[trigger] s[j])
}

/// An ASCII character survives the trip through its byte.
pub proof fn lemma_ascii_char_roundtrip(c: char)
    requires
        is_ascii_char(c),
    ensures
        (c as u8) as char == c,
        c as u8 as u32 == c as u32,
        (c as u8) < 128,
{
    broadcast use vstd::utf8::char_u32_cast, vstd::utf8::char_is_scalar;

    assert(c as u8 as u32 == c as u32);
}

/// ASCII characters survive the trip through their bytes.
pub proof fn lemma_chars_bytes_roundtrip(s: Seq<char>)
    requires
        is_ascii_seq(s),
    ensures
        bytes_to_chars(chars_to_bytes(s)) =~= s,
{
    assert forall|j: int| 0 <= j < s.len() implies bytes_to_chars(chars_to_bytes(s))[j] == s[j] by {
        assert(is_ascii_char(s[j]));
        assert(chars_to_bytes(s)[j] == s[j] as u8);
        assert(bytes_to_chars(chars_to_bytes(s))[j] == (s[j] as u8) as char);
        lemma_ascii_char_roundtrip(s[j]);
    }
}

/// Every part of the dotted name can be emitted: none is 64 bytes or longer.
pub open spec fn spec_domain_ok(s: Seq<char>) -> bool
    decreases s.len(),
{
    let k = first_dot(s);
    if k == s.len() {
        k <= 63
    } else {
        proof {
            lemma_first_dot_bounds(s);
        }
        k <= 63 && spec_domain_ok(s.skip(k + 1))
    }
}

/// The dotted name round-trips through the wire form: every part has 1 to 63
/// characters, all ASCII.
pub open spec fn spec_domain_valid(s: Seq<char>) -> bool
    decreases s.len(),
{
    let k = first_dot(s);
    if k == s.len() {
        1 <= k <= 63 && is_ascii_seq(s.take(k))
    } else {
        proof {
            lemma_first_dot_bounds(s);
        }
        1 <= k <= 63 && is_ascii_seq(s.take(k)) && spec_domain_valid(s.skip(k + 1))
    }
}

/// The wire bytes of a dotted name: for each part one length byte then the
/// part's characters as bytes; without the closing zero byte.
pub open spec fn spec_domain_bytes(s: Seq<char>) -> Seq<u8>
    decreases s.len(),
{
    let k = first_dot(s);
    if k == s.len() {
        seq![k as u8] + chars_to_bytes(s.take(k))
    } else {
        proof {
            lemma_first_dot_bounds(s);
        }
        seq![k as u8] + chars_to_bytes(s.take(k)) + spec_domain_bytes(s.skip(k + 1))
    }
}

/// The dotted-name characters read from `i` on, as the decoder accumulates
/// them onto `acc`: length-prefixed parts joined with dots, closed by a zero
/// length byte or by the end of the buffer.  `None` when a part would run
/// past the end.
pub open spec fn spec_parse_domain(b: Seq<u8>, i: nat, acc: Seq<char>) -> Option<(Seq<char>, nat)>
    decreases b.len() - i,
{
    if i >= b.len() {
        Some((acc, i))
    } else {
        let l = b[i as int] as nat;
        if l == 0 {
            Some((acc, (i + 1) as nat))
        } else if i + l >= b.len() {
            None
        } else {
            let part = bytes_to_chars(b.subrange(i as int + 1, i as int + 1 + l as int));
            let acc2 = if acc.len() == 0 {
                part
            } else {
                acc + seq!['.'] + part
            };
            spec_parse_domain(b, (i + l + 1) as nat, acc2)
        }
    }
}

/// The label read at offset `i`, and the offset just past it: a pointer when
/// the two top bits of the first byte are set, a dotted name otherwise.
pub open spec fn spec_parse_label(b: Seq<u8>, i: nat) -> Option<(LabelView, nat)> {
    if i >= b.len() {
        None
    } else if b[i as int] & 0xC0 == 0xC0 {
        Some((LabelView::Pointer(b[i as int] & 0x3F), (i + 2) as nat))
    } else {
        match spec_parse_domain(b, i, Seq::empty()) {
            Option::Some((s, j)) => Some((LabelView::Domain(s), j)),
            Option::None => None,
        }
    }
}

/// Emits the dotted name `domain_str` in its wire form: for each part a
/// length byte then the part's bytes, closed with a zero byte.  A part of 64
/// or more characters cannot be emitted and is rejected.
pub fn str_domain_to_dns_domain(domain_str: &String) -> (r: Result<Vec<u8>, CodecError>)
    ensures
        match r {
            Ok(bytes) => spec_domain_ok(domain_str@) && bytes@ == spec_domain_bytes(domain_str@)
                + seq![0u8],
            Err(e) => !spec_domain_ok(domain_str@) && e == CodecError::LabelPartTooLong,
        },
{
    let s = domain_str.as_str();
    let n = s.unicode_len();
    let mut bytes = Vec::<u8>::new();
    let mut pos: usize = 0;

    proof {
        assert(s@.skip(0) =~= s@);
    }
    loop
        invariant
            pos <= n,
            n == s@.len(),
            s@ == domain_str@,
            spec_domain_ok(domain_str@) == spec_domain_ok(s@.skip(pos as int)),
            spec_domain_bytes(domain_str@) == bytes@ + spec_domain_bytes(s@.skip(pos as int)),
        decreases n - pos,
    {
        let ghost rem = s@.skip(pos as int);

        // Find the end of the current part.
        let mut j = pos;
        while j < n && s.get_char(j) != '.'
            invariant
                pos <= j <= n,
                n == s@.len(),
                forall|m: int| pos <= m < j ==> s@[m] != '.',
            decreases n - j,
        {
            j += 1;
        }

        let k = j - pos;
        proof {
            assert forall|m: int| 0 <= m < k implies rem[m] != '.' by {
                assert(rem[m] == s@[pos + m]);
            }
            if (k as int) < rem.len() {
                assert(rem[k as int] == s@[j as int]);
            }
            lemma_first_dot_is(rem, k as int);
        }

        if k > 63 {
            return Err(CodecError::LabelPartTooLong);
        }
        let ghost base = bytes@;
        bytes.push(k as u8);

        // Emit the part's characters as bytes.
        let mut m = pos;
        while m < j
            invariant
                pos <= m <= j <= n,
                n == s@.len(),
                k == j - pos,
                bytes@ == base.push(k as u8) + chars_to_bytes(s@.subrange(pos as int, m as int)),
            decreases j - m,
    {
            let c = s.get_char(m);
            bytes.push(c as u8);
            m += 1;
            proof {
                assert(s@.subrange(pos as int, m as int) =~= s@.subrange(
                    pos as int,
                    m as int - 1,
                ).push(s@[m as int - 1]));
                assert(chars_to_bytes(s@.subrange(pos as int, m as int)) =~= chars_to_bytes(
                    s@.subrange(pos as int, m as int - 1),
                ).push(s@[m as int - 1] as u8));
                assert(bytes@ =~= base.push(k as u8) + chars_to_bytes(
                    s@.subrange(pos as int, m as int),
                ));
            }
        }

        proof {
            assert(rem.take(k as int) =~= s@.subrange(pos as int, j as int));
        }

        if j == n {
            proof {
                assert(spec_domain_bytes(rem) == seq![k as u8] + chars_to_bytes(
                    rem.take(k as int),
                ));
                assert(bytes@ =~= base + spec_domain_bytes(rem));
            }
            bytes.push(0u8);
            proof {
                assert(bytes@ =~= spec_domain_bytes(domain_str@) + seq![0u8]);
            }
            return Ok(bytes);
        }
        proof {
            assert(spec_domain_bytes(rem) == seq![k as u8] + chars_to_bytes(rem.take(k as int))
                + spec_domain_bytes(rem.skip(k as int + 1)));
            assert(s@.skip(j as int + 1) =~= rem.skip(k as int + 1));
            assert(bytes@ + spec_domain_bytes(rem.skip(k as int + 1)) =~= base
                + spec_domain_bytes(rem));
        }
        pos = j + 1;
    }
}

/// Reads the label at `start`: a compression pointer when the two top bits
/// of the first byte are set, otherwise length-prefixed parts joined with
/// dots up to a zero byte (or the end of the buffer).
pub fn parse_label(bytes: &Vec<u8>, start: usize) -> (r: Result<(Label, usize), CodecError>)
    requires
        bytes.len() < usize::MAX,
    ensures
        match r {
            Ok((label, end)) => spec_parse_label(bytes@, start as nat) == Some(
                (label@, end as nat),
            ),
            Err(e) => spec_parse_label(bytes@, start as nat) is None && e
                == CodecError::BufferTooShort,
        },
{
    if start >= bytes.len() {
        return Err(CodecError::BufferTooShort);
    }
    // If the first two bits are set, this is a pointer.
    if bytes[start] & 0xC0 == 0xC0 {
        return Ok((Label::Pointer(bytes[start] & 0x3F), start + 2));
    }

    let mut domain = String::new();
    let mut i = start;

    while i < bytes.len()
        invariant
            start <= i <= bytes.len(),
            bytes.len() < usize::MAX,
            start < bytes.len(),
            bytes@[start as int] & 0xC0 != 0xC0,
            spec_parse_domain(bytes@, start as nat, Seq::empty()) == spec_parse_domain(
                bytes@,
                i as nat,
                domain@,
            ),
        decreases bytes.len() - i,
    {
        let l = bytes[i] as usize;
        if l == 0 {
            i += 1;
            proof {
                assert(spec_parse_domain(bytes@, (i - 1) as nat, domain@) == Some(
                    (domain@, i as nat),
                ));
            }
            return Ok((Label::Domain(domain), i));
        }

        if l >= bytes.len() - i {
            proof {
                assert(spec_parse_domain(bytes@, i as nat, domain@) is None);
            }
            return Err(CodecError::BufferTooShort);
        }

        let ghost acc0 = domain@;
        if !domain.as_str().is_empty() {
            domain.push('.');
        }

        let end = i + l;
        let ghost i0 = i;
        let ghost sep = domain@;
        i += 1;

        while i <= end
            invariant
                i0 + 1 <= i <= end + 1,
                end == i0 + l,
                0 < l < bytes.len() - i0,
                bytes.len() < usize::MAX,
                domain@ == sep + bytes_to_chars(bytes@.subrange(i0 + 1, i as int)),
            decreases end + 1 - i,
        {
            domain.push(bytes[i] as char);
            i += 1;
            proof {
                assert(bytes@.subrange(i0 + 1, i as int) =~= bytes@.subrange(
                    i0 + 1,
                    i as int - 1,
                ).push(bytes@[i as int - 1]));
                assert(bytes_to_chars(bytes@.subrange(i0 + 1, i as int)) =~= bytes_to_chars(
                    bytes@.subrange(i0 + 1, i as int - 1),
                ).push(bytes@[i as int - 1] as char));
                assert(domain@ =~= sep + bytes_to_chars(bytes@.subrange(i0 + 1, i as int)));
            }
        }

        proof {
            let part = bytes_to_chars(bytes@.subrange(i0 + 1, i0 + 1 + l as int));
            let acc2 = if acc0.len() == 0 {
                part
            } else {
                acc0 + seq!['.'] + part
            };
            if acc0.len() == 0 {
                assert(domain@ =~= acc2);
            } else {
                assert(sep =~= acc0 + seq!['.']);
                assert(domain@ =~= acc2);
            }
        }
    }

    // The buffer ended before a zero byte: what accumulated is the name.
    proof {
        assert(spec_parse_domain(bytes@, i as nat, domain@) == Some((domain@, i as nat)));
    }
    Ok((Label::Domain(domain), i))
}

/// Reads the question at `start`: a label, then 16-bit type and class.
pub fn parse_question(bytes: &Vec<u8>, start: usize) -> (r: Result<
    (Question, usize),
    CodecError,
>)
    requires
        bytes.len() < usize::MAX,
    ensures
        match r {
            Ok((q, end)) => spec_parse_question(bytes@, start as nat) == Some((q@, end as nat)),
            Err(e) => spec_parse_question(bytes@, start as nat) is None && e
                == CodecError::BufferTooShort,
        },
{
    let (label, index) = match parse_label(bytes, start) {
        Ok(x) => x,
        Err(e) => {
            return Err(e);
        },
    };

    if bytes.len() < index || bytes.len() - index < 4 {
        return Err(CodecError::BufferTooShort);
    }

    let qtype: Type = Type::from_raw(get_u16(bytes, index));
    let qclass: Class = Class::from_raw(get_u16(bytes, index + 2));

    Ok((Question { label, qtype, qclass }, index + 4))
}

/// Reads the resource at `start`: a label, 16-bit type and class, 32-bit
/// TTL, a 16-bit data length, then that many data bytes.
pub fn parse_resource(bytes: &Vec<u8>, start: usize) -> (r: Result<
    (Resource, usize),
    CodecError,
>)
    requires
        bytes.len() < usize::MAX,
    ensures
        match r {
            Ok((res, end)) => spec_parse_resource(bytes@, start as nat) == Some((res@, end as nat)),
            Err(e) => spec_parse_resource(bytes@, start as nat) is None && e
                == CodecError::BufferTooShort,
        },
{
    let (label, index) = match parse_label(bytes, start) {
        Ok(x) => x,
        Err(e) => {
            return Err(e);
        },
    };

    if bytes.len() < index || bytes.len() - index < 10 {
        return Err(CodecError::BufferTooShort);
    }

    let rtype: Type = Type::from_raw(get_u16(bytes, index));
    let rclass: Class = Class::from_raw(get_u16(bytes, index + 2));
    let ttl = get_u32(bytes, index + 4);
    let length = get_u16(bytes, index + 8);

    let dstart = index + 10;
    if (length as usize) > bytes.len() - dstart {
        return Err(CodecError::BufferTooShort);
    }

    let mut resource_data = Vec::<u8>::new();
    let mut m: usize = 0;
    while m < length as usize
        invariant
            m <= length as usize,
            dstart + length as usize <= bytes.len(),
            resource_data@ =~= bytes@.subrange(dstart as int, dstart as int + m as int),
        decreases length as usize - m,
    {
        resource_data.push(bytes[dstart + m]);
        m += 1;
        proof {
            assert(resource_data@ =~= bytes@.subrange(dstart as int, dstart as int + m as int));
        }
    }

    Ok((Resource { label, rtype, rclass, ttl, length, data: resource_data }, dstart + length
        as usize))
}

/// Reads `count` questions in sequence starting at `index`, appending them
/// to `receiver`; gives back the offset just past the last one.
pub fn collect_questions(
    receiver: &mut Vec<Question>,
    data: &Vec<u8>,
    index: usize,
    count: u16,
) -> (r: Result<usize, CodecError>)
    requires
        data.len() < usize::MAX,
    ensures
        match r {
            Ok(end) => {
                &&& final(receiver)@.len() == old(receiver)@.len() + count
                &&& final(receiver)@.take(old(receiver)@.len() as int) == old(receiver)@
                &&& spec_parse_questions(data@, index as nat, count as nat) == Some(
                    (
                        spec_question_views(final(receiver)@.skip(old(receiver)@.len() as int)),
                        end as nat,
                    ),
                )
            },
            Err(e) => spec_parse_questions(data@, index as nat, count as nat) is None && e
                == CodecError::BufferTooShort,
        },
{
    let ghost len0 = old(receiver)@.len() as int;
    let mut packet_index = index;
    let mut done: u16 = 0;

    proof {
        assert(receiver@.skip(len0) =~= Seq::<Question>::empty());
        assert(spec_question_views(Seq::<Question>::empty()) =~= Seq::<QuestionView>::empty());
    }
    while done < count
        invariant
            data.len() < usize::MAX,
            done <= count,
            len0 == old(receiver)@.len(),
            receiver@.len() == len0 + done,
            receiver@.take(len0) == old(receiver)@,
            spec_parse_questions(data@, index as nat, count as nat) == match spec_parse_questions(
                data@,
                packet_index as nat,
                (count - done) as nat,
            ) {
                Option::None => None::<(Seq<QuestionView>, nat)>,
                Option::Some((qs, k)) => Some((spec_question_views(receiver@.skip(len0)) + qs, k)),
            },
        decreases count - done,
    {
        let (q, next) = match parse_question(data, packet_index) {
            Ok(x) => x,
            Err(e) => {
                proof {
                    assert(spec_parse_questions(
                        data@,
                        packet_index as nat,
                        (count - done) as nat,
                    ) is None);
                }
                return Err(e);
            },
        };
        let ghost r0 = receiver@;
        receiver.push(q);
        packet_index = next;
        done += 1;
        proof {
            assert(receiver@ == r0.push(q));
            assert(0 <= len0 <= r0.len());
            assert(r0.skip(len0).push(q) =~= receiver@.skip(len0));
            assert(spec_question_views(r0.skip(len0)).push(q@) =~= spec_question_views(
                receiver@.skip(len0),
            ));
            assert(receiver@.take(len0) =~= r0.take(len0));
            assert forall|qs: Seq<QuestionView>|
                spec_question_views(r0.skip(len0)) + (seq![q@] + qs) =~= spec_question_views(
                    receiver@.skip(len0),
                ) + qs by {
                assert(spec_question_views(r0.skip(len0)) + (seq![q@] + qs)
                    =~= spec_question_views(r0.skip(len0)).push(q@) + qs);
            }
        }
    }
    proof {
        assert(spec_parse_questions(data@, packet_index as nat, 0) == Some(
            (Seq::<QuestionView>::empty(), packet_index as nat),
        ));
        assert(spec_question_views(receiver@.skip(len0)) + Seq::<QuestionView>::empty()
            =~= spec_question_views(receiver@.skip(len0)));
    }
    Ok(packet_index)
}

/// Reads `count` resources in sequence starting at `index`, appending them
/// to `receiver`; gives back the offset just past the last one.
pub fn collect_resources(
    receiver: &mut Vec<Resource>,
    data: &Vec<u8>,
    index: usize,
    count: u16,
) -> (r: Result<usize, CodecError>)
    requires
        data.len() < usize::MAX,
    ensures
        match r {
            Ok(end) => {
                &&& final(receiver)@.len() == old(receiver)@.len() + count
                &&& final(receiver)@.take(old(receiver)@.len() as int) == old(receiver)@
                &&& spec_parse_resources(data@, index as nat, count as nat) == Some(
                    (
                        spec_resource_views(final(receiver)@.skip(old(receiver)@.len() as int)),
                        end as nat,
                    ),
                )
            },
            Err(e) => spec_parse_resources(data@, index as nat, count as nat) is None && e
                == CodecError::BufferTooShort,
        },
{
    let ghost len0 = old(receiver)@.len() as int;
    let mut packet_index = index;
    let mut done: u16 = 0;

    proof {
        assert(receiver@.skip(len0) =~= Seq::<Resource>::empty());
        assert(spec_resource_views(Seq::<Resource>::empty()) =~= Seq::<ResourceView>::empty());
    }
    while done < count
        invariant
            data.len() < usize::MAX,
            done <= count,
            len0 == old(receiver)@.len(),
            receiver@.len() == len0 + done,
            receiver@.take(len0) == old(receiver)@,
            spec_parse_resources(data@, index as nat, count as nat) == match spec_parse_resources(
                data@,
                packet_index as nat,
                (count - done) as nat,
            ) {
                Option::None => None::<(Seq<ResourceView>, nat)>,
                Option::Some((rs, k)) => Some((spec_resource_views(receiver@.skip(len0)) + rs, k)),
            },
        decreases count - done,
    {
        let (res, next) = match parse_resource(data, packet_index) {
            Ok(x) => x,
            Err(e) => {
                proof {
                    assert(spec_parse_resources(
                        data@,
                        packet_index as nat,
                        (count - done) as nat,
                    ) is None);
                }
                return Err(e);
            },
        };
        let ghost r0 = receiver@;
        receiver.push(res);
        packet_index = next;
        done += 1;
        proof {
            assert(receiver@ == r0.push(res));
            assert(0 <= len0 <= r0.len());
            assert(r0.skip(len0).push(res) =~= receiver@.skip(len0));
            assert(spec_resource_views(r0.skip(len0)).push(res@) =~= spec_resource_views(
                receiver@.skip(len0),
            ));
            assert(receiver@.take(len0) =~= r0.take(len0));
            assert forall|rs: Seq<ResourceView>|
                spec_resource_views(r0.skip(len0)) + (seq![res@] + rs) =~= spec_resource_views(
                    receiver@.skip(len0),
                ) + rs by {
                assert(spec_resource_views(r0.skip(len0)) + (seq![res@] + rs)
                    =~= spec_resource_views(r0.skip(len0)).push(res@) + rs);
            }
        }
    }
    proof {
        assert(spec_parse_resources(data@, packet_index as nat, 0) == Some(
            (Seq::<ResourceView>::empty(), packet_index as nat),
        ));
        assert(spec_resource_views(receiver@.skip(len0)) + Seq::<ResourceView>::empty()
            =~= spec_resource_views(receiver@.skip(len0)));
    }
    Ok(packet_index)
}

} // verus!
