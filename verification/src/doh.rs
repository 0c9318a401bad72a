//! Building the DNS-over-HTTPS request: the `dns` query parameter carrying
//! the base64 form of the raw query with its padding stripped, and the full
//! GET address.

use vstd::prelude::*;

verus! {

/// What base64's `encode` returns for the given bytes.
pub uninterp spec fn base64_of(b: Seq<u8>) -> Seq<char>;

/// Relies on base64's `encode`: standard-alphabet base64 of the bytes with
/// `=` padding, four characters for every full or partial group of three
/// input bytes; the result depends on the bytes alone.
#[verifier::external_body]
pub(crate) fn b64_encode(bytes: &Vec<u8>) -> (r: String)
    ensures
        r@ == base64_of(bytes@),
        r@.len() == ((bytes@.len() + 2) / 3) * 4,
{
    base64::encode(bytes)
}

/// The characters of `s` with every `'='` removed, in order.
pub open spec fn spec_without_padding(s: Seq<char>) -> Seq<char>
    decreases s.len(),
{
    if s.len() == 0 {
        Seq::empty()
    } else {
        let rest = spec_without_padding(s.drop_last());
        if s.last() == '=' {
            rest
        } else {
            rest.push(s.last())
        }
    }
}

/// The `dns` query parameter: the base64 form of the raw query with every
/// padding `=` removed, as the GET form of DNS-over-HTTPS requires.
pub fn doh_dns_param(request: &Vec<u8>) -> (r: String)
    ensures
        r@ == spec_without_padding(base64_of(request@)),
{
    let encoded = b64_encode(request);
    let n = encoded.as_str().unicode_len();
    let mut out = String::new();
    let mut i: usize = 0;
    while i < n
        invariant
            i <= n,
            n == encoded@.len(),
            out@ == spec_without_padding(encoded@.take(i as int)),
        decreases n - i,
    {
        let c = encoded.as_str().get_char(i);
        let ghost pre = encoded@.take(i as int);
        if c != '=' {
            out.push(c);
        }
        i += 1;
        proof {
            let cur = encoded@.take(i as int);
            assert(cur.drop_last() =~= pre);
            assert(cur.last() == c);
        }
    }
    proof {
        assert(encoded@.take(n as int) =~= encoded@);
    }
    out
}

/// The full GET address of a DNS-over-HTTPS request: the base URL with the
/// `dns` query parameter appended.
pub fn doh_url(base_url: &String, request_b64: &String) -> (r: String)
    ensures
        r@ == base_url@ + "?dns="@ + request_b64@,
{
    let mut full_url = base_url.clone();
    full_url.append("?dns=");
    full_url.append(request_b64.as_str());
    full_url
}

} // verus!
