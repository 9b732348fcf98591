//! Request signing: an HMAC-SHA256 tag over the exact query string,
//! hex-encoded and appended as the final `signature` field.

use vstd::prelude::*;
use vstd::string::StringSliceAdditionalSpecFns;
use hmac::{Mac, KeyInit};
use crate::bytes::extend_bytes;
use crate::query::{spec_query_string, encode_query};

verus! {

/// The HMAC-SHA256 digest of `msg` under `key`. The digest is a pure
/// function of the two byte strings; nothing further is assumed of it.
pub uninterp spec fn hmac_sha256_of(key: Seq<u8>, msg: Seq<u8>) -> Seq<u8>;

/// Relies on the hmac crate's `Hmac<Sha256>` (RFC 2104 over SHA-256):
/// the digest is 32 bytes and depends on the key and message bytes
/// alone. `new_from_slice` accepts keys of any length for an HMAC, so
/// the unwrap cannot fail.
#[verifier::external_body]
fn hmac_sha256(key: &Vec<u8>, msg: &Vec<u8>) -> (r: Vec<u8>)
    ensures
        r@ == hmac_sha256_of(key@, msg@),
        r@.len() == 32,
{
    let mut mac = <hmac::Hmac<sha2::Sha256> as KeyInit>::new_from_slice(key.as_slice()).unwrap();
    mac.update(msg.as_slice());
    mac.finalize().into_bytes().to_vec()
}

/// Lowercase hexadecimal digit.
pub open spec fn spec_hex_lower(n: nat) -> u8 {
    if n < 10 {
        (0x30 + n) as u8
    } else {
        (0x61 + (n - 10)) as u8
    }
}

/// Lowercase hex encoding: two digits for each byte, in order.
pub open spec fn spec_hex(s: Seq<u8>) -> Seq<u8>
    decreases s.len(),
{
    if s.len() == 0 {
        Seq::empty()
    } else {
        spec_hex(s.drop_last())
            + seq![spec_hex_lower((s.last() as nat) / 16), spec_hex_lower((s.last() as nat) % 16)]
    }
}

/// Hex form of a byte string.
pub fn hex_encode(b: &Vec<u8>) -> (r: Vec<u8>)
    ensures
        r@ == spec_hex(b@),
{
    let mut out: Vec<u8> = Vec::new();
    let mut i: usize = 0;
    while i < b.len()
        invariant
            i <= b.len(),
            out@ == spec_hex(b@.subrange(0, i as int)),
        decreases b.len() - i,
    {
        let hi = b[i] / 16;
        let lo = b[i] % 16;
        out.push(if hi < 10 { 0x30 + hi } else { 0x61 + (hi - 10) });
        out.push(if lo < 10 { 0x30 + lo } else { 0x61 + (lo - 10) });
        proof {
            assert(b@.subrange(0, i + 1).drop_last() =~= b@.subrange(0, i as int));
            assert(b@.subrange(0, i + 1).last() == b@[i as int]);
            assert(out@ =~= spec_hex(b@.subrange(0, i + 1)));
        }
        i = i + 1;
    }
    proof {
        assert(b@.subrange(0, b@.len() as int) =~= b@);
    }
    out
}

/// The signature field's value: lowercase hex of the HMAC-SHA256 tag
/// of `msg` under `secret`.
pub open spec fn spec_signature(secret: Seq<u8>, msg: Seq<u8>) -> Seq<u8> {
    spec_hex(hmac_sha256_of(secret, msg))
}

/// Hex of the HMAC-SHA256 tag of `msg` under `secret`.
pub fn signature_of(secret: &Vec<u8>, msg: &Vec<u8>) -> (r: Vec<u8>)
    ensures
        r@ == spec_signature(secret@, msg@),
{
    hex_encode(&hmac_sha256(secret, msg))
}

/// The signed query string: the query string of the pairs, then
/// `&signature=` and the signature computed over exactly those bytes.
pub open spec fn spec_signed_query(pairs: Seq<(Seq<u8>, Seq<u8>)>, secret: Seq<u8>) -> Seq<u8> {
    let qs = spec_query_string(pairs);
    qs + seq![0x26u8] + "signature=".spec_bytes() + spec_signature(secret, qs)
}

/// Serializes and signs the pairs: the result is the exact byte string
/// to transmit, signature appended last.
pub fn sign_query(pairs: &Vec<(Vec<u8>, Vec<u8>)>, secret: &Vec<u8>) -> (r: Vec<u8>)
    ensures
        r@ == spec_signed_query(pairs.deep_view(), secret@),
{
    let qs = encode_query(pairs);
    let sig = signature_of(secret, &qs);
    let mut out = qs;
    out.push(0x26);
    let key = crate::bytes::str_bytes("signature=");
    extend_bytes(&mut out, &key);
    extend_bytes(&mut out, &sig);
    proof {
        assert(out@ =~= spec_signed_query(pairs.deep_view(), secret@));
    }
    out
}

/// Signing is deterministic: the same pairs signed with the same
/// secret give the same signed query, byte for byte.
pub proof fn lemma_signing_deterministic(
    p1: Seq<(Seq<u8>, Seq<u8>)>,
    p2: Seq<(Seq<u8>, Seq<u8>)>,
    s1: Seq<u8>,
    s2: Seq<u8>,
)
    requires
        p1 == p2,
        s1 == s2,
    ensures
        spec_signed_query(p1, s1) == spec_signed_query(p2, s2),
{
}

} // verus!
