//! The wire query string: ordered key/value pairs, percent-encoded and
//! joined as `k1=v1&k2=v2`. The signature is computed over exactly
//! these bytes, so the encoding is pinned down byte for byte.

use vstd::prelude::*;

verus! {

/// Bytes that travel unchanged in a query string (RFC 3986 unreserved).
pub open spec fn is_unreserved(b: u8) -> bool {
    ||| 0x30 <= b <= 0x39
    ||| 0x41 <= b <= 0x5a
    ||| 0x61 <= b <= 0x7a
    ||| b == 0x2d
    ||| b == 0x2e
    ||| b == 0x5f
    ||| b == 0x7e
}

/// Uppercase hexadecimal digit, for percent escapes.
pub open spec fn spec_hex_upper(n: nat) -> u8 {
    if n < 10 {
        (0x30 + n) as u8
    } else {
        (0x41 + (n - 10)) as u8
    }
}

/// How one byte appears in the query string: itself, or `%XX`.
pub open spec fn spec_pct_byte(b: u8) -> Seq<u8> {
    if is_unreserved(b) {
        seq![b]
    } else {
        seq![0x25u8, spec_hex_upper((b as nat) / 16), spec_hex_upper((b as nat) % 16)]
    }
}

/// Percent-encoding of a byte string.
pub open spec fn spec_pct_encode(s: Seq<u8>) -> Seq<u8>
    decreases s.len(),
{
    if s.len() == 0 {
        Seq::empty()
    } else {
        spec_pct_encode(s.drop_last()) + spec_pct_byte(s.last())
    }
}

/// One `key=value` unit of the query string.
pub open spec fn spec_pair(k: Seq<u8>, v: Seq<u8>) -> Seq<u8> {
    spec_pct_encode(k) + seq![0x3du8] + spec_pct_encode(v)
}

/// The whole query string: pairs in order, joined with `&`.
pub open spec fn spec_query_string(pairs: Seq<(Seq<u8>, Seq<u8>)>) -> Seq<u8>
    decreases pairs.len(),
{
    if pairs.len() == 0 {
        Seq::empty()
    } else if pairs.len() == 1 {
        spec_pair(pairs[0].0, pairs[0].1)
    } else {
        spec_query_string(pairs.drop_last()) + seq![0x26u8]
            + spec_pair(pairs.last().0, pairs.last().1)
    }
}

fn push_pct_byte(out: &mut Vec<u8>, b: u8)
    ensures
        final(out)@ == old(out)@ + spec_pct_byte(b),
{
    let unreserved = (0x30 <= b && b <= 0x39) || (0x41 <= b && b <= 0x5a)
        || (0x61 <= b && b <= 0x7a) || b == 0x2d || b == 0x2e || b == 0x5f || b == 0x7e;
    if unreserved {
        out.push(b);
        proof {
            assert(out@ =~= old(out)@ + spec_pct_byte(b));
        }
    } else {
        out.push(0x25);
        let hi = b / 16;
        let lo = b % 16;
        out.push(if hi < 10 { 0x30 + hi } else { 0x41 + (hi - 10) });
        out.push(if lo < 10 { 0x30 + lo } else { 0x41 + (lo - 10) });
        proof {
            assert(out@ =~= old(out)@ + spec_pct_byte(b));
        }
    }
}

fn push_pct_encode(out: &mut Vec<u8>, s: &Vec<u8>)
    ensures
        final(out)@ == old(out)@ + spec_pct_encode(s@),
{
    let mut i: usize = 0;
    while i < s.len()
        invariant
            i <= s.len(),
            out@ == old(out)@ + spec_pct_encode(s@.subrange(0, i as int)),
        decreases s.len() - i,
    {
        push_pct_byte(out, s[i]);
        proof {
            assert(s@.subrange(0, i + 1).drop_last() =~= s@.subrange(0, i as int));
            assert(s@.subrange(0, i + 1).last() == s@[i as int]);
            assert(out@ =~= old(out)@ + spec_pct_encode(s@.subrange(0, i + 1)));
        }
        i = i + 1;
    }
    proof {
        assert(s@.subrange(0, s@.len() as int) =~= s@);
    }
}

/// Serializes the pairs into the exact transmitted query string.
pub fn encode_query(pairs: &Vec<(Vec<u8>, Vec<u8>)>) -> (r: Vec<u8>)
    ensures
        r@ == spec_query_string(pairs.deep_view()),
{
    let mut out: Vec<u8> = Vec::new();
    let mut i: usize = 0;
    while i < pairs.len()
        invariant
            i <= pairs.len(),
            out@ == spec_query_string(pairs.deep_view().subrange(0, i as int)),
        decreases pairs.len() - i,
    {
        if i > 0 {
            out.push(0x26);
        }
        push_pct_encode(&mut out, &pairs[i].0);
        out.push(0x3d);
        push_pct_encode(&mut out, &pairs[i].1);
        proof {
            let dv = pairs.deep_view();
            assert(dv.subrange(0, i + 1).drop_last() =~= dv.subrange(0, i as int));
            assert(dv.subrange(0, i + 1).last() == dv[i as int]);
            assert(dv[i as int].0 == pairs@[i as int].0@);
            assert(dv[i as int].1 == pairs@[i as int].1@);
            assert(out@ =~= spec_query_string(dv.subrange(0, i + 1)));
        }
        i = i + 1;
    }
    proof {
        assert(pairs.deep_view().subrange(0, pairs.deep_view().len() as int) =~= pairs.deep_view());
    }
    out
}

} // verus!
