//! Bytes as hexadecimal text.

use vstd::prelude::*;
use crate::numbers::digit_in;
use crate::text::{hex2, nibble_char};

verus! {

/// The lower-case hexadecimal digits of bytes, two for each.
pub open spec fn hex_text(s: Seq<u8>) -> Seq<char>
    decreases s.len(),
{
    if s.len() == 0 {
        Seq::empty()
    } else {
        hex_text(s.drop_last()) + hex2(s.last())
    }
}

/// The bytes that hexadecimal digits of either case denote: an even number of
/// digits, and nothing else.
pub open spec fn unhex(s: Seq<char>) -> Option<Seq<u8>>
    decreases s.len(),
{
    if s.len() == 0 {
        Some(Seq::empty())
    } else if s.len() == 1 {
        None
    } else {
        match (
            unhex(s.take(s.len() - 2)),
            digit_in(s[s.len() - 2], 16),
            digit_in(s[s.len() - 1], 16),
        ) {
            (Some(b), Some(h), Some(l)) => Some(b.push((16 * h + l) as u8)),
            _ => None,
        }
    }
}

/// Writes bytes as hexadecimal digits: `hex::encode`, which gives two lower-case
/// digits for each byte.
#[verifier::external_body]
pub(crate) fn hex_encode(data: &[u8]) -> (r: String)
    ensures
        r@ == hex_text(data@),
{
    hex::encode(data)
}

/// Reads bytes from hexadecimal digits: `hex::decode`, which takes both cases and
/// fails on an odd number of digits and on any other character.
#[verifier::external_body]
pub(crate) fn hex_decode(s: &str) -> (r: Option<Vec<u8>>)
    ensures
        match unhex(s@) {
            Some(b) => r matches Some(v) && v@ == b,
            None => r is None,
        },
{
    hex::decode(s).ok()
}

proof fn lemma_hex_len(s: Seq<u8>)
    ensures
        hex_text(s).len() == 2 * s.len(),
    decreases s.len(),
{
    if s.len() > 0 {
        lemma_hex_len(s.drop_last());
    }
}

proof fn lemma_nibble(d: nat)
    requires
        d < 16,
    ensures
        digit_in(nibble_char(d), 16) == Some(d),
{
}

/// Reading back written digits gives the bytes.
pub proof fn unhex_of_hex(s: Seq<u8>)
    ensures
        unhex(hex_text(s)) == Some(s),
    decreases s.len(),
{
    if s.len() > 0 {
        let t = hex_text(s);
        let b = s.last();
        unhex_of_hex(s.drop_last());
        lemma_hex_len(s.drop_last());
        assert(t.take(t.len() - 2) =~= hex_text(s.drop_last()));
        assert(t[t.len() - 2] == hex2(b)[0]);
        assert(t[t.len() - 1] == hex2(b)[1]);
        lemma_nibble(b as nat / 16);
        lemma_nibble(b as nat % 16);
        assert(s.drop_last().push(b) =~= s);
    } else {
        assert(hex_text(s).len() == 0);
        assert(s =~= Seq::<u8>::empty());
    }
}

} // verus!
