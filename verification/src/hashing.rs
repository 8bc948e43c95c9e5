//! The 128-bit FNV-1a hash that names storage cells and artifacts.

use vstd::prelude::*;
use vstd::string::StringSliceAdditionalSpecFns;
use crate::bytes::{be_bytes, push_be, push_all};

verus! {

/// The hash of the empty input.
pub const FNV_OFFSET: u128 = 0x6c62272e07bb014262b821756295c58d;

/// The multiplier of one round.
pub const FNV_PRIME: u128 = 0x0000000001000000000000000000013b;

/// One round: mix in a byte, then multiply modulo 2^128.
pub open spec fn fnv_step(h: u128, b: u8) -> u128 {
    ((h ^ (b as u128)) * FNV_PRIME % 0x1_0000_0000_0000_0000_0000_0000_0000_0000int) as u128
}

/// The hash of a byte sequence: the rounds over its bytes, first to last.
pub open spec fn fnv(s: Seq<u8>) -> u128
    decreases s.len(),
{
    if s.len() == 0 {
        FNV_OFFSET
    } else {
        fnv_step(fnv(s.drop_last()), s.last())
    }
}

/// The key of a cell below `root`.
pub open spec fn child_key(root: u128, payload: Seq<u8>) -> u128 {
    fnv(be_bytes(root as nat, 16) + payload)
}

/// The key of a state slot: module and slot name, each closed by a zero byte.
pub open spec fn state_key(module_id: Seq<u8>, state_name: Seq<u8>) -> u128 {
    fnv(module_id + seq![0u8] + state_name + seq![0u8])
}

pub fn fnv128(bytes: &[u8]) -> (h: u128)
    ensures
        h == fnv(bytes@),
{
    let mut h: u128 = FNV_OFFSET;
    let mut i: usize = 0;
    while i < bytes.len()
        invariant
            i <= bytes@.len(),
            h == fnv(bytes@.take(i as int)),
        decreases bytes@.len() - i,
    {
        let b = bytes[i];
        assert(bytes@.take(i as int + 1).drop_last() =~= bytes@.take(i as int));
        h = (h ^ (b as u128)).wrapping_mul(FNV_PRIME);
        i = i + 1;
    }
    assert(bytes@.take(i as int) =~= bytes@);
    h
}

pub fn child(root: u128, payload: &[u8]) -> (h: u128)
    ensures
        h == child_key(root, payload@),
{
    let mut buf: Vec<u8> = Vec::new();
    push_be(&mut buf, root, 16);
    push_all(&mut buf, payload);
    assert(buf@ =~= be_bytes(root as nat, 16) + payload@);
    fnv128(buf.as_slice())
}

pub fn state_root(module_id: &str, state_name: &str) -> (h: u128)
    ensures
        h == state_key(module_id.spec_bytes(), state_name.spec_bytes()),
{
    let mut buf: Vec<u8> = Vec::new();
    push_all(&mut buf, module_id.as_bytes());
    buf.push(0);
    push_all(&mut buf, state_name.as_bytes());
    buf.push(0);
    assert(buf@ =~= module_id.spec_bytes() + seq![0u8] + state_name.spec_bytes() + seq![0u8]);
    fnv128(buf.as_slice())
}

} // verus!
