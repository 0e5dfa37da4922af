//! The key hash stored in map cells: 32-bit FNV-1a. It is part of the format.
use vstd::prelude::*;

verus! {

/// The FNV-1a offset basis.
pub const FNV_OFFSET: u32 = 0x811c9dc5;

/// The FNV-1a prime.
pub const FNV_PRIME: u32 = 0x0100_0193;

/// FNV-1a over `key`: xor each byte in, then multiply modulo 2^32.
pub open spec fn fnv1a(key: Seq<u8>) -> u32
    decreases key.len(),
{
    if key.len() == 0 {
        FNV_OFFSET
    } else {
        ((fnv1a(key.drop_last()) ^ (key.last() as u32)) as nat * FNV_PRIME as nat
            % 0x1_0000_0000) as u32
    }
}

/// The hash of a map key.
pub fn hash(key: &[u8]) -> (r: u32)
    ensures
        r == fnv1a(key@),
{
    let mut h: u32 = FNV_OFFSET;
    let mut i: usize = 0;
    while i < key.len()
        invariant
            i <= key@.len(),
            h == fnv1a(key@.subrange(0, i as int)),
        decreases key@.len() - i,
    {
        proof {
            let s = key@.subrange(0, i + 1);
            assert(s.drop_last() =~= key@.subrange(0, i as int));
        }
        let x: u32 = h ^ (key[i] as u32);
        let wide: u64 = (x as u64) * (FNV_PRIME as u64);
        h = (wide % 0x1_0000_0000) as u32;
        i = i + 1;
    }
    assert(key@.subrange(0, key@.len() as int) =~= key@);
    h
}

} // verus!
