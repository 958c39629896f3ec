use vstd::prelude::*;

verus! {

/// `n` divided `i` times by 256.
pub open spec fn shift256(n: nat, i: nat) -> nat
    decreases i,
{
    if i == 0 {
        n
    } else {
        shift256(n, (i - 1) as nat) / 256
    }
}

/// The 16-byte little-endian encoding of a 128-bit value.
pub open spec fn le_bytes(n: u128) -> Seq<u8> {
    Seq::new(16, |i: int| (shift256(n as nat, i as nat) % 256) as u8)
}

/// Encodes a nonce as 16 little-endian bytes.
pub fn nonce_le_bytes(nonce: u128) -> (bytes: [u8; 16])
    ensures
        bytes@ == le_bytes(nonce),
{
    let mut bytes: [u8; 16] = [0u8; 16];
    let mut rest: u128 = nonce;
    let mut i: usize = 0;
    while i < 16
        invariant
            i <= 16,
            rest as nat == shift256(nonce as nat, i as nat),
            forall|j: int| 0 <= j < i ==> bytes@[j] == (shift256(nonce as nat, j as nat) % 256) as u8,
        decreases 16 - i,
    {
        bytes[i] = (rest % 256) as u8;
        rest = rest / 256;
        i = i + 1;
    }
    assert(bytes@ =~= le_bytes(nonce));
    bytes
}

} // verus!
