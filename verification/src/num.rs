//! Small arithmetic helpers shared by the bit reader, the Huffman decoder
//! and the coefficient decoder.

use vstd::prelude::*;

verus! {

/// 2 to the power `n`.
pub open spec fn p2(n: nat) -> int
    decreases n,
{
    if n == 0 {
        1
    } else {
        2 * p2((n - 1) as nat)
    }
}

pub proof fn lemma_p2_pos(n: nat)
    ensures
        p2(n) >= 1,
    decreases n,
{
    if n > 0 {
        lemma_p2_pos((n - 1) as nat);
    }
}

pub proof fn lemma_p2_mono(a: nat, b: nat)
    requires
        a <= b,
    ensures
        p2(a) <= p2(b),
    decreases b,
{
    if a < b {
        lemma_p2_mono(a, (b - 1) as nat);
        lemma_p2_pos((b - 1) as nat);
    }
}

/// 2 to the power `e`, for the small exponents the decoder needs.
pub fn pow2_u32(e: u32) -> (r: u32)
    requires
        e <= 16,
    ensures
        r == p2(e as nat),
{
    let mut r: u32 = 1;
    let mut i: u32 = 0;
    while i < e
        invariant
            i <= e <= 16,
            r == p2(i as nat),
        decreases e - i,
    {
        proof {
            lemma_p2_mono(i as nat, 15);
            reveal_with_fuel(p2, 17);
            assert(p2(15) == 32768);
        }
        r = r * 2;
        i = i + 1;
    }
    r
}

} // verus!
