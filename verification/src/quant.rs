//! Dequantization: pointwise multiplication of the 64 decoded coefficients
//! by the selected quantization table, both held in zigzag order.

use vstd::prelude::*;

verus! {

/// Multiplies coefficient `i` by table entry `i`. Decoded coefficients are
/// representable DCT values (at most 2047 in magnitude), so each product is
/// at most 255 * 2047 in magnitude.
pub fn dequantize(coeffs: &Vec<i32>, table: &Vec<u8>) -> (r: Vec<i32>)
    requires
        coeffs.len() == 64,
        table.len() == 64,
        forall|i: int| 0 <= i < 64 ==> -2047 <= #[trigger] coeffs@[i] <= 2047,
    ensures
        r@.len() == 64,
        forall|i: int| 0 <= i < 64 ==> #[trigger] r@[i] == coeffs@[i] * table@[i],
        forall|i: int| 0 <= i < 64 ==> -522185 <= #[trigger] r@[i] <= 522185,
{
    let mut r: Vec<i32> = Vec::new();
    let mut i: usize = 0;
    while i < 64
        invariant
            coeffs.len() == 64,
            table.len() == 64,
            forall|j: int| 0 <= j < 64 ==> -2047 <= #[trigger] coeffs@[j] <= 2047,
            i <= 64,
            r@.len() == i,
            forall|j: int| 0 <= j < i ==> #[trigger] r@[j] == coeffs@[j] * table@[j],
            forall|j: int| 0 <= j < i ==> -522185 <= #[trigger] r@[j] <= 522185,
        decreases 64 - i,
    {
        let c = coeffs[i];
        let q = table[i];
        proof {
            assert(-522185 <= c * q <= 522185) by (nonlinear_arith)
                requires
                    -2047 <= c <= 2047,
                    0 <= q <= 255,
            ;
        }
        r.push(c * q as i32);
        i = i + 1;
    }
    r
}

} // verus!
