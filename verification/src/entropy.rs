//! Entropy decoding of one 8x8 block of DCT coefficients: one DC difference
//! (added to the running predictor) followed by run-length coded AC
//! coefficients, all in zigzag order.

use vstd::prelude::*;

use crate::bits::take_bits;
use crate::bits::BitReader;
use crate::bits::BitsOut;
use crate::bits::Cursor;
use crate::errors::DecodeError;
use crate::huffman::walk;
use crate::huffman::SymOut;
use crate::huffman::Table;
use crate::num::lemma_p2_mono;
use crate::num::p2;
use crate::num::pow2_u32;

verus! {

/// JPEG magnitude-extend: the raw `t` bits `v` of a coefficient in category
/// `t` name `v` itself when the leading bit is set, and the negative value
/// `v - (2^t - 1)` when it is not.
pub open spec fn extend_spec(v: int, t: nat) -> int {
    if v < p2((t - 1) as nat) {
        v - p2(t) + 1
    } else {
        v
    }
}

/// Magnitude-extend bounds and symmetry: for category `t`, every raw value
/// extends to a value in `[-(2^t - 1), 2^t - 1]`; the low half of the raw
/// range lands at or below `-2^(t-1)`, the high half at or above `2^(t-1)`,
/// and complementing the raw value against `2^t - 1` negates the result.
pub proof fn lemma_extend_bounds_symmetry(v: int, t: nat)
    requires
        1 <= t,
        0 <= v < p2(t),
    ensures
        -(p2(t) - 1) <= extend_spec(v, t) <= p2(t) - 1,
        v < p2((t - 1) as nat) ==> extend_spec(v, t) <= -p2((t - 1) as nat),
        v >= p2((t - 1) as nat) ==> extend_spec(v, t) >= p2((t - 1) as nat),
        extend_spec(v, t) == -extend_spec(p2(t) - 1 - v, t),
{
    crate::num::lemma_p2_pos((t - 1) as nat);
    assert(p2(t) == 2 * p2((t - 1) as nat));
}

/// Executable magnitude-extend for a category-`t` raw value.
pub fn extend(v: u16, t: u8) -> (r: i32)
    requires
        1 <= t <= 11,
        (v as int) < p2(t as nat),
    ensures
        r as int == extend_spec(v as int, t as nat),
        -(p2(t as nat) - 1) <= r as int <= p2(t as nat) - 1,
{
    proof {
        lemma_p2_mono(t as nat, 11);
        reveal_with_fuel(p2, 12);
        assert(p2(11) == 2048);
        lemma_extend_bounds_symmetry(v as int, t as nat);
    }
    let half = pow2_u32((t - 1) as u32);
    if (v as u32) < half {
        v as i32 - (half as i32 * 2) + 1
    } else {
        v as i32
    }
}

/// A block decode outcome: the 64 zigzag-order coefficients, the new DC
/// predictor and the cursor after the block, or the failure.
pub ghost enum BlockOut {
    Blk { zz: Seq<int>, pred: int, c: Cursor },
    Fail { e: DecodeError },
}

/// The coefficient values of an executable block.
pub open spec fn as_ints(s: Seq<i32>) -> Seq<int> {
    s.map_values(|x: i32| x as int)
}

/// The AC coefficient loop from zigzag position `k`: a symbol's high nibble
/// is a zero run, its low nibble a magnitude category; 0x00 ends the block
/// and 0xF0 skips sixteen zeros.
pub open spec fn ac_walk(
    acc: Seq<u8>,
    acs: Seq<u8>,
    data: Seq<u8>,
    c: Cursor,
    zz: Seq<int>,
    k: int,
    pred: int,
) -> BlockOut
    decreases 64 - k,
{
    if k >= 64 {
        BlockOut::Blk { zz, pred, c }
    } else {
        match walk(acc, data, c, 1, 0) {
            SymOut::Stop { e } => BlockOut::Fail { e },
            SymOut::NoCode => BlockOut::Fail { e: DecodeError::MalformedEntropyData },
            SymOut::Sym { idx, c: c1 } => {
                let s = acs[idx];
                if s == 0x00 {
                    BlockOut::Blk { zz, pred, c: c1 }
                } else if s == 0xF0 {
                    if k + 16 > 64 {
                        BlockOut::Fail { e: DecodeError::MalformedEntropyData }
                    } else {
                        ac_walk(acc, acs, data, c1, zz, k + 16, pred)
                    }
                } else {
                    let run = (s / 16) as int;
                    let ssss = (s % 16) as int;
                    if ssss == 0 || ssss > 10 || k + run >= 64 {
                        BlockOut::Fail { e: DecodeError::MalformedEntropyData }
                    } else {
                        match take_bits(data, c1, ssss as nat, 0) {
                            BitsOut::Stop { e } => BlockOut::Fail { e },
                            BitsOut::Val { v, c: c2 } => ac_walk(
                                acc,
                                acs,
                                data,
                                c2,
                                zz.update(k + run, extend_spec(v, ssss as nat)),
                                k + run + 1,
                                pred,
                            ),
                        }
                    }
                }
            },
        }
    }
}

/// One whole block from cursor `c` with DC predictor `pred`: a DC magnitude
/// category (0..=11), its raw bits magnitude-extended and added to the
/// predictor (which must stay a representable coefficient), then the AC loop.
pub open spec fn block_spec(
    dcc: Seq<u8>,
    dcs: Seq<u8>,
    acc: Seq<u8>,
    acs: Seq<u8>,
    data: Seq<u8>,
    c: Cursor,
    pred: int,
) -> BlockOut {
    match walk(dcc, data, c, 1, 0) {
        SymOut::Stop { e } => BlockOut::Fail { e },
        SymOut::NoCode => BlockOut::Fail { e: DecodeError::MalformedEntropyData },
        SymOut::Sym { idx, c: c1 } => {
            let t = dcs[idx];
            if t > 11 {
                BlockOut::Fail { e: DecodeError::MalformedEntropyData }
            } else if t == 0 {
                ac_walk(acc, acs, data, c1, Seq::new(64, |i: int| 0int).update(0, pred), 1, pred)
            } else {
                match take_bits(data, c1, t as nat, 0) {
                    BitsOut::Stop { e } => BlockOut::Fail { e },
                    BitsOut::Val { v, c: c2 } => {
                        let np = pred + extend_spec(v, t as nat);
                        if np < -2047 || np > 2047 {
                            BlockOut::Fail { e: DecodeError::MalformedEntropyData }
                        } else {
                            ac_walk(
                                acc,
                                acs,
                                data,
                                c2,
                                Seq::new(64, |i: int| 0int).update(0, np),
                                1,
                                np,
                            )
                        }
                    },
                }
            }
        },
    }
}

/// Decodes one 8x8 block from the bit reader, returning the 64 coefficients
/// in zigzag order together with the new DC predictor.
pub fn decode_block(r: &mut BitReader, dc: &Table, ac: &Table, pred: i32) -> (res: Result<
    (Vec<i32>, i32),
    DecodeError,
>)
    requires
        dc.wf(),
        ac.wf(),
        old(r).wf(),
        -2047 <= pred <= 2047,
    ensures
        final(r).wf(),
        final(r).data_model() == old(r).data_model(),
        res matches Ok(p) ==> p.0@.len() == 64 && -2047 <= p.1 <= 2047 && forall|i: int|
            0 <= i < 64 ==> -2047 <= #[trigger] p.0@[i] <= 2047,
        block_spec(
            dc.counts@,
            dc.symbols@,
            ac.counts@,
            ac.symbols@,
            old(r).data_model(),
            old(r).cur(),
            pred as int,
        ) matches BlockOut::Blk { zz, pred: np, c } ==> {
            &&& res matches Ok(p) && p.0@.len() == 64 && as_ints(p.0@) == zz && p.1 as int == np
            &&& final(r).cur() == c
            &&& forall|i: int| 0 <= i < 64 ==> -2047 <= #[trigger] zz[i] <= 2047
        },
        block_spec(
            dc.counts@,
            dc.symbols@,
            ac.counts@,
            ac.symbols@,
            old(r).data_model(),
            old(r).cur(),
            pred as int,
        ) matches BlockOut::Fail { e } ==> res == Err::<(Vec<i32>, i32), DecodeError>(e),
{
    let ghost d = r.data@;
    let ghost c0 = r.cur();
    let t = match dc.decode_symbol(r) {
        Ok(s) => s,
        Err(e) => {
            return Err(e);
        },
    };
    if t > 11 {
        return Err(DecodeError::MalformedEntropyData);
    }
    let mut npred = pred;
    if t > 0 {
        let v = match r.read_bits(t as usize) {
            Ok(v) => v,
            Err(e) => {
                return Err(e);
            },
        };
        let diff = extend(v, t);
        proof {
            lemma_p2_mono(t as nat, 11);
            reveal_with_fuel(p2, 12);
            assert(p2(11) == 2048);
        }
        npred = pred + diff;
        if npred < -2047 || npred > 2047 {
            return Err(DecodeError::MalformedEntropyData);
        }
    }
    let mut zz: Vec<i32> = Vec::new();
    let mut j: usize = 0;
    while j < 64
        invariant
            j <= 64,
            zz@.len() == j,
            forall|i: int| 0 <= i < j ==> zz@[i] == 0i32,
        decreases 64 - j,
    {
        zz.push(0i32);
        j = j + 1;
    }
    zz[0] = npred;
    proof {
        assert(as_ints(zz@) =~= Seq::new(64, |i: int| 0int).update(0, npred as int));
    }
    let ghost model = block_spec(dc.counts@, dc.symbols@, ac.counts@, ac.symbols@, d, c0, pred as int);
    let mut k: usize = 1;
    while k < 64
        invariant
            dc.wf(),
            ac.wf(),
            r.wf(),
            d == old(r).data@,
            c0 == old(r).cur(),
            r.data@ == d,
            model == block_spec(
                dc.counts@,
                dc.symbols@,
                ac.counts@,
                ac.symbols@,
                d,
                c0,
                pred as int,
            ),
            1 <= k <= 64,
            zz@.len() == 64,
            -2047 <= npred <= 2047,
            forall|i: int| 0 <= i < 64 ==> -2047 <= #[trigger] zz@[i] <= 2047,
            model == ac_walk(ac.counts@, ac.symbols@, d, r.cur(), as_ints(zz@), k as int, npred as int),
        decreases 64 - k,
    {
        let s = match ac.decode_symbol(r) {
            Ok(s) => s,
            Err(e) => {
                return Err(e);
            },
        };
        if s == 0x00 {
            return Ok((zz, npred));
        } else if s == 0xF0 {
            if k + 16 > 64 {
                return Err(DecodeError::MalformedEntropyData);
            }
            k = k + 16;
        } else {
            let run = (s / 16) as usize;
            let ssss = s % 16;
            if ssss == 0 || ssss > 10 {
                return Err(DecodeError::MalformedEntropyData);
            }
            if k + run >= 64 {
                return Err(DecodeError::MalformedEntropyData);
            }
            let v = match r.read_bits(ssss as usize) {
                Ok(v) => v,
                Err(e) => {
                    return Err(e);
                },
            };
            let val = extend(v, ssss);
            proof {
                lemma_p2_mono(ssss as nat, 11);
                reveal_with_fuel(p2, 12);
                assert(p2(11) == 2048);
            }
            let ghost prev = as_ints(zz@);
            zz[k + run] = val;
            proof {
                assert(as_ints(zz@) =~= prev.update(k + run, val as int));
            }
            k = k + run + 1;
        }
    }
    Ok((zz, npred))
}

} // verus!
