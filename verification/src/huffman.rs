//! Canonical Huffman decode tables (JPEG Annex C) and the bit-at-a-time
//! decode walk, with the proof that decoding a symbol's assigned code
//! returns that symbol.

use vstd::prelude::*;

use crate::bits::advanced;
use crate::bits::bit_at;
use crate::bits::can_read;
use crate::bits::stop_error;
use crate::bits::out_cur;
use crate::bits::out_val;
use crate::bits::take_bits;
use crate::bits::BitReader;
use crate::bits::BitsOut;
use crate::bits::Cursor;
use crate::errors::DecodeError;
use crate::num::lemma_p2_mono;
use crate::num::p2;
use crate::num::pow2_u32;
use vstd::slice::slice_to_vec;

verus! {

/// First canonical code value of length `l` (lengths are 1-based): codes of
/// one length are consecutive, and each length starts at the previous
/// length's next free code shifted left once.
pub open spec fn first_code(counts: Seq<u8>, l: int) -> int
    decreases l,
{
    if l <= 1 {
        0
    } else {
        (first_code(counts, l - 1) + counts[l - 2]) * 2
    }
}

/// Index into the symbol list of the first symbol whose code has length `l`;
/// `base_index(counts, 17)` is the total symbol count.
pub open spec fn base_index(counts: Seq<u8>, l: int) -> int
    decreases l,
{
    if l <= 1 {
        0
    } else {
        base_index(counts, l - 1) + counts[l - 2]
    }
}

/// Well-formed per-length counts: 16 of them, and every canonical code fits
/// in its own length.
pub open spec fn counts_wf(counts: Seq<u8>) -> bool {
    &&& counts.len() == 16
    &&& forall|l: int|
        1 <= l <= 16 ==> first_code(counts, l) + counts[l - 1] <= p2(l as nat)
}

/// A size/symbol pair describes a table exactly when the counts are
/// well-formed and there is one symbol per code.
pub open spec fn table_valid(size: Seq<u8>, data: Seq<u8>) -> bool {
    &&& counts_wf(size)
    &&& data.len() == base_index(size, 17)
}

pub proof fn lemma_base_mono(counts: Seq<u8>, a: int, b: int)
    requires
        counts.len() == 16,
        1 <= a <= b <= 17,
    ensures
        base_index(counts, a) <= base_index(counts, b),
    decreases b,
{
    if a < b {
        lemma_base_mono(counts, a, b - 1);
    }
}

/// The code length assigned to the `k`-th symbol, searching from length `l`.
pub open spec fn len_from(counts: Seq<u8>, k: int, l: int) -> int
    decreases 16 - l,
{
    if l >= 16 {
        16
    } else if k < base_index(counts, l + 1) {
        l
    } else {
        len_from(counts, k, l + 1)
    }
}

/// The code length of the `k`-th symbol of the table.
pub open spec fn code_len(counts: Seq<u8>, k: int) -> int {
    len_from(counts, k, 1)
}

/// The canonical code value assigned to the `k`-th symbol: the `k`-th code
/// of its length, counted from that length's first code.
pub open spec fn code_val(counts: Seq<u8>, k: int) -> int {
    first_code(counts, code_len(counts, k)) + k - base_index(counts, code_len(counts, k))
}

/// Every symbol index falls inside the symbol range of its code length.
pub proof fn lemma_code_len_range(counts: Seq<u8>, k: int, l: int)
    requires
        counts.len() == 16,
        1 <= l <= 16,
        base_index(counts, l) <= k < base_index(counts, 17),
    ensures
        l <= len_from(counts, k, l) <= 16,
        base_index(counts, len_from(counts, k, l)) <= k,
        k < base_index(counts, len_from(counts, k, l) + 1),
    decreases 16 - l,
{
    if l >= 16 {
    } else if k < base_index(counts, l + 1) {
    } else {
        lemma_code_len_range(counts, k, l + 1);
    }
}

/// Each length's first code clears all shorter lengths' code ranges: the
/// canonical assignment is prefix-free.
pub proof fn lemma_first_growth(counts: Seq<u8>, l: int, m: int)
    requires
        counts.len() == 16,
        1 <= l < m <= 16,
    ensures
        first_code(counts, m) >= (first_code(counts, l) + counts[l - 1]) * p2((m - l) as nat),
    decreases m,
{
    if m == l + 1 {
    } else {
        lemma_first_growth(counts, l, m - 1);
        let base = first_code(counts, l) + counts[l - 1];
        let q = p2((m - 1 - l) as nat);
        crate::num::lemma_p2_pos((m - 1 - l) as nat);
        assert(first_code(counts, m - 1) >= base * q);
        assert(first_code(counts, m) >= first_code(counts, m - 1) * 2);
        assert(base * q * 2 == base * (2 * q)) by (nonlinear_arith);
    }
}

/// The decode walk from level `l` finds symbol `k` when the upcoming bits
/// complete its code: the accumulated prefix can never fall inside a
/// shorter length's range, by prefix-freedom.
proof fn lemma_walk_from(counts: Seq<u8>, data: Seq<u8>, c: Cursor, k: int, l: int, acc: int)
    requires
        counts.len() == 16,
        0 <= k < base_index(counts, 17),
        1 <= l <= code_len(counts, k) <= 16,
        base_index(counts, code_len(counts, k)) <= k,
        k < base_index(counts, code_len(counts, k) + 1),
        acc >= 0,
        take_bits(data, c, (code_len(counts, k) - l + 1) as nat, acc) is Val,
        out_val(take_bits(data, c, (code_len(counts, k) - l + 1) as nat, acc)) == code_val(
            counts,
            k,
        ),
    ensures
        walk(counts, data, c, l, acc) == (SymOut::Sym {
            idx: k,
            c: out_cur(take_bits(data, c, (code_len(counts, k) - l + 1) as nat, acc)),
        }),
    decreases code_len(counts, k) - l,
{
    let lcode = code_len(counts, k);
    let v = code_val(counts, k);
    let m = (lcode - l + 1) as nat;
    assert(can_read(data, c));
    let b = bit_at(data, c) as int;
    crate::num::lemma_p2_pos((7 - c.bit) as nat);
    assert(0 <= b <= 1);
    let acc1 = acc * 2 + b;
    let c1 = advanced(data, c);
    assert(take_bits(data, c, m, acc) == take_bits(data, c1, (m - 1) as nat, acc1));
    if l == lcode {
        assert(out_val(take_bits(data, c1, 0, acc1)) == acc1);
        assert(acc1 == v);
        assert(base_index(counts, lcode + 1) == base_index(counts, lcode) + counts[lcode - 1]);
        assert(counts[lcode - 1] > 0);
        assert(first_code(counts, lcode) <= v < first_code(counts, lcode) + counts[lcode - 1]);
    } else {
        crate::bits::lemma_take_bits_range(data, c1, (m - 1) as nat, acc1);
        lemma_first_growth(counts, l, lcode);
        let q = p2((lcode - l) as nat);
        let fl = first_code(counts, l) + counts[l - 1];
        crate::num::lemma_p2_pos((lcode - l) as nat);
        assert(v >= first_code(counts, lcode));
        assert((acc1 + 1) * q > v);
        assert(acc1 + 1 > fl) by (nonlinear_arith)
            requires
                (acc1 + 1) * q > fl * q,
                q >= 1,
        ;
        lemma_walk_from(counts, data, c1, k, l + 1, acc1);
    }
}

/// Huffman round trip: when the upcoming bits at `c` spell exactly the
/// canonical code assigned to the `k`-th symbol of a well-formed table, the
/// decode walk returns that symbol, consuming exactly those bits.
pub proof fn lemma_huffman_round_trip(counts: Seq<u8>, data: Seq<u8>, c: Cursor, k: int)
    requires
        counts_wf(counts),
        0 <= k < base_index(counts, 17),
        take_bits(data, c, code_len(counts, k) as nat, 0) is Val,
        out_val(take_bits(data, c, code_len(counts, k) as nat, 0)) == code_val(counts, k),
    ensures
        1 <= code_len(counts, k) <= 16,
        walk(counts, data, c, 1, 0) == (SymOut::Sym {
            idx: k,
            c: out_cur(take_bits(data, c, code_len(counts, k) as nat, 0)),
        }),
{
    lemma_code_len_range(counts, k, 1);
    lemma_walk_from(counts, data, c, k, 1, 0);
}

/// A canonical decode table: 16 per-length code counts and the symbols in
/// code order. Immutable once built.
pub struct Table {
    pub counts: Vec<u8>,
    pub symbols: Vec<u8>,
}

/// Outcome of the decode walk.
pub ghost enum SymOut {
    /// A code matched: the symbol index and the cursor after its last bit.
    Sym { idx: int, c: Cursor },
    /// Sixteen bits were read and no code matched: a corrupt table or stream.
    NoCode,
    /// The bit source stopped first.
    Stop { e: DecodeError },
}

/// The canonical decode walk from `c`, trying code length `l` with the
/// `l - 1` bits read so far accumulated in `code`: read one bit, and stop
/// when the running code falls inside this length's assigned range.
pub open spec fn walk(counts: Seq<u8>, data: Seq<u8>, c: Cursor, l: int, code: int) -> SymOut
    decreases 17 - l,
{
    if l > 16 {
        SymOut::NoCode
    } else if !can_read(data, c) {
        SymOut::Stop { e: stop_error(c) }
    } else {
        let code1 = code * 2 + bit_at(data, c);
        let c1 = advanced(data, c);
        if counts[l - 1] > 0 && first_code(counts, l) <= code1 < first_code(counts, l) + counts[l
            - 1] {
            SymOut::Sym { idx: base_index(counts, l) + code1 - first_code(counts, l), c: c1 }
        } else {
            walk(counts, data, c1, l + 1, code1)
        }
    }
}

impl Table {
    pub open spec fn wf(self) -> bool {
        table_valid(self.counts@, self.symbols@)
    }

    /// Builds the canonical table from 16 per-length counts (`size_area`)
    /// and the symbol list (`data_area`), rejecting inputs whose codes
    /// cannot fit or whose symbol count does not match.
    pub fn from_size_data_tables(size_area: &[u8], data_area: &[u8]) -> (r: Result<
        Table,
        DecodeError,
    >)
        ensures
            table_valid(size_area@, data_area@) ==> (r matches Ok(t) && t.counts@ == size_area@
                && t.symbols@ == data_area@ && t.wf()),
            !table_valid(size_area@, data_area@) ==> r == Err::<Table, DecodeError>(
                DecodeError::MalformedEntropyData,
            ),
    {
        if size_area.len() != 16 {
            return Err(DecodeError::MalformedEntropyData);
        }
        let mut fc: u32 = 0;
        let mut total: usize = 0;
        let mut l: usize = 1;
        while l <= 16
            invariant
                size_area@.len() == 16,
                1 <= l <= 17,
                fc == first_code(size_area@, l as int),
                total == base_index(size_area@, l as int),
                fc <= 131072,
                total <= (l - 1) * 255,
                forall|j: int|
                    1 <= j < l ==> first_code(size_area@, j) + size_area@[j - 1] <= p2(j as nat),
            decreases 17 - l,
        {
            let cnt = size_area[l - 1];
            let limit = pow2_u32(l as u32);
            proof {
                lemma_p2_mono(l as nat, 16);
                reveal_with_fuel(p2, 17);
                assert(p2(16) == 65536);
            }
            if fc + cnt as u32 > limit {
                return Err(DecodeError::MalformedEntropyData);
            }
            fc = (fc + cnt as u32) * 2;
            total = total + cnt as usize;
            l = l + 1;
        }
        if data_area.len() != total {
            return Err(DecodeError::MalformedEntropyData);
        }
        let counts = slice_to_vec(size_area);
        let symbols = slice_to_vec(data_area);
        Ok(Table { counts, symbols })
    }

    /// Decodes one Huffman symbol: reads bits one at a time until the running
    /// code matches a code of the current length, per the decode walk.
    pub fn decode_symbol(&self, r: &mut BitReader) -> (res: Result<u8, DecodeError>)
        requires
            self.wf(),
            old(r).wf(),
        ensures
            final(r).wf(),
            final(r).data_model() == old(r).data_model(),
            walk(self.counts@, old(r).data_model(), old(r).cur(), 1, 0) matches SymOut::Sym {
                idx,
                c,
            } ==> {
                &&& 0 <= idx < self.symbols@.len()
                &&& res == Ok::<u8, DecodeError>(self.symbols@[idx])
                &&& final(r).cur() == c
            },
            walk(self.counts@, old(r).data_model(), old(r).cur(), 1, 0) is NoCode ==> res == Err::<
                u8,
                DecodeError,
            >(DecodeError::MalformedEntropyData),
            walk(self.counts@, old(r).data_model(), old(r).cur(), 1, 0) matches SymOut::Stop {
                e,
            } ==> res == Err::<u8, DecodeError>(e),
    {
        let ghost d = r.data@;
        let ghost c0 = r.cur();
        let mut code: u32 = 0;
        let mut fc: u32 = 0;
        let mut bi: usize = 0;
        let mut l: usize = 1;
        while l <= 16
            invariant
                self.wf(),
                r.wf(),
                d == old(r).data@,
                c0 == old(r).cur(),
                r.data@ == d,
                1 <= l <= 17,
                fc == first_code(self.counts@, l as int),
                bi == base_index(self.counts@, l as int),
                0 <= code < p2((l - 1) as nat),
                walk(self.counts@, d, c0, 1, 0) == walk(
                    self.counts@,
                    d,
                    r.cur(),
                    l as int,
                    code as int,
                ),
            decreases 17 - l,
        {
            proof {
                lemma_p2_mono((l - 1) as nat, 15);
                lemma_p2_mono(l as nat, 16);
                reveal_with_fuel(p2, 17);
                assert(p2(15) == 32768 && p2(16) == 65536);
                assert(first_code(self.counts@, l as int) + self.counts@[l - 1] <= p2(l as nat));
                lemma_base_mono(self.counts@, (l + 1) as int, 17);
            }
            let b = match r.read_bit() {
                Ok(b) => b,
                Err(e) => {
                    proof {
                        assert(!can_read(d, r.cur()));
                        assert(walk(self.counts@, d, r.cur(), l as int, code as int)
                            == SymOut::Stop { e: stop_error(r.cur()) });
                    }
                    return Err(e);
                },
            };
            code = code * 2 + b as u32;
            let cnt = self.counts[l - 1];
            let _slen = self.symbols.len();
            proof {
                assert(base_index(self.counts@, l + 1 as int) == bi + cnt);
                assert(bi + cnt <= self.symbols@.len());
            }
            if cnt > 0 && fc <= code && code < fc + cnt as u32 {
                let idx = bi + (code - fc) as usize;
                return Ok(self.symbols[idx]);
            }
            fc = (fc + cnt as u32) * 2;
            bi = bi + cnt as usize;
            l = l + 1;
        }
        Err(DecodeError::MalformedEntropyData)
    }
}

} // verus!
