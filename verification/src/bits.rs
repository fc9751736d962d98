//! A sequential MSB-first bit view over a byte buffer, transparently
//! removing the JPEG byte stuffing: a 0x00 byte that follows a consumed
//! 0xFF data byte is skipped, and any other byte after a 0xFF signals an
//! embedded marker, which fails the next read instead of being consumed.

use vstd::prelude::*;

use crate::errors::DecodeError;
use crate::num::lemma_p2_mono;
use crate::num::lemma_p2_pos;
use crate::num::p2;
use crate::num::pow2_u32;

verus! {

/// The reader's position in the logical bitstream: byte index, bit offset
/// within that byte (MSB first), whether an embedded marker was reached,
/// and how many bits were consumed so far.
pub ghost struct Cursor {
    pub byte: int,
    pub bit: int,
    pub marker: bool,
    pub consumed: int,
}

/// Whether one more bit can be read at `c`.
pub open spec fn can_read(data: Seq<u8>, c: Cursor) -> bool {
    !c.marker && 0 <= c.byte < data.len() && 0 <= c.bit < 8
}

/// The bit the cursor points at, MSB first within its byte.
pub open spec fn bit_at(data: Seq<u8>, c: Cursor) -> u8 {
    (((data[c.byte] as int) / p2((7 - c.bit) as nat)) % 2) as u8
}

/// The cursor one bit further: a stuffed 0x00 after a fully consumed 0xFF
/// is skipped, and any other byte after a 0xFF raises the marker flag.
pub open spec fn advanced(data: Seq<u8>, c: Cursor) -> Cursor {
    if c.bit < 7 {
        Cursor { byte: c.byte, bit: c.bit + 1, marker: c.marker, consumed: c.consumed + 1 }
    } else {
        let nb = c.byte + 1;
        if data[c.byte] == 0xFF {
            if nb < data.len() && data[nb] == 0x00 {
                Cursor { byte: nb + 1, bit: 0, marker: c.marker, consumed: c.consumed + 1 }
            } else if nb < data.len() {
                Cursor { byte: nb, bit: 0, marker: true, consumed: c.consumed + 1 }
            } else {
                Cursor { byte: nb, bit: 0, marker: c.marker, consumed: c.consumed + 1 }
            }
        } else {
            Cursor { byte: nb, bit: 0, marker: c.marker, consumed: c.consumed + 1 }
        }
    }
}

/// The error a stopped read reports: an embedded marker is malformed entropy
/// data, running off the buffer is a truncated stream.
pub open spec fn stop_error(c: Cursor) -> DecodeError {
    if c.marker {
        DecodeError::MalformedEntropyData
    } else {
        DecodeError::TruncatedInput
    }
}

/// Outcome of reading a run of bits.
pub ghost enum BitsOut {
    Val { v: int, c: Cursor },
    Stop { e: DecodeError },
}

/// Reads `n` further bits MSB first into the accumulator `acc`.
pub open spec fn take_bits(data: Seq<u8>, c: Cursor, n: nat, acc: int) -> BitsOut
    decreases n,
{
    if n == 0 {
        BitsOut::Val { v: acc, c }
    } else if !can_read(data, c) {
        BitsOut::Stop { e: stop_error(c) }
    } else {
        take_bits(data, advanced(data, c), (n - 1) as nat, acc * 2 + bit_at(data, c))
    }
}

/// The value a successful read yields.
pub open spec fn out_val(o: BitsOut) -> int {
    match o {
        BitsOut::Val { v, .. } => v,
        BitsOut::Stop { .. } => 0,
    }
}

/// The cursor a successful read leaves behind.
pub open spec fn out_cur(o: BitsOut) -> Cursor {
    match o {
        BitsOut::Val { c, .. } => c,
        BitsOut::Stop { .. } => Cursor { byte: 0, bit: 0, marker: false, consumed: 0 },
    }
}

/// An `n`-bit read starting from accumulator `acc` lands in
/// `[acc * 2^n, (acc + 1) * 2^n)`: the bits fill the low end of the value.
pub proof fn lemma_take_bits_range(data: Seq<u8>, c: Cursor, n: nat, acc: int)
    requires
        acc >= 0,
        take_bits(data, c, n, acc) is Val,
    ensures
        acc * p2(n) <= out_val(take_bits(data, c, n, acc)) < (acc + 1) * p2(n),
    decreases n,
{
    lemma_p2_pos(n);
    if n == 0 {
    } else {
        let b = bit_at(data, c) as int;
        lemma_p2_pos((7 - c.bit) as nat);
        assert(0 <= b <= 1);
        let acc1 = acc * 2 + b;
        lemma_take_bits_range(data, advanced(data, c), (n - 1) as nat, acc1);
        let v = out_val(take_bits(data, c, n, acc));
        let q = p2((n - 1) as nat);
        lemma_p2_pos((n - 1) as nat);
        assert(acc1 * q <= v < (acc1 + 1) * q);
        assert(acc * (2 * q) <= (acc * 2 + b) * q && (acc * 2 + b + 1) * q <= (acc + 1) * (2 * q))
            by (nonlinear_arith)
            requires
                q >= 1,
                0 <= b <= 1,
                acc >= 0,
        ;
    }
}

/// The cursor-driven reader over a byte buffer.
pub struct BitReader {
    pub data: Vec<u8>,
    pub byte: usize,
    pub bit: usize,
    pub at_marker: bool,
    pub consumed: usize,
}

impl BitReader {
    /// The wrapped bytes.
    pub open spec fn data_model(self) -> Seq<u8> {
        self.data@
    }

    /// The current cursor.
    pub open spec fn cur(self) -> Cursor {
        Cursor {
            byte: self.byte as int,
            bit: self.bit as int,
            marker: self.at_marker,
            consumed: self.consumed as int,
        }
    }

    pub open spec fn wf(self) -> bool {
        &&& self.bit < 8
        &&& self.byte <= self.data@.len()
        &&& self.consumed <= 8 * self.byte + self.bit
        &&& 8 * self.data@.len() + 8 <= usize::MAX
    }

    pub fn new(data: Vec<u8>) -> (r: BitReader)
        requires
            8 * data@.len() + 8 <= usize::MAX,
        ensures
            r.wf(),
            r.data_model() == data@,
            r.cur() == (Cursor { byte: 0, bit: 0, marker: false, consumed: 0 }),
    {
        BitReader { data, byte: 0, bit: 0, at_marker: false, consumed: 0 }
    }

    /// Total bits handed out so far, so a scan loop can be driven purely by
    /// the data actually decoded.
    pub fn bits_consumed(&self) -> (r: usize)
        ensures
            r as int == self.cur().consumed,
    {
        self.consumed
    }

    /// Returns the next bit of the logical stream and advances the cursor.
    pub fn read_bit(&mut self) -> (r: Result<u8, DecodeError>)
        requires
            old(self).wf(),
        ensures
            final(self).wf(),
            final(self).data_model() == old(self).data_model(),
            can_read(old(self).data_model(), old(self).cur()) ==> {
                &&& r == Ok::<u8, DecodeError>(bit_at(old(self).data_model(), old(self).cur()))
                &&& final(self).cur() == advanced(old(self).data_model(), old(self).cur())
            },
            !can_read(old(self).data_model(), old(self).cur()) ==> {
                &&& r == Err::<u8, DecodeError>(stop_error(old(self).cur()))
                &&& final(self).cur() == old(self).cur()
            },
    {
        if self.at_marker {
            return Err(DecodeError::MalformedEntropyData);
        }
        if self.byte >= self.data.len() {
            return Err(DecodeError::TruncatedInput);
        }
        let b = self.data[self.byte];
        proof {
            lemma_p2_pos((7 - self.bit) as nat);
        }
        let pw = pow2_u32(7 - self.bit as u32);
        let bit_val = ((b as u32) / pw % 2) as u8;
        if self.bit < 7 {
            self.bit = self.bit + 1;
        } else {
            self.bit = 0;
            self.byte = self.byte + 1;
            if b == 0xFF {
                if self.byte < self.data.len() {
                    if self.data[self.byte] == 0x00 {
                        self.byte = self.byte + 1;
                    } else {
                        self.at_marker = true;
                    }
                }
            }
        }
        self.consumed = self.consumed + 1;
        Ok(bit_val)
    }

    /// Returns an `n`-bit unsigned value built MSB first.
    pub fn read_bits(&mut self, n: usize) -> (r: Result<u16, DecodeError>)
        requires
            old(self).wf(),
            n <= 16,
        ensures
            final(self).wf(),
            final(self).data_model() == old(self).data_model(),
            take_bits(old(self).data_model(), old(self).cur(), n as nat, 0) matches BitsOut::Val {
                v,
                c,
            } ==> r == Ok::<u16, DecodeError>(v as u16) && final(self).cur() == c && 0 <= v < p2(
                n as nat,
            ),
            take_bits(old(self).data_model(), old(self).cur(), n as nat, 0) matches BitsOut::Stop {
                e,
            } ==> r == Err::<u16, DecodeError>(e),
    {
        let ghost d = self.data@;
        let ghost c0 = self.cur();
        let mut acc: u16 = 0;
        let mut i: usize = 0;
        while i < n
            invariant
                self.wf(),
                d == old(self).data@,
                c0 == old(self).cur(),
                self.data@ == d,
                i <= n <= 16,
                acc < p2(i as nat),
                take_bits(d, c0, n as nat, 0) == take_bits(
                    d,
                    self.cur(),
                    (n - i) as nat,
                    acc as int,
                ),
            decreases n - i,
        {
            proof {
                lemma_p2_mono(i as nat, 15);
                reveal_with_fuel(p2, 17);
                assert(p2(15) == 32768);
            }
            match self.read_bit() {
                Ok(b) => {
                    assert(b <= 1);
                    acc = acc * 2 + b as u16;
                }
                Err(e) => {
                    proof {
                        assert(!can_read(d, self.cur()));
                        assert(take_bits(d, self.cur(), (n - i) as nat, acc as int)
                            == BitsOut::Stop { e: stop_error(self.cur()) });
                    }
                    return Err(e);
                }
            }
            i = i + 1;
        }
        Ok(acc)
    }
}

} // verus!
