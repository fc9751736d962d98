//! The marker-segment scanner and the decoder state it populates: JFIF
//! preamble, quantization and Huffman tables, the frame header, and the
//! scan loop that turns entropy-coded data into the pixel plane.

use vstd::prelude::*;

use crate::bits::Cursor;
use crate::dct::idct_fix;
use crate::dct::inverse_dct;
use crate::dct::pixel_of;
use crate::dct::sums_to_pixels;
use crate::entropy::as_ints;
use crate::entropy::block_spec;
use crate::entropy::decode_block;
use crate::entropy::BlockOut;
use crate::errors::DecodeError;
use crate::bits::BitReader;
use crate::huffman::base_index;
use crate::huffman::table_valid;
use crate::huffman::Table;
use crate::quant::dequantize;
use crate::zigzag::from_zigzag_seq;
use crate::zigzag::lemma_zigzag_bijection;
use crate::zigzag::unzigzag;

verus! {

/// Big-endian 16-bit value at offset `i`.
pub open spec fn be16(data: Seq<u8>, i: int) -> int {
    data[i] * 256 + data[i + 1]
}

/// Reads a big-endian 16-bit value from the first two bytes.
pub fn u8s_to_u16(bytes: &[u8]) -> (r: u16)
    requires
        bytes@.len() >= 2,
    ensures
        r as int == be16(bytes@, 0),
{
    let msb = bytes[0] as u16;
    let lsb = bytes[1] as u16;
    msb * 256 + lsb
}

/// The density unit of the APP0 segment.
#[derive(Clone, Copy, Debug, PartialEq, Eq, Structural)]
pub enum JFIFUnits {
    NoUnits,
    DotsPerInch,
    DotsPerCm,
}

impl JFIFUnits {
    /// Decodes the unit byte; exactly the values 1, 2 and 3 are defined.
    pub fn from_u8(byte: u8) -> (r: Result<JFIFUnits, DecodeError>)
        ensures
            r is Ok <==> 1 <= byte <= 3,
            byte == 1 ==> r == Ok::<JFIFUnits, DecodeError>(JFIFUnits::NoUnits),
            byte == 2 ==> r == Ok::<JFIFUnits, DecodeError>(JFIFUnits::DotsPerInch),
            byte == 3 ==> r == Ok::<JFIFUnits, DecodeError>(JFIFUnits::DotsPerCm),
            !(1 <= byte <= 3) ==> r == Err::<JFIFUnits, DecodeError>(DecodeError::InvalidUnits),
    {
        match byte {
            1 => Ok(JFIFUnits::NoUnits),
            2 => Ok(JFIFUnits::DotsPerInch),
            3 => Ok(JFIFUnits::DotsPerCm),
            _ => Err(DecodeError::InvalidUnits),
        }
    }
}

/// The JFIF version named by the APP0 segment; only 1.1 is supported.
#[derive(Clone, Copy, Debug, PartialEq, Eq, Structural)]
pub enum JFIFVersion {
    V1_01,
}

impl JFIFVersion {
    pub fn from_bytes(msb: u8, lsb: u8) -> (r: Result<JFIFVersion, DecodeError>)
        ensures
            r is Ok <==> (msb == 1 && lsb == 1),
            msb == 1 && lsb == 1 ==> r == Ok::<JFIFVersion, DecodeError>(JFIFVersion::V1_01),
            !(msb == 1 && lsb == 1) ==> r == Err::<JFIFVersion, DecodeError>(
                DecodeError::UnsupportedVersion,
            ),
    {
        if msb == 1 && lsb == 1 {
            Ok(JFIFVersion::V1_01)
        } else {
            Err(DecodeError::UnsupportedVersion)
        }
    }
}

/// One component entry of the frame header.
#[derive(Clone, Copy, Debug, PartialEq, Eq, Structural)]
pub struct FrameComponentHeader {
    pub component_id: u8,
    pub horizontal_sampling_factor: u8,
    pub vertical_sampling_factor: u8,
    pub quantization_selector: u8,
}

/// The baseline frame header.
pub struct FrameHeader {
    pub sample_precision: u8,
    pub num_lines: u16,
    pub samples_per_line: u16,
    pub image_components: u8,
    pub frame_components: Vec<FrameComponentHeader>,
}

impl FrameHeader {
    /// The component entry with the given id, if one exists.
    pub fn component_header(&self, id: u8) -> (r: Option<&FrameComponentHeader>)
        ensures
            r matches Some(c) ==> c.component_id == id && exists|i: int|
                0 <= i < self.frame_components@.len() && self.frame_components@[i] == *c,
            r is None ==> forall|i: int|
                0 <= i < self.frame_components@.len()
                    ==> #[trigger] self.frame_components@[i].component_id != id,
    {
        let mut i: usize = 0;
        while i < self.frame_components.len()
            invariant
                i <= self.frame_components@.len(),
                forall|j: int|
                    0 <= j < i ==> #[trigger] self.frame_components@[j].component_id != id,
            decreases self.frame_components@.len() - i,
        {
            if self.frame_components[i].component_id == id {
                return Some(&self.frame_components[i]);
            }
            i = i + 1;
        }
        None
    }
}

/// The unit the APP0 density bytes are expressed in; the caller only asks
/// this of a byte the parser accepted.
pub open spec fn units_of(b: u8) -> JFIFUnits {
    if b == 1 {
        JFIFUnits::NoUnits
    } else if b == 2 {
        JFIFUnits::DotsPerInch
    } else {
        JFIFUnits::DotsPerCm
    }
}

/// Whether the fixed preamble and the APP0 fields the decoder insists on
/// are all in order.
pub open spec fn preamble_ok(data: Seq<u8>) -> bool {
    &&& data.len() >= 20
    &&& magic_ok(data)
    &&& data[11] == 1 && data[12] == 1
    &&& 1 <= data[13] <= 3
}

/// The fixed 11-byte JFIF preamble: SOI, APP0, then "JFIF" and a 0 byte.
pub open spec fn magic_ok(data: Seq<u8>) -> bool {
    &&& data[0] == 0xFF
    &&& data[1] == 0xD8
    &&& data[2] == 0xFF
    &&& data[3] == 0xE0
    &&& data[6] == 0x4A
    &&& data[7] == 0x46
    &&& data[8] == 0x49
    &&& data[9] == 0x46
    &&& data[10] == 0x00
}

/// The recognized marker segments.
#[derive(Clone, Copy, Debug, PartialEq, Eq, Structural)]
pub enum Marker {
    Comment,
    Quantization,
    Frame,
    Huffman,
    Scan,
    RestartInterval,
}

/// The segment dispatch at offset `i`: a recognized marker, or the
/// unrecognized-marker error carrying the offset of the offending byte.
pub open spec fn marker_at(data: Seq<u8>, i: int) -> Result<Marker, DecodeError> {
    if data[i] != 0xFF {
        Err(DecodeError::UnrecognizedMarker { offset: i as usize })
    } else if data[i + 1] == 0xFE {
        Ok(Marker::Comment)
    } else if data[i + 1] == 0xDB {
        Ok(Marker::Quantization)
    } else if data[i + 1] == 0xC0 {
        Ok(Marker::Frame)
    } else if data[i + 1] == 0xC4 {
        Ok(Marker::Huffman)
    } else if data[i + 1] == 0xDA {
        Ok(Marker::Scan)
    } else if data[i + 1] == 0xDD {
        Ok(Marker::RestartInterval)
    } else {
        Err(DecodeError::UnrecognizedMarker { offset: (i + 1) as usize })
    }
}

/// Classifies the marker at offset `i`: any `FF` byte followed by a value
/// outside the recognized set is an unrecognized marker, reported with the
/// offset of that value byte.
pub fn classify_marker(data: &Vec<u8>, i: usize) -> (r: Result<Marker, DecodeError>)
    requires
        i + 1 < data@.len(),
    ensures
        r == marker_at(data@, i as int),
{
    let _len = data.len();
    if data[i] != 0xFF {
        return Err(DecodeError::UnrecognizedMarker { offset: i });
    }
    match data[i + 1] {
        0xFE => Ok(Marker::Comment),
        0xDB => Ok(Marker::Quantization),
        0xC0 => Ok(Marker::Frame),
        0xC4 => Ok(Marker::Huffman),
        0xDA => Ok(Marker::Scan),
        0xDD => Ok(Marker::RestartInterval),
        _ => Err(DecodeError::UnrecognizedMarker { offset: i + 1 }),
    }
}

/// What `str::from_utf8` yields on these bytes: the decoded text, or
/// nothing when they are not valid UTF-8. A function of the bytes alone.
pub uninterp spec fn utf8_decode(bytes: Seq<u8>) -> Option<Seq<char>>;

/// Relies on std::str::from_utf8: returns the text the bytes spell exactly
/// when they are valid UTF-8, and nothing otherwise.
#[verifier::external_body]
fn utf8_to_string(bytes: &[u8]) -> (r: Option<String>)
    ensures
        r is Some <==> utf8_decode(bytes@) is Some,
        r matches Some(s) ==> utf8_decode(bytes@) == Some(s@),
{
    match std::str::from_utf8(bytes) {
        Ok(s) => Some(s.to_string()),
        Err(_) => None,
    }
}

/// Copies the bytes of `v` in `from..to` into a fresh vector.
fn subvec(v: &Vec<u8>, from: usize, to: usize) -> (r: Vec<u8>)
    requires
        from <= to <= v@.len(),
    ensures
        r@ == v@.subrange(from as int, to as int),
{
    let mut r: Vec<u8> = Vec::new();
    let mut k: usize = from;
    while k < to
        invariant
            from <= k <= to <= v@.len(),
            r@.len() == k - from,
            forall|j: int| 0 <= j < k - from ==> r@[j] == v@[from + j],
        decreases to - k,
    {
        r.push(v[k]);
        k = k + 1;
    }
    assert(r@ =~= v@.subrange(from as int, to as int));
    r
}

/// Writes the 64 samples of block (`bx`, `by`) into the plane, clipping the
/// block columns and rows that lie past the visible width and height.
pub fn place_block(
    plane: &mut Vec<u8>,
    w: usize,
    h: usize,
    bx: usize,
    by: usize,
    pix: &Vec<u8>,
) -> (nothing: ())
    requires
        old(plane)@.len() == w * h,
        pix@.len() == 64,
        w <= 65535,
        h <= 65535,
        bx <= 8191,
        by <= 8191,
    ensures
        final(plane)@.len() == w * h,
        forall|xx: int, yy: int|
            0 <= xx < w && 0 <= yy < h ==> final(plane)@[yy * w + xx] == #[trigger] placed_cell(
                old(plane)@,
                pix@,
                bx as int,
                by as int,
                w as int,
                8,
                0,
                xx,
                yy,
            ),
{
    let mut rr: usize = 0;
    while rr < 8
        invariant
            plane@.len() == w * h,
            pix@.len() == 64,
            w <= 65535,
            h <= 65535,
            bx <= 8191,
            by <= 8191,
            rr <= 8,
            forall|xx: int, yy: int|
                0 <= xx < w && 0 <= yy < h ==> plane@[yy * w + xx] == #[trigger] placed_cell(
                    old(plane)@,
                    pix@,
                    bx as int,
                    by as int,
                    w as int,
                    rr as int,
                    0,
                    xx,
                    yy,
                ),
        decreases 8 - rr,
    {
        let mut cc: usize = 0;
        while cc < 8
            invariant
                plane@.len() == w * h,
                pix@.len() == 64,
                w <= 65535,
                h <= 65535,
                bx <= 8191,
                by <= 8191,
                rr < 8,
                cc <= 8,
                forall|xx: int, yy: int|
                    0 <= xx < w && 0 <= yy < h ==> plane@[yy * w + xx] == #[trigger] placed_cell(
                        old(plane)@,
                        pix@,
                        bx as int,
                        by as int,
                        w as int,
                        rr as int,
                        cc as int,
                        xx,
                        yy,
                    ),
            decreases 8 - cc,
        {
            let y = by * 8 + rr;
            let x = bx * 8 + cc;
            let ghost prev = plane@;
            if y < h && x < w {
                proof {
                    lemma_rowmajor_bound(w as int, h as int, y as int, x as int);
                }
                let plen = plane.len();
                let idx = y * w + x;
                plane[idx] = pix[rr * 8 + cc];
                proof {
                    assert forall|xx: int, yy: int| 0 <= xx < w && 0 <= yy < h implies plane@[yy
                        * w + xx] == #[trigger] placed_cell(
                        old(plane)@,
                        pix@,
                        bx as int,
                        by as int,
                        w as int,
                        rr as int,
                        cc + 1,
                        xx,
                        yy,
                    ) by {
                        lemma_rowmajor_bound(w as int, h as int, yy, xx);
                        assert(prev[yy * w + xx] == placed_cell(
                            old(plane)@,
                            pix@,
                            bx as int,
                            by as int,
                            w as int,
                            rr as int,
                            cc as int,
                            xx,
                            yy,
                        ));
                        if yy * w + xx == y * w + x {
                            lemma_rowmajor_inj(w as int, yy, xx, y as int, x as int);
                        }
                    }
                }
            } else {
                proof {
                    assert forall|xx: int, yy: int| 0 <= xx < w && 0 <= yy < h implies plane@[yy
                        * w + xx] == #[trigger] placed_cell(
                        old(plane)@,
                        pix@,
                        bx as int,
                        by as int,
                        w as int,
                        rr as int,
                        cc + 1,
                        xx,
                        yy,
                    ) by {
                        lemma_rowmajor_bound(w as int, h as int, yy, xx);
                        assert(prev[yy * w + xx] == placed_cell(
                            old(plane)@,
                            pix@,
                            bx as int,
                            by as int,
                            w as int,
                            rr as int,
                            cc as int,
                            xx,
                            yy,
                        ));
                    }
                }
            }
            cc = cc + 1;
        }
        proof {
            assert forall|xx: int, yy: int| 0 <= xx < w && 0 <= yy < h implies plane@[yy * w + xx]
                == #[trigger] placed_cell(
                old(plane)@,
                pix@,
                bx as int,
                by as int,
                w as int,
                rr + 1,
                0,
                xx,
                yy,
            ) by {
                assert(plane@[yy * w + xx] == placed_cell(
                    old(plane)@,
                    pix@,
                    bx as int,
                    by as int,
                    w as int,
                    rr as int,
                    8,
                    xx,
                    yy,
                ));
            }
        }
        rr = rr + 1;
    }
}

/// The value cell (`xx`, `yy`) of the plane holds once the block cells up to
/// (row `rr`, column `cc`) in row-major order have been written.
pub open spec fn placed_cell(
    oldp: Seq<u8>,
    pix: Seq<u8>,
    bx: int,
    by: int,
    w: int,
    rr: int,
    cc: int,
    xx: int,
    yy: int,
) -> u8 {
    let ry = yy - 8 * by;
    let rx = xx - 8 * bx;
    if 0 <= ry < 8 && 0 <= rx < 8 && (ry < rr || (ry == rr && rx < cc)) {
        pix[8 * ry + rx]
    } else {
        oldp[yy * w + xx]
    }
}

proof fn lemma_rowmajor_bound(w: int, h: int, y: int, x: int)
    by (nonlinear_arith)
    requires
        0 <= x < w,
        0 <= y < h,
    ensures
        0 <= y * w + x < w * h,
{
}

proof fn lemma_rowmajor_inj(w: int, y1: int, x1: int, y2: int, x2: int)
    by (nonlinear_arith)
    requires
        0 <= x1 < w,
        0 <= x2 < w,
        0 <= y1,
        0 <= y2,
        y1 * w + x1 == y2 * w + x2,
    ensures
        y1 == y2,
        x1 == x2,
{
}

/// A position and its row-major index within a `w`-wide, `h`-high grid.
proof fn lemma_grid_divmod(w: int, h: int, p: int)
    requires
        1 <= w,
        0 <= p < w * h,
    ensures
        0 <= p % w < w,
        0 <= p / w < h,
        (p / w) * w + (p % w) == p,
{
    vstd::arithmetic::div_mod::lemma_fundamental_div_mod(p, w);
    vstd::arithmetic::div_mod::lemma_mod_bound(p, w);
    assert(0 <= p / w && p / w < h && (p / w) * w + (p % w) == p) by (nonlinear_arith)
        requires
            1 <= w,
            0 <= p < w * h,
            p == w * (p / w) + p % w,
            0 <= p % w < w,
    ;
}

/// The dequantized coefficients of one block, still in zigzag order.
pub open spec fn deq_spec(zz: Seq<int>, qt: Seq<u8>) -> Seq<int> {
    Seq::new(64, |i: int| zz[i] * qt[i])
}

/// The 64 samples of one decoded block, row-major: dequantize, restore
/// natural order, inverse-transform, round, level-shift and clamp.
pub open spec fn block_pixels(zz: Seq<int>, qt: Seq<u8>) -> Seq<u8> {
    Seq::new(
        64,
        |i: int| pixel_of(idct_fix(from_zigzag_seq(deq_spec(zz, qt)), i % 8, i / 8)) as u8,
    )
}

/// The plane with the samples of block (`bx`, `by`) written over it, clipped
/// to the visible area.
pub open spec fn place_spec(plane: Seq<u8>, w: int, bx: int, by: int, pix: Seq<u8>) -> Seq<u8> {
    Seq::new(plane.len(), |p: int| placed_cell(plane, pix, bx, by, w, 8, 0, p % w, p / w))
}

/// The scan from block index `k` of the row-major block grid: decode one
/// block, dequantize and transform it, place its samples, and continue with
/// the new DC predictor and cursor until the grid is full.
pub open spec fn scan_walk(
    dcc: Seq<u8>,
    dcs: Seq<u8>,
    acc: Seq<u8>,
    acs: Seq<u8>,
    qt: Seq<u8>,
    data: Seq<u8>,
    c: Cursor,
    pred: int,
    k: int,
    nbx: int,
    nby: int,
    w: int,
    plane: Seq<u8>,
) -> Result<Seq<u8>, DecodeError>
    decreases nbx * nby - k,
{
    if k >= nbx * nby {
        Ok(plane)
    } else {
        match block_spec(dcc, dcs, acc, acs, data, c, pred) {
            BlockOut::Fail { e } => Err(e),
            BlockOut::Blk { zz, pred: npred, c: c2 } => scan_walk(
                dcc,
                dcs,
                acc,
                acs,
                qt,
                data,
                c2,
                npred,
                k + 1,
                nbx,
                nby,
                w,
                place_spec(plane, w, k % nbx, k / nbx, block_pixels(zz, qt)),
            ),
        }
    }
}

/// Decodes the entropy-coded data of one scan: one 8x8 block per position
/// of the row-major block grid, each entropy-decoded, dequantized,
/// inverse-transformed and placed into the pixel plane.
pub fn decode_scan(
    data: Vec<u8>,
    dc: &Table,
    ac: &Table,
    qt: &Vec<u8>,
    width: u16,
    height: u16,
) -> (res: Result<Vec<u8>, DecodeError>)
    requires
        dc.wf(),
        ac.wf(),
        qt@.len() == 64,
        8 * data@.len() + 8 <= usize::MAX,
    ensures
        res matches Ok(p) ==> p@.len() == width as int * height as int,
        ({
            let mirror = scan_walk(
                dc.counts@,
                dc.symbols@,
                ac.counts@,
                ac.symbols@,
                qt@,
                data@,
                Cursor { byte: 0, bit: 0, marker: false, consumed: 0 },
                0,
                0,
                (width as int + 7) / 8,
                (height as int + 7) / 8,
                width as int,
                Seq::new((width as int * height as int) as nat, |p: int| 0u8),
            );
            match mirror {
                Ok(p) => res matches Ok(pp) && pp@ == p,
                Err(e) => res == Err::<Vec<u8>, DecodeError>(e),
            }
        }),
{
    let ghost dseq = data@;
    let w = width as usize;
    let h = height as usize;
    let nbx = (w + 7) / 8;
    let nby = (h + 7) / 8;
    proof {
        assert(w * h <= 65535 * 65535) by (nonlinear_arith)
            requires
                w <= 65535,
                h <= 65535,
        ;
    }
    let total = w * h;
    let mut plane: Vec<u8> = Vec::new();
    let mut j: usize = 0;
    while j < total
        invariant
            j <= total,
            plane@.len() == j,
            forall|p: int| 0 <= p < j ==> plane@[p] == 0u8,
        decreases total - j,
    {
        plane.push(0u8);
        j = j + 1;
    }
    proof {
        assert(plane@ =~= Seq::new((w as int * h as int) as nat, |p: int| 0u8));
    }
    let ghost zeros = plane@;
    let ghost mirror = scan_walk(
        dc.counts@,
        dc.symbols@,
        ac.counts@,
        ac.symbols@,
        qt@,
        dseq,
        Cursor { byte: 0, bit: 0, marker: false, consumed: 0 },
        0,
        0,
        nbx as int,
        nby as int,
        w as int,
        zeros,
    );
    let mut reader = BitReader::new(data);
    let mut pred: i32 = 0;
    let mut by: usize = 0;
    while by < nby
        invariant
            dc.wf(),
            ac.wf(),
            qt@.len() == 64,
            reader.wf(),
            reader.data_model() == dseq,
            dseq == data@,
            zeros == Seq::new((width as int * height as int) as nat, |p: int| 0u8),
            mirror == scan_walk(
                dc.counts@,
                dc.symbols@,
                ac.counts@,
                ac.symbols@,
                qt@,
                dseq,
                Cursor { byte: 0, bit: 0, marker: false, consumed: 0 },
                0,
                0,
                nbx as int,
                nby as int,
                w as int,
                zeros,
            ),
            -2047 <= pred <= 2047,
            w == width as usize,
            h == height as usize,
            w <= 65535,
            h <= 65535,
            nbx == (w + 7) / 8,
            nby == (h + 7) / 8,
            by <= nby,
            plane@.len() == w * h,
            mirror == scan_walk(
                dc.counts@,
                dc.symbols@,
                ac.counts@,
                ac.symbols@,
                qt@,
                dseq,
                reader.cur(),
                pred as int,
                (by as int) * (nbx as int),
                nbx as int,
                nby as int,
                w as int,
                plane@,
            ),
        decreases nby - by,
    {
        let mut bx: usize = 0;
        while bx < nbx
            invariant
                dc.wf(),
                ac.wf(),
                qt@.len() == 64,
                reader.wf(),
                reader.data_model() == dseq,
                dseq == data@,
                zeros == Seq::new((width as int * height as int) as nat, |p: int| 0u8),
                mirror == scan_walk(
                    dc.counts@,
                    dc.symbols@,
                    ac.counts@,
                    ac.symbols@,
                    qt@,
                    dseq,
                    Cursor { byte: 0, bit: 0, marker: false, consumed: 0 },
                    0,
                    0,
                    nbx as int,
                    nby as int,
                    w as int,
                    zeros,
                ),
                -2047 <= pred <= 2047,
                w == width as usize,
                h == height as usize,
                w <= 65535,
                h <= 65535,
                nbx == (w + 7) / 8,
                nby == (h + 7) / 8,
                by < nby,
                bx <= nbx,
                plane@.len() == w * h,
                mirror == scan_walk(
                    dc.counts@,
                    dc.symbols@,
                    ac.counts@,
                    ac.symbols@,
                    qt@,
                    dseq,
                    reader.cur(),
                    pred as int,
                    (by as int) * (nbx as int) + bx as int,
                    nbx as int,
                    nby as int,
                    w as int,
                    plane@,
                ),
            decreases nbx - bx,
        {
            let ghost k = (by as int) * (nbx as int) + bx as int;
            let ghost c_pre = reader.cur();
            let ghost pred_pre = pred as int;
            proof {
                lemma_rowmajor_bound(nbx as int, nby as int, by as int, bx as int);
                vstd::arithmetic::div_mod::lemma_fundamental_div_mod_converse(
                    k,
                    nbx as int,
                    by as int,
                    bx as int,
                );
            }
            let ghost bs = block_spec(
                dc.counts@,
                dc.symbols@,
                ac.counts@,
                ac.symbols@,
                dseq,
                c_pre,
                pred_pre,
            );
            let (zz, npred) = match decode_block(&mut reader, dc, ac, pred) {
                Ok(t) => t,
                Err(e) => {
                    proof {
                        match bs {
                            BlockOut::Blk { zz, pred: np, c: c2 } => {
                                assert(false);
                            },
                            BlockOut::Fail { e: e2 } => {
                                assert(e2 == e);
                                assert(scan_walk(
                                    dc.counts@,
                                    dc.symbols@,
                                    ac.counts@,
                                    ac.symbols@,
                                    qt@,
                                    dseq,
                                    c_pre,
                                    pred_pre,
                                    k,
                                    nbx as int,
                                    nby as int,
                                    w as int,
                                    plane@,
                                ) == Err::<Seq<u8>, DecodeError>(e));
                            },
                        }
                    }
                    return Err(e);
                },
            };
            let ghost zzm = as_ints(zz@);
            pred = npred;
            let deq = dequantize(&zz, qt);
            proof {
                lemma_zigzag_bijection();
                assert(as_ints(deq@) =~= deq_spec(zzm, qt@));
            }
            let natural = unzigzag(&deq);
            proof {
                assert(as_ints(natural@) =~= from_zigzag_seq(deq_spec(zzm, qt@)));
            }
            let sums = inverse_dct(&natural);
            let pix = sums_to_pixels(&sums);
            proof {
                assert forall|i: int| 0 <= i < 64 implies pix@[i] == #[trigger] block_pixels(
                    zzm,
                    qt@,
                )[i] by {
                    lemma_grid_divmod(8, 8, i);
                    let xv = i % 8;
                    let yv = i / 8;
                    assert(sums@[8 * yv + xv] == idct_fix(as_ints(natural@), xv, yv));
                    assert(pix@[8 * yv + xv] as int == pixel_of(sums@[8 * yv + xv] as int));
                }
                assert(pix@ =~= block_pixels(zzm, qt@));
            }
            let ghost plane_pre = plane@;
            place_block(&mut plane, w, h, bx, by, &pix);
            proof {
                assert forall|p: int| 0 <= p < plane_pre.len() implies plane@[p]
                    == #[trigger] place_spec(plane_pre, w as int, bx as int, by as int, pix@)[p] by {
                    lemma_grid_divmod(w as int, h as int, p);
                    let xx = p % (w as int);
                    let yy = p / (w as int);
                    assert(plane@[yy * (w as int) + xx] == placed_cell(
                        plane_pre,
                        pix@,
                        bx as int,
                        by as int,
                        w as int,
                        8,
                        0,
                        xx,
                        yy,
                    ));
                }
                assert(plane@ =~= place_spec(plane_pre, w as int, bx as int, by as int, pix@));
            }
            bx = bx + 1;
        }
        proof {
            assert((by as int + 1) * (nbx as int) == (by as int) * (nbx as int) + nbx as int)
                by (nonlinear_arith);
        }
        by = by + 1;
    }
    proof {
        assert((nby as int) * (nbx as int) == (nbx as int) * (nby as int)) by (nonlinear_arith);
    }
    Ok(plane)
}

/// The tables and headers the marker scanner has gathered so far.
pub ghost struct ScanState {
    pub qt: Seq<Option<Seq<u8>>>,
    pub dc: Seq<Option<(Seq<u8>, Seq<u8>)>>,
    pub ac: Seq<Option<(Seq<u8>, Seq<u8>)>>,
    pub frame: Option<FrameModel>,
    pub comment: Option<Seq<char>>,
    pub comment_invalid: bool,
}

/// The one-component frame header, as the walk sees it.
pub ghost struct FrameModel {
    pub precision: u8,
    pub lines: int,
    pub samples: int,
    pub comp_id: u8,
    pub h_sampling: u8,
    pub v_sampling: u8,
    pub qsel: u8,
}

/// What a finished decode yields.
pub ghost struct ImageModel {
    pub comment: Option<Seq<char>>,
    pub comment_invalid: bool,
    pub width: int,
    pub height: int,
    pub pixels: Seq<u8>,
}

/// The scanner state before any segment was read.
pub open spec fn empty_state() -> ScanState {
    ScanState {
        qt: Seq::new(4, |j: int| None::<Seq<u8>>),
        dc: Seq::new(4, |j: int| None::<(Seq<u8>, Seq<u8>)>),
        ac: Seq::new(4, |j: int| None::<(Seq<u8>, Seq<u8>)>),
        frame: None,
        comment: None,
        comment_invalid: false,
    }
}

/// The contents view of the quantization table slots.
pub open spec fn qt_model(q: Seq<Option<Vec<u8>>>) -> Seq<Option<Seq<u8>>> {
    Seq::new(
        q.len(),
        |j: int|
            match q[j] {
                Some(v) => Some(v@),
                None => None,
            },
    )
}

/// The contents view of the Huffman table slots.
pub open spec fn huff_model(t: Seq<Option<Table>>) -> Seq<Option<(Seq<u8>, Seq<u8>)>> {
    Seq::new(
        t.len(),
        |j: int|
            match t[j] {
                Some(tb) => Some((tb.counts@, tb.symbols@)),
                None => None,
            },
    )
}

/// The model of a one-component frame header.
pub open spec fn frame_model(f: Option<FrameHeader>) -> Option<FrameModel> {
    match f {
        None => None,
        Some(fh) => Some(
            FrameModel {
                precision: fh.sample_precision,
                lines: fh.num_lines as int,
                samples: fh.samples_per_line as int,
                comp_id: fh.frame_components@[0].component_id,
                h_sampling: fh.frame_components@[0].horizontal_sampling_factor,
                v_sampling: fh.frame_components@[0].vertical_sampling_factor,
                qsel: fh.frame_components@[0].quantization_selector,
            },
        ),
    }
}

/// The text of a recorded comment.
pub open spec fn comment_model(c: Option<String>) -> Option<Seq<char>> {
    match c {
        None => None,
        Some(s) => Some(s@),
    }
}

/// The segment walk from offset `i` with scanner state `st`: each recognized
/// segment either updates the state, or (on the scan marker) decodes the
/// entropy data into the image; anything else is the stated error.
pub open spec fn parse_walk(data: Seq<u8>, i: int, st: ScanState) -> Result<
    ImageModel,
    DecodeError,
>
    decreases data.len() - i,
{
    if i + 4 > data.len() {
        Err(DecodeError::TruncatedInput)
    } else {
        match marker_at(data, i) {
            Err(e) => Err(e),
            Ok(m) => {
                let lf = be16(data, i + 2);
                if lf < 2 {
                    Err(DecodeError::TruncatedInput)
                } else {
                    let dl = lf - 2;
                    if i + 4 + dl > data.len() {
                        Err(DecodeError::TruncatedInput)
                    } else {
                        match m {
                            Marker::Comment => {
                                let st2 = match utf8_decode(data.subrange(i + 4, i + 4 + dl)) {
                                    Some(text) => ScanState {
                                        comment: Some(text),
                                        ..st
                                    },
                                    None => ScanState {
                                        comment: Some(Seq::empty()),
                                        comment_invalid: true,
                                        ..st
                                    },
                                };
                                parse_walk(data, i + 4 + dl, st2)
                            },
                            Marker::Quantization => {
                                if dl < 65 {
                                    Err(DecodeError::TruncatedInput)
                                } else if dl > 65 {
                                    Err(DecodeError::UnsupportedFeature)
                                } else if data[i + 4] / 16 != 0 || data[i + 4] % 16 > 3 {
                                    Err(DecodeError::UnsupportedFeature)
                                } else {
                                    parse_walk(
                                        data,
                                        i + 4 + dl,
                                        ScanState {
                                            qt: st.qt.update(
                                                (data[i + 4] % 16) as int,
                                                Some(data.subrange(i + 5, i + 69)),
                                            ),
                                            ..st
                                        },
                                    )
                                }
                            },
                            Marker::Frame => {
                                if dl < 9 {
                                    Err(DecodeError::TruncatedInput)
                                } else if data[i + 9] != 1 || dl != 9 {
                                    Err(DecodeError::UnsupportedFeature)
                                } else {
                                    parse_walk(
                                        data,
                                        i + 4 + dl,
                                        ScanState {
                                            frame: Some(
                                                FrameModel {
                                                    precision: data[i + 4],
                                                    lines: be16(data, i + 5),
                                                    samples: be16(data, i + 7),
                                                    comp_id: data[i + 10],
                                                    h_sampling: data[i + 11] / 16,
                                                    v_sampling: data[i + 11] % 16,
                                                    qsel: data[i + 12],
                                                },
                                            ),
                                            ..st
                                        },
                                    )
                                }
                            },
                            Marker::Huffman => {
                                if dl < 17 {
                                    Err(DecodeError::TruncatedInput)
                                } else if data[i + 4] / 16 > 1 || data[i + 4] % 16 > 3 {
                                    Err(DecodeError::UnsupportedFeature)
                                } else {
                                    let size = data.subrange(i + 5, i + 21);
                                    let total = base_index(size, 17);
                                    if dl < 17 + total {
                                        Err(DecodeError::TruncatedInput)
                                    } else if dl > 17 + total {
                                        Err(DecodeError::UnsupportedFeature)
                                    } else {
                                        let syms = data.subrange(i + 21, i + 21 + total);
                                        if !table_valid(size, syms) {
                                            Err(DecodeError::MalformedEntropyData)
                                        } else if data[i + 4] / 16 == 0 {
                                            parse_walk(
                                                data,
                                                i + 4 + dl,
                                                ScanState {
                                                    dc: st.dc.update(
                                                        (data[i + 4] % 16) as int,
                                                        Some((size, syms)),
                                                    ),
                                                    ..st
                                                },
                                            )
                                        } else {
                                            parse_walk(
                                                data,
                                                i + 4 + dl,
                                                ScanState {
                                                    ac: st.ac.update(
                                                        (data[i + 4] % 16) as int,
                                                        Some((size, syms)),
                                                    ),
                                                    ..st
                                                },
                                            )
                                        }
                                    }
                                }
                            },
                            Marker::Scan => {
                                if dl < 6 {
                                    Err(DecodeError::TruncatedInput)
                                } else if data[i + 4] != 1 || dl != 6 {
                                    Err(DecodeError::UnsupportedFeature)
                                } else if data[i + 7] != 0 || data[i + 8] != 63 {
                                    Err(DecodeError::UnsupportedFeature)
                                } else {
                                    match st.frame {
                                        None => Err(DecodeError::HeaderMismatch),
                                        Some(f) => {
                                            if data[i + 5] != f.comp_id {
                                                Err(DecodeError::HeaderMismatch)
                                            } else if data[i + 6] / 16 > 3 {
                                                Err(
                                                    DecodeError::MissingTable {
                                                        id: data[i + 6] / 16,
                                                    },
                                                )
                                            } else if data[i + 6] % 16 > 3 {
                                                Err(
                                                    DecodeError::MissingTable {
                                                        id: data[i + 6] % 16,
                                                    },
                                                )
                                            } else if f.qsel > 3 {
                                                Err(DecodeError::MissingTable { id: f.qsel })
                                            } else {
                                                match st.dc[(data[i + 6] / 16) as int] {
                                                    None => Err(
                                                        DecodeError::MissingTable {
                                                            id: data[i + 6] / 16,
                                                        },
                                                    ),
                                                    Some(dct) => match st.ac[(data[i + 6]
                                                        % 16) as int] {
                                                        None => Err(
                                                            DecodeError::MissingTable {
                                                                id: data[i + 6] % 16,
                                                            },
                                                        ),
                                                        Some(act) => match st.qt[f.qsel as int] {
                                                            None => Err(
                                                                DecodeError::MissingTable {
                                                                    id: f.qsel,
                                                                },
                                                            ),
                                                            Some(q) => match scan_walk(
                                                                dct.0,
                                                                dct.1,
                                                                act.0,
                                                                act.1,
                                                                q,
                                                                data.subrange(
                                                                    i + 10,
                                                                    data.len() as int,
                                                                ),
                                                                Cursor {
                                                                    byte: 0,
                                                                    bit: 0,
                                                                    marker: false,
                                                                    consumed: 0,
                                                                },
                                                                0,
                                                                0,
                                                                (f.samples + 7) / 8,
                                                                (f.lines + 7) / 8,
                                                                f.samples,
                                                                Seq::new(
                                                                    (f.samples * f.lines) as nat,
                                                                    |p: int| 0u8,
                                                                ),
                                                            ) {
                                                                Err(e) => Err(e),
                                                                Ok(px) => Ok(
                                                                    ImageModel {
                                                                        comment: st.comment,
                                                                        comment_invalid:
                                                                            st.comment_invalid,
                                                                        width: f.samples,
                                                                        height: f.lines,
                                                                        pixels: px,
                                                                    },
                                                                ),
                                                            },
                                                        },
                                                    },
                                                }
                                            }
                                        },
                                    }
                                }
                            },
                            Marker::RestartInterval => Err(DecodeError::UnsupportedFeature),
                        }
                    }
                }
            },
        }
    }
}

/// The decoded image: the APP0 metadata, the recorded comment, and the
/// pixel plane with its visible dimensions.
#[derive(Debug, PartialEq, Eq)]
pub struct JFIFImage {
    pub version: JFIFVersion,
    pub units: JFIFUnits,
    /// The (x, y) pixel density declared by the APP0 segment.
    pub dimensions: (u16, u16),
    pub thumbnail_dimensions: (u8, u8),
    pub comment: Option<String>,
    /// Whether a comment segment held invalid UTF-8 (degraded, not fatal).
    pub comment_invalid: bool,
    pub width: u16,
    pub height: u16,
    /// Row-major plane of `width * height` samples.
    pub pixels: Vec<u8>,
}

impl JFIFImage {
    pub open spec fn wf(self) -> bool {
        self.pixels@.len() == self.width as int * self.height as int
    }

    pub fn width(&self) -> (r: u16)
        ensures
            r == self.width,
    {
        self.width
    }

    pub fn height(&self) -> (r: u16)
        ensures
            r == self.height,
    {
        self.height
    }

    /// The samples replicated into gray RGB triples, row-major.
    pub fn image_data(&self) -> (r: Vec<(u8, u8, u8)>)
        ensures
            r@.len() == self.pixels@.len(),
            forall|i: int|
                0 <= i < r@.len() ==> #[trigger] r@[i] == (
                    self.pixels@[i],
                    self.pixels@[i],
                    self.pixels@[i],
                ),
    {
        let mut r: Vec<(u8, u8, u8)> = Vec::new();
        let mut i: usize = 0;
        while i < self.pixels.len()
            invariant
                i <= self.pixels@.len(),
                r@.len() == i,
                forall|j: int|
                    0 <= j < i ==> #[trigger] r@[j] == (
                        self.pixels@[j],
                        self.pixels@[j],
                        self.pixels@[j],
                    ),
            decreases self.pixels@.len() - i,
        {
            let p = self.pixels[i];
            r.push((p, p, p));
            i = i + 1;
        }
        r
    }

    /// Parses a whole JFIF buffer: the fixed preamble, then segment by
    /// segment until the scan produces the image.
    #[verifier::rlimit(100)]
    pub fn parse(vec: Vec<u8>) -> (res: Result<JFIFImage, DecodeError>)
        requires
            8 * vec@.len() + 8 <= usize::MAX,
        ensures
            vec@.len() < 11 ==> res == Err::<JFIFImage, DecodeError>(DecodeError::TruncatedInput),
            vec@.len() >= 11 && !magic_ok(vec@) ==> res == Err::<JFIFImage, DecodeError>(
                DecodeError::HeaderMismatch,
            ),
            vec@.len() >= 11 && magic_ok(vec@) && vec@.len() < 20 ==> res == Err::<
                JFIFImage,
                DecodeError,
            >(DecodeError::TruncatedInput),
            vec@.len() >= 20 && magic_ok(vec@) && !(vec@[11] == 1 && vec@[12] == 1) ==> res
                == Err::<JFIFImage, DecodeError>(DecodeError::UnsupportedVersion),
            vec@.len() >= 20 && magic_ok(vec@) && vec@[11] == 1 && vec@[12] == 1 && !(1 <= vec@[13]
                <= 3) ==> res == Err::<JFIFImage, DecodeError>(DecodeError::InvalidUnits),
            preamble_ok(vec@) && be16(vec@, 4) < 16 ==> res == Err::<JFIFImage, DecodeError>(
                DecodeError::TruncatedInput,
            ),
            preamble_ok(vec@) && be16(vec@, 4) >= 16 && 4 + be16(vec@, 4) + 4 > vec@.len() ==> res
                == Err::<JFIFImage, DecodeError>(DecodeError::TruncatedInput),
            preamble_ok(vec@) && be16(vec@, 4) >= 16 && 4 + be16(vec@, 4) + 4 <= vec@.len()
                ==> (match marker_at(vec@, 4 + be16(vec@, 4)) {
                Err(e) => res == Err::<JFIFImage, DecodeError>(e),
                Ok(m) => true,
            }),
            preamble_ok(vec@) && be16(vec@, 4) >= 16 ==> (match parse_walk(
                vec@,
                4 + be16(vec@, 4),
                empty_state(),
            ) {
                Ok(m) => res matches Ok(img) && img.pixels@ == m.pixels && img.width as int
                    == m.width && img.height as int == m.height && comment_model(img.comment)
                    == m.comment && img.comment_invalid == m.comment_invalid,
                Err(e) => res == Err::<JFIFImage, DecodeError>(e),
            }),
            res matches Ok(img) ==> {
                &&& img.wf()
                &&& img.version == JFIFVersion::V1_01
                &&& img.units == units_of(vec@[13])
                &&& img.dimensions.0 as int == be16(vec@, 14)
                &&& img.dimensions.1 as int == be16(vec@, 16)
                &&& img.thumbnail_dimensions == (vec@[18], vec@[19])
            },
    {
        if vec.len() < 11 {
            return Err(DecodeError::TruncatedInput);
        }
        if vec[0] != 0xFF || vec[1] != 0xD8 || vec[2] != 0xFF || vec[3] != 0xE0 || vec[6] != 0x4A
            || vec[7] != 0x46 || vec[8] != 0x49 || vec[9] != 0x46 || vec[10] != 0x00 {
            return Err(DecodeError::HeaderMismatch);
        }
        if vec.len() < 20 {
            return Err(DecodeError::TruncatedInput);
        }
        let version = match JFIFVersion::from_bytes(vec[11], vec[12]) {
            Ok(v) => v,
            Err(e) => {
                return Err(e);
            },
        };
        let units = match JFIFUnits::from_u8(vec[13]) {
            Ok(u) => u,
            Err(e) => {
                return Err(e);
            },
        };
        let x_density = (vec[14] as u16) * 256 + vec[15] as u16;
        let y_density = (vec[16] as u16) * 256 + vec[17] as u16;
        let thumbnail_dimensions = (vec[18], vec[19]);
        let app0_len = (vec[4] as usize) * 256 + vec[5] as usize;
        if app0_len < 16 {
            return Err(DecodeError::TruncatedInput);
        }
        let mut comment: Option<String> = None;
        let mut comment_invalid = false;
        let mut qtables: Vec<Option<Vec<u8>>> = Vec::new();
        let mut dc_tables: Vec<Option<Table>> = Vec::new();
        let mut ac_tables: Vec<Option<Table>> = Vec::new();
        qtables.push(None);
        qtables.push(None);
        qtables.push(None);
        qtables.push(None);
        dc_tables.push(None);
        dc_tables.push(None);
        dc_tables.push(None);
        dc_tables.push(None);
        ac_tables.push(None);
        ac_tables.push(None);
        ac_tables.push(None);
        ac_tables.push(None);
        let mut frame: Option<FrameHeader> = None;
        proof {
            assert(qt_model(qtables@) =~= empty_state().qt);
            assert(huff_model(dc_tables@) =~= empty_state().dc);
            assert(huff_model(ac_tables@) =~= empty_state().ac);
        }
        let mut i = 4 + app0_len;
        while i + 4 <= vec.len()
            invariant
                i + 4 <= usize::MAX,
                8 * vec@.len() + 8 <= usize::MAX,
                vec@.len() >= 20,
                magic_ok(vec@),
                vec@[11] == 1 && vec@[12] == 1,
                1 <= vec@[13] <= 3,
                be16(vec@, 4) >= 16,
                i >= 4 + be16(vec@, 4),
                i == 4 + be16(vec@, 4) || marker_at(vec@, 4 + be16(vec@, 4)) is Ok,
                frame matches Some(f) ==> f.frame_components@.len() == 1,
                parse_walk(vec@, 4 + be16(vec@, 4), empty_state()) == parse_walk(
                    vec@,
                    i as int,
                    ScanState {
                        qt: qt_model(qtables@),
                        dc: huff_model(dc_tables@),
                        ac: huff_model(ac_tables@),
                        frame: frame_model(frame),
                        comment: comment_model(comment),
                        comment_invalid,
                    },
                ),
                version == JFIFVersion::V1_01,
                units == units_of(vec@[13]),
                x_density as int == be16(vec@, 14),
                y_density as int == be16(vec@, 16),
                thumbnail_dimensions == (vec@[18], vec@[19]),
                qtables@.len() == 4,
                dc_tables@.len() == 4,
                ac_tables@.len() == 4,
                forall|j: int|
                    0 <= j < 4 ==> (#[trigger] qtables@[j] matches Some(t) ==> t@.len() == 64),
                forall|j: int| 0 <= j < 4 ==> (#[trigger] dc_tables@[j] matches Some(t) ==> t.wf()),
                forall|j: int| 0 <= j < 4 ==> (#[trigger] ac_tables@[j] matches Some(t) ==> t.wf()),
            decreases vec@.len() - i,
        {
            let ghost st_pre = ScanState {
                qt: qt_model(qtables@),
                dc: huff_model(dc_tables@),
                ac: huff_model(ac_tables@),
                frame: frame_model(frame),
                comment: comment_model(comment),
                comment_invalid,
            };
            let marker = match classify_marker(&vec, i) {
                Ok(m) => m,
                Err(e) => {
                    return Err(e);
                },
            };
            let len_field = (vec[i + 2] as usize) * 256 + vec[i + 3] as usize;
            if len_field < 2 {
                return Err(DecodeError::TruncatedInput);
            }
            let dl = len_field - 2;
            if dl > vec.len() || i + 4 + dl > vec.len() {
                return Err(DecodeError::TruncatedInput);
            }
            match marker {
                Marker::Comment => {
                    let cbytes = subvec(&vec, i + 4, i + 4 + dl);
                    match utf8_to_string(cbytes.as_slice()) {
                        Some(s) => {
                            comment = Some(s);
                        },
                        None => {
                            comment = Some(String::new());
                            comment_invalid = true;
                        },
                    }
                },
                Marker::Quantization => {
                    if dl < 65 {
                        return Err(DecodeError::TruncatedInput);
                    }
                    if dl > 65 {
                        return Err(DecodeError::UnsupportedFeature);
                    }
                    let precision = vec[i + 4] / 16;
                    let id = vec[i + 4] % 16;
                    if precision != 0 || id > 3 {
                        return Err(DecodeError::UnsupportedFeature);
                    }
                    let table = subvec(&vec, i + 5, i + 5 + 64);
                    qtables[id as usize] = Some(table);
                    proof {
                        assert(qt_model(qtables@) =~= st_pre.qt.update(
                            id as int,
                            Some(vec@.subrange(i + 5, i + 69)),
                        ));
                    }
                },
                Marker::Frame => {
                    if dl < 9 {
                        return Err(DecodeError::TruncatedInput);
                    }
                    let image_components = vec[i + 9];
                    if image_components != 1 || dl != 9 {
                        return Err(DecodeError::UnsupportedFeature);
                    }
                    let component = FrameComponentHeader {
                        component_id: vec[i + 10],
                        horizontal_sampling_factor: vec[i + 11] / 16,
                        vertical_sampling_factor: vec[i + 11] % 16,
                        quantization_selector: vec[i + 12],
                    };
                    let mut comps: Vec<FrameComponentHeader> = Vec::new();
                    comps.push(component);
                    frame = Some(
                        FrameHeader {
                            sample_precision: vec[i + 4],
                            num_lines: (vec[i + 5] as u16) * 256 + vec[i + 6] as u16,
                            samples_per_line: (vec[i + 7] as u16) * 256 + vec[i + 8] as u16,
                            image_components,
                            frame_components: comps,
                        },
                    );
                },
                Marker::Huffman => {
                    if dl < 17 {
                        return Err(DecodeError::TruncatedInput);
                    }
                    let class = vec[i + 4] / 16;
                    let id = vec[i + 4] % 16;
                    if class > 1 || id > 3 {
                        return Err(DecodeError::UnsupportedFeature);
                    }
                    let size_area = subvec(&vec, i + 5, i + 5 + 16);
                    let mut sum: usize = 0;
                    let mut k: usize = 0;
                    while k < 16
                        invariant
                            size_area@.len() == 16,
                            k <= 16,
                            sum <= k * 255,
                            sum == base_index(size_area@, k + 1 as int),
                        decreases 16 - k,
                    {
                        sum = sum + size_area[k] as usize;
                        k = k + 1;
                    }
                    if dl < 17 + sum {
                        return Err(DecodeError::TruncatedInput);
                    }
                    if dl > 17 + sum {
                        return Err(DecodeError::UnsupportedFeature);
                    }
                    let data_area = subvec(&vec, i + 5 + 16, i + 5 + 16 + sum);
                    let table = match Table::from_size_data_tables(
                        size_area.as_slice(),
                        data_area.as_slice(),
                    ) {
                        Ok(t) => t,
                        Err(e) => {
                            return Err(e);
                        },
                    };
                    if class == 0 {
                        dc_tables[id as usize] = Some(table);
                        proof {
                            assert(huff_model(dc_tables@) =~= st_pre.dc.update(
                                id as int,
                                Some(
                                    (
                                        vec@.subrange(i + 5, i + 21),
                                        vec@.subrange(i + 21, i + 21 + sum),
                                    ),
                                ),
                            ));
                        }
                    } else {
                        ac_tables[id as usize] = Some(table);
                        proof {
                            assert(huff_model(ac_tables@) =~= st_pre.ac.update(
                                id as int,
                                Some(
                                    (
                                        vec@.subrange(i + 5, i + 21),
                                        vec@.subrange(i + 21, i + 21 + sum),
                                    ),
                                ),
                            ));
                        }
                    }
                },
                Marker::Scan => {
                    if dl < 6 {
                        return Err(DecodeError::TruncatedInput);
                    }
                    let num_components = vec[i + 4];
                    if num_components != 1 || dl != 6 {
                        return Err(DecodeError::UnsupportedFeature);
                    }
                    let selector = vec[i + 5];
                    let dc_id = vec[i + 6] / 16;
                    let ac_id = vec[i + 6] % 16;
                    let start_spectral = vec[i + 7];
                    let end_spectral = vec[i + 8];
                    if start_spectral != 0 || end_spectral != 63 {
                        return Err(DecodeError::UnsupportedFeature);
                    }
                    let frame_header = match &frame {
                        Some(f) => f,
                        None => {
                            return Err(DecodeError::HeaderMismatch);
                        },
                    };
                    let quant_id = match frame_header.component_header(selector) {
                        Some(c) => c.quantization_selector,
                        None => {
                            return Err(DecodeError::HeaderMismatch);
                        },
                    };
                    if dc_id > 3 {
                        return Err(DecodeError::MissingTable { id: dc_id });
                    }
                    if ac_id > 3 {
                        return Err(DecodeError::MissingTable { id: ac_id });
                    }
                    if quant_id > 3 {
                        return Err(DecodeError::MissingTable { id: quant_id });
                    }
                    let dc_table = match &dc_tables[dc_id as usize] {
                        Some(t) => t,
                        None => {
                            return Err(DecodeError::MissingTable { id: dc_id });
                        },
                    };
                    let ac_table = match &ac_tables[ac_id as usize] {
                        Some(t) => t,
                        None => {
                            return Err(DecodeError::MissingTable { id: ac_id });
                        },
                    };
                    let quant_table = match &qtables[quant_id as usize] {
                        Some(t) => t,
                        None => {
                            return Err(DecodeError::MissingTable { id: quant_id });
                        },
                    };
                    let width = frame_header.samples_per_line;
                    let height = frame_header.num_lines;
                    let data = subvec(&vec, i + 10, vec.len());
                    let pixels = match decode_scan(data, dc_table, ac_table, quant_table, width, height) {
                        Ok(p) => p,
                        Err(e) => {
                            return Err(e);
                        },
                    };
                    return Ok(
                        JFIFImage {
                            version,
                            units,
                            dimensions: (x_density, y_density),
                            thumbnail_dimensions,
                            comment,
                            comment_invalid,
                            width,
                            height,
                            pixels,
                        },
                    );
                },
                Marker::RestartInterval => {
                    return Err(DecodeError::UnsupportedFeature);
                },
            }
            i = i + 4 + dl;
        }
        Err(DecodeError::TruncatedInput)
    }
}

} // verus!
