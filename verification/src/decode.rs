use vstd::prelude::*;

use vstd::slice::slice_subrange;

use crate::blur::DIM_MAX;
use crate::err::ImageError;
use crate::pixel::ChannelLayout;
use crate::pixel::PixelGrid;

verus! {

// ---------------------------------------------------------------------------
// Trusted boundary: zlib decompression and CRC-32 come from outside crates.
// ---------------------------------------------------------------------------

/// The error type `miniz_oxide` reports on a failed decompression.
#[verifier::external_type_specification]
#[verifier::external_body]
pub struct ExDecompressError(miniz_oxide::inflate::DecompressError);

/// What zlib decompression yields on a given input: `None` when the stream
/// is not a valid zlib stream (bad header, bad deflate data, bad Adler-32).
pub uninterp spec fn zlib_inflate_of(s: Seq<u8>) -> Option<Seq<u8>>;

/// Relies on `miniz_oxide::inflate::decompress_to_vec_zlib`: decompression
/// of a zlib stream, a deterministic function of the input bytes alone.
#[verifier::external_body]
fn zlib_decompress(data: &[u8]) -> (r: Result<Vec<u8>, miniz_oxide::inflate::DecompressError>)
    ensures
        match r {
            Ok(v) => zlib_inflate_of(data@) == Some(v@),
            Err(_) => zlib_inflate_of(data@) is None,
        },
{
    miniz_oxide::inflate::decompress_to_vec_zlib(data)
}

/// The IEEE CRC-32 of a byte sequence, a function of the bytes alone.
pub uninterp spec fn crc32_of(s: Seq<u8>) -> u32;

/// Relies on `crc32fast::hash`: the IEEE CRC-32 checksum of the bytes.
#[verifier::external_body]
fn crc32(data: &[u8]) -> (r: u32)
    ensures
        r == crc32_of(data@),
{
    crc32fast::hash(data)
}

// ---------------------------------------------------------------------------
// The container structure, as spec functions.
// ---------------------------------------------------------------------------

/// The big-endian 32-bit value at offset `off`.
pub open spec fn be32(s: Seq<u8>, off: int) -> int {
    (s[off] as int) * 0x1000000 + (s[off + 1] as int) * 0x10000 + (s[off + 2] as int) * 0x100 + (s[off + 3] as int)
}

/// Whether the stream starts with the eight PNG signature bytes.
pub open spec fn has_sig(s: Seq<u8>) -> bool {
    &&& s.len() >= 8
    &&& s[0] == 137u8
    &&& s[1] == 80u8
    &&& s[2] == 78u8
    &&& s[3] == 71u8
    &&& s[4] == 13u8
    &&& s[5] == 10u8
    &&& s[6] == 26u8
    &&& s[7] == 10u8
}

/// Whether the chunk starting at `off` carries the four given type bytes.
pub open spec fn is_ctype(s: Seq<u8>, off: int, a: int, b: int, c: int, d: int) -> bool {
    &&& s[off + 4] == a
    &&& s[off + 5] == b
    &&& s[off + 6] == c
    &&& s[off + 7] == d
}

/// Whether the stored CRC of the chunk at `off` (with data length `clen`)
/// matches the CRC-32 of its type and data bytes.
pub open spec fn chunk_crc_ok(s: Seq<u8>, off: int, clen: int) -> bool {
    be32(s, off + 8 + clen) == crc32_of(s.subrange(off + 4, off + 8 + clen))
}

/// Whether the fixed-position IHDR chunk directly after the signature is
/// structurally sound.
pub open spec fn ihdr_ok(s: Seq<u8>) -> bool {
    &&& s.len() >= 33
    &&& be32(s, 8) == 13
    &&& is_ctype(s, 8, 73, 72, 68, 82)
    &&& chunk_crc_ok(s, 8, 13)
}

/// Walks the chunks from `off`, checking structure and CRCs, and returns
/// the concatenated IDAT payload; `None` marks a corrupt stream.  The walk
/// must end with an empty IEND chunk that is the very last thing in the
/// stream.
pub open spec fn idat_from(s: Seq<u8>, off: int) -> Option<Seq<u8>>
    decreases s.len() - off,
{
    let l = s.len() as int;
    if off + 12 > l {
        None
    } else {
        let clen = be32(s, off);
        if off + 12 + clen > l {
            None
        } else if !chunk_crc_ok(s, off, clen) {
            None
        } else if is_ctype(s, off, 73, 69, 78, 68) {
            if clen == 0 && off + 12 == l {
                Some(Seq::empty())
            } else {
                None
            }
        } else if is_ctype(s, off, 73, 68, 65, 84) {
            match idat_from(s, off + 12 + clen) {
                Some(rest) => Some(s.subrange(off + 8, off + 8 + clen) + rest),
                None => None,
            }
        } else {
            idat_from(s, off + 12 + clen)
        }
    }
}

/// The channel layout a supported color type byte denotes.
pub open spec fn layout_of(ct: int) -> ChannelLayout {
    if ct == 0 {
        ChannelLayout::Gray8
    } else if ct == 2 {
        ChannelLayout::Rgb8
    } else if ct == 4 {
        ChannelLayout::GrayAlpha8
    } else {
        ChannelLayout::Rgba8
    }
}

// ---------------------------------------------------------------------------
// Scanline unfiltering, as spec functions.
// ---------------------------------------------------------------------------

/// The Paeth predictor: whichever of left, up, up-left is closest to
/// `left + up - upleft`.
pub open spec fn paeth_spec(a: int, b: int, c: int) -> int {
    let p = a + b - c;
    let pa = if p >= a { p - a } else { a - p };
    let pb = if p >= b { p - b } else { b - p };
    let pc = if p >= c { p - c } else { c - p };
    if pa <= pb && pa <= pc {
        a
    } else if pb <= pc {
        b
    } else {
        c
    }
}

/// The predictor value for filter type `ft` given the left, up and up-left
/// reconstructed bytes.
pub open spec fn predictor(ft: int, a: int, b: int, c: int) -> int {
    if ft == 0 {
        0
    } else if ft == 1 {
        a
    } else if ft == 2 {
        b
    } else if ft == 3 {
        (a + b) / 2
    } else {
        paeth_spec(a, b, c)
    }
}

/// The first `n` reconstructed bytes of one scanline: `row` is the filtered
/// row (without its filter byte), `prev` the reconstructed previous row.
pub open spec fn unfilter_row_pre(ft: int, row: Seq<u8>, prev: Seq<u8>, bpp: int, n: int) -> Seq<u8>
    decreases n,
{
    if n <= 0 {
        Seq::empty()
    } else {
        let p = unfilter_row_pre(ft, row, prev, bpp, n - 1);
        let a = if n - 1 >= bpp { p[n - 1 - bpp] as int } else { 0 };
        let b = prev[n - 1] as int;
        let cc = if n - 1 >= bpp { prev[n - 1 - bpp] as int } else { 0 };
        p.push((((row[n - 1] as int) + predictor(ft, a, b, cc)) % 256) as u8)
    }
}

/// The reconstructed rows from `y` on, given the reconstructed row above.
pub open spec fn unfilter_rows(raw: Seq<u8>, stride: int, bpp: int, prev: Seq<u8>, y: int, h: int) -> Option<Seq<u8>>
    decreases h - y,
{
    if y >= h {
        Some(Seq::empty())
    } else {
        let ft = raw[y * (stride + 1)] as int;
        if ft > 4 {
            None
        } else {
            let row = raw.subrange(y * (stride + 1) + 1, (y + 1) * (stride + 1));
            let rec = unfilter_row_pre(ft, row, prev, bpp, stride);
            match unfilter_rows(raw, stride, bpp, rec, y + 1, h) {
                Some(rest) => Some(rec + rest),
                None => None,
            }
        }
    }
}

/// A row of zero bytes, the implicit row above the first scanline.
pub open spec fn zero_row(stride: int) -> Seq<u8> {
    Seq::new(stride as nat, |i: int| 0u8)
}

/// Undoes the per-scanline prediction filters of the whole decompressed
/// payload; `None` marks an undefined filter type byte.
pub open spec fn unfilter_spec(raw: Seq<u8>, h: int, stride: int, bpp: int) -> Option<Seq<u8>> {
    unfilter_rows(raw, stride, bpp, zero_row(stride), 0, h)
}

/// Reconstructed scanline prefixes have exactly the bytes asked for.
pub proof fn lemma_unfilter_row_pre_len(ft: int, row: Seq<u8>, prev: Seq<u8>, bpp: int, n: int)
    requires
        n >= 0,
    ensures
        unfilter_row_pre(ft, row, prev, bpp, n).len() == n,
    decreases n,
{
    if n > 0 {
        lemma_unfilter_row_pre_len(ft, row, prev, bpp, n - 1);
    }
}

/// A successful unfilter of rows `y..h` yields `(h - y) * stride` bytes.
pub proof fn lemma_unfilter_rows_len(raw: Seq<u8>, stride: int, bpp: int, prev: Seq<u8>, y: int, h: int)
    requires
        0 <= y <= h,
        stride >= 0,
    ensures
        match unfilter_rows(raw, stride, bpp, prev, y, h) {
            Some(r) => r.len() == (h - y) * stride,
            None => true,
        },
    decreases h - y,
{
    if y >= h {
        assert((h - y) * stride == 0) by (nonlinear_arith)
            requires y == h,
        ;
    } else {
        let ft = raw[y * (stride + 1)] as int;
        if ft <= 4 {
            let row = raw.subrange(y * (stride + 1) + 1, (y + 1) * (stride + 1));
            let rec = unfilter_row_pre(ft, row, prev, bpp, stride);
            lemma_unfilter_row_pre_len(ft, row, prev, bpp, stride);
            lemma_unfilter_rows_len(raw, stride, bpp, rec, y + 1, h);
            match unfilter_rows(raw, stride, bpp, rec, y + 1, h) {
                Some(rest) => {
                    assert(unfilter_rows(raw, stride, bpp, prev, y, h) == Some(rec + rest));
                    assert(stride + (h - (y + 1)) * stride == (h - y) * stride) by (nonlinear_arith);
                },
                None => {
                    assert(unfilter_rows(raw, stride, bpp, prev, y, h) is None);
                },
            }
        }
    }
}

// ---------------------------------------------------------------------------
// The whole decode pipeline as one spec function.
// ---------------------------------------------------------------------------

/// What `decode` returns on any input: either the grid's geometry, layout
/// and pixel bytes, or the precise error kind.
pub open spec fn decode_spec(s: Seq<u8>) -> Result<(int, int, ChannelLayout, Seq<u8>), ImageError> {
    if !has_sig(s) {
        Err(ImageError::UnsupportedFormat)
    } else if !ihdr_ok(s) {
        Err(ImageError::CorruptData)
    } else {
        let w = be32(s, 16);
        let h = be32(s, 20);
        let depth = s[24] as int;
        let ct = s[25] as int;
        let comp = s[26] as int;
        let filt = s[27] as int;
        let inter = s[28] as int;
        if !(depth == 8 && (ct == 0 || ct == 2 || ct == 4 || ct == 6)) {
            Err(ImageError::UnsupportedFormat)
        } else if inter != 0 {
            Err(ImageError::UnsupportedFormat)
        } else if comp != 0 || filt != 0 {
            Err(ImageError::CorruptData)
        } else if w == 0 || h == 0 {
            Err(ImageError::CorruptData)
        } else if w > DIM_MAX || h > DIM_MAX {
            Err(ImageError::AllocationFailure)
        } else {
            match idat_from(s, 33) {
                None => Err(ImageError::CorruptData),
                Some(z) => match zlib_inflate_of(z) {
                    None => Err(ImageError::CorruptData),
                    Some(raw) => {
                        let bpp = layout_of(ct).channels_spec();
                        let stride = w * bpp;
                        if raw.len() != h * (stride + 1) {
                            Err(ImageError::CorruptData)
                        } else {
                            match unfilter_spec(raw, h, stride, bpp) {
                                None => Err(ImageError::CorruptData),
                                Some(pix) => Ok((w, h, layout_of(ct), pix)),
                            }
                        }
                    },
                },
            }
        }
    }
}

// ---------------------------------------------------------------------------
// Executable decoding.
// ---------------------------------------------------------------------------

/// Reads the big-endian 32-bit value at `off`.
fn read_be32(s: &[u8], off: usize) -> (r: u32)
    requires
        off + 4 <= s@.len(),
    ensures
        r as int == be32(s@, off as int),
{
    (s[off] as u32) * 0x1000000 + (s[off + 1] as u32) * 0x10000 + (s[off + 2] as u32) * 0x100 + (s[off + 3] as u32)
}

/// Tests for the PNG signature.
fn check_sig(s: &[u8]) -> (r: bool)
    ensures
        r == has_sig(s@),
{
    if s.len() < 8 {
        return false;
    }
    s[0] == 137 && s[1] == 80 && s[2] == 78 && s[3] == 71 && s[4] == 13 && s[5] == 10 && s[6] == 26 && s[7] == 10
}

/// Appends `s[i..j]` to `acc`.
#[verifier::loop_isolation(false)]
fn push_subrange(acc: &mut Vec<u8>, s: &[u8], i: usize, j: usize)
    requires
        i <= j <= s@.len(),
    ensures
        final(acc)@ == old(acc)@ + s@.subrange(i as int, j as int),
{
    let mut k: usize = i;
    while k < j
        invariant
            i <= k <= j,
            acc@ == old(acc)@ + s@.subrange(i as int, k as int),
        decreases j - k,
    {
        acc.push(s[k]);
        proof {
            assert(s@.subrange(i as int, k as int).push(s@[k as int]) =~= s@.subrange(i as int, k + 1 as int));
        }
        k = k + 1;
    }
    proof {
        assert(acc@ =~= old(acc)@ + s@.subrange(i as int, j as int));
    }
}

/// Walks the chunk sequence from the byte after IHDR, CRC-checking every
/// chunk, and concatenates the IDAT payloads.
#[verifier::loop_isolation(false)]
fn collect_idat(s: &[u8]) -> (r: Option<Vec<u8>>)
    requires
        s@.len() >= 33,
    ensures
        match r {
            Some(v) => idat_from(s@, 33) == Some(v@),
            None => idat_from(s@, 33) is None,
        },
{
    let mut acc: Vec<u8> = Vec::new();
    let mut off: usize = 33;
    proof {
        assert(Seq::<u8>::empty() + acc@ =~= acc@);
    }
    loop
        invariant
            33 <= off <= s@.len(),
            match idat_from(s@, off as int) {
                Some(rest) => idat_from(s@, 33) == Some(acc@ + rest),
                None => idat_from(s@, 33) is None,
            },
        decreases s@.len() - off,
    {
        if s.len() - off < 12 {
            return None;
        }
        let clen32 = read_be32(s, off);
        let clen = clen32 as usize;
        if clen > s.len() - off - 12 {
            return None;
        }
        let computed = crc32(slice_subrange(s, off + 4, off + 8 + clen));
        let stored = read_be32(s, off + 8 + clen);
        if stored != computed {
            return None;
        }
        let t0 = s[off + 4];
        let t1 = s[off + 5];
        let t2 = s[off + 6];
        let t3 = s[off + 7];
        if t0 == 73 && t1 == 69 && t2 == 78 && t3 == 68 {
            if clen == 0 && off + 12 == s.len() {
                proof {
                    assert(acc@ + Seq::<u8>::empty() =~= acc@);
                }
                return Some(acc);
            } else {
                return None;
            }
        }
        let ghost acc_before = acc@;
        if t0 == 73 && t1 == 68 && t2 == 65 && t3 == 84 {
            push_subrange(&mut acc, s, off + 8, off + 8 + clen);
        }
        proof {
            let o = off as int;
            let next = o + 12 + clen;
            if t0 == 73 && t1 == 68 && t2 == 65 && t3 == 84 {
                match idat_from(s@, next) {
                    Some(rest) => {
                        assert(idat_from(s@, o) == Some(s@.subrange(o + 8, o + 8 + clen) + rest));
                        assert(acc_before + (s@.subrange(o + 8, o + 8 + clen) + rest) =~= acc@ + rest);
                    },
                    None => {},
                }
            }
        }
        off = off + 12 + clen;
    }
}

/// Computes the Paeth predictor byte.
fn paeth(a: u8, b: u8, c: u8) -> (r: u8)
    ensures
        r as int == paeth_spec(a as int, b as int, c as int),
{
    let p: i32 = a as i32 + b as i32 - c as i32;
    let pa: i32 = if p >= a as i32 { p - a as i32 } else { a as i32 - p };
    let pb: i32 = if p >= b as i32 { p - b as i32 } else { b as i32 - p };
    let pc: i32 = if p >= c as i32 { p - c as i32 } else { c as i32 - p };
    if pa <= pb && pa <= pc {
        a
    } else if pb <= pc {
        b
    } else {
        c
    }
}

/// Undoes the scanline filters of the decompressed payload.
#[verifier::loop_isolation(false)]
fn unfilter(raw: &Vec<u8>, h: usize, stride: usize, bpp: usize) -> (r: Option<Vec<u8>>)
    requires
        raw@.len() == h * (stride + 1),
        1 <= bpp <= 4,
        bpp <= stride,
        1 <= h,
    ensures
        match r {
            Some(v) => unfilter_spec(raw@, h as int, stride as int, bpp as int) == Some(v@) && v@.len() == h * stride,
            None => unfilter_spec(raw@, h as int, stride as int, bpp as int) is None,
        },
{
    let _rl: usize = raw.len();
    proof {
        assert(raw@.len() <= usize::MAX);
    }
    let mut prev: Vec<u8> = Vec::new();
    let mut z: usize = 0;
    while z < stride
        invariant
            prev@.len() == z <= stride,
            forall|m: int| 0 <= m < z ==> prev@[m] == 0u8,
        decreases stride - z,
    {
        prev.push(0);
        z = z + 1;
    }
    proof {
        assert(prev@ =~= zero_row(stride as int));
    }
    let mut out: Vec<u8> = Vec::new();
    let mut y: usize = 0;
    proof {
        assert(Seq::<u8>::empty() + out@ =~= out@);
    }
    while y < h
        invariant
            0 <= y <= h,
            prev@.len() == stride,
            out@.len() == y * stride,
            match unfilter_rows(raw@, stride as int, bpp as int, prev@, y as int, h as int) {
                Some(rest) => unfilter_spec(raw@, h as int, stride as int, bpp as int) == Some(out@ + rest),
                None => unfilter_spec(raw@, h as int, stride as int, bpp as int) is None,
            },
        decreases h - y,
    {
        proof {
            assert(y * (stride + 1) + (stride + 1) <= h * (stride + 1)) by (nonlinear_arith)
                requires 0 <= y < h,
            ;
            assert(0 <= y * (stride + 1)) by (nonlinear_arith)
                requires 0 <= y,
            ;
        }
        let base: usize = y * (stride + 1);
        let ft = raw[base];
        if ft > 4 {
            return None;
        }
        let ghost rowseq = raw@.subrange(base + 1 as int, base as int + 1 + stride as int);
        let mut cur: Vec<u8> = Vec::new();
        let mut j: usize = 0;
        while j < stride
            invariant
                0 <= j <= stride,
                y < h,
                cur@.len() == j,
                cur@ == unfilter_row_pre(ft as int, rowseq, prev@, bpp as int, j as int),
            decreases stride - j,
        {
            let a: u8 = if j >= bpp { cur[j - bpp] } else { 0 };
            let b: u8 = prev[j];
            let cc: u8 = if j >= bpp { prev[j - bpp] } else { 0 };
            let pr: u8 = if ft == 0 {
                0
            } else if ft == 1 {
                a
            } else if ft == 2 {
                b
            } else if ft == 3 {
                (((a as u16) + (b as u16)) / 2) as u8
            } else {
                paeth(a, b, cc)
            };
            let x = raw[base + 1 + j];
            let v: u8 = (((x as u16) + (pr as u16)) % 256) as u8;
            proof {
                assert(rowseq[j as int] == raw@[base + 1 + j as int]);
                assert(pr as int == predictor(ft as int, a as int, b as int, cc as int));
            }
            cur.push(v);
            j = j + 1;
        }
        let ghost rec = cur@;
        proof {
            lemma_unfilter_row_pre_len(ft as int, rowseq, prev@, bpp as int, stride as int);
        }
        let mut i: usize = 0;
        let ghost out_before = out@;
        while i < stride
            invariant
                0 <= i <= stride,
                cur@ == rec,
                cur@.len() == stride,
                out@ == out_before + rec.take(i as int),
            decreases stride - i,
        {
            out.push(cur[i]);
            proof {
                assert(rec.take(i as int).push(rec[i as int]) =~= rec.take(i + 1 as int));
            }
            i = i + 1;
        }
        proof {
            assert(rec.take(stride as int) =~= rec);
            let yi = y as int;
            let hi = h as int;
            let si = stride as int;
            assert((yi + 1) * (si + 1) == yi * (si + 1) + (si + 1)) by (nonlinear_arith);
            assert(rowseq =~= raw@.subrange(yi * (si + 1) + 1, (yi + 1) * (si + 1)));
            match unfilter_rows(raw@, si, bpp as int, rec, yi + 1, hi) {
                Some(rest) => {
                    assert(unfilter_rows(raw@, si, bpp as int, prev@, yi, hi) == Some(rec + rest));
                    assert(out_before + (rec + rest) =~= out@ + rest);
                },
                None => {},
            }
            assert(y * stride + stride == (y + 1) * stride) by (nonlinear_arith);
        }
        prev = cur;
        y = y + 1;
    }
    proof {
        assert(out@ + Seq::<u8>::empty() =~= out@);
    }
    Some(out)
}

/// Decodes a PNG byte stream into a pixel grid.
///
/// The signature is checked first: anything that does not start with the
/// PNG signature is `UnsupportedFormat`.  A recognized stream whose chunk
/// structure, checksums, compressed payload, declared geometry or scanline
/// filters are inconsistent is `CorruptData`.  Supported pixel formats are
/// the four 8-bit-per-sample color types, non-interlaced; others are
/// `UnsupportedFormat`.  Dimensions beyond `DIM_MAX` are rejected as
/// `AllocationFailure` before anything is allocated.
pub fn decode(bytes: &[u8]) -> (r: Result<PixelGrid, ImageError>)
    ensures
        match r {
            Ok(g) => {
                &&& decode_spec(bytes@) == Ok::<_, ImageError>((g.width as int, g.height as int, g.layout, g.pixels@))
                &&& g.wf()
                &&& 1 <= g.width <= DIM_MAX
                &&& 1 <= g.height <= DIM_MAX
            },
            Err(e) => decode_spec(bytes@) == Err::<(int, int, ChannelLayout, Seq<u8>), ImageError>(e),
        },
{
    if !check_sig(bytes) {
        return Err(ImageError::UnsupportedFormat);
    }
    if bytes.len() < 33 {
        return Err(ImageError::CorruptData);
    }
    if read_be32(bytes, 8) != 13 {
        return Err(ImageError::CorruptData);
    }
    if !(bytes[12] == 73 && bytes[13] == 72 && bytes[14] == 68 && bytes[15] == 82) {
        return Err(ImageError::CorruptData);
    }
    let ihdr_crc = crc32(slice_subrange(bytes, 12, 29));
    if read_be32(bytes, 29) != ihdr_crc {
        return Err(ImageError::CorruptData);
    }
    let w32 = read_be32(bytes, 16);
    let h32 = read_be32(bytes, 20);
    let depth = bytes[24];
    let ct = bytes[25];
    let comp = bytes[26];
    let filt = bytes[27];
    let inter = bytes[28];
    if !(depth == 8 && (ct == 0 || ct == 2 || ct == 4 || ct == 6)) {
        return Err(ImageError::UnsupportedFormat);
    }
    if inter != 0 {
        return Err(ImageError::UnsupportedFormat);
    }
    if comp != 0 || filt != 0 {
        return Err(ImageError::CorruptData);
    }
    if w32 == 0 || h32 == 0 {
        return Err(ImageError::CorruptData);
    }
    if w32 > DIM_MAX || h32 > DIM_MAX {
        return Err(ImageError::AllocationFailure);
    }
    let layout = if ct == 0 {
        ChannelLayout::Gray8
    } else if ct == 2 {
        ChannelLayout::Rgb8
    } else if ct == 4 {
        ChannelLayout::GrayAlpha8
    } else {
        ChannelLayout::Rgba8
    };
    let z = match collect_idat(bytes) {
        Some(z) => z,
        None => {
            return Err(ImageError::CorruptData);
        },
    };
    let raw = match zlib_decompress(z.as_slice()) {
        Ok(raw) => raw,
        Err(_) => {
            return Err(ImageError::CorruptData);
        },
    };
    let bpp = layout.channels();
    proof {
        assert((w32 as int) * (bpp as int) <= 16777216 * 4
            && (h32 as int) * ((w32 as int) * (bpp as int) + 1) <= 16777216 * (16777216 * 4 + 1)) by (nonlinear_arith)
            requires 1 <= w32 <= 16777216, 1 <= h32 <= 16777216, 1 <= bpp <= 4,
        ;
    }
    let stride64: u64 = (w32 as u64) * (bpp as u64);
    let need: u64 = (h32 as u64) * (stride64 + 1);
    if (raw.len() as u64) != need {
        return Err(ImageError::CorruptData);
    }
    let stride: usize = stride64 as usize;
    let h: usize = h32 as usize;
    let pix = match unfilter(&raw, h, stride, bpp) {
        Some(pix) => pix,
        None => {
            return Err(ImageError::CorruptData);
        },
    };
    proof {
        assert((h32 as int) * ((w32 as int) * (bpp as int)) == (w32 as int) * (h32 as int) * (bpp as int)) by (nonlinear_arith);
    }
    Ok(PixelGrid { width: w32, height: h32, layout, pixels: pix })
}

} // verus!
