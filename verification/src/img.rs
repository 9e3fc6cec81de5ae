//! The pixel codec: conversions between the three pixel representations and
//! the per-row run-length compression used by the on-disk format.
//!
//! The representations, in conversion order:
//! truecolor 4-byte pixels ⇄ packed 3-byte pixels (one alpha byte plus a
//! 16-bit 5/6/5 color word) ⇄ the compressed on-disk stream.  Conversions
//! are only defined between neighbours in this chain.

use vstd::prelude::*;
use crate::bmp_format::{BMPHeaderV5, bmp_row_size, lemma_v5_field_bytes, lemma_v5_out_bytes,
    v5_out_bytes, v5_size};
use crate::error::FaceError;
use crate::img_data::ImgData;
use crate::util::{le16_at, le16_spec, le32_at, u16_le_bytes};

verus! {

// ---------------------------------------------------------------------------
// 5/6/5 <-> 8/8/8 channel conversion
// ---------------------------------------------------------------------------

/// The three bytes produced by widening a 5/6/5 color word whose high byte is
/// `a` and low byte is `b`: each channel is shifted into the top of its byte
/// and the vacated low bits are filled with the channel's own high bits.
pub open spec fn rgb565_to_888_spec(a: u8, b: u8) -> Seq<u8> {
    let pixel = le16_spec(b, a);
    let c0 = pixel % 32;
    let c1 = (pixel / 32) % 64;
    let c2 = pixel / 2048;
    seq![
        (c0 * 8 + c0 / 8) as u8,
        (c1 * 4 + c1 / 16) as u8,
        (c2 * 8 + c2 / 4) as u8,
    ]
}

/// The 5/6/5 color word packed from the three bytes `r`, `g`, `b`: each
/// channel keeps its high bits.
pub open spec fn rgb888_to_565_spec(r: u8, g: u8, b: u8) -> u16 {
    ((b / 8) + (g / 4) * 32 + (r / 8) * 2048) as u16
}

/// Widen one 5/6/5 color word (high byte `a`, low byte `b`) to three bytes.
pub fn rgb565_to_888(a: u8, b: u8) -> (r: [u8; 3])
    ensures
        r@ == rgb565_to_888_spec(a, b),
{
    let pixel: u16 = (b as u16) + (a as u16) * 256;
    let c0: u16 = pixel % 32;
    let c1: u16 = (pixel / 32) % 64;
    let c2: u16 = pixel / 2048;
    let r = [(c0 * 8 + c0 / 8) as u8, (c1 * 4 + c1 / 16) as u8, (c2 * 8 + c2 / 4) as u8];
    proof {
        assert(r@ =~= rgb565_to_888_spec(a, b));
    }
    r
}

/// Pack three bytes (`buf[0]` red, `buf[1]` green, `buf[2]` blue) into the
/// two little-endian bytes of a 5/6/5 color word.
pub fn rgb888_to_565(buf: &[u8]) -> (r: [u8; 2])
    requires
        buf@.len() >= 3,
    ensures
        r@ == u16_le_bytes(rgb888_to_565_spec(buf@[0], buf@[1], buf@[2])),
{
    let output: u16 = (buf[2] as u16) / 8 + ((buf[1] as u16) / 4) * 32 + ((buf[0] as u16) / 8)
        * 2048;
    let r = [(output % 256) as u8, (output / 256) as u8];
    proof {
        assert(r@ =~= u16_le_bytes(rgb888_to_565_spec(buf@[0], buf@[1], buf@[2])));
    }
    r
}

/// The conversions are pure functions of their input bytes: equal inputs give
/// equal results, on any two calls.
pub proof fn lemma_color_conversion_deterministic(a1: u8, b1: u8, a2: u8, b2: u8)
    requires
        a1 == a2,
        b1 == b2,
    ensures
        rgb565_to_888_spec(a1, b1) == rgb565_to_888_spec(a2, b2),
        rgb888_to_565_spec(a1, b1, a2) == rgb888_to_565_spec(a2, b2, a1),
{
}

// ---------------------------------------------------------------------------
// Run-length stream
// ---------------------------------------------------------------------------

/// What a compressed stream decodes to, or `None` if a record runs past the
/// end of the stream.  A control byte with the top bit set repeats the single
/// following 3-byte pixel (low 7 bits give the count); one with the top bit
/// clear is followed by that many raw 3-byte pixels.
pub open spec fn rle_decode(s: Seq<u8>) -> Option<Seq<u8>>
    decreases s.len(),
{
    if s.len() == 0 {
        Some(Seq::empty())
    } else {
        let cmd = s[0];
        if cmd >= 128 {
            let count = cmd - 128;
            if s.len() < 4 {
                None
            } else {
                match rle_decode(s.skip(4)) {
                    Some(rest) => Some(
                        Seq::new((3 * count) as nat, |i: int| s[1 + (i % 3)]) + rest,
                    ),
                    None => None,
                }
            }
        } else {
            let count = cmd as int;
            if s.len() < 1 + 3 * count {
                None
            } else {
                match rle_decode(s.skip(1 + 3 * count)) {
                    Some(rest) => Some(s.subrange(1, 1 + 3 * count) + rest),
                    None => None,
                }
            }
        }
    }
}

/// `p` prepended to a decode result, `None` passing through.
pub open spec fn opt_prepend(p: Seq<u8>, o: Option<Seq<u8>>) -> Option<Seq<u8>> {
    match o {
        Some(s) => Some(p + s),
        None => None,
    }
}

/// Decoding a concatenation decodes each part: the stream format never reads
/// across a record boundary.
pub proof fn lemma_rle_decode_concat(a: Seq<u8>, b: Seq<u8>)
    requires
        rle_decode(a) is Some,
    ensures
        rle_decode(a + b) == opt_prepend(rle_decode(a).unwrap(), rle_decode(b)),
    decreases a.len(),
{
    if a.len() == 0 {
        assert(a + b =~= b);
    } else {
        let ab = a + b;
        let cmd = a[0];
        if cmd >= 128 {
            lemma_rle_decode_concat(a.skip(4), b);
            assert(ab.skip(4) =~= a.skip(4) + b);
            let count = cmd - 128;
            assert(Seq::new((3 * count) as nat, |i: int| ab[1 + (i % 3)]) =~= Seq::new(
                (3 * count) as nat,
                |i: int| a[1 + (i % 3)],
            ));
        } else {
            let count = cmd as int;
            lemma_rle_decode_concat(a.skip(1 + 3 * count), b);
            assert(ab.skip(1 + 3 * count) =~= a.skip(1 + 3 * count) + b);
            assert(ab.subrange(1, 1 + 3 * count) =~= a.subrange(1, 1 + 3 * count));
        }
    }
}

/// A single repeat record decodes to `count` copies of its pixel.
pub proof fn lemma_rle_decode_repeat(cmd: u8, p: Seq<u8>)
    requires
        cmd >= 128,
        p.len() == 3,
    ensures
        rle_decode(seq![cmd] + p) == Some(
            Seq::new((3 * (cmd - 128)) as nat, |i: int| p[i % 3]),
        ),
{
    let s = seq![cmd] + p;
    assert(s.skip(4) =~= Seq::<u8>::empty());
    assert(rle_decode(s.skip(4)) == Some(Seq::<u8>::empty()));
    let count = cmd - 128;
    assert(Seq::new((3 * count) as nat, |i: int| s[1 + (i % 3)]) =~= Seq::new(
        (3 * count) as nat,
        |i: int| p[i % 3],
    ));
    assert(Seq::new((3 * count) as nat, |i: int| p[i % 3]) + Seq::<u8>::empty() =~= Seq::new(
        (3 * count) as nat,
        |i: int| p[i % 3],
    ));
}

/// Decompress a whole stream, expecting exactly `expected` output bytes.
/// Fails when a record runs past the end of the stream or the output area
/// does not come out exactly `expected` bytes long.
pub fn rle_decode_bytes(data: &[u8], expected: usize) -> (r: Result<Vec<u8>, FaceError>)
    ensures
        match r {
            Ok(out) => rle_decode(data@) == Some(out@) && out@.len() == expected,
            Err(e) => e == FaceError::CorruptRle && (rle_decode(data@) is None || rle_decode(
                data@,
            ).unwrap().len() != expected),
        },
{
    let n = data.len();
    let mut out: Vec<u8> = Vec::new();
    let mut bytes_in: usize = 0;
    proof {
        assert(data@.skip(0) =~= data@);
        if rle_decode(data@) is Some {
            assert(Seq::<u8>::empty() + rle_decode(data@).unwrap() =~= rle_decode(
                data@,
            ).unwrap());
        }
    }
    while bytes_in < n
        invariant
            bytes_in <= n,
            n == data@.len(),
            out@.len() <= expected,
            rle_decode(data@) == opt_prepend(out@, rle_decode(data@.skip(bytes_in as int))),
        decreases n - bytes_in,
    {
        let ghost tail = data@.skip(bytes_in as int);
        let cmd = data[bytes_in];
        if cmd >= 128 {
            // repeat record: one pixel, written `count` times
            if n - bytes_in < 4 {
                assert(rle_decode(tail) is None);
                return Err(FaceError::CorruptRle);
            }
            let count = (cmd - 128) as usize;
            if count * 3 > expected || out.len() > expected - count * 3 {
                // any complete decode is at least this long, so it cannot
                // come out at `expected`
                proof {
                    if rle_decode(data@) is Some {
                        assert(rle_decode(tail) is Some);
                        assert(rle_decode(tail).unwrap().len() >= 3 * (cmd - 128));
                    }
                }
                return Err(FaceError::CorruptRle);
            }
            let p0 = data[bytes_in + 1];
            let p1 = data[bytes_in + 2];
            let p2 = data[bytes_in + 3];
            let ghost out_before = out@;
            let mut j: usize = 0;
            while j < count
                invariant
                    j <= count,
                    count < 128,
                    bytes_in + 4 <= n,
                    n == data@.len(),
                    tail == data@.skip(bytes_in as int),
                    p0 == data@[bytes_in + 1],
                    p1 == data@[bytes_in + 2],
                    p2 == data@[bytes_in + 3],
                    out@ == out_before + Seq::new((3 * j) as nat, |i: int| tail[1 + (i % 3)]),
                decreases count - j,
            {
                out.push(p0);
                out.push(p1);
                out.push(p2);
                proof {
                    let jj = j as int;
                    assert((3 * jj + 0) % 3 == 0) by (nonlinear_arith);
                    assert((3 * jj + 1) % 3 == 1) by (nonlinear_arith);
                    assert((3 * jj + 2) % 3 == 2) by (nonlinear_arith);
                    assert(tail[1] == data@[bytes_in + 1]);
                    assert(tail[2] == data@[bytes_in + 2]);
                    assert(tail[3] == data@[bytes_in + 3]);
                    let s_new = Seq::new((3 * (j + 1)) as nat, |i: int| tail[1 + (i % 3)]);
                    assert(s_new[3 * jj] == p0);
                    assert(s_new[3 * jj + 1] == p1);
                    assert(s_new[3 * jj + 2] == p2);
                    assert(out@ =~= out_before + s_new);
                }
                j = j + 1;
            }
            proof {
                assert(tail.skip(4) =~= data@.skip(bytes_in + 4));
            }
            bytes_in = bytes_in + 4;
        } else {
            // literal record: `count` raw pixels copied through
            let count3 = (cmd as usize) * 3;
            if n - bytes_in < 1 + count3 {
                assert(rle_decode(tail) is None);
                return Err(FaceError::CorruptRle);
            }
            if count3 > expected || out.len() > expected - count3 {
                proof {
                    if rle_decode(data@) is Some {
                        assert(rle_decode(tail) is Some);
                        assert(rle_decode(tail).unwrap().len() >= 3 * (cmd as int));
                    }
                }
                return Err(FaceError::CorruptRle);
            }
            let ghost out_before = out@;
            let mut k: usize = 0;
            while k < count3
                invariant
                    k <= count3,
                    bytes_in + 1 + count3 <= n,
                    n == data@.len(),
                    out@ == out_before + data@.subrange(
                        bytes_in + 1,
                        bytes_in + 1 + k,
                    ),
                decreases count3 - k,
            {
                out.push(data[bytes_in + 1 + k]);
                proof {
                    assert(out@ =~= out_before + data@.subrange(
                        bytes_in + 1,
                        bytes_in + 1 + (k + 1),
                    ));
                }
                k = k + 1;
            }
            proof {
                assert(tail.subrange(1, 1 + 3 * (cmd as int)) =~= data@.subrange(
                    bytes_in + 1,
                    bytes_in + 1 + count3,
                ));
                assert(tail.skip(1 + 3 * (cmd as int)) =~= data@.skip(
                    bytes_in + 1 + count3,
                ));
            }
            bytes_in = bytes_in + 1 + count3;
        }
    }
    proof {
        assert(data@.skip(n as int) =~= Seq::<u8>::empty());
    }
    if out.len() != expected {
        return Err(FaceError::CorruptRle);
    }
    Ok(out)
}

// ---------------------------------------------------------------------------
// Per-row header entries
// ---------------------------------------------------------------------------
// Each image row has a 4-byte header entry packing a 21-bit byte offset
// (relative to the start of the header block) and an 11-bit byte length,
// stored pre-multiplied by 32 so its low 5 bits leave room for the offset's
// high bits.

/// The four bytes of a row header entry for a row at byte `off` whose
/// compressed form is `len` bytes long.
pub open spec fn row_entry_bytes(off: int, len: int) -> Seq<u8> {
    seq![
        (off % 256) as u8,
        ((off / 256) % 256) as u8,
        (off / 65536 + (len % 8) * 32) as u8,
        (len / 8) as u8,
    ]
}

/// The row offset unpacked from the entry at index `i`.
pub open spec fn entry_offset(s: Seq<u8>, i: int) -> int {
    le16_spec(s[i], s[i + 1]) + (le16_spec(s[i + 2], s[i + 3]) as int % 32) * 65536
}

/// The row length unpacked from the entry at index `i`.
pub open spec fn entry_len(s: Seq<u8>, i: int) -> int {
    le16_spec(s[i + 2], s[i + 3]) as int / 32
}

/// Packing an in-range (offset, length) pair and unpacking it recovers both
/// fields exactly: the two never collide in the shared byte.
pub proof fn lemma_row_entry_roundtrip(off: int, len: int)
    requires
        0 <= off < 0x200000,
        0 <= len < 0x800,
    ensures
        entry_offset(row_entry_bytes(off, len), 0) == off,
        entry_len(row_entry_bytes(off, len), 0) == len,
{
    let s = row_entry_bytes(off, len);
    let hi = (off / 65536 + (len % 8) * 32) as u8;
    let b3 = (len / 8) as u8;
    assert(off / 65536 < 32);
    assert(len % 8 < 8);
    assert((len % 8) * 32 < 256) by (nonlinear_arith)
        requires
            0 <= len % 8 < 8,
    ;
    assert(len / 8 < 256);
    let w = le16_spec(s[2], s[3]) as int;
    assert(w == off / 65536 + (len % 8) * 32 + (len / 8) * 256);
    assert(w % 32 == off / 65536 && w / 32 == len) by (nonlinear_arith)
        requires
            w == off / 65536 + (len % 8) * 32 + (len / 8) * 256,
            0 <= off / 65536 < 32,
            0 <= len < 0x800,
    ;
    let lo = le16_spec(s[0], s[1]) as int;
    assert(lo == off % 256 + ((off / 256) % 256) * 256);
    assert(lo + (off / 65536) * 65536 == off) by (nonlinear_arith)
        requires
            lo == off % 256 + ((off / 256) % 256) * 256,
            0 <= off < 0x200000,
    ;
}

/// Append the packed header entry for one row to `header`.
pub fn push_row_entry(header: &mut Vec<u8>, off: u32, len: u16)
    requires
        off < 0x200000,
        len < 0x800,
    ensures
        final(header)@ == old(header)@ + row_entry_bytes(off as int, len as int),
{
    let pre = len * 32;
    header.push((off % 256) as u8);
    header.push(((off / 256) % 256) as u8);
    header.push((off / 65536 + (pre % 256) as u32) as u8);
    header.push((pre / 256) as u8);
    proof {
        assert((len as int * 32) % 256 == (len as int % 8) * 32 && (len as int * 32) / 256
            == len as int / 8) by (nonlinear_arith)
            requires
                0 <= len < 0x800,
        ;
        assert(final(header)@ =~= old(header)@ + row_entry_bytes(off as int, len as int));
    }
}

/// Read the (offset, length) pair packed in the entry at `idx`.
pub fn read_row_entry(blob: &[u8], idx: usize) -> (r: (u32, u32))
    requires
        idx + 4 <= blob@.len(),
    ensures
        r.0 == entry_offset(blob@, idx as int),
        r.1 == entry_len(blob@, idx as int),
{
    let n = blob.len();
    let lo = crate::util::get_u16(blob, idx) as u32;
    let w = crate::util::get_u16(blob, idx + 2) as u32;
    (lo + (w % 32) * 65536, w / 32)
}

proof fn lemma_mod3(m: int, k: int)
    requires
        m >= 0,
        0 <= k < 3,
    ensures
        (3 * m + k) % 3 == k,
{
    assert((3 * m + k) % 3 == k) by (nonlinear_arith)
        requires
            m >= 0,
            0 <= k < 3,
    ;
}

/// Compress one row of packed 3-byte pixels with the greedy policy of the
/// on-disk format: a run of equal adjacent pixels (capped at 127) becomes a
/// control byte with the top bit set followed by the single pixel; a stretch
/// with no equal adjacent pair (capped at 127) becomes a control byte with
/// the top bit clear followed by the raw pixels; the last one or two pixels
/// of the row are always flushed as a literal run.  The result decodes back
/// to exactly the input row.
#[verifier::rlimit(100)]
#[verifier::spinoff_prover]
pub fn rle_encode_row(row: &[u8]) -> (r: Vec<u8>)
    requires
        row@.len() % 3 == 0,
    ensures
        rle_decode(r@) == Some(row@),
        r@ == rle_encode_spec(row@, 0),
{
    let rw = row.len();
    let mut dest: Vec<u8> = Vec::new();
    let mut offset: usize = 0;
    proof {
        assert(row@.take(0) =~= Seq::<u8>::empty());
        assert(Seq::<u8>::empty() + rle_encode_spec(row@, 0) =~= rle_encode_spec(row@, 0));
    }
    while rw - offset > 6
        invariant
            rw == row@.len(),
            rw % 3 == 0,
            offset % 3 == 0,
            offset <= rw,
            rle_decode(dest@) == Some(row@.take(offset as int)),
            rle_encode_spec(row@, 0) == dest@ + rle_encode_spec(row@, offset as int),
        decreases rw - offset,
    {
        let p0 = row[offset];
        let p1 = row[offset + 1];
        let p2 = row[offset + 2];
        let ghost pix = seq![p0, p1, p2];
        let start = offset;
        let ghost dest_before = dest@;
        if p0 == row[offset + 3] && p1 == row[offset + 4] && p2 == row[offset + 5] {
            // repeat run: count equal pixels, at least the pair just seen
            let mut cnt: u8 = 1;
            offset = offset + 3;
            while cnt < 127 && rw - offset >= 3 && row[offset] == p0 && row[offset + 1] == p1
                && row[offset + 2] == p2
                invariant
                    rw == row@.len(),
                    rw % 3 == 0,
                    start % 3 == 0,
                    start + 3 <= offset <= rw,
                    1 <= cnt <= 127,
                    offset == start + 3 * cnt,
                    pix == seq![p0, p1, p2],
                    p0 == row@[start as int] && p1 == row@[start + 1] && p2 == row@[start + 2],
                    forall|i: int|
                        start <= i < offset ==> row@[i] == pix[(i - start) % 3],
                    rep_cnt(row@, start as int, offset as int, cnt as int) == rep_cnt(
                        row@,
                        start as int,
                        start + 3,
                        1,
                    ),
                decreases rw - offset,
            {
                proof {
                    lemma_mod3(cnt as int, 0);
                    lemma_mod3(cnt as int, 1);
                    lemma_mod3(cnt as int, 2);
                    assert(rep_cnt(row@, start as int, offset as int, cnt as int) == rep_cnt(
                        row@,
                        start as int,
                        offset + 3,
                        cnt + 1,
                    ));
                }
                cnt = cnt + 1;
                offset = offset + 3;
            }
            dest.push(128 + cnt);
            dest.push(p0);
            dest.push(p1);
            dest.push(p2);
            proof {
                let rec = seq![(128 + cnt) as u8] + pix;
                assert(dest@ =~= dest_before + rec);
                lemma_rle_decode_repeat((128 + cnt) as u8, pix);
                lemma_rle_decode_concat(dest_before, rec);
                let expansion = Seq::new((3 * cnt) as nat, |i: int| pix[i % 3]);
                assert forall|i: int| 0 <= i < 3 * cnt implies expansion[i] == row@[start + i] by {
                    lemma_mod3(i / 3, i % 3);
                    assert(pix[i % 3] == row@[start + i]);
                }
                assert(expansion =~= row@.subrange(start as int, offset as int));
                assert(row@.take(start as int) + row@.subrange(start as int, offset as int)
                    =~= row@.take(offset as int));
                lemma_mod3(cnt as int, 0);
                assert((start + 3 * cnt) % 3 == 0) by (nonlinear_arith)
                    requires
                        start % 3 == 0,
                        cnt >= 0,
                ;
                // the scan found exactly the count the greedy policy names
                assert(rep_cnt(row@, start as int, offset as int, cnt as int) == cnt);
                assert(rep_cnt(row@, start as int, start + 3, 1) == cnt);
                assert(cnt <= (rw - start) / 3) by (nonlinear_arith)
                    requires
                        start + 3 * cnt <= rw,
                        cnt >= 0,
                ;
                assert(rle_encode_spec(row@, start as int) == rec + rle_encode_spec(
                    row@,
                    offset as int,
                ));
                assert(pix =~= row@.subrange(start as int, start + 3));
                assert(dest_before + (rec + rle_encode_spec(row@, offset as int)) =~= (
                dest_before + rec) + rle_encode_spec(row@, offset as int));
            }
        } else {
            // literal run: count pixels with no equal adjacent pair
            let mut cnt: u8 = 0;
            while cnt < 127 && rw - offset >= 6 && !(row[offset] == row[offset + 3] && row[offset
                + 1] == row[offset + 4] && row[offset + 2] == row[offset + 5])
                invariant
                    rw == row@.len(),
                    rw % 3 == 0,
                    start % 3 == 0,
                    start <= offset <= rw,
                    0 <= cnt <= 127,
                    offset == start + 3 * cnt,
                    lit_cnt(row@, offset as int, cnt as int) == lit_cnt(row@, start as int, 0),
                decreases rw - offset,
            {
                proof {
                    assert(lit_cnt(row@, offset as int, cnt as int) == lit_cnt(
                        row@,
                        offset + 3,
                        cnt + 1,
                    ));
                }
                cnt = cnt + 1;
                offset = offset + 3;
            }
            dest.push(cnt);
            let mut k: usize = start;
            while k < offset
                invariant
                    start <= k <= offset,
                    offset <= rw,
                    rw == row@.len(),
                    dest@ == dest_before + seq![cnt] + row@.subrange(start as int, k as int),
                decreases offset - k,
            {
                dest.push(row[k]);
                proof {
                    assert(dest@ =~= dest_before + seq![cnt] + row@.subrange(
                        start as int,
                        k + 1,
                    ));
                }
                k = k + 1;
            }
            proof {
                let body = row@.subrange(start as int, offset as int);
                let rec = seq![cnt] + body;
                assert(dest@ =~= dest_before + rec);
                lemma_rle_decode_literal(cnt, body);
                lemma_rle_decode_concat(dest_before, rec);
                assert(row@.take(start as int) + body =~= row@.take(offset as int));
                assert((start + 3 * cnt) % 3 == 0) by (nonlinear_arith)
                    requires
                        start % 3 == 0,
                        cnt >= 0,
                ;
                // the scan found exactly the count the greedy policy names
                assert(lit_cnt(row@, offset as int, cnt as int) == cnt);
                assert(lit_cnt(row@, start as int, 0) == cnt);
                assert(cnt >= 1);
                assert(cnt <= (rw - start) / 3) by (nonlinear_arith)
                    requires
                        start + 3 * cnt <= rw,
                        cnt >= 0,
                ;
                assert(rle_encode_spec(row@, start as int) == rec + rle_encode_spec(
                    row@,
                    offset as int,
                ));
                assert(dest_before + (rec + rle_encode_spec(row@, offset as int)) =~= (
                dest_before + rec) + rle_encode_spec(row@, offset as int));
            }
        }
    }
    // flush whatever remains (at most two pixels) as one literal run
    let rem = rw - offset;
    let cnt = (rem / 3) as u8;
    let ghost dest_before = dest@;
    dest.push(cnt);
    let mut k: usize = offset;
    while k < rw
        invariant
            offset <= k <= rw,
            rw == row@.len(),
            dest@ == dest_before + seq![cnt] + row@.subrange(offset as int, k as int),
        decreases rw - k,
    {
        dest.push(row[k]);
        proof {
            assert(dest@ =~= dest_before + seq![cnt] + row@.subrange(offset as int, k + 1));
        }
        k = k + 1;
    }
    proof {
        let body = row@.subrange(offset as int, rw as int);
        let rec = seq![cnt] + body;
        assert(dest@ =~= dest_before + rec);
        assert(rem % 3 == 0);
        assert(3 * (cnt as int) == rem);
        lemma_rle_decode_literal(cnt, body);
        lemma_rle_decode_concat(dest_before, rec);
        assert(row@.take(offset as int) + body =~= row@.take(rw as int));
        assert(row@.take(rw as int) =~= row@);
        // the remainder is exactly the greedy policy's final literal run
        assert(rle_encode_spec(row@, offset as int) == rec);
        assert(dest@ =~= rle_encode_spec(row@, 0));
    }
    dest
}

// ---------------------------------------------------------------------------
// Whole-image data and conversions
// ---------------------------------------------------------------------------

/// The pixel representations an image can be held in.
#[derive(Clone, Copy, PartialEq, Eq, Structural, Debug)]
pub enum ImgFormat {
    /// Four bytes per pixel, truecolor with alpha.
    Argb8888,
    /// Three bytes per pixel: one alpha byte and a 16-bit 5/6/5 color word.
    Argb8565,
    /// The compressed on-disk stream with its per-row header table.
    RleNew,
}

/// Basic image data, compressed or not.
#[derive(Clone, PartialEq, Debug)]
pub struct Img {
    pub w: u32,
    pub h: u32,
    pub format: ImgFormat,
    pub data: Vec<u8>,
    pub rle_header: Option<Vec<u8>>,
}

/// Widening a whole buffer of packed 3-byte pixels to 4-byte pixels: each
/// output pixel keeps its alpha byte (moved to the last position) and widens
/// its color word.
pub open spec fn expand_8565_to_8888(data: Seq<u8>, npix: int) -> Seq<u8> {
    Seq::new(
        (4 * npix) as nat,
        |i: int|
            {
                let p = i / 4;
                let c = i % 4;
                if c == 3 {
                    data[3 * p]
                } else {
                    rgb565_to_888_spec(data[3 * p + 1], data[3 * p + 2])[c]
                }
            },
    )
}

/// Narrowing a whole buffer of 4-byte pixels to packed 3-byte pixels: each
/// output pixel keeps the input pixel's first byte as alpha and packs the
/// remaining three bytes into a 5/6/5 color word.
pub open spec fn pack_8888_to_8565(data: Seq<u8>, npix: int) -> Seq<u8> {
    Seq::new(
        (3 * npix) as nat,
        |i: int|
            {
                let p = i / 3;
                let c = i % 3;
                if c == 0 {
                    data[4 * p]
                } else {
                    u16_le_bytes(
                        rgb888_to_565_spec(data[4 * p + 1], data[4 * p + 2], data[4 * p + 3]),
                    )[c - 1]
                }
            },
    )
}

impl Img {
    /// The number of pixels, bounded so that byte counts fit comfortably in
    /// a 32-bit size.
    pub open spec fn pix(self) -> int {
        self.w as int * self.h as int
    }

    /// The data buffer matches the declared format and dimensions.  The
    /// dimensions are bounded by the 16-bit fields that carry them on disk,
    /// and the pixel count so that byte counts fit a 32-bit size.
    pub open spec fn wf(self) -> bool {
        self.w <= 0xFFFF && self.h <= 0xFFFF && self.pix() <= 0x0FFF_FFFF && match self.format {
            ImgFormat::Argb8888 => self.data@.len() == 4 * self.pix(),
            ImgFormat::Argb8565 => self.data@.len() == 3 * self.pix(),
            ImgFormat::RleNew => self.rle_header matches Some(hd) && hd@.len() == 4 * self.h,
        }
    }

    /// Increase the bit depth of every pixel from the packed 3-byte form to
    /// the 4-byte truecolor form.
    pub fn argb8565_to_argb8888(&mut self)
        requires
            old(self).format == ImgFormat::Argb8565,
            old(self).wf(),
        ensures
            final(self).w == old(self).w,
            final(self).h == old(self).h,
            final(self).format == ImgFormat::Argb8888,
            final(self).rle_header is None,
            final(self).data@ == expand_8565_to_8888(old(self).data@, old(self).pix()),
            final(self).wf(),
    {
        let npix: usize = (self.w as usize) * (self.h as usize);
        let ghost src = self.data@;
        let mut out: Vec<u8> = Vec::new();
        let mut p: usize = 0;
        while p < npix
            invariant
                npix == old(self).pix(),
                npix <= 0x0FFF_FFFF,
                src == old(self).data@,
                src.len() == 3 * npix,
                p <= npix,
                *self == *old(self),
                out@ == expand_8565_to_8888(src, npix as int).take(4 * p),
            decreases npix - p,
        {
            let alpha = self.data[3 * p];
            let rgb = rgb565_to_888(self.data[3 * p + 1], self.data[3 * p + 2]);
            out.push(rgb[0]);
            out.push(rgb[1]);
            out.push(rgb[2]);
            out.push(alpha);
            proof {
                let pp = p as int;
                lemma_divmod(pp, 0, 4);
                lemma_divmod(pp, 1, 4);
                lemma_divmod(pp, 2, 4);
                lemma_divmod(pp, 3, 4);
                assert(out@ =~= expand_8565_to_8888(src, npix as int).take(4 * (pp + 1)));
            }
            p = p + 1;
        }
        proof {
            assert(expand_8565_to_8888(src, npix as int).take(4 * npix as int)
                =~= expand_8565_to_8888(src, npix as int));
        }
        self.format = ImgFormat::Argb8888;
        self.data = out;
        self.rle_header = None;
    }

    /// Reduce the bit depth of every pixel from the 4-byte truecolor form to
    /// the packed 3-byte form.
    pub fn argb8888_to_argb8565(&mut self)
        requires
            old(self).format == ImgFormat::Argb8888,
            old(self).wf(),
        ensures
            final(self).w == old(self).w,
            final(self).h == old(self).h,
            final(self).format == ImgFormat::Argb8565,
            final(self).rle_header is None,
            final(self).data@ == pack_8888_to_8565(old(self).data@, old(self).pix()),
            final(self).wf(),
    {
        let npix: usize = (self.w as usize) * (self.h as usize);
        let ghost src = self.data@;
        let mut out: Vec<u8> = Vec::new();
        let mut p: usize = 0;
        while p < npix
            invariant
                npix == old(self).pix(),
                npix <= 0x0FFF_FFFF,
                src == old(self).data@,
                src.len() == 4 * npix,
                p <= npix,
                *self == *old(self),
                out@ == pack_8888_to_8565(src, npix as int).take(3 * p),
            decreases npix - p,
        {
            let alpha = self.data[4 * p];
            let rgb565 = rgb888_to_565(
                &[self.data[4 * p + 1], self.data[4 * p + 2], self.data[4 * p + 3]],
            );
            out.push(alpha);
            out.push(rgb565[0]);
            out.push(rgb565[1]);
            proof {
                let pp = p as int;
                lemma_divmod(pp, 0, 3);
                lemma_divmod(pp, 1, 3);
                lemma_divmod(pp, 2, 3);
                assert(out@ =~= pack_8888_to_8565(src, npix as int).take(3 * (pp + 1)));
            }
            p = p + 1;
        }
        proof {
            assert(pack_8888_to_8565(src, npix as int).take(3 * npix as int) =~= pack_8888_to_8565(
                src,
                npix as int,
            ));
        }
        self.format = ImgFormat::Argb8565;
        self.data = out;
        self.rle_header = None;
    }

    /// Compress the packed pixel data row by row, building the per-row
    /// header table.  Fails when a compressed row exceeds 2047 bytes or a
    /// row offset exceeds the 21-bit range; the image is left unchanged then.
    #[verifier::rlimit(100)]
    #[verifier::spinoff_prover]
    pub fn argb8565_to_rle_new(&mut self) -> (r: Result<(), FaceError>)
        requires
            old(self).format == ImgFormat::Argb8565,
            old(self).wf(),
        ensures
            match r {
                Ok(()) => final(self).w == old(self).w && final(self).h == old(self).h && final(self).format == ImgFormat::RleNew && final(self).wf() && rle_decode(final(self).data@)
                    == Some(old(self).data@) && (final(self).rle_header matches Some(hd) && hd@.len()
                    == 4 * old(self).h && (old(self).h > 0 ==> entry_offset(
                    hd@,
                    4 * (old(self).h - 1),
                ) + entry_len(hd@, 4 * (old(self).h - 1)) == 4 * old(self).h + final(self).data@.len())) && final(self).data@ == rows_enc_bytes(
                    old(self).data@,
                    old(self).w as int,
                    old(self).h as int,
                    0,
                ) && (final(self).rle_header matches Some(hd) && hd@ == rows_hdr_bytes(
                    old(self).data@,
                    old(self).w as int,
                    old(self).h as int,
                    0,
                    4 * old(self).h,
                )) && rows_fit(
                    old(self).data@,
                    old(self).w as int,
                    old(self).h as int,
                    0,
                    4 * old(self).h,
                ),
                Err(e) => *final(self) == *old(self) && (e == FaceError::RowTooLong || e
                    == FaceError::OffsetTooLarge) && !rows_fit(
                    old(self).data@,
                    old(self).w as int,
                    old(self).h as int,
                    0,
                    4 * old(self).h,
                ),
            },
    {
        let h = self.h as usize;
        let w = self.w as usize;
        let row_width = w * 3;
        let ghost src = self.data@;
        let mut dest_header: Vec<u8> = Vec::new();
        let mut dest_data: Vec<u8> = Vec::new();
        let mut dest_offset: usize = h * 4;
        let mut y: usize = 0;
        proof {
            assert(src.take(0) =~= Seq::<u8>::empty());
            assert(Seq::<u8>::empty() + rows_enc_bytes(src, w as int, h as int, 0)
                =~= rows_enc_bytes(src, w as int, h as int, 0));
            assert(Seq::<u8>::empty() + rows_hdr_bytes(src, w as int, h as int, 0, 4 * h as int)
                =~= rows_hdr_bytes(src, w as int, h as int, 0, 4 * h as int));
        }
        while y < h
            invariant
                y <= h,
                h == old(self).h,
                w == old(self).w,
                w <= 0xFFFF,
                h <= 0xFFFF,
                row_width == 3 * w,
                h * 4 <= 0x3FFFC,
                src == old(self).data@,
                src.len() == 3 * (w * h),
                w * h <= 0x0FFF_FFFF,
                *self == *old(self),
                dest_header@.len() == 4 * y,
                dest_offset == 4 * h + dest_data@.len(),
                dest_offset <= 0x1FFFFF + 0x7FF,
                rle_decode(dest_data@) == Some(src.take((y * row_width) as int)),
                y > 0 ==> entry_offset(dest_header@, 4 * (y - 1)) + entry_len(
                    dest_header@,
                    4 * (y - 1),
                ) == 4 * h + dest_data@.len(),
                rows_enc_bytes(src, w as int, h as int, 0) == dest_data@ + rows_enc_bytes(
                    src,
                    w as int,
                    h as int,
                    y as int,
                ),
                rows_hdr_bytes(src, w as int, h as int, 0, 4 * h as int) == dest_header@
                    + rows_hdr_bytes(src, w as int, h as int, y as int, dest_offset as int),
                rows_fit(src, w as int, h as int, 0, 4 * h as int) <==> rows_fit(
                    src,
                    w as int,
                    h as int,
                    y as int,
                    dest_offset as int,
                ),
            decreases h - y,
        {
            proof {
                assert(y * row_width + row_width <= 3 * (w * h)) by (nonlinear_arith)
                    requires
                        y < h,
                        row_width == 3 * w,
                        0 <= w,
                        0 <= y,
                ;
                assert(y * row_width >= 0) by (nonlinear_arith)
                    requires
                        y >= 0,
                        row_width >= 0,
                ;
            }
            let row_base = y * row_width;
            let mut row_buf: Vec<u8> = Vec::new();
            let mut k: usize = 0;
            while k < row_width
                invariant
                    k <= row_width,
                    row_base + row_width <= usize::MAX,
                    row_base + row_width <= self.data@.len(),
                    row_buf@ == self.data@.subrange(row_base as int, row_base + k),
                decreases row_width - k,
            {
                row_buf.push(self.data[row_base + k]);
                proof {
                    assert(row_buf@ =~= self.data@.subrange(row_base as int, row_base + (k + 1)));
                }
                k = k + 1;
            }
            proof {
                assert(row_buf@.len() % 3 == 0) by (nonlinear_arith)
                    requires
                        row_buf@.len() == row_width,
                        row_width == 3 * w,
                        w >= 0,
                ;
            }
            let rd = rle_encode_row(row_buf.as_slice());
            proof {
                assert(row_buf@ =~= row_of(src, w as int, y as int)) by {
                    assert(3 * (w as int) * (y as int) == row_base && 3 * (w as int) * (
                    y as int + 1) == row_base + row_width) by (nonlinear_arith)
                        requires
                            row_base == y * row_width,
                            row_width == 3 * w,
                    ;
                };
                assert(rd@ == rle_encode_spec(row_of(src, w as int, y as int), 0));
            }
            if rd.len() > 0x7FF {
                proof {
                    assert(!rows_fit(src, w as int, h as int, y as int, dest_offset as int));
                }
                return Err(FaceError::RowTooLong);
            }
            if dest_offset > 0x1FFFFF {
                proof {
                    assert(!rows_fit(src, w as int, h as int, y as int, dest_offset as int));
                }
                return Err(FaceError::OffsetTooLarge);
            }
            let ghost hd_before = dest_header@;
            let ghost dd_before = dest_data@;
            push_row_entry(&mut dest_header, dest_offset as u32, rd.len() as u16);
            proof {
                lemma_row_entry_roundtrip(dest_offset as int, rd@.len() as int);
                lemma_rle_decode_concat(dd_before, rd@);
                assert(src.take((y * row_width) as int) + src.subrange(
                    row_base as int,
                    row_base + row_width,
                ) =~= src.take(((y + 1) * row_width) as int)) by {
                    assert((y + 1) * row_width == y * row_width + row_width) by (nonlinear_arith);
                };
            }
            dest_offset = dest_offset + rd.len();
            let mut rd_moved = rd;
            dest_data.append(&mut rd_moved);
            proof {
                let yi = y as int;
                let e = row_entry_bytes(
                    4 * h + dd_before.len() as int,
                    dest_data@.len() - dd_before.len(),
                );
                assert(dest_header@ == hd_before + e);
                assert(dest_header@[4 * yi] == e[0]);
                assert(dest_header@[4 * yi + 1] == e[1]);
                assert(dest_header@[4 * yi + 2] == e[2]);
                assert(dest_header@[4 * yi + 3] == e[3]);
                // the emitted row is exactly the next piece of the stated
                // per-row layout
                assert(rows_enc_bytes(src, w as int, h as int, yi) == rle_encode_spec(
                    row_of(src, w as int, yi),
                    0,
                ) + rows_enc_bytes(src, w as int, h as int, yi + 1));
                assert(dd_before + (rle_encode_spec(row_of(src, w as int, yi), 0)
                    + rows_enc_bytes(src, w as int, h as int, yi + 1)) =~= (dd_before
                    + rle_encode_spec(row_of(src, w as int, yi), 0)) + rows_enc_bytes(
                    src,
                    w as int,
                    h as int,
                    yi + 1,
                ));
                assert(hd_before + (e + rows_hdr_bytes(
                    src,
                    w as int,
                    h as int,
                    yi + 1,
                    dest_offset as int,
                )) =~= (hd_before + e) + rows_hdr_bytes(
                    src,
                    w as int,
                    h as int,
                    yi + 1,
                    dest_offset as int,
                ));
            }
            y = y + 1;
        }
        proof {
            assert(src.take((h * row_width) as int) =~= src) by {
                assert(h * row_width == 3 * (w * h)) by (nonlinear_arith)
                    requires
                        row_width == 3 * w,
                ;
            };
            assert(dest_data@ + Seq::<u8>::empty() =~= dest_data@);
            assert(dest_header@ + Seq::<u8>::empty() =~= dest_header@);
        }
        self.format = ImgFormat::RleNew;
        self.data = dest_data;
        self.rle_header = Some(dest_header);
        Ok(())
    }

    /// Decompress the stream back to packed pixel data.  Fails without
    /// changing the image when the stream does not decode to exactly the
    /// declared pixel area.
    pub fn rle_new_to_argb8565(&mut self) -> (r: Result<(), FaceError>)
        requires
            old(self).format == ImgFormat::RleNew,
            old(self).wf(),
        ensures
            match r {
                Ok(()) => final(self).w == old(self).w && final(self).h == old(self).h && final(self).format == ImgFormat::Argb8565 && final(self).rle_header is None && final(self).wf() && rle_decode(old(self).data@) == Some(final(self).data@),
                Err(e) => *final(self) == *old(self) && e == FaceError::CorruptRle && (rle_decode(
                    old(self).data@,
                ) is None || rle_decode(old(self).data@).unwrap().len() != 3 * old(self).pix()),
            },
    {
        let expected: usize = 3 * ((self.w as usize) * (self.h as usize));
        match rle_decode_bytes(self.data.as_slice(), expected) {
            Ok(out) => {
                self.format = ImgFormat::Argb8565;
                self.data = out;
                self.rle_header = None;
                Ok(())
            },
            Err(e) => Err(e),
        }
    }

    /// Convert to `new_format`, routing through the packed 3-byte form where
    /// the representations are not neighbours in the conversion chain.
    pub fn convert_format(&mut self, new_format: ImgFormat) -> (r: Result<(), FaceError>)
        requires
            old(self).wf(),
        ensures
            match r {
                Ok(()) => final(self).w == old(self).w && final(self).h == old(self).h && final(self).format == new_format && final(self).wf() && (old(self).format == new_format
                    ==> *final(self) == *old(self)) && (old(self).format == ImgFormat::Argb8565
                    && new_format == ImgFormat::Argb8888 ==> final(self).data@
                    == expand_8565_to_8888(old(self).data@, old(self).pix())) && (old(self).format
                    == ImgFormat::Argb8888 && new_format == ImgFormat::Argb8565 ==> final(self).data@ == pack_8888_to_8565(old(self).data@, old(self).pix())) && (old(self).format == ImgFormat::RleNew && new_format == ImgFormat::Argb8565 ==> rle_decode(
                    old(self).data@,
                ) == Some(final(self).data@)) && (old(self).format == ImgFormat::RleNew
                    && new_format == ImgFormat::Argb8888 ==> rle_decode(old(self).data@) is Some
                    && rle_decode(old(self).data@).unwrap().len() == 3 * old(self).pix()
                    && final(self).data@ == expand_8565_to_8888(
                    rle_decode(old(self).data@).unwrap(),
                    old(self).pix(),
                )) && (old(self).format == ImgFormat::Argb8565 && new_format == ImgFormat::RleNew
                    ==> rle_decode(final(self).data@) == Some(old(self).data@) && final(self).data@
                    == rows_enc_bytes(old(self).data@, old(self).w as int, old(self).h as int, 0)
                    && (final(self).rle_header matches Some(hd) && hd@ == rows_hdr_bytes(
                    old(self).data@,
                    old(self).w as int,
                    old(self).h as int,
                    0,
                    4 * old(self).h,
                )) && rows_fit(
                    old(self).data@,
                    old(self).w as int,
                    old(self).h as int,
                    0,
                    4 * old(self).h,
                )) && (old(self).format == ImgFormat::Argb8888 && new_format == ImgFormat::RleNew ==> rle_decode(
                    final(self).data@,
                ) == Some(pack_8888_to_8565(old(self).data@, old(self).pix())) && final(self).data@
                    == rows_enc_bytes(
                    pack_8888_to_8565(old(self).data@, old(self).pix()),
                    old(self).w as int,
                    old(self).h as int,
                    0,
                ) && (final(self).rle_header matches Some(hd) && hd@ == rows_hdr_bytes(
                    pack_8888_to_8565(old(self).data@, old(self).pix()),
                    old(self).w as int,
                    old(self).h as int,
                    0,
                    4 * old(self).h,
                )) && rows_fit(
                    pack_8888_to_8565(old(self).data@, old(self).pix()),
                    old(self).w as int,
                    old(self).h as int,
                    0,
                    4 * old(self).h,
                )),
                Err(e) => final(self).w == old(self).w && final(self).h == old(self).h && final(self).wf() && (e == FaceError::CorruptRle || e == FaceError::RowTooLong || e
                    == FaceError::OffsetTooLarge) && (new_format != ImgFormat::RleNew ==> (old(self).format == ImgFormat::RleNew && e == FaceError::CorruptRle && *final(self)
                    == *old(self) && (rle_decode(old(self).data@) is None || rle_decode(
                    old(self).data@,
                ).unwrap().len() != 3 * old(self).pix()))) && (new_format == ImgFormat::RleNew
                    ==> old(self).format != ImgFormat::RleNew && (old(self).format
                    == ImgFormat::Argb8565 ==> *final(self) == *old(self) && !rows_fit(
                    old(self).data@,
                    old(self).w as int,
                    old(self).h as int,
                    0,
                    4 * old(self).h,
                )) && (old(self).format == ImgFormat::Argb8888 ==> !rows_fit(
                    pack_8888_to_8565(old(self).data@, old(self).pix()),
                    old(self).w as int,
                    old(self).h as int,
                    0,
                    4 * old(self).h,
                ))),
            },
    {
        if new_format == ImgFormat::Argb8888 {
            if self.format == ImgFormat::RleNew {
                // convert to the packed 3-byte form first
                if let Err(e) = self.rle_new_to_argb8565() {
                    return Err(e);
                }
            }
            if self.format == ImgFormat::Argb8565 {
                self.argb8565_to_argb8888();
            }
        }
        if new_format == ImgFormat::Argb8565 {
            if self.format == ImgFormat::RleNew {
                if let Err(e) = self.rle_new_to_argb8565() {
                    return Err(e);
                }
            } else if self.format == ImgFormat::Argb8888 {
                self.argb8888_to_argb8565();
            }
        }
        if new_format == ImgFormat::RleNew {
            if self.format == ImgFormat::Argb8888 {
                // reduce bit depth first
                self.argb8888_to_argb8565();
            }
            if self.format == ImgFormat::Argb8565 {
                // compress it
                if let Err(e) = self.argb8565_to_rle_new() {
                    return Err(e);
                }
            }
        }
        Ok(())
    }
}

proof fn lemma_divmod(m: int, k: int, b: int)
    requires
        m >= 0,
        b > 0,
        0 <= k < b,
    ensures
        (b * m + k) / b == m,
        (b * m + k) % b == k,
{
    assert((b * m + k) / b == m && (b * m + k) % b == k) by (nonlinear_arith)
        requires
            m >= 0,
            b > 0,
            0 <= k < b,
    ;
}

/// A single literal record decodes to exactly its raw bytes.
pub proof fn lemma_rle_decode_literal(cnt: u8, p: Seq<u8>)
    requires
        cnt < 128,
        p.len() == 3 * cnt,
    ensures
        rle_decode(seq![cnt] + p) == Some(p),
{
    let s = seq![cnt] + p;
    assert(s.skip(1 + 3 * (cnt as int)) =~= Seq::<u8>::empty());
    assert(rle_decode(s.skip(1 + 3 * (cnt as int))) == Some(Seq::<u8>::empty()));
    assert(s.subrange(1, 1 + 3 * (cnt as int)) =~= p);
    assert(p + Seq::<u8>::empty() =~= p);
}

// ---------------------------------------------------------------------------
// Reading a bitmap interchange file
// ---------------------------------------------------------------------------
// Field accessors over the raw bytes of a bitmap file.

/// The signed width field.
pub open spec fn bmp_w(s: Seq<u8>) -> int {
    le32_at(s, 18) as i32 as int
}

/// The signed height field; negative means top-down row order.
pub open spec fn bmp_h_raw(s: Seq<u8>) -> int {
    le32_at(s, 22) as i32 as int
}

/// Whether rows are stored top-down.
pub open spec fn bmp_topdown(s: Seq<u8>) -> bool {
    bmp_h_raw(s) < 0
}

/// The number of rows, regardless of their order.
pub open spec fn bmp_habs(s: Seq<u8>) -> int {
    if bmp_h_raw(s) < 0 {
        -bmp_h_raw(s)
    } else {
        bmp_h_raw(s)
    }
}

/// The bits-per-pixel field.
pub open spec fn bmp_bpp(s: Seq<u8>) -> int {
    le16_at(s, 28) as int
}

/// The offset of the pixel data from the start of the file.
pub open spec fn bmp_off(s: Seq<u8>) -> int {
    le32_at(s, 10) as int
}

/// The compression type field.
pub open spec fn bmp_comp(s: Seq<u8>) -> int {
    le32_at(s, 30) as int
}

/// The declared image data size, documented as unreliable.
pub open spec fn bmp_ids(s: Seq<u8>) -> int {
    le32_at(s, 34) as int
}

/// The row byte width derived from the declared image data size.
pub open spec fn bmp_rs1(s: Seq<u8>) -> int {
    bmp_ids(s) / bmp_habs(s)
}

/// Whether the declared image data size is consistent with the width, so
/// that the row width derived from it can be used.
pub open spec fn bmp_use_rs1(s: Seq<u8>) -> bool {
    bmp_rs1(s) >= bmp_w(s) * (bmp_bpp(s) / 8)
}

/// The row byte width recomputed from the file size, used when the declared
/// image data size is inconsistent.
pub open spec fn bmp_rs2(s: Seq<u8>) -> int {
    (s.len() - bmp_off(s)) / bmp_habs(s)
}

/// The row byte width the reader settles on.
pub open spec fn bmp_rs(s: Seq<u8>) -> int {
    if bmp_use_rs1(s) {
        bmp_rs1(s)
    } else {
        bmp_rs2(s)
    }
}

/// The fixed header checks: signature, a recognised header size, one plane,
/// zero reserved fields, a supported bit depth, and a compression type that
/// fits the depth.
pub open spec fn bmp_header_ok(s: Seq<u8>) -> bool {
    s.len() >= 54 && le16_at(s, 0) == 0x4D42 && (le32_at(s, 14) == 40 || le32_at(s, 14) == 108
        || le32_at(s, 14) == 124) && le16_at(s, 26) == 1 && le16_at(s, 6) == 0 && le16_at(s, 8)
        == 0 && (bmp_bpp(s) == 16 || bmp_bpp(s) == 24 || bmp_bpp(s) == 32) && (bmp_bpp(s) == 16
        ==> bmp_comp(s) == 3) && (bmp_bpp(s) != 16 ==> (bmp_comp(s) == 0 || bmp_comp(s) == 3))
}

/// The dimension checks: a nonzero row count, a non-negative width, and
/// dimensions within what the codec's size fields can carry.
pub open spec fn bmp_dims_ok(s: Seq<u8>) -> bool {
    bmp_h_raw(s) != 0 && 0 <= bmp_w(s) && bmp_w(s) <= 0xFFFF && bmp_habs(s) <= 0xFFFF && bmp_w(s)
        * bmp_habs(s) <= 0x0FFF_FFFF
}

/// The size checks: a usable row width from the header or from the file
/// size, and the whole pixel region inside the file.
pub open spec fn bmp_size_ok(s: Seq<u8>) -> bool {
    (bmp_use_rs1(s) || (bmp_off(s) <= s.len() && bmp_rs2(s) >= bmp_w(s) * (bmp_bpp(s) / 8)))
        && bmp_rs(s) <= 0xFFFF_FFFF && bmp_off(s) + bmp_habs(s) * bmp_rs(s) <= s.len()
}

/// The per-depth checks: the channel masks must be the standard ones for
/// the depth, and the file must be long enough to hold them.
pub open spec fn bmp_variant_ok(s: Seq<u8>) -> bool {
    if bmp_bpp(s) == 16 {
        s.len() >= 66 && le32_at(s, 54) == 0xF800 && le32_at(s, 58) == 0x07E0 && le32_at(s, 62)
            == 0x001F
    } else if bmp_bpp(s) == 32 {
        le32_at(s, 14) > 40 && (bmp_comp(s) == 3 ==> (s.len() >= 70 && le32_at(s, 54) == 0x00FF0000
            && le32_at(s, 58) == 0x0000FF00 && le32_at(s, 62) == 0x000000FF && le32_at(s, 66)
            == 0xFF000000))
    } else {
        bmp_comp(s) == 3 ==> (s.len() >= 66 && le32_at(s, 54) == 0xFF0000 && le32_at(s, 58)
            == 0x00FF00 && le32_at(s, 62) == 0x0000FF)
    }
}

/// Every condition under which a bitmap file is accepted.
pub open spec fn bmp_ok(s: Seq<u8>) -> bool {
    bmp_header_ok(s) && bmp_dims_ok(s) && bmp_size_ok(s) && bmp_variant_ok(s)
}

/// The packed 3-byte pixels read from a 16-bit file: an opaque alpha byte,
/// then the two bytes of the stored color word.
pub open spec fn bmp_pix16(s: Seq<u8>, off: int, rs: int, w: int, h: int, topdown: bool) -> Seq<
    u8,
> {
    Seq::new(
        (3 * (w * h)) as nat,
        |i: int|
            {
                let p = i / 3;
                let c = i % 3;
                let y = p / w;
                let x = p % w;
                let row = if topdown {
                    y
                } else {
                    h - 1 - y
                };
                if c == 0 {
                    0xffu8
                } else {
                    s[off + row * rs + 2 * x + (c - 1)]
                }
            },
    )
}

/// The 4-byte pixels read from a 32-bit file: each row copied through.
pub open spec fn bmp_pix32(s: Seq<u8>, off: int, rs: int, w: int, h: int, topdown: bool) -> Seq<
    u8,
> {
    Seq::new(
        (4 * (w * h)) as nat,
        |i: int|
            {
                let y = i / (4 * w);
                let k = i % (4 * w);
                let row = if topdown {
                    y
                } else {
                    h - 1 - y
                };
                s[off + row * rs + k]
            },
    )
}

/// The 4-byte pixels read from a 24-bit file: each stored triple reversed,
/// with an opaque alpha byte appended.
pub open spec fn bmp_pix24(s: Seq<u8>, off: int, rs: int, w: int, h: int, topdown: bool) -> Seq<
    u8,
> {
    Seq::new(
        (4 * (w * h)) as nat,
        |i: int|
            {
                let p = i / 4;
                let c = i % 4;
                let y = p / w;
                let x = p % w;
                let row = if topdown {
                    y
                } else {
                    h - 1 - y
                };
                if c == 3 {
                    0xffu8
                } else {
                    s[off + row * rs + 3 * x + (2 - c)]
                }
            },
    )
}

proof fn lemma_pix_split(p: int, w: int, h: int)
    requires
        0 <= p < w * h,
        w >= 0,
        h >= 0,
    ensures
        w >= 1,
        h >= 1,
        0 <= p / w < h,
        0 <= p % w < w,
        p == w * (p / w) + p % w,
{
    assert(w >= 1 && h >= 1) by (nonlinear_arith)
        requires
            0 <= p < w * h,
            w >= 0,
            h >= 0,
    ;
    assert(0 <= p / w < h && 0 <= p % w < w && p == w * (p / w) + p % w) by (nonlinear_arith)
        requires
            0 <= p < w * h,
            w >= 1,
            h >= 1,
    ;
}

proof fn lemma_row_byte_in_bounds(row: int, x: int, k: int, h: int, w: int, rs: int, bpp: int)
    requires
        0 <= row < h,
        0 <= x < w,
        0 <= k < bpp,
        bpp * w <= rs,
        bpp >= 1,
    ensures
        row * rs + bpp * x + k < h * rs,
        row * rs + bpp * x + k >= 0,
{
    assert(row * rs + bpp * x + k < h * rs) by (nonlinear_arith)
        requires
            0 <= row < h,
            0 <= x < w,
            0 <= k < bpp,
            bpp * w <= rs,
            bpp >= 1,
    ;
    assert(row * rs + bpp * x + k >= 0) by (nonlinear_arith)
        requires
            0 <= row,
            0 <= x,
            0 <= k,
            bpp * w <= rs,
            0 <= x < w,
            bpp >= 1,
    ;
}

impl Img {
    /// Copy an image out of a compressed asset, keeping the compressed form.
    pub fn from_img_data(id: &ImgData) -> (r: Img)
        ensures
            r.w == id.w,
            r.h == id.h,
            r.format == ImgFormat::RleNew,
            r.data@ == id.data@,
            (r.rle_header matches Some(hd) && hd@ == id.header@),
            id.header@.len() == 4 * id.h && id.w as int * id.h as int <= 0x0FFF_FFFF ==> r.wf(),
    {
        Img {
            w: id.w as u32,
            h: id.h as u32,
            data: id.data.clone(),
            rle_header: Some(id.header.clone()),
            format: ImgFormat::RleNew,
        }
    }

    /// Read a bitmap interchange file into an uncompressed image: a 16-bit
    /// file becomes packed 3-byte pixels, a 24 or 32-bit file becomes 4-byte
    /// truecolor pixels.  Fails exactly on the files that are not valid
    /// bitmaps of one of those forms (or whose pixel area does not fit the
    /// codec's size fields).
    pub fn from_bmp(bytes: &Vec<u8>) -> (r: Result<Img, FaceError>)
        ensures
            match r {
                Ok(img) => bmp_ok(bytes@) && img.w == bmp_w(bytes@) && img.h == bmp_habs(bytes@)
                    && img.rle_header is None && img.wf() && (if bmp_bpp(bytes@) == 16 {
                    img.format == ImgFormat::Argb8565 && img.data@ == bmp_pix16(
                        bytes@,
                        bmp_off(bytes@),
                        bmp_rs(bytes@),
                        bmp_w(bytes@),
                        bmp_habs(bytes@),
                        bmp_topdown(bytes@),
                    )
                } else if bmp_bpp(bytes@) == 32 {
                    img.format == ImgFormat::Argb8888 && img.data@ == bmp_pix32(
                        bytes@,
                        bmp_off(bytes@),
                        bmp_rs(bytes@),
                        bmp_w(bytes@),
                        bmp_habs(bytes@),
                        bmp_topdown(bytes@),
                    )
                } else {
                    img.format == ImgFormat::Argb8888 && img.data@ == bmp_pix24(
                        bytes@,
                        bmp_off(bytes@),
                        bmp_rs(bytes@),
                        bmp_w(bytes@),
                        bmp_habs(bytes@),
                        bmp_topdown(bytes@),
                    )
                }),
                Err(_) => !bmp_ok(bytes@),
            },
    {
        let s = bytes.as_slice();
        let n = s.len();
        if n < 54 {
            return Err(FaceError::BmpTooSmall);
        }
        let sig = crate::util::get_u16(s, 0);
        if sig != 0x4D42 {
            return Err(FaceError::BmpBadSignature);
        }
        let dib = crate::util::get_u32(s, 14);
        if dib != 40 && dib != 108 && dib != 124 {
            return Err(FaceError::BmpBadHeader);
        }
        let planes = crate::util::get_u16(s, 26);
        let res1 = crate::util::get_u16(s, 6);
        let res2 = crate::util::get_u16(s, 8);
        if planes != 1 || res1 != 0 || res2 != 0 {
            return Err(FaceError::BmpUnusual);
        }
        let bpp = crate::util::get_u16(s, 28);
        if bpp != 16 && bpp != 24 && bpp != 32 {
            return Err(FaceError::BmpBadDepth);
        }
        let comp = crate::util::get_u32(s, 30);
        if bpp == 16 && comp != 3 {
            return Err(FaceError::BmpBadMasks);
        }
        if (bpp == 24 || bpp == 32) && (comp != 0 && comp != 3) {
            return Err(FaceError::BmpCompressed);
        }
        let width_raw = crate::util::get_u32(s, 18) as i32;
        let height_raw = crate::util::get_u32(s, 22) as i32;
        let top_down = height_raw < 0;
        if height_raw == 0 || width_raw < 0 {
            return Err(FaceError::BmpBadDataSize);
        }
        let habs_big: i64 = if height_raw < 0 {
            -(height_raw as i64)
        } else {
            height_raw as i64
        };
        if habs_big > 0xFFFF {
            return Err(FaceError::BmpBadDataSize);
        }
        let habs: usize = habs_big as usize;
        let wu: usize = width_raw as usize;
        if wu > 0xFFFF {
            return Err(FaceError::BmpBadDataSize);
        }
        proof {
            assert((wu as int) * (habs as int) <= 0xFFFE0001) by (nonlinear_arith)
                requires
                    0 <= wu <= 0xFFFF,
                    0 <= habs <= 0xFFFF,
            ;
        }
        if wu * habs > 0x0FFF_FFFF {
            return Err(FaceError::BmpBadDataSize);
        }
        let bytes_pp: usize = if bpp == 16 {
            2
        } else if bpp == 24 {
            3
        } else {
            4
        };
        let offset = crate::util::get_u32(s, 10) as usize;
        let ids = crate::util::get_u32(s, 34) as usize;
        let rs1: usize = ids / habs;
        proof {
            assert((wu as int) * (bytes_pp as int) <= 0x3FFFC) by (nonlinear_arith)
                requires
                    0 <= wu <= 0xFFFF,
                    0 <= bytes_pp <= 4,
            ;
        }
        let rs: usize;
        if rs1 >= wu * bytes_pp {
            rs = rs1;
        } else {
            if offset > n {
                return Err(FaceError::BmpBadDataSize);
            }
            let rs2: usize = (n - offset) / habs;
            if rs2 < wu * bytes_pp {
                return Err(FaceError::BmpBadDataSize);
            }
            rs = rs2;
        }
        if rs as u64 > 0xFFFF_FFFF {
            return Err(FaceError::BmpBadDataSize);
        }
        proof {
            assert((habs as int) * (rs as int) <= 0xFFFF * 0xFFFF_FFFF) by (nonlinear_arith)
                requires
                    0 <= habs <= 0xFFFF,
                    0 <= rs <= 0xFFFF_FFFF,
            ;
        }
        if (offset as u64) + (habs as u64) * (rs as u64) > (n as u64) {
            return Err(FaceError::BmpBadDataSize);
        }
        proof {
            assert(bmp_size_ok(bytes@));
        }
        let npix: usize = wu * habs;
        proof {
            assert(bytes_pp * (wu as int) == (wu as int) * bytes_pp) by (nonlinear_arith);
        }
        if bpp == 16 {
            if n < 66 {
                return Err(FaceError::BmpTooSmall);
            }
            if crate::util::get_u32(s, 54) != 0xF800 || crate::util::get_u32(s, 58) != 0x07E0
                || crate::util::get_u32(s, 62) != 0x001F {
                return Err(FaceError::BmpBadMasks);
            }
            let ghost pix = bmp_pix16(
                bytes@,
                offset as int,
                rs as int,
                wu as int,
                habs as int,
                top_down,
            );
            let mut out: Vec<u8> = Vec::new();
            let mut p: usize = 0;
            proof {
                assert(pix.take(0) =~= Seq::<u8>::empty());
            }
            while p < npix
                invariant
                    p <= npix,
                    npix == wu * habs,
                    wu <= 0xFFFF,
                    habs <= 0xFFFF,
                    npix <= 0x0FFF_FFFF,
                    2 * wu <= rs,
                    offset + habs * rs <= n,
                    n == bytes@.len(),
                    s@ == bytes@,
                    pix == bmp_pix16(
                        bytes@,
                        offset as int,
                        rs as int,
                        wu as int,
                        habs as int,
                        top_down,
                    ),
                    out@ == pix.take(3 * p),
                decreases npix - p,
            {
                proof {
                    lemma_pix_split(p as int, wu as int, habs as int);
                }
                let y = p / wu;
                let x = p % wu;
                let row = if top_down {
                    y
                } else {
                    habs - 1 - y
                };
                proof {
                    lemma_row_byte_in_bounds(row as int, x as int, 1, habs as int, wu as int,
                        rs as int, 2);
                    assert(habs as int * rs as int <= n - offset) by (nonlinear_arith)
                        requires
                            offset + habs * rs <= n,
                            offset >= 0,
                    ;
                    assert(row as int * rs as int + 2 * (x as int) + 1 < habs as int * rs as int);
                }
                let base = offset + row * rs + 2 * x;
                out.push(0xff);
                out.push(s[base]);
                out.push(s[base + 1]);
                proof {
                    let pp = p as int;
                    lemma_divmod(pp, 0, 3);
                    lemma_divmod(pp, 1, 3);
                    lemma_divmod(pp, 2, 3);
                    assert(out@ =~= pix.take(3 * (pp + 1)));
                }
                p = p + 1;
            }
            proof {
                assert(pix.take(3 * npix as int) =~= pix);
            }
            return Ok(
                Img {
                    w: wu as u32,
                    h: habs as u32,
                    format: ImgFormat::Argb8565,
                    data: out,
                    rle_header: None,
                },
            );
        } else if bpp == 32 && dib > 40 {
            if comp == 3 {
                if n < 70 {
                    return Err(FaceError::BmpTooSmall);
                }
                if crate::util::get_u32(s, 54) != 0x00FF0000 || crate::util::get_u32(s, 58)
                    != 0x0000FF00 || crate::util::get_u32(s, 62) != 0x000000FF
                    || crate::util::get_u32(s, 66) != 0xFF000000 {
                    return Err(FaceError::BmpBadMasks);
                }
            }
            let ghost pix = bmp_pix32(
                bytes@,
                offset as int,
                rs as int,
                wu as int,
                habs as int,
                top_down,
            );
            let mut out: Vec<u8> = Vec::new();
            let row_bytes: usize = 4 * wu;
            let total: usize = 4 * npix;
            let mut i: usize = 0;
            proof {
                assert(pix.take(0) =~= Seq::<u8>::empty());
            }
            while i < total
                invariant
                    i <= total,
                    total == 4 * npix,
                    npix == wu * habs,
                    row_bytes == 4 * wu,
                    wu <= 0xFFFF,
                    habs <= 0xFFFF,
                    npix <= 0x0FFF_FFFF,
                    4 * wu <= rs,
                    offset + habs * rs <= n,
                    n == bytes@.len(),
                    s@ == bytes@,
                    pix == bmp_pix32(
                        bytes@,
                        offset as int,
                        rs as int,
                        wu as int,
                        habs as int,
                        top_down,
                    ),
                    out@ == pix.take(i as int),
                decreases total - i,
            {
                proof {
                    assert(wu >= 1 && habs >= 1) by (nonlinear_arith)
                        requires
                            i < total,
                            total == 4 * npix,
                            npix == wu * habs,
                            wu >= 0,
                            habs >= 0,
                    ;
                    lemma_divmod(
                        i as int / (row_bytes as int),
                        i as int % (row_bytes as int),
                        row_bytes as int,
                    );
                    assert(i as int / (row_bytes as int) < habs as int) by (nonlinear_arith)
                        requires
                            i < 4 * npix,
                            npix == wu * habs,
                            row_bytes == 4 * wu,
                            wu >= 1,
                            habs >= 1,
                    ;
                }
                let y = i / row_bytes;
                let k = i % row_bytes;
                let row = if top_down {
                    y
                } else {
                    habs - 1 - y
                };
                proof {
                    lemma_row_byte_in_bounds(row as int, k as int, 0, habs as int,
                        4 * (wu as int), rs as int, 1);
                    assert(habs as int * rs as int <= n - offset) by (nonlinear_arith)
                        requires
                            offset + habs * rs <= n,
                            offset >= 0,
                    ;
                }
                out.push(s[offset + row * rs + k]);
                proof {
                    assert(out@ =~= pix.take(i + 1));
                }
                i = i + 1;
            }
            proof {
                assert(pix.take(4 * npix as int) =~= pix);
            }
            return Ok(
                Img {
                    w: wu as u32,
                    h: habs as u32,
                    format: ImgFormat::Argb8888,
                    data: out,
                    rle_header: None,
                },
            );
        } else if bpp == 24 {
            if comp == 3 {
                if n < 66 {
                    return Err(FaceError::BmpTooSmall);
                }
                if crate::util::get_u32(s, 54) != 0xFF0000 || crate::util::get_u32(s, 58)
                    != 0x00FF00 || crate::util::get_u32(s, 62) != 0x0000FF {
                    return Err(FaceError::BmpBadMasks);
                }
            }
            let ghost pix = bmp_pix24(
                bytes@,
                offset as int,
                rs as int,
                wu as int,
                habs as int,
                top_down,
            );
            let mut out: Vec<u8> = Vec::new();
            let mut p: usize = 0;
            proof {
                assert(pix.take(0) =~= Seq::<u8>::empty());
            }
            while p < npix
                invariant
                    p <= npix,
                    npix == wu * habs,
                    wu <= 0xFFFF,
                    habs <= 0xFFFF,
                    npix <= 0x0FFF_FFFF,
                    3 * wu <= rs,
                    offset + habs * rs <= n,
                    n == bytes@.len(),
                    s@ == bytes@,
                    pix == bmp_pix24(
                        bytes@,
                        offset as int,
                        rs as int,
                        wu as int,
                        habs as int,
                        top_down,
                    ),
                    out@ == pix.take(4 * p),
                decreases npix - p,
            {
                proof {
                    lemma_pix_split(p as int, wu as int, habs as int);
                }
                let y = p / wu;
                let x = p % wu;
                let row = if top_down {
                    y
                } else {
                    habs - 1 - y
                };
                proof {
                    lemma_row_byte_in_bounds(row as int, x as int, 2, habs as int, wu as int,
                        rs as int, 3);
                    assert(habs as int * rs as int <= n - offset) by (nonlinear_arith)
                        requires
                            offset + habs * rs <= n,
                            offset >= 0,
                    ;
                    assert(row as int * rs as int + 3 * (x as int) + 2 < habs as int * rs as int);
                }
                let base = offset + row * rs + 3 * x;
                out.push(s[base + 2]);
                out.push(s[base + 1]);
                out.push(s[base]);
                out.push(0xff);
                proof {
                    let pp = p as int;
                    lemma_divmod(pp, 0, 4);
                    lemma_divmod(pp, 1, 4);
                    lemma_divmod(pp, 2, 4);
                    lemma_divmod(pp, 3, 4);
                    assert(out@ =~= pix.take(4 * (pp + 1)));
                }
                p = p + 1;
            }
            proof {
                assert(pix.take(4 * npix as int) =~= pix);
            }
            return Ok(
                Img {
                    w: wu as u32,
                    h: habs as u32,
                    format: ImgFormat::Argb8888,
                    data: out,
                    rle_header: None,
                },
            );
        } else {
            // 32 bits per pixel but the classic header, which has no room
            // for the channel masks
            return Err(FaceError::BmpBadHeader);
        }
    }
}

impl Img {
    /// Write the image as a bitmap interchange file: the fixed extended
    /// header, then 32-bit truecolor pixels in top-down row order (each row
    /// is a 4-byte multiple already, so no row padding is added).  Fails
    /// only when the image is compressed and its stream does not decode to
    /// its declared pixel area.
    pub fn to_bmp(&self) -> (r: Result<Vec<u8>, FaceError>)
        requires
            self.wf(),
        ensures
            match r {
                Ok(b) => b@.len() == v5_size() + 4 * self.pix() && b@.subrange(0, v5_size())
                    == v5_out_bytes(self.w, self.h) && crate::util::le16_at(b@, 0)
                    == 0x4D42 && crate::util::le32_at(b@, 10) == v5_size() && crate::util::le32_at(
                    b@,
                    18,
                ) == self.w && crate::util::le32_at(b@, 22) == (-(self.h as i32)) as u32
                    && crate::util::le16_at(b@, 28) == 32 && b@.skip(v5_size()) == (
                if self.format == ImgFormat::Argb8888 {
                    self.data@
                } else if self.format == ImgFormat::Argb8565 {
                    expand_8565_to_8888(self.data@, self.pix())
                } else {
                    expand_8565_to_8888(rle_decode(self.data@).unwrap(), self.pix())
                }) && (self.format == ImgFormat::RleNew ==> rle_decode(self.data@) is Some
                    && rle_decode(self.data@).unwrap().len() == 3 * self.pix()),
                Err(e) => e == FaceError::CorruptRle && self.format == ImgFormat::RleNew && (
                rle_decode(self.data@) is None || rle_decode(self.data@).unwrap().len() != 3
                    * self.pix()),
            },
    {
        let mut img = Img {
            w: self.w,
            h: self.h,
            format: self.format,
            data: self.data.clone(),
            rle_header: match &self.rle_header {
                Some(v) => Some(v.clone()),
                None => None,
            },
        };
        if let Err(e) = img.convert_format(ImgFormat::Argb8888) {
            return Err(e);
        }
        let header = BMPHeaderV5::new(img.w, img.h, 32);
        let mut b = header.to_bytes();
        proof {
            lemma_v5_field_bytes(header);
            lemma_v5_out_bytes(header, img.w, img.h);
        }
        let ghost hdr_bytes = b@;
        let dn = img.data.len();
        let mut i: usize = 0;
        while i < dn
            invariant
                i <= dn,
                dn == img.data@.len(),
                b@ == hdr_bytes + img.data@.take(i as int),
            decreases dn - i,
        {
            b.push(img.data[i]);
            proof {
                assert(b@ =~= hdr_bytes + img.data@.take(i + 1));
            }
            i = i + 1;
        }
        proof {
            assert(img.data@.take(dn as int) =~= img.data@);
            assert(b@.skip(138) =~= img.data@);
            assert(b@.subrange(0, 138) =~= hdr_bytes);
        }
        Ok(b)
    }
}

// ---------------------------------------------------------------------------
// The greedy run-selection policy, stated
// ---------------------------------------------------------------------------
// Byte-identical re-encodes matter when diffing against reference files, so
// the encoder's exact output is pinned: these functions state the greedy
// policy the encoder follows, run by run.

/// How far a repeat run that started at `start` reaches, scanning from
/// `off` with `cnt` pixels counted so far: it grows while pixels equal the
/// run's first pixel, capped at 127.
pub open spec fn rep_cnt(row: Seq<u8>, start: int, off: int, cnt: int) -> int
    decreases row.len() - off,
{
    if cnt >= 127 || off < 0 || off + 3 > row.len() || !(row[off] == row[start] && row[off + 1]
        == row[start + 1] && row[off + 2] == row[start + 2]) {
        cnt
    } else {
        rep_cnt(row, start, off + 3, cnt + 1)
    }
}

/// How far a literal run reaches, scanning from `off` with `cnt` pixels
/// counted so far: it grows while adjacent pixel pairs differ, capped at
/// 127.
pub open spec fn lit_cnt(row: Seq<u8>, off: int, cnt: int) -> int
    decreases row.len() - off,
{
    if cnt >= 127 || off < 0 || off + 6 > row.len() || (row[off] == row[off + 3] && row[off + 1]
        == row[off + 4] && row[off + 2] == row[off + 5]) {
        cnt
    } else {
        lit_cnt(row, off + 3, cnt + 1)
    }
}

/// The stream the greedy encoder produces for the row suffix starting at
/// `off`: repeat and literal runs while more than two pixels remain, then
/// whatever is left (possibly nothing) as one final literal run.
pub open spec fn rle_encode_spec(row: Seq<u8>, off: int) -> Seq<u8>
    decreases row.len() - off,
{
    if off < 0 || row.len() < off {
        Seq::empty()
    } else if row.len() - off <= 6 {
        seq![(((row.len() - off) / 3) as u8)] + row.subrange(off, row.len() as int)
    } else if row[off] == row[off + 3] && row[off + 1] == row[off + 4] && row[off + 2] == row[off
        + 5] {
        let c0 = rep_cnt(row, off, off + 3, 1);
        let c1 = if c0 < 1 {
            1
        } else {
            c0
        };
        let cmax = (row.len() - off) / 3;
        let c = if c1 > cmax {
            cmax
        } else {
            c1
        };
        seq![(128 + c) as u8] + row.subrange(off, off + 3) + rle_encode_spec(row, off + 3 * c)
    } else {
        let c0 = lit_cnt(row, off, 0);
        let c1 = if c0 < 1 {
            1
        } else {
            c0
        };
        let cmax = (row.len() - off) / 3;
        let c = if c1 > cmax {
            cmax
        } else {
            c1
        };
        seq![c as u8] + row.subrange(off, off + 3 * c) + rle_encode_spec(row, off + 3 * c)
    }
}

/// Row `y` of a packed pixel buffer that is `w` pixels wide.
pub open spec fn row_of(pix: Seq<u8>, w: int, y: int) -> Seq<u8> {
    pix.subrange(3 * w * y, 3 * w * (y + 1))
}

/// The compressed payload: each row's greedy encoding, in row order, from
/// row `y` on.
pub open spec fn rows_enc_bytes(pix: Seq<u8>, w: int, h: int, y: int) -> Seq<u8>
    decreases h - y,
{
    if y >= h {
        Seq::empty()
    } else {
        rle_encode_spec(row_of(pix, w, y), 0) + rows_enc_bytes(pix, w, h, y + 1)
    }
}

/// The per-row header table: each row's packed entry carries the running
/// offset (header table included) and that row's compressed length.
pub open spec fn rows_hdr_bytes(pix: Seq<u8>, w: int, h: int, y: int, off: int) -> Seq<u8>
    decreases h - y,
{
    if y >= h {
        Seq::empty()
    } else {
        row_entry_bytes(off, rle_encode_spec(row_of(pix, w, y), 0).len() as int) + rows_hdr_bytes(
            pix,
            w,
            h,
            y + 1,
            off + rle_encode_spec(row_of(pix, w, y), 0).len(),
        )
    }
}

/// Every row's compressed length and running offset fit the 11-bit and
/// 21-bit header fields, from row `y` on.  The compressor succeeds exactly
/// when this holds of the whole image.
pub open spec fn rows_fit(pix: Seq<u8>, w: int, h: int, y: int, off: int) -> bool
    decreases h - y,
{
    if y >= h {
        true
    } else {
        rle_encode_spec(row_of(pix, w, y), 0).len() <= 0x7FF && off <= 0x1FFFFF && rows_fit(
            pix,
            w,
            h,
            y + 1,
            off + rle_encode_spec(row_of(pix, w, y), 0).len(),
        )
    }
}

/// The packed 3-byte pixels a bitmap file converts to on import: a 16-bit
/// file is already in the packed form; a 24 or 32-bit file is read as
/// truecolor and then narrowed.
pub open spec fn bmp_pixels_8565(s: Seq<u8>) -> Seq<u8> {
    if bmp_bpp(s) == 16 {
        bmp_pix16(s, bmp_off(s), bmp_rs(s), bmp_w(s), bmp_habs(s), bmp_topdown(s))
    } else if bmp_bpp(s) == 32 {
        pack_8888_to_8565(
            bmp_pix32(s, bmp_off(s), bmp_rs(s), bmp_w(s), bmp_habs(s), bmp_topdown(s)),
            bmp_w(s) * bmp_habs(s),
        )
    } else {
        pack_8888_to_8565(
            bmp_pix24(s, bmp_off(s), bmp_rs(s), bmp_w(s), bmp_habs(s), bmp_topdown(s)),
            bmp_w(s) * bmp_habs(s),
        )
    }
}

/// The compressed bytes of rows `0` to `k`, excluded, of a packed image.
pub open spec fn rows_enc_len_upto(pix: Seq<u8>, w: int, k: int) -> int
    decreases k,
{
    if k <= 0 {
        0
    } else {
        rows_enc_len_upto(pix, w, k - 1) + rle_encode_spec(row_of(pix, w, k - 1), 0).len()
    }
}

/// Within the header fields' ranges, every entry of the per-row table
/// unpacks to its row's running offset and compressed length: entry `y`
/// carries `off0` plus the lengths of the rows before it, and row `y`'s
/// own length.
pub proof fn lemma_rows_hdr_entries(pix: Seq<u8>, w: int, h: int, off0: int, y: int)
    requires
        0 <= y < h,
        rows_fit(pix, w, h, 0, off0),
        0 <= off0,
    ensures
        entry_offset(rows_hdr_bytes(pix, w, h, 0, off0), 4 * y) == off0 + rows_enc_len_upto(
            pix,
            w,
            y,
        ),
        entry_len(rows_hdr_bytes(pix, w, h, 0, off0), 4 * y) == rle_encode_spec(
            row_of(pix, w, y),
            0,
        ).len(),
{
    lemma_rows_hdr_entries_from(pix, w, h, 0, off0, y);
}

proof fn lemma_rows_hdr_len(pix: Seq<u8>, w: int, h: int, s: int, off: int)
    ensures
        rows_hdr_bytes(pix, w, h, s, off).len() == if s < h {
            4 * (h - s)
        } else {
            0int
        },
    decreases h - s,
{
    if s < h {
        lemma_rows_hdr_len(pix, w, h, s + 1, off + rle_encode_spec(row_of(pix, w, s), 0).len());
    }
}

proof fn lemma_rows_hdr_entries_from(pix: Seq<u8>, w: int, h: int, s: int, off: int, k: int)
    requires
        0 <= s,
        0 <= k,
        s + k < h,
        rows_fit(pix, w, h, s, off),
        0 <= off,
    ensures
        ({
            let bytes = rows_hdr_bytes(pix, w, h, s, off);
            let off_k = off + (rows_enc_len_upto(pix, w, s + k) - rows_enc_len_upto(pix, w, s));
            entry_offset(bytes, 4 * k) == off_k && entry_len(bytes, 4 * k) == rle_encode_spec(
                row_of(pix, w, s + k),
                0,
            ).len()
        }),
    decreases k,
{
    let bytes = rows_hdr_bytes(pix, w, h, s, off);
    let len_s = rle_encode_spec(row_of(pix, w, s), 0).len() as int;
    let head = row_entry_bytes(off, len_s);
    let rest = rows_hdr_bytes(pix, w, h, s + 1, off + len_s);
    assert(bytes == head + rest);
    lemma_rows_hdr_len(pix, w, h, s + 1, off + len_s);
    if k == 0 {
        lemma_row_entry_roundtrip(off, len_s);
        assert(bytes[0] == head[0]);
        assert(bytes[1] == head[1]);
        assert(bytes[2] == head[2]);
        assert(bytes[3] == head[3]);
        assert(rows_enc_len_upto(pix, w, s + 0) - rows_enc_len_upto(pix, w, s) == 0);
    } else {
        lemma_rows_hdr_entries_from(pix, w, h, s + 1, off + len_s, k - 1);
        assert(bytes[4 * k] == rest[4 * (k - 1)]);
        assert(bytes[4 * k + 1] == rest[4 * (k - 1) + 1]);
        assert(bytes[4 * k + 2] == rest[4 * (k - 1) + 2]);
        assert(bytes[4 * k + 3] == rest[4 * (k - 1) + 3]);
        lemma_rows_enc_len_step(pix, w, s, k);
    }
}

proof fn lemma_rows_enc_len_step(pix: Seq<u8>, w: int, s: int, k: int)
    requires
        0 <= s,
        1 <= k,
    ensures
        rows_enc_len_upto(pix, w, s + k) - rows_enc_len_upto(pix, w, s) == rle_encode_spec(
            row_of(pix, w, s),
            0,
        ).len() + (rows_enc_len_upto(pix, w, s + k) - rows_enc_len_upto(pix, w, s + 1)),
{
}

/// The pixels at byte offsets `o` and `o + 3` are equal.
pub open spec fn adj_pixels_equal(row: Seq<u8>, o: int) -> bool {
    row[o] == row[o + 3] && row[o + 1] == row[o + 4] && row[o + 2] == row[o + 5]
}

/// The stream holds literal records only: every control byte has its top
/// bit clear.
pub open spec fn literal_only(s: Seq<u8>) -> bool
    decreases s.len(),
{
    if s.len() == 0 {
        true
    } else if s[0] >= 128 {
        false
    } else if s.len() < 1 + 3 * (s[0] as int) {
        false
    } else {
        literal_only(s.skip(1 + 3 * (s[0] as int)))
    }
}

proof fn lemma_lit_cnt_le(row: Seq<u8>, off: int, cnt: int)
    requires
        cnt <= 127,
    ensures
        lit_cnt(row, off, cnt) <= 127,
    decreases row.len() - off,
{
    if !(cnt >= 127 || off < 0 || off + 6 > row.len() || adj_pixels_equal(row, off)) {
        lemma_lit_cnt_le(row, off + 3, cnt + 1);
    }
}

/// A row with no two equal adjacent pixels encodes to literal runs only:
/// the greedy policy never opens a repeat run on it.
pub proof fn lemma_alternating_encodes_literal(row: Seq<u8>, off: int)
    requires
        row.len() % 3 == 0,
        0 <= off <= row.len(),
        off % 3 == 0,
        forall|o: int|
            0 <= o && o % 3 == 0 && o + 6 <= row.len() ==> !#[trigger] adj_pixels_equal(row, o),
    ensures
        literal_only(rle_encode_spec(row, off)),
    decreases row.len() - off,
{
    let s = rle_encode_spec(row, off);
    if row.len() - off <= 6 {
        let cnt = ((row.len() - off) / 3) as u8;
        assert(3 * (cnt as int) == row.len() - off) by (nonlinear_arith)
            requires
                cnt == (row.len() - off) / 3,
                (row.len() - off) % 3 == 0,
                0 <= row.len() - off <= 6,
        ;
        assert(s[0] == cnt);
        assert(s[0] as int == cnt as int);
        assert(s.skip(1 + 3 * (cnt as int)) =~= Seq::<u8>::empty());
        assert(literal_only(s.skip(1 + 3 * (s[0] as int))));
        assert(literal_only(s));
    } else {
        assert(!adj_pixels_equal(row, off));
        let c0 = lit_cnt(row, off, 0);
        lemma_lit_cnt_le(row, off, 0);
        let c1 = if c0 < 1 {
            1int
        } else {
            c0
        };
        let cmax = (row.len() - off) / 3;
        let c = if c1 > cmax {
            cmax
        } else {
            c1
        };
        assert(cmax >= 2) by (nonlinear_arith)
            requires
                cmax == (row.len() - off) / 3,
                row.len() - off > 6,
        ;
        assert(3 * c <= row.len() - off) by (nonlinear_arith)
            requires
                c <= (row.len() - off) / 3,
        ;
        assert((off + 3 * c) % 3 == 0) by (nonlinear_arith)
            requires
                off % 3 == 0,
                c >= 0,
        ;
        lemma_alternating_encodes_literal(row, off + 3 * c);
        assert(s[0] == c as u8);
        assert(s[0] as int == c);
        assert(s.len() == 1 + 3 * c + rle_encode_spec(row, off + 3 * c).len());
        assert(s.skip(1 + 3 * c) =~= rle_encode_spec(row, off + 3 * c));
        assert(literal_only(s.skip(1 + 3 * (s[0] as int))));
        assert(literal_only(s));
    }
}

} // verus!
