//! Pixel buffer helpers: nearest-neighbour resizing, statistics for the debug
//! snapshots, and a content hash of RGB frames.

use vstd::prelude::*;
use vstd::string::*;
use vstd::arithmetic::div_mod::{lemma_fundamental_div_mod_converse, lemma_multiply_divide_lt};
use crate::text::{push_decimal, spec_decimal, spec_join};

verus! {

/// Summary of a pixel buffer for debug output.
#[derive(Debug, Clone, PartialEq, Eq)]
pub struct PixelStats {
    pub pixels: usize,
    pub bytes: usize,
    pub nonzero_bytes: usize,
    pub nonzero_pixels: usize,
    pub min: u8,
    pub max: u8,
    pub sample: Vec<u8>,
}

/// The source pixel that output position `(x, y)` samples.
pub open spec fn nearest_source_index(x: nat, y: nat, sw: nat, sh: nat, dw: nat, dh: nat) -> int {
    ((y * sh / dh) * sw + x * sw / dw) as int
}

/// Nearest-neighbour resize of a row-major `sw`x`sh` buffer to `dw`x`dh`.
pub open spec fn spec_resize_rgb_nearest(rgb: Seq<[u8; 3]>, sw: nat, sh: nat, dw: nat, dh: nat) -> Result<Seq<[u8; 3]>, Seq<char>> {
    if sw == 0 || sh == 0 || dw == 0 || dh == 0 {
        Err("texture resize dimensions must be >= 1"@)
    } else if sw * sh > u32::MAX {
        Err("texture resize source size overflow"@)
    } else if rgb.len() != sw * sh {
        Err(
            "texture resize source length "@ + spec_decimal(rgb.len()) + " does not match "@
                + spec_decimal(sw) + "x"@ + spec_decimal(sh),
        )
    } else if sw == dw && sh == dh {
        Ok(rgb)
    } else if dw * dh > u32::MAX {
        Err("texture resize destination size overflow"@)
    } else {
        Ok(Seq::new(dw * dh, |i: int| rgb[nearest_source_index((i % dw as int) as nat, (i / dw as int) as nat, sw, sh, dw, dh)]))
    }
}

proof fn lemma_scaled_below(y: nat, sh: nat, dh: nat)
    requires
        y < dh,
        0 < sh,
    ensures
        y * sh / dh < sh,
        y * sh / dh >= 0,
{
    assert(y * sh < dh * sh) by (nonlinear_arith)
        requires y < dh, 0 < sh;
    lemma_multiply_divide_lt((y * sh) as int, dh as int, sh as int);
    assert(y * sh >= 0) by (nonlinear_arith);
    assert((y * sh) / dh >= 0) by (nonlinear_arith)
        requires y * sh >= 0, dh > 0;
}

/// Resizes a row-major RGB buffer with nearest-neighbour sampling.
pub fn resize_rgb_nearest(rgb: &[[u8; 3]], src_width: u32, src_height: u32, dst_width: u32, dst_height: u32) -> (r: Result<Vec<[u8; 3]>, String>)
    ensures
        match spec_resize_rgb_nearest(rgb@, src_width as nat, src_height as nat, dst_width as nat, dst_height as nat) {
            Ok(out) => r matches Ok(v) && v@ == out,
            Err(msg) => r matches Err(e) && e@ == msg,
        },
{
    if src_width == 0 || src_height == 0 || dst_width == 0 || dst_height == 0 {
        return Err(String::from_str("texture resize dimensions must be >= 1"));
    }
    let expected_len = match src_width.checked_mul(src_height) {
        Some(v) => v,
        None => return Err(String::from_str("texture resize source size overflow")),
    };
    if rgb.len() != expected_len as usize {
        let mut msg = String::from_str("texture resize source length ");
        push_decimal(&mut msg, rgb.len() as u64);
        msg.append(" does not match ");
        push_decimal(&mut msg, src_width as u64);
        msg.append("x");
        push_decimal(&mut msg, src_height as u64);
        return Err(msg);
    }
    if src_width == dst_width && src_height == dst_height {
        let mut copy: Vec<[u8; 3]> = Vec::new();
        let mut i: usize = 0;
        while i < rgb.len()
            invariant
                i <= rgb@.len(),
                copy@ == rgb@.take(i as int),
            decreases rgb.len() - i,
        {
            copy.push(rgb[i]);
            i = i + 1;
            assert(copy@ =~= rgb@.take(i as int));
        }
        assert(rgb@.take(i as int) =~= rgb@);
        return Ok(copy);
    }
    let dst_len = match dst_width.checked_mul(dst_height) {
        Some(v) => v,
        None => return Err(String::from_str("texture resize destination size overflow")),
    };
    let ghost sw = src_width as nat;
    let ghost sh = src_height as nat;
    let ghost dw = dst_width as nat;
    let ghost dh = dst_height as nat;
    let ghost f = |i: int| rgb@[nearest_source_index((i % dw as int) as nat, (i / dw as int) as nat, sw, sh, dw, dh)];
    let mut out: Vec<[u8; 3]> = Vec::new();
    let mut y: u32 = 0;
    while y < dst_height
        invariant
            y <= dst_height,
            dst_width > 0,
            dst_height > 0,
            src_width > 0,
            src_height > 0,
            sw == src_width as nat,
            sh == src_height as nat,
            dw == dst_width as nat,
            dh == dst_height as nat,
            rgb@.len() == sw * sh,
            sw * sh <= u32::MAX,
            f == (|i: int| rgb@[nearest_source_index((i % dw as int) as nat, (i / dw as int) as nat, sw, sh, dw, dh)]),
            out@ == Seq::new(y as nat * dw, f),
        decreases dst_height - y,
    {
        proof {
            lemma_scaled_below(y as nat, sh, dh);
            assert((y as u64) * (src_height as u64) <= u64::MAX) by (nonlinear_arith)
                requires y <= u32::MAX, src_height <= u32::MAX;
        }
        let src_y = ((y as u64) * (src_height as u64) / (dst_height as u64)) as u32;
        let mut x: u32 = 0;
        while x < dst_width
            invariant
                x <= dst_width,
                y < dst_height,
                dst_width > 0,
                dst_height > 0,
                src_width > 0,
                src_height > 0,
                sw == src_width as nat,
                sh == src_height as nat,
                dw == dst_width as nat,
                dh == dst_height as nat,
                rgb@.len() == sw * sh,
                sw * sh <= u32::MAX,
                src_y as nat == y as nat * sh / dh,
                src_y < src_height,
                f == (|i: int| rgb@[nearest_source_index((i % dw as int) as nat, (i / dw as int) as nat, sw, sh, dw, dh)]),
                out@ == Seq::new(y as nat * dw + x as nat, f),
            decreases dst_width - x,
        {
            proof {
                assert((x as u64) * (src_width as u64) <= u64::MAX) by (nonlinear_arith)
                    requires x <= u32::MAX, src_width <= u32::MAX;
            }
            let src_x = ((x as u64) * (src_width as u64) / (dst_width as u64)) as u32;
            proof {
                lemma_scaled_below(x as nat, sw, dw);
                assert(src_y * sw + src_x < sw * sh) by (nonlinear_arith)
                    requires src_y < sh, src_x < sw;
                lemma_fundamental_div_mod_converse((y as nat * dw + x) as int, dw as int, y as int, x as int);
            }
            let index = (src_y * src_width + src_x) as usize;
            out.push(rgb[index]);
            proof {
                assert(nearest_source_index(x as nat, y as nat, sw, sh, dw, dh) == index as int);
                assert(out@ =~= Seq::new(y as nat * dw + x as nat + 1, f));
            }
            x = x + 1;
        }
        proof {
            assert(y as nat * dw + dw == (y as nat + 1) * dw) by (nonlinear_arith);
        }
        y = y + 1;
    }
    proof {
        assert(dh * dw == dw * dh) by (nonlinear_arith);
        assert(out@ =~= Seq::new(dw * dh, f));
    }
    Ok(out)
}


/// The channel bytes of the pixels, in order.
pub open spec fn flatten_rgb(rgb: Seq<[u8; 3]>) -> Seq<u8>
    decreases rgb.len(),
{
    if rgb.len() == 0 {
        seq![]
    } else {
        let p = rgb.last();
        flatten_rgb(rgb.drop_last()) + seq![p[0], p[1], p[2]]
    }
}

/// Number of non-zero bytes.
pub open spec fn count_nonzero(s: Seq<u8>) -> nat
    decreases s.len(),
{
    if s.len() == 0 {
        0
    } else {
        count_nonzero(s.drop_last()) + if s.last() != 0 {
            1nat
        } else {
            0nat
        }
    }
}

/// Smallest byte, or 255 for an empty sequence.
pub open spec fn fold_min(s: Seq<u8>) -> u8
    decreases s.len(),
{
    if s.len() == 0 {
        255
    } else {
        let m = fold_min(s.drop_last());
        if s.last() < m {
            s.last()
        } else {
            m
        }
    }
}

/// Largest byte, or 0 for an empty sequence.
pub open spec fn fold_max(s: Seq<u8>) -> u8
    decreases s.len(),
{
    if s.len() == 0 {
        0
    } else {
        let m = fold_max(s.drop_last());
        if s.last() > m {
            s.last()
        } else {
            m
        }
    }
}

/// A pixel with at least one non-zero channel.
pub open spec fn pixel_is_lit(p: [u8; 3]) -> bool {
    p[0] != 0 || p[1] != 0 || p[2] != 0
}

/// Number of pixels with at least one non-zero channel.
pub open spec fn count_lit_pixels(rgb: Seq<[u8; 3]>) -> nat
    decreases rgb.len(),
{
    if rgb.len() == 0 {
        0
    } else {
        count_lit_pixels(rgb.drop_last()) + if pixel_is_lit(rgb.last()) {
            1nat
        } else {
            0nat
        }
    }
}

/// The first `min(24, s.len())` bytes.
pub open spec fn sample_of(s: Seq<u8>) -> Seq<u8> {
    if s.len() < 24 {
        s
    } else {
        s.take(24)
    }
}

pub proof fn lemma_flatten_len(rgb: Seq<[u8; 3]>)
    ensures
        flatten_rgb(rgb).len() == 3 * rgb.len(),
    decreases rgb.len(),
{
    if rgb.len() > 0 {
        lemma_flatten_len(rgb.drop_last());
    }
}

pub proof fn lemma_count_nonzero_le(s: Seq<u8>)
    ensures
        count_nonzero(s) <= s.len(),
    decreases s.len(),
{
    if s.len() > 0 {
        lemma_count_nonzero_le(s.drop_last());
    }
}

pub proof fn lemma_count_lit_le(rgb: Seq<[u8; 3]>)
    ensures
        count_lit_pixels(rgb) <= rgb.len(),
    decreases rgb.len(),
{
    if rgb.len() > 0 {
        lemma_count_lit_le(rgb.drop_last());
    }
}

/// Statistics of an RGB buffer: pixel and byte counts, non-zero counts, the byte range
/// (0 and 0 for an empty buffer) and the first 24 channel bytes.
pub fn pixel_stats_from_rgb(rgb: &[[u8; 3]]) -> (st: PixelStats)
    requires
        rgb@.len() * 3 <= usize::MAX,
    ensures
        st.pixels == rgb@.len(),
        st.bytes == rgb@.len() * 3,
        st.nonzero_bytes == count_nonzero(flatten_rgb(rgb@)),
        st.nonzero_pixels == count_lit_pixels(rgb@),
        st.min == (if rgb@.len() == 0 { 0 } else { fold_min(flatten_rgb(rgb@)) }),
        st.max == fold_max(flatten_rgb(rgb@)),
        st.sample@ == sample_of(flatten_rgb(rgb@)),
{
    let mut bytes: Vec<u8> = Vec::new();
    let mut nonzero_bytes: usize = 0;
    let mut nonzero_pixels: usize = 0;
    let mut min: u8 = 255;
    let mut max: u8 = 0;
    let mut i: usize = 0;
    while i < rgb.len()
        invariant
            i <= rgb@.len(),
            rgb@.len() * 3 <= usize::MAX,
            nonzero_bytes == count_nonzero(flatten_rgb(rgb@.take(i as int))),
            nonzero_pixels == count_lit_pixels(rgb@.take(i as int)),
            min == fold_min(flatten_rgb(rgb@.take(i as int))),
            max == fold_max(flatten_rgb(rgb@.take(i as int))),
            bytes@ == sample_of(flatten_rgb(rgb@.take(i as int))),
        decreases rgb.len() - i,
    {
        let ghost before = flatten_rgb(rgb@.take(i as int));
        proof {
            assert(rgb@.take(i + 1).drop_last() =~= rgb@.take(i as int));
            lemma_flatten_len(rgb@.take(i as int));
            lemma_count_nonzero_le(before);
            lemma_count_lit_le(rgb@.take(i as int));
        }
        let pixel = rgb[i];
        if pixel[0] != 0 || pixel[1] != 0 || pixel[2] != 0 {
            nonzero_pixels = nonzero_pixels + 1;
        }
        let mut k: usize = 0;
        while k < 3
            invariant
                k <= 3,
                before == flatten_rgb(rgb@.take(i as int)),
                before.len() == 3 * i,
                i < rgb@.len(),
                rgb@.len() * 3 <= usize::MAX,
                pixel == rgb@[i as int],
                nonzero_bytes == count_nonzero(before + seq![pixel[0], pixel[1], pixel[2]].take(k as int)),
                min == fold_min(before + seq![pixel[0], pixel[1], pixel[2]].take(k as int)),
                max == fold_max(before + seq![pixel[0], pixel[1], pixel[2]].take(k as int)),
                bytes@ == sample_of(before + seq![pixel[0], pixel[1], pixel[2]].take(k as int)),
            decreases 3 - k,
        {
            let ghost cur = before + seq![pixel[0], pixel[1], pixel[2]].take(k as int);
            let channel = pixel[k];
            let ghost next = before + seq![pixel[0], pixel[1], pixel[2]].take(k + 1);
            proof {
                assert(next =~= cur.push(channel));
                assert(next.drop_last() =~= cur);
                lemma_count_nonzero_le(cur);
            }
            if channel != 0 {
                nonzero_bytes = nonzero_bytes + 1;
            }
            if channel < min {
                min = channel;
            }
            if channel > max {
                max = channel;
            }
            if bytes.len() < 24 {
                bytes.push(channel);
            }
            proof {
                assert(bytes@ =~= sample_of(next));
            }
            k = k + 1;
        }
        proof {
            assert(seq![pixel[0], pixel[1], pixel[2]].take(3) =~= seq![pixel[0], pixel[1], pixel[2]]);
            assert(flatten_rgb(rgb@.take(i + 1)) == before + seq![pixel[0], pixel[1], pixel[2]]);
            assert(pixel_is_lit(rgb@.take(i + 1).last()) == (pixel[0] != 0 || pixel[1] != 0 || pixel[2] != 0));
        }
        i = i + 1;
    }
    proof {
        assert(rgb@.take(i as int) =~= rgb@);
    }
    if rgb.len() == 0 {
        min = 0;
    }
    PixelStats {
        pixels: rgb.len(),
        bytes: rgb.len() * 3,
        nonzero_bytes,
        nonzero_pixels,
        min,
        max,
        sample: bytes,
    }
}


/// Whether some byte is non-zero.
pub open spec fn has_nonzero(s: Seq<u8>) -> bool {
    exists|i: int| 0 <= i < s.len() && s[i] != 0
}

/// Number of chunks of `stride` bytes (the last one possibly shorter), from `pos` on,
/// that hold a non-zero byte.
pub open spec fn lit_chunks_from(b: Seq<u8>, stride: nat, pos: int) -> nat
    decreases b.len() - pos,
{
    if pos < 0 || pos >= b.len() || stride == 0 {
        0
    } else {
        let end = if b.len() - pos > stride {
            pos + stride
        } else {
            b.len() as int
        };
        (if has_nonzero(b.subrange(pos, end)) {
            1nat
        } else {
            0nat
        }) + lit_chunks_from(b, stride, end)
    }
}

pub proof fn lemma_lit_chunks_le(b: Seq<u8>, stride: nat, pos: int)
    requires
        0 <= pos <= b.len(),
    ensures
        lit_chunks_from(b, stride, pos) <= b.len() - pos,
    decreases b.len() - pos,
{
    if pos < b.len() && stride > 0 {
        let end = if b.len() - pos > stride {
            pos + stride
        } else {
            b.len() as int
        };
        lemma_lit_chunks_le(b, stride, end);
    }
}

/// Statistics of a packed buffer of `stride`-byte pixels (a zero stride counts as 1):
/// whole pixels, bytes, non-zero counts, the byte range and the first 24 bytes.
pub fn pixel_stats_from_bytes(bytes: &[u8], stride: usize) -> (st: PixelStats)
    ensures
        st.pixels == bytes@.len() / (if stride == 0 { 1 } else { stride as nat }),
        st.bytes == bytes@.len(),
        st.nonzero_bytes == count_nonzero(bytes@),
        st.nonzero_pixels == lit_chunks_from(bytes@, if stride == 0 { 1 } else { stride as nat }, 0),
        st.min == (if bytes@.len() == 0 { 0 } else { fold_min(bytes@) }),
        st.max == fold_max(bytes@),
        st.sample@ == sample_of(bytes@),
{
    let stride = if stride == 0 {
        1
    } else {
        stride
    };
    let pixels = bytes.len() / stride;
    let mut nonzero_pixels: usize = 0;
    let mut pos: usize = 0;
    proof {
        lemma_lit_chunks_le(bytes@, stride as nat, 0);
    }
    while pos < bytes.len()
        invariant
            pos <= bytes@.len(),
            stride > 0,
            nonzero_pixels + lit_chunks_from(bytes@, stride as nat, pos as int) == lit_chunks_from(
                bytes@,
                stride as nat,
                0,
            ),
            lit_chunks_from(bytes@, stride as nat, 0) <= bytes@.len(),
        decreases bytes.len() - pos,
    {
        let end = if bytes.len() - pos > stride {
            pos + stride
        } else {
            bytes.len()
        };
        let mut lit = false;
        let mut j = pos;
        while j < end
            invariant
                pos <= j <= end <= bytes@.len(),
                lit == has_nonzero(bytes@.subrange(pos as int, j as int)),
            decreases end - j,
        {
            proof {
                let a = bytes@.subrange(pos as int, j as int);
                let c = bytes@.subrange(pos as int, j + 1);
                if has_nonzero(a) {
                    let w = choose|w: int| 0 <= w < a.len() && a[w] != 0;
                    assert(c[w] == a[w]);
                }
                if has_nonzero(c) && !has_nonzero(a) {
                    let w = choose|w: int| 0 <= w < c.len() && c[w] != 0;
                    if w < a.len() {
                        assert(a[w] == c[w]);
                    }
                }
                assert(c[j - pos] == bytes@[j as int]);
            }
            if bytes[j] != 0 {
                lit = true;
            }
            j = j + 1;
        }
        proof {
            lemma_lit_chunks_le(bytes@, stride as nat, end as int);
        }
        if lit {
            nonzero_pixels = nonzero_pixels + 1;
        }
        pos = end;
    }
    let mut nonzero_bytes: usize = 0;
    let mut min: u8 = 255;
    let mut max: u8 = 0;
    let mut sample: Vec<u8> = Vec::new();
    let mut i: usize = 0;
    while i < bytes.len()
        invariant
            i <= bytes@.len(),
            nonzero_bytes == count_nonzero(bytes@.take(i as int)),
            min == fold_min(bytes@.take(i as int)),
            max == fold_max(bytes@.take(i as int)),
            sample@ == sample_of(bytes@.take(i as int)),
        decreases bytes.len() - i,
    {
        proof {
            assert(bytes@.take(i + 1).drop_last() =~= bytes@.take(i as int));
            lemma_count_nonzero_le(bytes@.take(i as int));
        }
        let b = bytes[i];
        if b != 0 {
            nonzero_bytes = nonzero_bytes + 1;
        }
        if b < min {
            min = b;
        }
        if b > max {
            max = b;
        }
        if sample.len() < 24 {
            sample.push(b);
        }
        i = i + 1;
        proof {
            assert(sample@ =~= sample_of(bytes@.take(i as int)));
        }
    }
    proof {
        assert(bytes@.take(i as int) =~= bytes@);
    }
    if bytes.len() == 0 {
        min = 0;
    }
    PixelStats { pixels, bytes: bytes.len(), nonzero_bytes, nonzero_pixels, min, max, sample }
}

/// The FNV-1a offset basis.
pub open spec fn fnv_offset_basis() -> u64 {
    0xcbf29ce484222325
}

/// The FNV-1a 64-bit prime.
pub open spec fn fnv_prime() -> u64 {
    0x100000001b3
}

/// 64-bit FNV-1a over the bytes.
pub open spec fn spec_fnv1a(s: Seq<u8>) -> u64
    decreases s.len(),
{
    if s.len() == 0 {
        fnv_offset_basis()
    } else {
        let h = spec_fnv1a(s.drop_last()) ^ (s.last() as u64);
        ((h as nat * fnv_prime() as nat) % 0x1_0000_0000_0000_0000) as u64
    }
}

/// FNV-1a hash of the channel bytes of an RGB buffer.
pub fn rgb_content_hash(rgb: &[[u8; 3]]) -> (h: u64)
    ensures
        h == spec_fnv1a(flatten_rgb(rgb@)),
{
    let mut hash: u64 = 0xcbf29ce484222325;
    let mut i: usize = 0;
    while i < rgb.len()
        invariant
            i <= rgb@.len(),
            hash == spec_fnv1a(flatten_rgb(rgb@.take(i as int))),
        decreases rgb.len() - i,
    {
        let ghost before = flatten_rgb(rgb@.take(i as int));
        proof {
            assert(rgb@.take(i + 1).drop_last() =~= rgb@.take(i as int));
        }
        let pixel = rgb[i];
        let mut k: usize = 0;
        while k < 3
            invariant
                k <= 3,
                before == flatten_rgb(rgb@.take(i as int)),
                hash == spec_fnv1a(before + seq![pixel[0], pixel[1], pixel[2]].take(k as int)),
            decreases 3 - k,
        {
            let ghost cur = before + seq![pixel[0], pixel[1], pixel[2]].take(k as int);
            proof {
                let next = before + seq![pixel[0], pixel[1], pixel[2]].take(k + 1);
                assert(next.drop_last() =~= cur);
                assert(next.last() == pixel[k as int]);
            }
            hash = hash ^ (pixel[k] as u64);
            hash = hash.wrapping_mul(0x100000001b3);
            k = k + 1;
        }
        proof {
            assert(seq![pixel[0], pixel[1], pixel[2]].take(3) =~= seq![pixel[0], pixel[1], pixel[2]]);
            assert(rgb@.take(i + 1).last() == pixel);
        }
        i = i + 1;
    }
    proof {
        assert(rgb@.take(i as int) =~= rgb@);
    }
    hash
}

/// Every channel of every pixel is zero.
pub open spec fn spec_rgb_is_blank(rgb: Seq<[u8; 3]>) -> bool {
    forall|i: int| 0 <= i < rgb.len() ==> !pixel_is_lit(#[trigger] rgb[i])
}

/// Whether every channel of every pixel is zero.
pub fn rgb_is_blank(rgb: &[[u8; 3]]) -> (b: bool)
    ensures
        b == spec_rgb_is_blank(rgb@),
{
    let mut i: usize = 0;
    while i < rgb.len()
        invariant
            i <= rgb@.len(),
            forall|j: int| 0 <= j < i ==> !pixel_is_lit(#[trigger] rgb@[j]),
        decreases rgb.len() - i,
    {
        let p = rgb[i];
        if p[0] != 0 || p[1] != 0 || p[2] != 0 {
            assert(pixel_is_lit(rgb@[i as int]));
            return false;
        }
        i = i + 1;
    }
    true
}

/// `{}` of each sample byte, separated by commas.
pub open spec fn spec_sample_list(sample: Seq<u8>) -> Seq<char> {
    spec_join(sample.map_values(|b: u8| spec_decimal(b as nat)), ","@)
}

/// The one-line rendering of pixel statistics used in log lines.
pub open spec fn spec_format_pixel_stats(st: PixelStats) -> Seq<char> {
    "pixels="@ + spec_decimal(st.pixels as nat) + " bytes="@ + spec_decimal(st.bytes as nat)
        + " nonzero_pixels="@ + spec_decimal(st.nonzero_pixels as nat) + " nonzero_bytes="@
        + spec_decimal(st.nonzero_bytes as nat) + " min="@ + spec_decimal(st.min as nat) + " max="@
        + spec_decimal(st.max as nat) + " sample=["@ + spec_sample_list(st.sample@) + "]"@
}

/// Renders pixel statistics as `pixels=.. bytes=.. nonzero_pixels=.. nonzero_bytes=.. min=.. max=.. sample=[..]`.
pub fn format_pixel_stats(stats: &PixelStats) -> (r: String)
    ensures
        r@ == spec_format_pixel_stats(*stats),
{
    let mut r = String::from_str("pixels=");
    push_decimal(&mut r, stats.pixels as u64);
    r.append(" bytes=");
    push_decimal(&mut r, stats.bytes as u64);
    r.append(" nonzero_pixels=");
    push_decimal(&mut r, stats.nonzero_pixels as u64);
    r.append(" nonzero_bytes=");
    push_decimal(&mut r, stats.nonzero_bytes as u64);
    r.append(" min=");
    push_decimal(&mut r, stats.min as u64);
    r.append(" max=");
    push_decimal(&mut r, stats.max as u64);
    r.append(" sample=[");
    let ghost head = r@;
    let ghost parts = stats.sample@.map_values(|b: u8| spec_decimal(b as nat));
    let mut i: usize = 0;
    while i < stats.sample.len()
        invariant
            i <= stats.sample@.len(),
            parts == stats.sample@.map_values(|b: u8| spec_decimal(b as nat)),
            r@ == head + spec_join(parts.take(i as int), ","@),
        decreases stats.sample.len() - i,
    {
        assert(parts.take(i + 1).drop_last() =~= parts.take(i as int));
        if i > 0 {
            r.append(",");
        }
        push_decimal(&mut r, stats.sample[i] as u64);
        proof {
            if i == 0 {
                assert(spec_join(parts.take(1), ","@) == parts[0]);
            }
            assert(r@ =~= head + spec_join(parts.take(i + 1), ","@));
        }
        i = i + 1;
    }
    assert(parts.take(i as int) =~= parts);
    r.append("]");
    assert(r@ =~= spec_format_pixel_stats(*stats));
    r
}

/// What the debug snapshot shows of a frame's pixels: how many there are, how many of the
/// first 64 are lit, and the first 8 pixels themselves.
pub struct RgbSample {
    pub pixel_count: usize,
    pub sampled_pixels: usize,
    pub sampled_nonzero_pixels: usize,
    pub first_pixels: Vec<[u8; 3]>,
}

/// `min(a, b)` on lengths.
pub open spec fn min_len(a: nat, b: nat) -> nat {
    if a < b {
        a
    } else {
        b
    }
}

/// Samples the start of a frame: its first 8 pixels, and the number of lit pixels among
/// its first 64.
pub fn rgb_sample(rgb: &[[u8; 3]]) -> (r: RgbSample)
    ensures
        r.pixel_count == rgb@.len(),
        r.sampled_pixels == min_len(rgb@.len(), 64),
        r.sampled_nonzero_pixels == count_lit_pixels(rgb@.take(r.sampled_pixels as int)),
        r.first_pixels@ == rgb@.take(min_len(rgb@.len(), 8) as int),
{
    let n = rgb.len();
    let first = if n < 8 {
        n
    } else {
        8
    };
    let mut first_pixels: Vec<[u8; 3]> = Vec::new();
    let mut i: usize = 0;
    while i < first
        invariant
            first <= rgb@.len(),
            i <= first,
            first_pixels@ == rgb@.take(i as int),
        decreases first - i,
    {
        first_pixels.push(rgb[i]);
        i = i + 1;
        assert(first_pixels@ =~= rgb@.take(i as int));
    }
    let sampled = if n < 64 {
        n
    } else {
        64
    };
    let mut lit: usize = 0;
    let mut j: usize = 0;
    while j < sampled
        invariant
            sampled <= rgb@.len(),
            sampled <= 64,
            j <= sampled,
            lit == count_lit_pixels(rgb@.take(j as int)),
            lit <= j,
        decreases sampled - j,
    {
        let p = rgb[j];
        assert(rgb@.take(j + 1).drop_last() =~= rgb@.take(j as int));
        if p[0] != 0 || p[1] != 0 || p[2] != 0 {
            lit = lit + 1;
        }
        j = j + 1;
    }
    RgbSample { pixel_count: n, sampled_pixels: sampled, sampled_nonzero_pixels: lit, first_pixels }
}

} // verus!
