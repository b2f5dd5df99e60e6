//! Frame preview files: file-name sanitising and the encoding of an RGB frame
//! as an uncompressed 24-bit BMP image, scaled up by pixel replication.

use vstd::prelude::*;
use vstd::string::*;
use vstd::arithmetic::div_mod::lemma_fundamental_div_mod_converse;
use crate::text::{chars_of, push_char};

verus! {

/// Characters that file names keep as they are.
pub open spec fn filename_safe(c: char) -> bool {
    ('0' <= c <= '9') || ('a' <= c <= 'z') || ('A' <= c <= 'Z') || c == '-' || c == '_' || c == '.'
}

/// Every unsafe character replaced by `_`; `none` for an empty input.
pub open spec fn spec_sanitize_filename_part(s: Seq<char>) -> Seq<char> {
    if s.len() == 0 {
        "none"@
    } else {
        s.map_values(|c: char| if filename_safe(c) { c } else { '_' })
    }
}

/// Makes a string safe to use inside a file name.
pub fn sanitize_filename_part(value: &str) -> (r: String)
    ensures
        r@ == spec_sanitize_filename_part(value@),
{
    let chars = chars_of(value);
    let mut r = String::new();
    let mut i: usize = 0;
    while i < chars.len()
        invariant
            i <= chars@.len(),
            r@ == chars@.take(i as int).map_values(|c: char| if filename_safe(c) { c } else { '_' }),
        decreases chars.len() - i,
    {
        let c = chars[i];
        let safe = ('0' <= c && c <= '9') || ('a' <= c && c <= 'z') || ('A' <= c && c <= 'Z') || c
            == '-' || c == '_' || c == '.';
        if safe {
            push_char(&mut r, c);
        } else {
            push_char(&mut r, '_');
        }
        i = i + 1;
        assert(r@ =~= chars@.take(i as int).map_values(|c: char| if filename_safe(c) { c } else { '_' }));
    }
    assert(chars@.take(i as int) =~= chars@);
    if chars.len() == 0 {
        r.append("none");
    }
    r
}


/// Little-endian bytes of a 16-bit value.
pub open spec fn le16(v: nat) -> Seq<u8> {
    seq![(v % 256) as u8, (v / 256 % 256) as u8]
}

/// Little-endian bytes of a 32-bit value (a signed value is written through its bit pattern).
pub open spec fn le32(v: nat) -> Seq<u8> {
    seq![(v % 256) as u8, (v / 256 % 256) as u8, (v / 65536 % 256) as u8, (v / 16777216 % 256) as u8]
}

/// The 54-byte file and info header of a bottom-up 24-bit BMP at 2835 pixels per metre.
pub open spec fn bmp_header(file_size: nat, width: nat, height: nat, image_size: nat) -> Seq<u8> {
    seq![0x42u8, 0x4du8] + le32(file_size) + le16(0) + le16(0) + le32(54) + le32(40) + le32(width)
        + le32(height) + le16(1) + le16(24) + le32(0) + le32(image_size) + le32(2835) + le32(2835)
        + le32(0) + le32(0)
}

/// Bytes per output row: three per pixel, padded to a multiple of four.
pub open spec fn bmp_row_stride(out_width: nat) -> nat {
    ((out_width * 3 + 3) / 4) * 4
}

/// The source pixel that output pixel `(x, y)` replicates.
pub open spec fn preview_source(width: nat, height: nat, scale: nat, x: nat, y: nat) -> int {
    let sy = if y / scale < height - 1 { y / scale } else { if height >= 1 { (height - 1) as nat } else { 0 } };
    let sx = if x / scale < width - 1 { x / scale } else { if width >= 1 { (width - 1) as nat } else { 0 } };
    (sy * width + sx) as int
}

/// Byte `p` of the pixel data: rows run bottom-up, each pixel is written blue, green, red,
/// and the row padding is zero.
pub open spec fn bmp_body_byte(rgb: Seq<[u8; 3]>, width: nat, height: nat, scale: nat, p: int) -> u8 {
    let out_width = width * scale;
    let out_height = height * scale;
    let stride = bmp_row_stride(out_width);
    let row = p / stride as int;
    let col = p % stride as int;
    let y = out_height - 1 - row;
    if col < 3 * out_width {
        let px = rgb[preview_source(width, height, scale, (col / 3) as nat, y as nat)];
        let k = col % 3;
        if k == 0 {
            px[2]
        } else if k == 1 {
            px[1]
        } else {
            px[0]
        }
    } else {
        0
    }
}

/// The scale that is applied: a zero scale counts as 1.
pub open spec fn effective_scale(scale: u32) -> nat {
    if scale == 0 {
        1
    } else {
        scale as nat
    }
}

/// Inputs on which computing the padded row stride overflows `u32` (once both scaled sizes fit).
pub open spec fn preview_stride_overflows(width: u32, height: u32, scale: u32) -> bool {
    let s = effective_scale(scale);
    width * s <= u32::MAX && height * s <= u32::MAX && width * s * 3 + 3 > u32::MAX
}

/// The BMP file for a `width`x`height` frame scaled by `scale`, or why it cannot be written.
pub open spec fn spec_frame_preview_bmp(width: u32, height: u32, rgb: Seq<[u8; 3]>, scale: u32) -> Result<Seq<u8>, Seq<char>> {
    let s = effective_scale(scale);
    let out_width: nat = width as nat * s;
    let out_height: nat = height as nat * s;
    if out_width > u32::MAX {
        Err("frame preview width overflow"@)
    } else if out_height > u32::MAX {
        Err("frame preview height overflow"@)
    } else if bmp_row_stride(out_width) * out_height > u32::MAX {
        Err("frame preview image size overflow"@)
    } else if 54 + bmp_row_stride(out_width) * out_height > u32::MAX {
        Err("frame preview file size overflow"@)
    } else if width * height > u32::MAX {
        Err("frame preview source pixel count overflow"@)
    } else if rgb.len() < width * height {
        Err("frame preview source pixel buffer is incomplete"@)
    } else {
        let image_size: nat = bmp_row_stride(out_width) * out_height;
        Ok(
            bmp_header(54 + image_size, out_width, out_height, image_size) + Seq::new(
                image_size,
                |p: int| bmp_body_byte(rgb, width as nat, height as nat, s, p),
            ),
        )
    }
}

fn push_le16(out: &mut Vec<u8>, v: u16)
    ensures
        final(out)@ == old(out)@ + le16(v as nat),
{
    out.push((v % 256) as u8);
    out.push((v / 256 % 256) as u8);
    assert(final(out)@ =~= old(out)@ + le16(v as nat));
}

fn push_le32(out: &mut Vec<u8>, v: u32)
    ensures
        final(out)@ == old(out)@ + le32(v as nat),
{
    out.push((v % 256) as u8);
    out.push((v / 256 % 256) as u8);
    out.push((v / 65536 % 256) as u8);
    out.push((v / 16777216 % 256) as u8);
    assert(final(out)@ =~= old(out)@ + le32(v as nat));
}

proof fn lemma_body_position(stride: nat, row: nat, col: nat)
    requires
        col < stride,
    ensures
        (row * stride + col) as int / stride as int == row,
        (row * stride + col) as int % stride as int == col,
{
    lemma_fundamental_div_mod_converse((row * stride + col) as int, stride as int, row as int, col as int);
}

proof fn lemma_pixel_position(x: nat, k: nat)
    requires
        k < 3,
    ensures
        (3 * x + k) as int / 3 == x,
        (3 * x + k) as int % 3 == k,
{
}

/// Encodes a frame as a 24-bit BMP file, each source pixel replicated into a
/// `scale`x`scale` block.
pub fn frame_preview_bmp(width: u32, height: u32, rgb: &[[u8; 3]], scale: u32) -> (r: Result<Vec<u8>, String>)
    requires
        !preview_stride_overflows(width, height, scale),
    ensures
        match spec_frame_preview_bmp(width, height, rgb@, scale) {
            Ok(bytes) => r matches Ok(v) && v@ == bytes,
            Err(msg) => r matches Err(e) && e@ == msg,
        },
{
    let scale = if scale == 0 {
        1
    } else {
        scale
    };
    let out_width = match width.checked_mul(scale) {
        Some(v) => v,
        None => return Err(String::from_str("frame preview width overflow")),
    };
    let out_height = match height.checked_mul(scale) {
        Some(v) => v,
        None => return Err(String::from_str("frame preview height overflow")),
    };
    let row_stride = ((out_width * 3 + 3) / 4) * 4;
    let image_size = match row_stride.checked_mul(out_height) {
        Some(v) => v,
        None => return Err(String::from_str("frame preview image size overflow")),
    };
    let file_size = match 54u32.checked_add(image_size) {
        Some(v) => v,
        None => return Err(String::from_str("frame preview file size overflow")),
    };
    let expected_pixels = match width.checked_mul(height) {
        Some(v) => v,
        None => return Err(String::from_str("frame preview source pixel count overflow")),
    };
    if rgb.len() < expected_pixels as usize {
        return Err(String::from_str("frame preview source pixel buffer is incomplete"));
    }
    let mut bytes: Vec<u8> = Vec::new();
    bytes.push(0x42);
    bytes.push(0x4d);
    push_le32(&mut bytes, file_size);
    push_le16(&mut bytes, 0);
    push_le16(&mut bytes, 0);
    push_le32(&mut bytes, 54);
    push_le32(&mut bytes, 40);
    push_le32(&mut bytes, out_width);
    push_le32(&mut bytes, out_height);
    push_le16(&mut bytes, 1);
    push_le16(&mut bytes, 24);
    push_le32(&mut bytes, 0);
    push_le32(&mut bytes, image_size);
    push_le32(&mut bytes, 2835);
    push_le32(&mut bytes, 2835);
    push_le32(&mut bytes, 0);
    push_le32(&mut bytes, 0);
    let ghost header = bmp_header(file_size as nat, out_width as nat, out_height as nat, image_size as nat);
    assert(bytes@ =~= header);
    let ghost s = scale as nat;
    let ghost f = |p: int| bmp_body_byte(rgb@, width as nat, height as nat, s, p);
    let padding = row_stride - out_width * 3;
    let mut row: u32 = 0;
    while row < out_height
        invariant
            row <= out_height,
            scale >= 1,
            s == scale as nat,
            out_width == width * scale,
            out_height == height * scale,
            row_stride == bmp_row_stride(out_width as nat),
            row_stride == out_width * 3 + padding,
            row_stride * out_height <= u32::MAX,
            width * height <= u32::MAX,
            rgb@.len() >= width * height,
            f == (|p: int| bmp_body_byte(rgb@, width as nat, height as nat, s, p)),
            bytes@ == header + Seq::new((row * row_stride) as nat, f),
        decreases out_height - row,
    {
        let out_y = out_height - 1 - row;
        let sy = out_y / scale;
        let src_y = if sy < height.saturating_sub(1) { sy } else { height.saturating_sub(1) };
        proof {
            assert(out_y < out_height);
            assert(height >= 1) by (nonlinear_arith)
                requires out_y < height * scale;
        }
        let mut out_x: u32 = 0;
        while out_x < out_width
            invariant
                out_x <= out_width,
                row < out_height,
                out_y == out_height - 1 - row,
                height >= 1,
                src_y < height,
                src_y as nat == (if (out_y as nat) / s < height - 1 { (out_y as nat) / s } else { (height - 1) as nat }),
                scale >= 1,
                s == scale as nat,
                out_width == width * scale,
                out_height == height * scale,
                row_stride == bmp_row_stride(out_width as nat),
                row_stride == out_width * 3 + padding,
                row_stride * out_height <= u32::MAX,
                width * height <= u32::MAX,
                rgb@.len() >= width * height,
                f == (|p: int| bmp_body_byte(rgb@, width as nat, height as nat, s, p)),
                bytes@ == header + Seq::new((row * row_stride + 3 * out_x) as nat, f),
            decreases out_width - out_x,
        {
            let sx = out_x / scale;
            let src_x = if sx < width.saturating_sub(1) { sx } else { width.saturating_sub(1) };
            proof {
                assert(width >= 1) by (nonlinear_arith)
                    requires out_x < width * scale;
                assert(src_y * width + src_x < width * height) by (nonlinear_arith)
                    requires src_y < height, src_x < width;
            }
            let index = (src_y * width + src_x) as usize;
            let px = rgb[index];
            proof {
                assert(preview_source(width as nat, height as nat, s, out_x as nat, out_y as nat) == index as int);
                assert(row * row_stride + 3 * out_x + 2 < (row + 1) * row_stride) by (nonlinear_arith)
                    requires out_x < out_width, row_stride == out_width * 3 + padding;
                assert(row * row_stride + 3 * out_x + 2 <= row_stride * out_height) by (nonlinear_arith)
                    requires row < out_height, row * row_stride + 3 * out_x + 2 < (row + 1) * row_stride;
            }
            let ghost base = (row * row_stride + 3 * out_x) as nat;
            proof {
                assert(f(base as int) == px[2]) by {
                    lemma_body_position(row_stride as nat, row as nat, 3 * out_x as nat);
                    lemma_pixel_position(out_x as nat, 0);
                }
                assert(f(base as int + 1) == px[1]) by {
                    lemma_body_position(row_stride as nat, row as nat, 3 * out_x as nat + 1);
                    lemma_pixel_position(out_x as nat, 1);
                }
                assert(f(base as int + 2) == px[0]) by {
                    lemma_body_position(row_stride as nat, row as nat, 3 * out_x as nat + 2);
                    lemma_pixel_position(out_x as nat, 2);
                }
            }
            bytes.push(px[2]);
            bytes.push(px[1]);
            bytes.push(px[0]);
            proof {
                assert(bytes@ =~= header + Seq::new(base + 3, f));
            }
            out_x = out_x + 1;
        }
        let mut k: u32 = 0;
        while k < padding
            invariant
                k <= padding,
                row < out_height,
                scale >= 1,
                s == scale as nat,
                out_width == width * scale,
                out_height == height * scale,
                row_stride == bmp_row_stride(out_width as nat),
                row_stride == out_width * 3 + padding,
                row_stride * out_height <= u32::MAX,
                width * height <= u32::MAX,
                rgb@.len() >= width * height,
                f == (|p: int| bmp_body_byte(rgb@, width as nat, height as nat, s, p)),
                bytes@ == header + Seq::new((row * row_stride + 3 * out_width + k) as nat, f),
            decreases padding - k,
        {
            let ghost pos = (row * row_stride + 3 * out_width + k) as nat;
            proof {
                lemma_body_position(row_stride as nat, row as nat, (3 * out_width + k) as nat);
                assert(f(pos as int) == 0);
            }
            bytes.push(0);
            proof {
                assert(bytes@ =~= header + Seq::new(pos + 1, f));
            }
            k = k + 1;
        }
        proof {
            assert(row * row_stride + 3 * out_width + padding == (row + 1) * row_stride) by (nonlinear_arith)
                requires row_stride == out_width * 3 + padding;
        }
        row = row + 1;
    }
    proof {
        assert(out_height * row_stride == image_size) by (nonlinear_arith)
            requires image_size == row_stride * out_height;
    }
    Ok(bytes)
}


/// Whether computing the padded row stride for these inputs overflows `u32`.
pub fn preview_stride_would_overflow(width: u32, height: u32, scale: u32) -> (r: bool)
    ensures
        r == preview_stride_overflows(width, height, scale),
{
    let s: u64 = if scale == 0 {
        1
    } else {
        scale as u64
    };
    assert((width as u64) * s <= u64::MAX) by (nonlinear_arith)
        requires width <= u32::MAX, s <= u32::MAX;
    assert((height as u64) * s <= u64::MAX) by (nonlinear_arith)
        requires height <= u32::MAX, s <= u32::MAX;
    let ow = (width as u64) * s;
    let oh = (height as u64) * s;
    ow <= 0xffff_ffff && oh <= 0xffff_ffff && ow * 3 + 3 > 0xffff_ffff
}

} // verus!
