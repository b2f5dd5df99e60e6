//! Properties that relate the functions of this library to each other, or hold
//! of every input; each is proved over the specifications the functions ensure.

use vstd::prelude::*;
use crate::paths::{
    spec_utf16, utf16_units,
    body_start, cut_point, has_physical_root, is_ascii_alpha, is_dot, is_sep, is_sep_in, last_piece, last_sep_in,
    lemma_last_sep_in_bounds, spec_join_path, spec_parent_path, spec_prefix, starts_with_cur_dir, trim_back,
    PathPrefix,
};
use crate::preview::{bmp_header, bmp_row_stride, effective_scale, filename_safe, le32, spec_frame_preview_bmp, spec_sanitize_filename_part};
use crate::proxy::{attached_counters, counters_after, max_bootstrap_attempts, BootstrapChange};
use crate::runtime_debug::{spec_frame_preview_file_name, spec_snapshot_write_due, spec_truncate_debug_reason};
use crate::shared::{find_build_from, game_exe_name, validate_plugin_result, PluginManifest, PluginState};
use crate::text::spec_to_ascii_lowercase;
use crate::memory::{spec_hex_or_zero, spec_parse_hex_u64_local, strip_rva};
use crate::pe::{le_u16, le_u64, section_at, spec_va_lookup, RawLookup, all_items, failure_lines, le_u32, lookup_from, signature_checks_in_range, spec_byte_check, spec_pe_parse, spec_verify_signature_bytes, CheckItem, PeSection, SignatureGroup, parse_hex_tokens, spec_hex_bytes, spec_parse_hex_bytes, spec_strip_0x, strip_0x_from};
use crate::text::{
    hex_value, all_hex_digits, hex_digits_value, is_ws, lemma_hex_digit_value, lemma_parse_hex_digits,
    lemma_parse_spec_hex, lemma_spec_hex_digits, lemma_token_end_bounds, spec_hex, spec_hex_padded,
    spec_decimal, dec_digit, hex_digit, spec_join, spec_parse_hex, spec_split_ws, spec_trim, split_ws_from, token_end_from, IntErrorKind,
};
use crate::pixels::{
    count_lit_pixels, count_nonzero, flatten_rgb, has_nonzero, lit_chunks_from, fold_max, fold_min, pixel_is_lit, nearest_source_index,
    spec_resize_rgb_nearest, spec_rgb_is_blank, lemma_flatten_len,
};

use vstd::arithmetic::div_mod::lemma_fundamental_div_mod_converse;

verus! {

proof fn lemma_flatten_index(rgb: Seq<[u8; 3]>, i: int, k: int)
    requires
        0 <= i < rgb.len(),
        0 <= k < 3,
    ensures
        flatten_rgb(rgb)[3 * i + k] == rgb[i][k],
        flatten_rgb(rgb).len() == 3 * rgb.len(),
    decreases rgb.len(),
{
    lemma_flatten_len(rgb);
    lemma_flatten_len(rgb.drop_last());
    if i < rgb.len() - 1 {
        lemma_flatten_index(rgb.drop_last(), i, k);
    }
}

proof fn lemma_count_nonzero_zero(s: Seq<u8>)
    ensures
        count_nonzero(s) == 0 <==> forall|j: int| 0 <= j < s.len() ==> s[j] == 0,
    decreases s.len(),
{
    if s.len() > 0 {
        lemma_count_nonzero_zero(s.drop_last());
        if count_nonzero(s) == 0 {
            assert forall|j: int| 0 <= j < s.len() implies s[j] == 0 by {
                if j < s.len() - 1 {
                    assert(s.drop_last()[j] == s[j]);
                }
            }
        }
        if forall|j: int| 0 <= j < s.len() ==> s[j] == 0 {
            assert forall|j: int| 0 <= j < s.drop_last().len() implies s.drop_last()[j] == 0 by {
                assert(s.drop_last()[j] == s[j]);
            }
            assert(s.last() == s[s.len() - 1]);
        }
    }
}

proof fn lemma_count_lit_zero(rgb: Seq<[u8; 3]>)
    ensures
        count_lit_pixels(rgb) == 0 <==> spec_rgb_is_blank(rgb),
    decreases rgb.len(),
{
    if rgb.len() > 0 {
        lemma_count_lit_zero(rgb.drop_last());
        if count_lit_pixels(rgb) == 0 {
            assert forall|j: int| 0 <= j < rgb.len() implies !pixel_is_lit(#[trigger] rgb[j]) by {
                if j < rgb.len() - 1 {
                    assert(rgb.drop_last()[j] == rgb[j]);
                }
            }
        }
        if spec_rgb_is_blank(rgb) {
            assert forall|j: int| 0 <= j < rgb.drop_last().len() implies !pixel_is_lit(#[trigger] rgb.drop_last()[j]) by {
                assert(rgb.drop_last()[j] == rgb[j]);
            }
            assert(!pixel_is_lit(rgb[rgb.len() - 1]));
        }
    }
}

/// A frame is blank exactly when its statistics count no lit pixel, and exactly when
/// they count no non-zero byte: `rgb_is_blank` and `pixel_stats_from_rgb` agree.
pub proof fn law_blank_iff_no_lit_pixels(rgb: Seq<[u8; 3]>)
    ensures
        spec_rgb_is_blank(rgb) <==> count_lit_pixels(rgb) == 0,
        spec_rgb_is_blank(rgb) <==> count_nonzero(flatten_rgb(rgb)) == 0,
{
    lemma_count_lit_zero(rgb);
    lemma_count_nonzero_zero(flatten_rgb(rgb));
    lemma_flatten_len(rgb);
    if spec_rgb_is_blank(rgb) {
        assert forall|j: int| 0 <= j < flatten_rgb(rgb).len() implies flatten_rgb(rgb)[j] == 0 by {
            let i = j / 3;
            let k = j % 3;
            lemma_flatten_index(rgb, i, k);
            assert(!pixel_is_lit(rgb[i]));
        }
    }
    if count_nonzero(flatten_rgb(rgb)) == 0 {
        assert forall|i: int| 0 <= i < rgb.len() implies !pixel_is_lit(#[trigger] rgb[i]) by {
            lemma_flatten_index(rgb, i, 0);
            lemma_flatten_index(rgb, i, 1);
            lemma_flatten_index(rgb, i, 2);
        }
    }
}

proof fn lemma_fold_min_le(s: Seq<u8>, j: int)
    requires
        0 <= j < s.len(),
    ensures
        fold_min(s) <= s[j],
        s[j] <= fold_max(s),
    decreases s.len(),
{
    if j < s.len() - 1 {
        assert(s.drop_last()[j] == s[j]);
        lemma_fold_min_le(s.drop_last(), j);
    }
}

/// The byte range of the statistics is a range: over a non-empty buffer the smallest
/// byte is at most the largest, and every byte lies between them.
pub proof fn law_stats_range_contains_every_byte(s: Seq<u8>, j: int)
    requires
        0 <= j < s.len(),
    ensures
        fold_min(s) <= s[j] <= fold_max(s),
        fold_min(s) <= fold_max(s),
{
    lemma_fold_min_le(s, j);
}

/// Nearest-neighbour resizing never invents colours: every output pixel is a copy of
/// some input pixel.
pub proof fn law_resize_only_copies_input_pixels(rgb: Seq<[u8; 3]>, sw: nat, sh: nat, dw: nat, dh: nat, i: int)
    requires
        spec_resize_rgb_nearest(rgb, sw, sh, dw, dh) is Ok,
        0 <= i < spec_resize_rgb_nearest(rgb, sw, sh, dw, dh)->Ok_0.len(),
    ensures
        exists|j: int| 0 <= j < rgb.len() && spec_resize_rgb_nearest(rgb, sw, sh, dw, dh)->Ok_0[i] == rgb[j],
{
    let out = spec_resize_rgb_nearest(rgb, sw, sh, dw, dh)->Ok_0;
    if sw == dw && sh == dh {
        assert(out[i] == rgb[i]);
    } else {
        let x = (i % dw as int) as nat;
        let y = (i / dw as int) as nat;
        assert(0 <= i % (dw as int) < dw);
        assert(i < dw * dh);
        assert(i / (dw as int) < dh) by (nonlinear_arith)
            requires 0 <= i < dw * dh, dw > 0;
        assert(y * sh / dh < sh && x * sw / dw < sw) by {
            assert(y * sh < dh * sh) by (nonlinear_arith) requires y < dh, sh > 0;
            assert(x * sw < dw * sw) by (nonlinear_arith) requires x < dw, sw > 0;
            vstd::arithmetic::div_mod::lemma_multiply_divide_lt((y * sh) as int, dh as int, sh as int);
            vstd::arithmetic::div_mod::lemma_multiply_divide_lt((x * sw) as int, dw as int, sw as int);
        }
        let j = ((y * sh / dh) * sw + x * sw / dw) as int;
        assert(0 <= j < sw * sh) by (nonlinear_arith)
            requires y * sh / dh < sh, x * sw / dw < sw, j == (y * sh / dh) * sw + x * sw / dw, y * sh / dh >= 0, x * sw / dw >= 0;
        assert(out[i] == rgb[j]);
    }
}


proof fn lemma_trim_plain(s: Seq<char>)
    requires
        s.len() >= 1,
        !is_ws(s[0]),
        !is_ws(s.last()),
    ensures
        spec_trim(s) == s,
{
    assert(s.subrange(0, s.len() as int) =~= s);
    assert(s.subrange(0, s.len() as int).subrange(0, s.len() as int) =~= s);
}

/// Every address rendering of the library parses back: `parse_hex_u64_local` inverts
/// `hex_u64` and `format_hex_or_zero`.
pub proof fn law_hex_address_round_trip(v: u64)
    ensures
        spec_parse_hex_u64_local("0x"@ + spec_hex(v as nat)) == Some(v),
        spec_parse_hex_u64_local(spec_hex_or_zero(v as nat)) == Some(v),
{
    reveal_strlit("0x");
    reveal_strlit("rva:");
    reveal_strlit("0");
    let h = spec_hex(v as nat);
    lemma_spec_hex_digits(v as nat);
    lemma_parse_spec_hex(v as nat, u64::MAX as nat);
    let s = "0x"@ + h;
    assert(s[0] == '0');
    assert(s[1] == 'x');
    assert(s.last() == h.last());
    assert(!is_ws(h[h.len() - 1]));
    lemma_trim_plain(s);
    assert(strip_rva(s) == s) by {
        if s.len() >= 4 && s.take(4) == "rva:"@ {
            assert(s.take(4)[0] == 'r');
        }
    }
    assert(strip_0x_from(s, 2) == 2) by {
        if s.len() >= 4 && s[2] == '0' {
            assert(h[0] == '0');
        }
    }
    assert(strip_0x_from(s, 0) == 2);
    assert(spec_strip_0x(s) =~= h);
    if v == 0 {
        assert(spec_hex(0) =~= "0"@);
        let z = "0"@;
        assert(!is_ws(z[0]));
        lemma_trim_plain(z);
        assert(strip_rva(z) == z);
        assert(strip_0x_from(z, 0) == 0);
        assert(spec_strip_0x(z) =~= z);
    }
}


proof fn lemma_token_end_shift(a: Seq<char>, r: Seq<char>, j: int)
    requires
        0 <= j <= r.len(),
    ensures
        token_end_from(a + r, a.len() + j) == a.len() + token_end_from(r, j),
    decreases r.len() - j,
{
    if j < r.len() {
        assert((a + r)[a.len() + j] == r[j]);
        if !is_ws(r[j]) {
            lemma_token_end_shift(a, r, j + 1);
        }
    }
}

proof fn lemma_split_shift(a: Seq<char>, r: Seq<char>, j: int)
    requires
        0 <= j <= r.len(),
    ensures
        split_ws_from(a + r, a.len() + j) == split_ws_from(r, j),
    decreases r.len() - j,
{
    if j < r.len() {
        assert((a + r)[a.len() + j] == r[j]);
        if is_ws(r[j]) {
            lemma_split_shift(a, r, j + 1);
        } else {
            lemma_token_end_shift(a, r, j);
            lemma_token_end_bounds(r, j);
            let b = token_end_from(r, j);
            lemma_split_shift(a, r, b);
            assert((a + r).subrange(a.len() + j, a.len() + b) =~= r.subrange(j, b));
        }
    }
}

proof fn lemma_token_end_run(s: Seq<char>, i: int, e: int)
    requires
        0 <= i <= e <= s.len(),
        forall|k: int| i <= k < e ==> !is_ws(#[trigger] s[k]),
        e == s.len() || is_ws(s[e]),
    ensures
        token_end_from(s, i) == e,
    decreases e - i,
{
    if i < e {
        lemma_token_end_run(s, i + 1, e);
    }
}

/// No whitespace inside, and not empty.
pub open spec fn is_plain_token(t: Seq<char>) -> bool {
    t.len() >= 1 && forall|k: int| 0 <= k < t.len() ==> !is_ws(#[trigger] t[k])
}

proof fn lemma_join_front(parts: Seq<Seq<char>>, sep: Seq<char>)
    requires
        parts.len() >= 2,
    ensures
        spec_join(parts, sep) == parts[0] + sep + spec_join(parts.drop_first(), sep),
    decreases parts.len(),
{
    if parts.len() > 2 {
        lemma_join_front(parts.drop_last(), sep);
        assert(parts.drop_last().drop_first() =~= parts.drop_first().drop_last());
        assert(parts.drop_first().last() == parts.last());
        assert(parts.drop_last()[0] == parts[0]);
        assert(spec_join(parts.drop_first(), sep) == spec_join(parts.drop_first().drop_last(), sep) + sep
            + parts.drop_first().last());
        assert(spec_join(parts, sep) == spec_join(parts.drop_last(), sep) + sep + parts.last());
        assert(spec_join(parts, sep) =~= parts[0] + sep + spec_join(parts.drop_first(), sep));
    } else {
        assert(parts.drop_first().len() == 1);
        assert(parts.drop_last().len() == 1);
        assert(spec_join(parts.drop_first(), sep) == parts[1]);
        assert(spec_join(parts.drop_last(), sep) == parts[0]);
    }
}

/// Splitting at whitespace undoes joining plain tokens with single spaces.
pub proof fn lemma_split_join(parts: Seq<Seq<char>>)
    requires
        forall|i: int| 0 <= i < parts.len() ==> is_plain_token(#[trigger] parts[i]),
    ensures
        spec_split_ws(spec_join(parts, " "@)) == parts,
    decreases parts.len(),
{
    reveal_strlit(" ");
    if parts.len() == 0 {
        assert(spec_split_ws(seq![]) =~= parts);
    } else if parts.len() == 1 {
        let p = parts[0];
        assert(is_plain_token(p));
        lemma_token_end_run(p, 0, p.len() as int);
        assert(p.subrange(0, p.len() as int) =~= p);
        assert(split_ws_from(p, 0) == seq![p] + split_ws_from(p, p.len() as int));
        assert(spec_split_ws(p) =~= parts);
    } else {
        let p = parts[0];
        assert(is_plain_token(p));
        let rest = parts.drop_first();
        assert forall|i: int| 0 <= i < rest.len() implies is_plain_token(#[trigger] rest[i]) by {
            assert(rest[i] == parts[i + 1]);
        }
        lemma_split_join(rest);
        lemma_join_front(parts, " "@);
        let j = spec_join(rest, " "@);
        let s = p + " "@ + j;
        assert(s[p.len() as int] == ' ');
        assert forall|k: int| 0 <= k < p.len() implies !is_ws(#[trigger] s[k]) by {
            assert(s[k] == p[k]);
        }
        lemma_token_end_run(s, 0, p.len() as int);
        assert(s.subrange(0, p.len() as int) =~= p);
        assert(split_ws_from(s, p.len() as int) == split_ws_from(s, p.len() as int + 1));
        lemma_split_shift(p + " "@, j, 0);
        assert(split_ws_from(s, 0) == seq![p] + split_ws_from(s, p.len() as int));
        assert(seq![p] + rest =~= parts);
    }
}

proof fn lemma_byte_token(b: u8)
    ensures
        is_plain_token(spec_hex_padded(b as nat, 2)),
        spec_parse_hex(spec_hex_padded(b as nat, 2), 255) == Ok::<nat, IntErrorKind>(b as nat),
{
    let n = b as nat;
    lemma_spec_hex_digits(n);
    if n < 16 {
        lemma_hex_digit_value(0);
        let t = spec_hex_padded(n, 2);
        assert(t =~= seq!['0'] + spec_hex(n));
        assert(t[0] == '0');
        assert(t[1] == spec_hex(n)[0]);
        assert(t.drop_last() =~= seq!['0']);
        assert(seq!['0'].drop_last() =~= Seq::<char>::empty());
        assert('0' as u32 == 48);
        assert(hex_value('0') == Some(0nat));
        assert(hex_digits_value(Seq::<char>::empty()) == 0);
        assert(hex_digits_value(seq!['0']) == 0);
        assert(hex_digits_value(t) == n);
        assert(all_hex_digits(t));
        lemma_parse_hex_digits(t, 255);
    } else {
        assert(spec_hex(n / 16).len() == 1);
        assert(spec_hex(n).len() == 2);
        assert(spec_hex_padded(n, 2) == spec_hex(n));
        lemma_parse_hex_digits(spec_hex(n), 255);
    }
}

proof fn lemma_parse_byte_tokens(b: Seq<u8>)
    ensures
        parse_hex_tokens(b.map_values(|x: u8| spec_hex_padded(x as nat, 2))) == Ok::<Seq<u8>, Seq<char>>(b),
    decreases b.len(),
{
    let toks = b.map_values(|x: u8| spec_hex_padded(x as nat, 2));
    if b.len() > 0 {
        lemma_byte_token(b[0]);
        lemma_parse_byte_tokens(b.drop_first());
        assert(toks[0] == spec_hex_padded(b[0] as nat, 2));
        assert(spec_parse_hex(toks[0], 255) == Ok::<nat, IntErrorKind>(b[0] as nat));
        assert(toks.drop_first() =~= b.drop_first().map_values(|x: u8| spec_hex_padded(x as nat, 2)));
        assert(seq![b[0]] + b.drop_first() =~= b);
        assert(parse_hex_tokens(toks.drop_first()) == Ok::<Seq<u8>, Seq<char>>(b.drop_first()));
        assert(parse_hex_tokens(toks) == Ok::<Seq<u8>, Seq<char>>(seq![(b[0] as nat) as u8] + b.drop_first()));
    } else {
        assert(toks.len() == 0);
        assert(b =~= Seq::<u8>::empty());
    }
}

/// `parse_hex_bytes` reads back exactly the bytes that `hex_bytes` rendered.
pub proof fn law_hex_bytes_round_trip(b: Seq<u8>)
    ensures
        spec_parse_hex_bytes(spec_hex_bytes(b)) == Ok::<Seq<u8>, Seq<char>>(b),
{
    let toks = b.map_values(|x: u8| spec_hex_padded(x as nat, 2));
    assert forall|i: int| 0 <= i < toks.len() implies is_plain_token(#[trigger] toks[i]) by {
        lemma_byte_token(b[i]);
    }
    lemma_split_join(toks);
    lemma_parse_byte_tokens(b);
}


/// Sanitising is idempotent, and its output is never empty and holds only characters
/// that file names keep.
pub proof fn law_sanitize_filename_idempotent(s: Seq<char>)
    ensures
        spec_sanitize_filename_part(spec_sanitize_filename_part(s)) == spec_sanitize_filename_part(s),
        spec_sanitize_filename_part(s).len() >= 1,
        forall|i: int| 0 <= i < spec_sanitize_filename_part(s).len() ==> filename_safe(#[trigger] spec_sanitize_filename_part(s)[i]),
{
    reveal_strlit("none");
    let t = spec_sanitize_filename_part(s);
    assert forall|i: int| 0 <= i < t.len() implies filename_safe(#[trigger] t[i]) by {
        if s.len() == 0 {
            assert(t == "none"@);
        }
    }
    assert(spec_sanitize_filename_part(t) =~= t);
}

/// The 32-bit little-endian value at `off`.
proof fn lemma_le32_decodes(v: u32)
    ensures
        le_u32(le32(v as nat), 0) == v,
{
    let b = le32(v as nat);
    assert(b[0] == (v % 256) as u8);
    assert(b[1] == (v / 256 % 256) as u8);
    assert(b[2] == (v / 65536 % 256) as u8);
    assert(b[3] == (v / 16777216 % 256) as u8);
    assert((v % 256) + 256 * (v / 256 % 256) + 65536 * ((v / 65536 % 256) + 256 * (v / 16777216 % 256)) == v) by (bit_vector);
}

/// A preview file describes itself: it starts with `BM`, its header records the file's
/// length, a pixel-data offset of 54 and the size of the pixel data that follows.
pub proof fn law_preview_header_describes_file(width: u32, height: u32, rgb: Seq<[u8; 3]>, scale: u32)
    requires
        spec_frame_preview_bmp(width, height, rgb, scale) is Ok,
    ensures
        ({
            let b = spec_frame_preview_bmp(width, height, rgb, scale)->Ok_0;
            &&& b[0] == 0x42 && b[1] == 0x4d
            &&& le_u32(b, 2) == b.len()
            &&& le_u32(b, 10) == 54
            &&& le_u32(b, 34) == b.len() - 54
        }),
{
    let s = effective_scale(scale);
    let ow = width as nat * s;
    let oh = height as nat * s;
    let image_size = bmp_row_stride(ow) * oh;
    let h = bmp_header(54 + image_size, ow, oh, image_size);
    let b = spec_frame_preview_bmp(width, height, rgb, scale)->Ok_0;
    assert(h.len() == 54);
    assert(b.len() == 54 + image_size);
    lemma_le32_decodes((54 + image_size) as u32);
    lemma_le32_decodes(54);
    lemma_le32_decodes(image_size as u32);
    let f = le32((54 + image_size) as nat);
    let o = le32(54);
    let z = le32(image_size);
    assert(b.subrange(2, 6) =~= f);
    assert(b.subrange(10, 14) =~= o);
    assert(b.subrange(34, 38) =~= z);
    assert(b[2] == f[0] && b[3] == f[1] && b[4] == f[2] && b[5] == f[3]);
    assert(b[10] == o[0] && b[11] == o[1] && b[12] == o[2] && b[13] == o[3]);
    assert(b[34] == z[0] && b[35] == z[1] && b[36] == z[2] && b[37] == z[3]);
}

/// A plugin validates as ready exactly when it is enabled, targets the game executable,
/// is built for x64 (ignoring ASCII case), its entry file exists, the game's hash has a
/// build in the manifest (the one `matching_game_build` returns), and that build's
/// signature file exists.
pub proof fn law_ready_iff_every_check_passes(
    plugin_dir: Seq<char>,
    manifest: PluginManifest,
    game_sha256: Option<Seq<char>>,
    enabled: bool,
    entry_exists: bool,
    signatures_exist: bool,
)
    ensures
        validate_plugin_result(PluginState::Ready, plugin_dir, manifest, game_sha256, enabled, entry_exists, signatures_exist)
            <==> (enabled && manifest.supported_process@ == game_exe_name()
                && spec_to_ascii_lowercase(manifest.architecture@) == "x64"@ && entry_exists
                && (game_sha256 matches Some(sha) && find_build_from(manifest.game_builds@, sha, 0) is Some)
                && signatures_exist),
{
}

/// A write that is due stays due as time goes on.
pub proof fn law_snapshot_due_is_monotone(last_ms: u64, now_ms: u64, later_ms: u64, interval_ms: u64)
    requires
        spec_snapshot_write_due(last_ms, now_ms, interval_ms),
        now_ms <= later_ms,
    ensures
        spec_snapshot_write_due(last_ms, later_ms, interval_ms),
{
}

/// A check that failed leaves a failure line; with no failure line every check passed.
proof fn lemma_no_failures_all_pass(image: Seq<u8>, pe: (u64, Seq<PeSection>), items: Seq<CheckItem>)
    requires
        failure_lines(image, pe, items).len() == 0,
    ensures
        forall|i: int| 0 <= i < items.len() ==> !(#[trigger] spec_byte_check(image, pe, items[i].check) is Failed),
    decreases items.len(),
{
    if items.len() > 0 {
        lemma_no_failures_all_pass(image, pe, items.drop_last());
        assert forall|i: int| 0 <= i < items.len() implies !(#[trigger] spec_byte_check(image, pe, items[i].check) is Failed) by {
            if i < items.len() - 1 {
                assert(items.drop_last()[i] == items[i]);
            }
        }
    }
}

proof fn lemma_all_pass_no_failures(image: Seq<u8>, pe: (u64, Seq<PeSection>), items: Seq<CheckItem>)
    requires
        forall|i: int| 0 <= i < items.len() ==> !(#[trigger] spec_byte_check(image, pe, items[i].check) is Failed),
    ensures
        failure_lines(image, pe, items).len() == 0,
    decreases items.len(),
{
    if items.len() > 0 {
        assert forall|i: int| 0 <= i < items.drop_last().len() implies !(#[trigger] spec_byte_check(image, pe, items.drop_last()[i].check) is Failed) by {
            assert(items.drop_last()[i] == items[i]);
        }
        lemma_all_pass_no_failures(image, pe, items.drop_last());
        assert(!(spec_byte_check(image, pe, items[items.len() - 1].check) is Failed));
    }
}

/// The signature check of a parseable image succeeds exactly when every byte check
/// passes, that is, when every expected byte sequence is found at the file offset its
/// virtual address maps to.
pub proof fn law_signature_checks_pass_iff_all_bytes_match(image: Seq<u8>, groups: Seq<SignatureGroup>)
    requires
        signature_checks_in_range(image, groups),
        spec_pe_parse(image) is Ok,
    ensures
        spec_verify_signature_bytes(image, groups) is Ok <==> forall|i: int| 0 <= i < all_items(groups).len()
            ==> (#[trigger] spec_byte_check(image, spec_pe_parse(image)->Ok_0, all_items(groups)[i].check)) is Passed,
{
    let pe = spec_pe_parse(image)->Ok_0;
    let items = all_items(groups);
    if spec_verify_signature_bytes(image, groups) is Ok {
        lemma_no_failures_all_pass(image, pe, items);
        assert forall|i: int| 0 <= i < items.len() implies (#[trigger] spec_byte_check(image, pe, items[i].check)) is Passed by {
            assert(!(spec_byte_check(image, pe, items[i].check) is Overflowed));
        }
    }
    if forall|i: int| 0 <= i < items.len() ==> (#[trigger] spec_byte_check(image, pe, items[i].check)) is Passed {
        lemma_all_pass_no_failures(image, pe, items);
    }
}

/// A found file offset lies inside the file bytes of a section whose addresses cover the RVA.
pub proof fn law_translated_offset_is_inside_a_section(secs: Seq<PeSection>, rva: u32, i: int)
    requires
        0 <= i,
        lookup_from(secs, rva, i) is Found,
    ensures
        exists|k: int| i <= k < secs.len() && {
            let s = #[trigger] secs[k];
            let raw = lookup_from(secs, rva, i)->Found_0;
            &&& s.virtual_address <= rva
            &&& s.raw_offset <= raw < s.raw_offset + s.raw_size
            &&& raw - s.raw_offset == rva - s.virtual_address
        },
    decreases secs.len() - i,
{
    let s = secs[i];
    let size: nat = if s.virtual_size >= s.raw_size { s.virtual_size as nat } else { s.raw_size as nat };
    if rva >= s.virtual_address && s.virtual_address + size <= u32::MAX && rva < s.virtual_address + size
        && rva - s.virtual_address < s.raw_size {
        assert(secs[i] == s);
    } else {
        law_translated_offset_is_inside_a_section(secs, rva, i + 1);
    }
}

/// Shortening a reason is idempotent, keeps at most 183 characters, and keeps the
/// reason's first 180 characters unchanged.
pub proof fn law_truncated_reason_is_stable(reason: Seq<char>)
    ensures
        spec_truncate_debug_reason(spec_truncate_debug_reason(reason)) == spec_truncate_debug_reason(reason),
        spec_truncate_debug_reason(reason).len() <= 183,
        reason.len() <= 180 ==> spec_truncate_debug_reason(reason) == reason,
        reason.len() > 180 ==> spec_truncate_debug_reason(reason).take(180) == reason.take(180),
{
    reveal_strlit("...");
    let t = spec_truncate_debug_reason(reason);
    if reason.len() > 180 {
        assert(t.take(180) =~= reason.take(180));
        assert(spec_truncate_debug_reason(t) =~= t);
    }
}

/// Resizing to the source's own size gives the source back, and a successful resize
/// has exactly `dw * dh` pixels.
pub proof fn law_resize_keeps_size_and_identity(rgb: Seq<[u8; 3]>, sw: nat, sh: nat, dw: nat, dh: nat)
    ensures
        spec_resize_rgb_nearest(rgb, sw, sh, dw, dh) matches Ok(out) ==> out.len() == dw * dh,
        (sw > 0 && sh > 0 && sw * sh <= u32::MAX && rgb.len() == sw * sh)
            ==> spec_resize_rgb_nearest(rgb, sw, sh, sw, sh) == Ok::<Seq<[u8; 3]>, Seq<char>>(rgb),
{
}

/// Every character is one that file names keep.
pub open spec fn all_filename_safe(s: Seq<char>) -> bool {
    forall|i: int| 0 <= i < s.len() ==> filename_safe(#[trigger] s[i])
}

proof fn lemma_safe_concat(a: Seq<char>, b: Seq<char>)
    requires
        all_filename_safe(a),
        all_filename_safe(b),
    ensures
        all_filename_safe(a + b),
{
    assert forall|i: int| 0 <= i < (a + b).len() implies filename_safe(#[trigger] (a + b)[i]) by {
        if i < a.len() {
            assert((a + b)[i] == a[i]);
        } else {
            assert((a + b)[i] == b[i - a.len()]);
        }
    }
}

proof fn lemma_decimal_safe(n: nat)
    ensures
        all_filename_safe(spec_decimal(n)),
    decreases n,
{
    if n < 10 {
        assert(filename_safe(dec_digit(n)));
    } else {
        lemma_decimal_safe(n / 10);
        assert(filename_safe(dec_digit(n % 10)));
        let d = spec_decimal(n);
        assert forall|i: int| 0 <= i < d.len() implies filename_safe(#[trigger] d[i]) by {
            if i < d.len() - 1 {
                assert(d[i] == spec_decimal(n / 10)[i]);
            }
        }
    }
}

proof fn lemma_hex_safe(n: nat)
    ensures
        all_filename_safe(spec_hex(n)),
    decreases n,
{
    if n < 16 {
        assert(filename_safe(hex_digit(n)));
    } else {
        lemma_hex_safe(n / 16);
        assert(filename_safe(hex_digit(n % 16)));
        let d = spec_hex(n);
        assert forall|i: int| 0 <= i < d.len() implies filename_safe(#[trigger] d[i]) by {
            if i < d.len() - 1 {
                assert(d[i] == spec_hex(n / 16)[i]);
            }
        }
    }
}

proof fn lemma_hex_padded_safe(n: nat, width: nat)
    ensures
        all_filename_safe(spec_hex_padded(n, width)),
{
    lemma_hex_safe(n);
    let digits = spec_hex(n);
    if digits.len() < width {
        let pad = Seq::new((width - digits.len()) as nat, |i: int| '0');
        assert(all_filename_safe(pad));
        lemma_safe_concat(pad, digits);
    }
}

/// A frame preview file name stays inside the preview directory: whatever the frame's
/// source and texture, every character of the name is one that file names keep, so it
/// holds no separator or drive colon.
pub proof fn law_preview_file_name_is_plain(
    component_hash: u64,
    slot: u32,
    frame_id: u64,
    source: Seq<char>,
    texture: Seq<char>,
    now_ms: u64,
)
    ensures
        all_filename_safe(spec_frame_preview_file_name(component_hash, slot, frame_id, source, texture, now_ms)),
{
    reveal_strlit("component_");
    reveal_strlit("_slot");
    reveal_strlit("_frame");
    reveal_strlit("_");
    reveal_strlit("_tex_");
    reveal_strlit("ms.bmp");
    law_sanitize_filename_idempotent(source);
    law_sanitize_filename_idempotent(texture);
    lemma_hex_padded_safe(component_hash as nat, 16);
    lemma_decimal_safe(slot as nat);
    lemma_decimal_safe(frame_id as nat);
    lemma_decimal_safe(now_ms as nat);
    let p0 = "component_"@;
    let p1 = spec_hex_padded(component_hash as nat, 16);
    let p2 = "_slot"@;
    let p3 = spec_decimal(slot as nat);
    let p4 = "_frame"@;
    let p5 = spec_decimal(frame_id as nat);
    let p6 = "_"@;
    let p7 = spec_sanitize_filename_part(source);
    let p8 = "_tex_"@;
    let p9 = spec_sanitize_filename_part(texture);
    let p10 = spec_decimal(now_ms as nat);
    let p11 = "ms.bmp"@;
    assert(all_filename_safe(p0));
    assert(all_filename_safe(p2));
    assert(all_filename_safe(p4));
    assert(all_filename_safe(p6));
    assert(all_filename_safe(p8));
    assert(all_filename_safe(p11));
    lemma_safe_concat(p0, p1);
    lemma_safe_concat(p0 + p1, p2);
    lemma_safe_concat(p0 + p1 + p2, p3);
    lemma_safe_concat(p0 + p1 + p2 + p3, p4);
    lemma_safe_concat(p0 + p1 + p2 + p3 + p4, p5);
    lemma_safe_concat(p0 + p1 + p2 + p3 + p4 + p5, p6);
    lemma_safe_concat(p0 + p1 + p2 + p3 + p4 + p5 + p6, p7);
    lemma_safe_concat(p0 + p1 + p2 + p3 + p4 + p5 + p6 + p7, p6);
    lemma_safe_concat(p0 + p1 + p2 + p3 + p4 + p5 + p6 + p7 + p6, p8);
    lemma_safe_concat(p0 + p1 + p2 + p3 + p4 + p5 + p6 + p7 + p6 + p8, p9);
    lemma_safe_concat(p0 + p1 + p2 + p3 + p4 + p5 + p6 + p7 + p6 + p8 + p9, p6);
    lemma_safe_concat(p0 + p1 + p2 + p3 + p4 + p5 + p6 + p7 + p6 + p8 + p9 + p6, p10);
    lemma_safe_concat(p0 + p1 + p2 + p3 + p4 + p5 + p6 + p7 + p6 + p8 + p9 + p6 + p10, p11);
}

proof fn lemma_count_lit_front(rgb: Seq<[u8; 3]>)
    requires
        rgb.len() > 0,
    ensures
        count_lit_pixels(rgb) == (if pixel_is_lit(rgb[0]) { 1nat } else { 0nat }) + count_lit_pixels(rgb.drop_first()),
    decreases rgb.len(),
{
    if rgb.len() == 1 {
        assert(rgb.drop_last() =~= Seq::<[u8; 3]>::empty());
        assert(rgb.drop_first() =~= Seq::<[u8; 3]>::empty());
    } else {
        lemma_count_lit_front(rgb.drop_last());
        assert(rgb.drop_first().drop_last() =~= rgb.drop_last().drop_first());
        assert(rgb.drop_first().last() == rgb.last());
    }
}

proof fn lemma_lit_chunks_of_flatten(rgb: Seq<[u8; 3]>, k: int)
    requires
        0 <= k <= rgb.len(),
    ensures
        lit_chunks_from(flatten_rgb(rgb), 3, 3 * k) == count_lit_pixels(rgb.skip(k)),
    decreases rgb.len() - k,
{
    let f = flatten_rgb(rgb);
    lemma_flatten_len(rgb);
    if k == rgb.len() {
        assert(rgb.skip(k) =~= Seq::<[u8; 3]>::empty());
    } else {
        lemma_lit_chunks_of_flatten(rgb, k + 1);
        let chunk = f.subrange(3 * k, 3 * k + 3);
        lemma_flatten_index(rgb, k, 0);
        lemma_flatten_index(rgb, k, 1);
        lemma_flatten_index(rgb, k, 2);
        assert(chunk[0] == rgb[k][0] && chunk[1] == rgb[k][1] && chunk[2] == rgb[k][2]);
        if pixel_is_lit(rgb[k]) {
            if rgb[k][0] != 0 {
                assert(chunk[0] != 0);
            } else if rgb[k][1] != 0 {
                assert(chunk[1] != 0);
            } else {
                assert(chunk[2] != 0);
            }
        }
        assert(has_nonzero(chunk) == pixel_is_lit(rgb[k]));
        lemma_count_lit_front(rgb.skip(k));
        assert(rgb.skip(k).drop_first() =~= rgb.skip(k + 1));
        assert(rgb.skip(k)[0] == rgb[k]);
    }
}

/// Reading an RGB frame's bytes as packed 3-byte pixels gives the statistics of the frame
/// itself: `pixel_stats_from_bytes(flatten_rgb(rgb), 3)` and `pixel_stats_from_rgb(rgb)`
/// agree on every field, as their specifications are over the same byte sequence and these
/// counts coincide.
pub proof fn law_packed_stats_match_rgb_stats(rgb: Seq<[u8; 3]>)
    ensures
        flatten_rgb(rgb).len() / 3 == rgb.len(),
        flatten_rgb(rgb).len() == rgb.len() * 3,
        (flatten_rgb(rgb).len() == 0) == (rgb.len() == 0),
        lit_chunks_from(flatten_rgb(rgb), 3, 0) == count_lit_pixels(rgb),
{
    lemma_flatten_len(rgb);
    lemma_lit_chunks_of_flatten(rgb, 0);
    assert(rgb.skip(0) =~= rgb);
}

proof fn lemma_last_sep_in_at(s: Seq<char>, lo: int, j: int, verbatim: bool, q: int)
    requires
        0 <= lo <= q < j <= s.len(),
        is_sep_in(s[q], verbatim),
        forall|k: int| q < k < j ==> !is_sep_in(#[trigger] s[k], verbatim),
    ensures
        last_sep_in(s, lo, j, verbatim) == q,
    decreases j,
{
    if j - 1 > q {
        lemma_last_sep_in_at(s, lo, j - 1, verbatim, q);
    }
}

proof fn lemma_last_sep_in_none(s: Seq<char>, lo: int, j: int, verbatim: bool)
    requires
        0 <= lo,
        j <= s.len(),
        forall|k: int| lo <= k < j ==> !is_sep_in(#[trigger] s[k], verbatim),
    ensures
        last_sep_in(s, lo, j, verbatim) == -1,
    decreases j,
{
    if j > lo && j > 0 {
        lemma_last_sep_in_none(s, lo, j - 1, verbatim);
    }
}

proof fn lemma_last_sep_in_prefix(s: Seq<char>, n: int, lo: int, j: int, verbatim: bool)
    requires
        0 <= lo,
        j <= n <= s.len(),
    ensures
        last_sep_in(s.take(n), lo, j, verbatim) == last_sep_in(s, lo, j, verbatim),
    decreases j,
{
    if j > lo && j > 0 {
        assert(s.take(n)[j - 1] == s[j - 1]);
        lemma_last_sep_in_prefix(s, n, lo, j - 1, verbatim);
    }
}

proof fn lemma_trim_back_prefix(s: Seq<char>, n: int, lo: int, j: int, verbatim: bool)
    requires
        0 <= lo,
        j <= n <= s.len(),
    ensures
        trim_back(s.take(n), lo, j, verbatim) == trim_back(s, lo, j, verbatim),
    decreases j,
{
    if lo < j {
        lemma_last_sep_in_prefix(s, n, lo, j, verbatim);
        lemma_last_sep_in_bounds(s, lo, j, verbatim);
        assert(last_piece(s.take(n), lo, j, verbatim) =~= last_piece(s, lo, j, verbatim));
        if j > 0 {
            lemma_trim_back_prefix(s, n, lo, cut_point(s, lo, j, verbatim), verbatim);
        }
    }
}

/// A drive-rooted directory (`X:\...` or `X:/...`).
pub open spec fn is_drive_rooted(root: Seq<char>) -> bool {
    root.len() >= 3 && is_ascii_alpha(root[0]) && root[1] == ':' && is_sep(root[2])
}

/// A single file or directory name: no separator, no prefix, and not `.`.
pub open spec fn is_plain_name(name: Seq<char>) -> bool {
    name.len() > 0 && (forall|k: int| 0 <= k < name.len() ==> !is_sep(#[trigger] name[k])) && !is_dot(name)
        && spec_prefix(name).0 == PathPrefix::NoPrefix
}

/// The directory of a name joined onto a drive-rooted directory is that directory, with
/// trailing separators and `.` components dropped; a directory that ends in neither comes
/// back unchanged. So `directory_from_file_path` of a path from `proxy_paths` gives back
/// the game directory.
pub proof fn law_parent_of_joined_file(root: Seq<char>, name: Seq<char>)
    requires
        is_drive_rooted(root),
        is_plain_name(name),
    ensures
        spec_parent_path(spec_join_path(root, name)) == Some(root.take(trim_back(root, 3, root.len() as int, false))),
        (root.len() == 3 || (!is_sep(root.last()) && !is_dot(last_piece(root, 3, root.len() as int, false))))
            ==> spec_parent_path(spec_join_path(root, name)) == Some(root),
{
    let r = root.len() as int;
    let ends_sep = is_sep(root.last());
    let joined = spec_join_path(root, name);
    assert(spec_prefix(root) == (PathPrefix::Disk, 2int));
    let q = if ends_sep { r - 1 } else { r };
    if ends_sep {
        assert(joined == root + name);
    } else {
        assert(joined == root + seq!['\\'] + name);
    }
    let n = joined.len() as int;
    assert(joined[0] == root[0] && joined[1] == root[1] && joined[2] == root[2]);
    assert(spec_prefix(joined) == (PathPrefix::Disk, 2int));
    assert(has_physical_root(joined));
    assert(!starts_with_cur_dir(joined));
    assert(body_start(joined) == 3);
    assert(joined.take(r) =~= root);
    assert(is_sep(joined[q]));
    assert forall|k: int| q < k < n implies !is_sep_in(#[trigger] joined[k], false) by {
        assert(joined[k] == name[k - q - 1]);
    }
    if q >= 3 {
        lemma_last_sep_in_at(joined, 3, n, false, q);
    } else {
        lemma_last_sep_in_none(joined, 3, n, false);
    }
    assert(last_piece(joined, 3, n, false) =~= name);
    assert(trim_back(joined, 3, n, false) == n);
    let cut = cut_point(joined, 3, n, false);
    assert(cut == if q >= 3 { q } else { 3 });
    lemma_trim_back_prefix(joined, r, 3, cut, false);
    let t = trim_back(root, 3, r, false);
    if ends_sep && r > 3 {
        lemma_last_sep_in_at(root, 3, r, false, r - 1);
        assert(last_piece(root, 3, r, false) =~= Seq::<char>::empty());
        assert(t == trim_back(root, 3, r - 1, false));
    }
    lemma_trim_back_bounds_local(root, 3, r);
    if r > 3 && !ends_sep {
        lemma_last_sep_in_bounds(root, 3, r, false);
        assert(last_piece(root, 3, r, false).len() > 0);
    }
    assert(joined.take(t) =~= root.take(t));
    assert(root.take(r) =~= root);
}

proof fn lemma_trim_back_bounds_local(s: Seq<char>, lo: int, j: int)
    requires
        0 <= lo <= j <= s.len(),
    ensures
        lo <= trim_back(s, lo, j, false) <= j,
{
    crate::paths::lemma_trim_back_bounds(s, lo, j, false);
}

/// However calls and attempt endings follow one another after the proxy is attached, at
/// most three load attempts are ever started, the count never goes down, and a success
/// is never forgotten.
pub proof fn law_bootstrap_attempts_never_exceed_limit(changes: Seq<BootstrapChange>, k: int)
    requires
        0 <= k <= changes.len(),
    ensures
        counters_after(attached_counters(), changes).attempts <= max_bootstrap_attempts(),
        counters_after(attached_counters(), changes.take(k)).attempts <= counters_after(attached_counters(), changes).attempts,
        counters_after(attached_counters(), changes.take(k)).succeeded ==> counters_after(attached_counters(), changes).succeeded,
    decreases changes.len(),
{
    if changes.len() > 0 {
        if k == changes.len() {
            assert(changes.take(k) =~= changes);
            law_bootstrap_attempts_never_exceed_limit(changes.drop_last(), 0);
        } else {
            assert(changes.take(k) =~= changes.drop_last().take(k));
            law_bootstrap_attempts_never_exceed_limit(changes.drop_last(), k);
        }
    } else {
        assert(changes.take(k) =~= changes);
    }
}

/// Resizing is row-major nearest-neighbour sampling: output pixel `(x, y)` of a `dw`x`dh`
/// result sits at `y * dw + x` and copies source pixel `(x * sw / dw, y * sh / dh)` of the
/// row-major `sw`x`sh` input.
pub proof fn law_resize_samples_nearest_row_major(
    rgb: Seq<[u8; 3]>,
    sw: nat,
    sh: nat,
    dw: nat,
    dh: nat,
    x: nat,
    y: nat,
)
    requires
        spec_resize_rgb_nearest(rgb, sw, sh, dw, dh) is Ok,
        x < dw,
        y < dh,
    ensures
        spec_resize_rgb_nearest(rgb, sw, sh, dw, dh)->Ok_0.len() == dw * dh,
        y * dw + x < dw * dh,
        spec_resize_rgb_nearest(rgb, sw, sh, dw, dh)->Ok_0[(y * dw + x) as int] == rgb[((y * sh / dh) * sw + x * sw / dw) as int],
{
    let i = (y * dw + x) as int;
    assert(y * dw + x < dw * dh) by (nonlinear_arith)
        requires x < dw, y < dh;
    lemma_fundamental_div_mod_converse(i, dw as int, y as int, x as int);
    if sw == dw && sh == dh {
        assert(y * sh / dh == y) by (nonlinear_arith)
            requires sh == dh, dh > 0;
        assert(x * sw / dw == x) by (nonlinear_arith)
            requires sw == dw, dw > 0;
        assert(sw * sh == dw * dh);
    } else {
        assert(nearest_source_index((i % dw as int) as nat, (i / dw as int) as nat, sw, sh, dw, dh)
            == ((y * sh / dh) * sw + x * sw / dw) as int);
    }
}

/// A section maps `rva` to file bytes: it starts at or below it and its file bytes reach past it.
pub open spec fn section_maps(s: PeSection, rva: u32) -> bool {
    s.virtual_address <= rva && rva < s.virtual_address + s.raw_size
}

/// A section whose 32-bit end address and file end both fit in `u32`.
pub open spec fn section_sums_fit(s: PeSection) -> bool {
    s.virtual_address + s.virtual_size <= u32::MAX && s.virtual_address + s.raw_size <= u32::MAX
        && s.raw_offset + s.raw_size <= u32::MAX
}

proof fn lemma_lookup_from_finds(secs: Seq<PeSection>, rva: u32, i: int, j: int)
    requires
        0 <= j <= i < secs.len(),
        section_maps(secs[i], rva),
        forall|k: int| 0 <= k < i ==> !section_maps(#[trigger] secs[k], rva),
        forall|k: int| 0 <= k <= i ==> section_sums_fit(#[trigger] secs[k]),
    ensures
        lookup_from(secs, rva, j) == RawLookup::Found((secs[i].raw_offset + rva - secs[i].virtual_address) as u32),
    decreases i - j,
{
    assert(section_sums_fit(secs[j]));
    if j < i {
        assert(!section_maps(secs[j], rva));
        lemma_lookup_from_finds(secs, rva, i, j + 1);
    }
}

/// Address translation finds the first section that maps the address: when section `i`
/// maps `rva` to file bytes, no earlier section does, and the 32-bit sums of the sections up
/// to it fit, the lookup gives that section's file offset plus the distance into it.
/// So a scan never stops before the section that holds the address; a virtual address
/// `rva` bytes above the image base is looked up this way.
pub proof fn law_lookup_finds_first_mapping_section(secs: Seq<PeSection>, rva: u32, i: int)
    requires
        0 <= i < secs.len(),
        section_maps(secs[i], rva),
        forall|k: int| 0 <= k < i ==> !section_maps(#[trigger] secs[k], rva),
        forall|k: int| 0 <= k <= i ==> section_sums_fit(#[trigger] secs[k]),
    ensures
        lookup_from(secs, rva, 0) == RawLookup::Found((secs[i].raw_offset + rva - secs[i].virtual_address) as u32),
        forall|base: u64, va: u64| #![trigger spec_va_lookup((base, secs), va)] base <= va && va - base == rva
            ==> spec_va_lookup((base, secs), va) == lookup_from(secs, rva, 0),
{
    lemma_lookup_from_finds(secs, rva, i, 0);
}

/// With every section's sums in range, the lookup reports an address as missing only
/// when no section maps it.
pub proof fn law_lookup_missing_only_when_unmapped(secs: Seq<PeSection>, rva: u32, i: int)
    requires
        0 <= i < secs.len(),
        section_maps(secs[i], rva),
        forall|k: int| 0 <= k < secs.len() ==> section_sums_fit(#[trigger] secs[k]),
    ensures
        lookup_from(secs, rva, 0) is Found,
    decreases i,
{
    if exists|k: int| 0 <= k < i && section_maps(#[trigger] secs[k], rva) {
        let k = choose|k: int| 0 <= k < i && section_maps(#[trigger] secs[k], rva);
        law_lookup_missing_only_when_unmapped(secs, rva, k);
    } else {
        lemma_lookup_from_finds(secs, rva, i, 0);
    }
}

/// The little-endian 16-bit number at `o`.
pub open spec fn bytes_u16(b: Seq<u8>, o: int) -> int {
    b[o] + 256 * b[o + 1]
}

/// The little-endian 32-bit number at `o`.
pub open spec fn bytes_u32(b: Seq<u8>, o: int) -> int {
    b[o] + 256 * b[o + 1] + 65536 * b[o + 2] + 16777216 * b[o + 3]
}

/// The little-endian 64-bit number at `o`.
pub open spec fn bytes_u64(b: Seq<u8>, o: int) -> int {
    bytes_u32(b, o) + 0x1_0000_0000 * bytes_u32(b, o + 4)
}

/// Parsing reads the PE32+ headers where the format puts them: `e_lfanew` at 0x3c gives
/// the PE header, the section count is its 16-bit field at +6, the optional header follows
/// at +24 with its size at +20 and the image base at +24 inside it; section `i` is the
/// 40-byte table entry `i` right after the optional header, with the virtual size, virtual
/// address, raw size and raw offset at +8, +12, +16 and +20, and the table lies in the file.
pub proof fn law_parse_reads_the_section_table(image: Seq<u8>)
    requires
        spec_pe_parse(image) is Ok,
    ensures
        ({
            let parsed = spec_pe_parse(image)->Ok_0;
            let pe = bytes_u32(image, 0x3c);
            let optional = pe + 24;
            let table = optional + bytes_u16(image, pe + 20);
            &&& parsed.1.len() == bytes_u16(image, pe + 6)
            &&& parsed.0 == bytes_u64(image, optional + 24)
            &&& (parsed.1.len() > 0 ==> table + 40 * parsed.1.len() <= image.len())
            &&& forall|i: int| #![trigger parsed.1[i]] 0 <= i < parsed.1.len() ==> {
                &&& parsed.1[i].virtual_size == bytes_u32(image, table + 40 * i + 8)
                &&& parsed.1[i].virtual_address == bytes_u32(image, table + 40 * i + 12)
                &&& parsed.1[i].raw_size == bytes_u32(image, table + 40 * i + 16)
                &&& parsed.1[i].raw_offset == bytes_u32(image, table + 40 * i + 20)
            }
        }),
{
    let parsed = spec_pe_parse(image)->Ok_0;
    let pe = bytes_u32(image, 0x3c);
    assert(le_u32(image, 0x3c) == pe);
    let optional = pe + 24;
    let table = optional + bytes_u16(image, pe + 20);
    assert(le_u16(image, pe + 20) == bytes_u16(image, pe + 20));
    assert(le_u16(image, pe + 6) == bytes_u16(image, pe + 6));
    assert(le_u64(image, optional + 24) == bytes_u64(image, optional + 24));
    assert(bytes_u64(image, optional + 24) <= u64::MAX) by {
        assert(bytes_u32(image, optional + 24) <= 0xffff_ffff);
        assert(bytes_u32(image, optional + 28) <= 0xffff_ffff);
    }
    assert forall|i: int| #![trigger parsed.1[i]] 0 <= i < parsed.1.len() implies {
        &&& parsed.1[i].virtual_size == bytes_u32(image, table + 40 * i + 8)
        &&& parsed.1[i].virtual_address == bytes_u32(image, table + 40 * i + 12)
        &&& parsed.1[i].raw_size == bytes_u32(image, table + 40 * i + 16)
        &&& parsed.1[i].raw_offset == bytes_u32(image, table + 40 * i + 20)
    } by {
        let o = table + 40 * i;
        assert(parsed.1[i] == section_at(image, o));
        assert(le_u32(image, o + 8) == bytes_u32(image, o + 8));
        assert(le_u32(image, o + 12) == bytes_u32(image, o + 12));
        assert(le_u32(image, o + 16) == bytes_u32(image, o + 16));
        assert(le_u32(image, o + 20) == bytes_u32(image, o + 20));
        assert(bytes_u32(image, o + 8) <= 0xffff_ffff);
        assert(bytes_u32(image, o + 12) <= 0xffff_ffff);
        assert(bytes_u32(image, o + 16) <= 0xffff_ffff);
        assert(bytes_u32(image, o + 20) <= 0xffff_ffff);
    }
}

proof fn lemma_stride_covers(ow: nat)
    ensures
        bmp_row_stride(ow) >= 3 * ow,
        bmp_row_stride(ow) == ((ow * 3 + 3) / 4) * 4,
{
    vstd::arithmetic::div_mod::lemma_fundamental_div_mod((3 * ow + 3) as int, 4);
}

proof fn lemma_row_bound(stride: nat, row: nat, col: nat, oh: nat)
    requires
        col < stride,
        row < oh,
    ensures
        stride * row + col < stride * oh,
{
    assert(stride * row + col < stride * oh) by (nonlinear_arith)
        requires col < stride, row < oh;
}

/// A preview keeps the frame's picture: with `s` the effective scale, output pixel
/// `(x, y)` (counted from the top left of the `width * s` by `height * s` image) is the
/// source pixel `(min(x / s, width - 1), min(y / s, height - 1))` of the row-major frame,
/// written blue, green, red at byte `3 * x` of file row `height * s - 1 - y` (rows are
/// stored bottom-up, each padded to a multiple of four bytes after the 54-byte header).
pub proof fn law_preview_pixels_keep_source_layout(
    width: u32,
    height: u32,
    rgb: Seq<[u8; 3]>,
    scale: u32,
    x: nat,
    y: nat,
    k: nat,
)
    requires
        spec_frame_preview_bmp(width, height, rgb, scale) is Ok,
        x < width * effective_scale(scale),
        y < height * effective_scale(scale),
        k < 3,
    ensures
        ({
            let s = effective_scale(scale);
            let b = spec_frame_preview_bmp(width, height, rgb, scale)->Ok_0;
            let stride = ((width * s * 3 + 3) / 4) * 4;
            let sx = if x / s < width - 1 { x / s } else { (width - 1) as nat };
            let sy = if y / s < height - 1 { y / s } else { (height - 1) as nat };
            let pos = 54 + stride * (height * s - 1 - y) + 3 * x + k;
            &&& pos < b.len()
            &&& b[pos] == rgb[sy * width + sx][2 - k]
        }),
{
    let s = effective_scale(scale);
    let ow = width as nat * s;
    let oh = height as nat * s;
    let stride = bmp_row_stride(ow);
    let image_size = stride * oh;
    let b = spec_frame_preview_bmp(width, height, rgb, scale)->Ok_0;
    let row = (oh - 1 - y) as nat;
    let col = 3 * x + k;
    lemma_stride_covers(ow);
    assert(col < stride);
    let p = stride * row + col;
    lemma_row_bound(stride, row, col, oh);
    assert(bmp_header(54 + image_size, ow, oh, image_size).len() == 54);
    assert(b[(54 + p) as int] == crate::preview::bmp_body_byte(rgb, width as nat, height as nat, s, p as int));
    lemma_fundamental_div_mod_converse(p as int, stride as int, row as int, col as int);
    assert(col / 3 == x && col % 3 == k);
    assert(width >= 1) by (nonlinear_arith)
        requires x < width * s;
    assert(height >= 1) by (nonlinear_arith)
        requires y < height * s;
}

/// The code points that a UTF-16 sequence encodes: a high surrogate followed by a unit
/// combines with it, any other unit stands for itself.
pub open spec fn utf16_code_points(u: Seq<u16>) -> Seq<int>
    decreases u.len(),
{
    if u.len() == 0 {
        seq![]
    } else if 0xD800 <= u[0] < 0xDC00 && u.len() >= 2 {
        seq![(u[0] - 0xD800) * 0x400 + (u[1] - 0xDC00) + 0x10000] + utf16_code_points(u.skip(2))
    } else {
        seq![u[0] as int] + utf16_code_points(u.skip(1))
    }
}

proof fn lemma_utf16_front(s: Seq<char>)
    requires
        s.len() > 0,
    ensures
        spec_utf16(s) == utf16_units(s[0]) + spec_utf16(s.drop_first()),
    decreases s.len(),
{
    if s.len() > 1 {
        lemma_utf16_front(s.drop_last());
        assert(s.drop_last().drop_first() =~= s.drop_first().drop_last());
        assert(s.drop_first().last() == s.last());
    } else {
        assert(s.drop_last() =~= Seq::<char>::empty());
        assert(s.drop_first() =~= Seq::<char>::empty());
    }
}

proof fn lemma_units_decode(c: char, rest: Seq<u16>)
    ensures
        utf16_code_points(utf16_units(c) + rest) == seq![c as int] + utf16_code_points(rest),
{
    let u = c as u32;
    let w = utf16_units(c) + rest;
    if u < 0x10000 {
        assert(u < 0xD800 || u >= 0xE000);
        assert(w[0] == u as u16);
        assert(w.skip(1) =~= rest);
    } else {
        let v = (u - 0x10000) as nat;
        assert(v < 0x100000);
        assert(v / 0x400 < 0x400) by (nonlinear_arith)
            requires v < 0x100000;
        assert(v % 0x400 < 0x400) by (nonlinear_arith);
        assert(w[0] == (0xD800 + v / 0x400) as u16);
        assert(w[1] == (0xDC00 + v % 0x400) as u16);
        assert(w.skip(2) =~= rest);
        assert((v / 0x400) * 0x400 + v % 0x400 == v) by (nonlinear_arith);
    }
}

proof fn lemma_utf16_decodes(s: Seq<char>)
    ensures
        utf16_code_points(spec_utf16(s)) == s.map_values(|c: char| c as int),
    decreases s.len(),
{
    if s.len() == 0 {
        assert(s.map_values(|c: char| c as int) =~= Seq::<int>::empty());
    } else {
        lemma_utf16_front(s);
        lemma_units_decode(s[0], spec_utf16(s.drop_first()));
        lemma_utf16_decodes(s.drop_first());
        assert(s.map_values(|c: char| c as int) =~= seq![s[0] as int] + s.drop_first().map_values(|c: char| c as int));
    }
}

proof fn lemma_units_nonzero(c: char)
    requires
        c != '\0',
    ensures
        forall|m: int| 0 <= m < utf16_units(c).len() ==> #[trigger] utf16_units(c)[m] != 0,
{
    let u = c as u32;
    if u >= 0x10000 {
        let v = (u - 0x10000) as nat;
        assert(v < 0x100000);
        assert(v / 0x400 < 0x400) by (nonlinear_arith)
            requires v < 0x100000;
        assert(v % 0x400 < 0x400) by (nonlinear_arith);
    } else {
        assert(u != 0);
    }
}

proof fn lemma_utf16_no_zero(s: Seq<char>)
    requires
        forall|i: int| 0 <= i < s.len() ==> #[trigger] s[i] != '\0',
    ensures
        forall|i: int| 0 <= i < spec_utf16(s).len() ==> #[trigger] spec_utf16(s)[i] != 0,
    decreases s.len(),
{
    if s.len() > 0 {
        lemma_utf16_no_zero(s.drop_last());
        let a = spec_utf16(s.drop_last());
        let c = s.last();
        assert(c != '\0');
        let w = utf16_units(c);
        lemma_units_nonzero(c);
        assert(spec_utf16(s) == a + w);
        assert forall|i: int| 0 <= i < spec_utf16(s).len() implies #[trigger] spec_utf16(s)[i] != 0 by {
            if i < a.len() {
                assert(spec_utf16(s)[i] == a[i]);
            } else {
                assert(spec_utf16(s)[i] == w[i - a.len()]);
            }
        }
    }
}

/// The path handed to the wide Windows APIs is the path in UTF-16: its units without the
/// terminating zero decode back to the path's code points (a character below U+10000 is
/// the one unit equal to it, any other a surrogate pair), and a path without NUL characters
/// has no other zero unit.
pub proof fn law_wide_path_decodes_to_the_path(path: Seq<char>)
    ensures
        utf16_code_points(spec_utf16(path).push(0).drop_last()) == path.map_values(|c: char| c as int),
        spec_utf16(path).push(0).last() == 0,
        (forall|i: int| 0 <= i < path.len() ==> #[trigger] path[i] != '\0') ==> (forall|i: int|
            0 <= i < spec_utf16(path).push(0).len() - 1 ==> #[trigger] spec_utf16(path).push(0)[i] != 0),
{
    assert(spec_utf16(path).push(0).drop_last() =~= spec_utf16(path));
    lemma_utf16_decodes(path);
    if forall|i: int| 0 <= i < path.len() ==> #[trigger] path[i] != '\0' {
        lemma_utf16_no_zero(path);
        assert forall|i: int| 0 <= i < spec_utf16(path).push(0).len() - 1 implies #[trigger] spec_utf16(path).push(0)[i] != 0 by {
            assert(spec_utf16(path).push(0)[i] == spec_utf16(path)[i]);
        }
    }
}

proof fn lemma_lookup_found_from(secs: Seq<PeSection>, rva: u32, j: int)
    requires
        0 <= j,
        lookup_from(secs, rva, j) is Found,
    ensures
        exists|i: int| #![trigger secs[i]] j <= i < secs.len() && section_maps(secs[i], rva)
            && lookup_from(secs, rva, j) == RawLookup::Found((secs[i].raw_offset + rva - secs[i].virtual_address) as u32)
            && forall|k: int| j <= k < i ==> !section_maps(#[trigger] secs[k], rva),
    decreases secs.len() - j,
{
    let s = secs[j];
    let size: nat = if s.virtual_size >= s.raw_size { s.virtual_size as nat } else { s.raw_size as nat };
    if rva >= s.virtual_address && s.virtual_address + size <= u32::MAX && rva < s.virtual_address + size
        && rva - s.virtual_address < s.raw_size {
        assert(section_maps(secs[j], rva));
    } else {
        assert(!section_maps(secs[j], rva));
        lemma_lookup_found_from(secs, rva, j + 1);
        let i = choose|i: int| #![trigger secs[i]] j + 1 <= i < secs.len() && section_maps(secs[i], rva)
            && lookup_from(secs, rva, j + 1) == RawLookup::Found((secs[i].raw_offset + rva - secs[i].virtual_address) as u32)
            && forall|k: int| j + 1 <= k < i ==> !section_maps(#[trigger] secs[k], rva);
        assert(secs[i] == secs[i]);
    }
}

/// A found file offset comes from the first section that maps the address: that section
/// maps it, no earlier section does, and the offset is the section's file offset plus the
/// distance into it.
pub proof fn law_lookup_found_is_first_mapping_section(secs: Seq<PeSection>, rva: u32)
    requires
        lookup_from(secs, rva, 0) is Found,
    ensures
        exists|i: int| #![trigger secs[i]] 0 <= i < secs.len() && section_maps(secs[i], rva)
            && lookup_from(secs, rva, 0) == RawLookup::Found((secs[i].raw_offset + rva - secs[i].virtual_address) as u32)
            && forall|k: int| 0 <= k < i ==> !section_maps(#[trigger] secs[k], rva),
{
    lemma_lookup_found_from(secs, rva, 0);
}

} // verus!
