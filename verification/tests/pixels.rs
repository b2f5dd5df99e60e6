use sw_video_lua::pixels::{
    format_pixel_stats, pixel_stats_from_bytes, pixel_stats_from_rgb, resize_rgb_nearest,
    rgb_content_hash, rgb_is_blank, rgb_sample, PixelStats,
};

#[test]
fn resize_keeps_same_size_input() {
    let rgb = vec![[1, 2, 3], [4, 5, 6]];
    assert_eq!(resize_rgb_nearest(&rgb, 2, 1, 2, 1).unwrap(), rgb);
}

#[test]
fn resize_picks_nearest_source_pixels() {
    let rgb = vec![[1, 1, 1], [2, 2, 2], [3, 3, 3], [4, 4, 4]];
    assert_eq!(
        resize_rgb_nearest(&rgb, 2, 2, 4, 1).unwrap(),
        vec![[1, 1, 1], [1, 1, 1], [2, 2, 2], [2, 2, 2]]
    );
    assert_eq!(resize_rgb_nearest(&rgb, 2, 2, 1, 1).unwrap(), vec![[1, 1, 1]]);
    assert_eq!(
        resize_rgb_nearest(&rgb, 2, 2, 1, 2).unwrap(),
        vec![[1, 1, 1], [3, 3, 3]]
    );
}

#[test]
fn resize_rejects_bad_dimensions() {
    let rgb = vec![[0, 0, 0]; 4];
    assert_eq!(
        resize_rgb_nearest(&rgb, 0, 2, 1, 1).unwrap_err(),
        "texture resize dimensions must be >= 1"
    );
    assert_eq!(
        resize_rgb_nearest(&rgb, 3, 2, 1, 1).unwrap_err(),
        "texture resize source length 4 does not match 3x2"
    );
    assert_eq!(
        resize_rgb_nearest(&rgb, 65536, 65536, 1, 1).unwrap_err(),
        "texture resize source size overflow"
    );
    assert_eq!(
        resize_rgb_nearest(&rgb, 2, 2, 65536, 65536).unwrap_err(),
        "texture resize destination size overflow"
    );
}

#[test]
fn stats_from_rgb() {
    let st = pixel_stats_from_rgb(&[[0, 0, 0], [0, 5, 9], [7, 0, 0]]);
    assert_eq!(
        st,
        PixelStats {
            pixels: 3,
            bytes: 9,
            nonzero_bytes: 3,
            nonzero_pixels: 2,
            min: 0,
            max: 9,
            sample: vec![0, 0, 0, 0, 5, 9, 7, 0, 0],
        }
    );
    let empty = pixel_stats_from_rgb(&[]);
    assert_eq!((empty.min, empty.max, empty.pixels, empty.sample.len()), (0, 0, 0, 0));
    let many = pixel_stats_from_rgb(&vec![[1, 2, 3]; 10]);
    assert_eq!(many.sample.len(), 24);
    assert_eq!((many.min, many.max), (1, 3));
}

#[test]
fn stats_from_bytes() {
    let st = pixel_stats_from_bytes(&[0, 0, 0, 0, 3, 0, 0, 0, 1], 4);
    assert_eq!(st.pixels, 2);
    assert_eq!(st.bytes, 9);
    assert_eq!(st.nonzero_bytes, 2);
    assert_eq!(st.nonzero_pixels, 2);
    assert_eq!((st.min, st.max), (0, 3));
    let zero_stride = pixel_stats_from_bytes(&[0, 2, 0], 0);
    assert_eq!((zero_stride.pixels, zero_stride.nonzero_pixels), (3, 1));
    let empty = pixel_stats_from_bytes(&[], 4);
    assert_eq!((empty.min, empty.max, empty.pixels), (0, 0, 0));
}

#[test]
fn content_hash_is_fnv1a_over_channels() {
    assert_eq!(rgb_content_hash(&[]), 0xcbf29ce484222325);
    assert_eq!(rgb_content_hash(&[[1, 2, 3], [0, 0, 255]]), 0x74b1ec13e0152414);
}

#[test]
fn blank_iff_no_lit_pixel() {
    assert!(rgb_is_blank(&[]));
    assert!(rgb_is_blank(&[[0, 0, 0], [0, 0, 0]]));
    assert!(!rgb_is_blank(&[[0, 0, 0], [0, 0, 1]]));
    let frame = [[0, 0, 0], [0, 4, 0]];
    assert_eq!(rgb_is_blank(&frame), pixel_stats_from_rgb(&frame).nonzero_pixels == 0);
}

#[test]
fn stats_range_contains_every_byte() {
    let frame = [[9, 3, 200], [4, 4, 4], [17, 0, 18]];
    let st = pixel_stats_from_rgb(&frame);
    for pixel in frame {
        for channel in pixel {
            assert!(st.min <= channel && channel <= st.max);
        }
    }
}

#[test]
fn formats_stats_line() {
    let st = pixel_stats_from_rgb(&[[0, 5, 9]]);
    assert_eq!(
        format_pixel_stats(&st),
        "pixels=1 bytes=3 nonzero_pixels=1 nonzero_bytes=2 min=0 max=9 sample=[0,5,9]"
    );
    let empty = pixel_stats_from_rgb(&[]);
    assert_eq!(
        format_pixel_stats(&empty),
        "pixels=0 bytes=0 nonzero_pixels=0 nonzero_bytes=0 min=0 max=0 sample=[]"
    );
}

#[test]
fn samples_frame_start() {
    let mut rgb = vec![[0u8, 0, 0]; 70];
    rgb[1] = [1, 0, 0];
    rgb[63] = [0, 0, 1];
    rgb[64] = [0, 1, 0];
    let s = rgb_sample(&rgb);
    assert_eq!(s.pixel_count, 70);
    assert_eq!(s.sampled_pixels, 64);
    assert_eq!(s.sampled_nonzero_pixels, 2);
    assert_eq!(s.first_pixels, rgb[..8].to_vec());
    let small = rgb_sample(&[[3, 3, 3]]);
    assert_eq!((small.pixel_count, small.sampled_pixels, small.sampled_nonzero_pixels), (1, 1, 1));
    assert_eq!(small.first_pixels, vec![[3, 3, 3]]);
}

#[test]
fn packed_bytes_give_the_same_stats() {
    let rgb = [[0, 0, 0], [0, 5, 9], [7, 0, 0], [0, 0, 0], [1, 1, 1]];
    let flat: Vec<u8> = rgb.iter().flat_map(|p| p.iter().copied()).collect();
    assert_eq!(pixel_stats_from_bytes(&flat, 3), pixel_stats_from_rgb(&rgb));
    assert_eq!(pixel_stats_from_bytes(&[], 3), pixel_stats_from_rgb(&[]));
}
