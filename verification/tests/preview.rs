use sw_video_lua::preview::{frame_preview_bmp, preview_stride_would_overflow, sanitize_filename_part};

#[test]
fn sanitizes_file_name_parts() {
    assert_eq!(sanitize_filename_part("a b/c.d-e_f"), "a_b_c.d-e_f");
    assert_eq!(sanitize_filename_part(""), "none");
    assert_eq!(sanitize_filename_part("ä:1"), "__1");
    let once = sanitize_filename_part("x y");
    assert_eq!(sanitize_filename_part(&once), once);
}

fn header(file_size: u32, w: i32, h: i32, image_size: u32) -> Vec<u8> {
    let mut b = b"BM".to_vec();
    b.extend_from_slice(&file_size.to_le_bytes());
    b.extend_from_slice(&[0, 0, 0, 0]);
    b.extend_from_slice(&54u32.to_le_bytes());
    b.extend_from_slice(&40u32.to_le_bytes());
    b.extend_from_slice(&w.to_le_bytes());
    b.extend_from_slice(&h.to_le_bytes());
    b.extend_from_slice(&1u16.to_le_bytes());
    b.extend_from_slice(&24u16.to_le_bytes());
    b.extend_from_slice(&0u32.to_le_bytes());
    b.extend_from_slice(&image_size.to_le_bytes());
    b.extend_from_slice(&2835i32.to_le_bytes());
    b.extend_from_slice(&2835i32.to_le_bytes());
    b.extend_from_slice(&0u32.to_le_bytes());
    b.extend_from_slice(&0u32.to_le_bytes());
    b
}

#[test]
fn encodes_single_pixel_bmp() {
    let bytes = frame_preview_bmp(1, 1, &[[10, 20, 30]], 1).unwrap();
    let mut expected = header(58, 1, 1, 4);
    expected.extend_from_slice(&[30, 20, 10, 0]);
    assert_eq!(bytes, expected);
    assert_eq!(frame_preview_bmp(1, 1, &[[10, 20, 30]], 0).unwrap(), expected);
}

#[test]
fn scales_and_flips_rows() {
    let rgb = [[1, 2, 3], [4, 5, 6]];
    let bytes = frame_preview_bmp(1, 2, &rgb, 2).unwrap();
    // 2x4 output, 8-byte rows, bottom row first.
    let mut expected = header(54 + 32, 2, 4, 32);
    for px in [[4, 5, 6], [4, 5, 6], [1, 2, 3], [1, 2, 3]] {
        expected.extend_from_slice(&[px[2], px[1], px[0], px[2], px[1], px[0], 0, 0]);
    }
    assert_eq!(bytes, expected);
    assert_eq!(bytes.len(), 86);
}

#[test]
fn preview_errors() {
    assert_eq!(
        frame_preview_bmp(65536, 1, &[], 65536).unwrap_err(),
        "frame preview width overflow"
    );
    assert_eq!(
        frame_preview_bmp(1, 65536, &[], 65536).unwrap_err(),
        "frame preview height overflow"
    );
    assert_eq!(
        frame_preview_bmp(40000, 40000, &[], 1).unwrap_err(),
        "frame preview image size overflow"
    );
    assert_eq!(
        frame_preview_bmp(2, 2, &[[0, 0, 0]; 3], 1).unwrap_err(),
        "frame preview source pixel buffer is incomplete"
    );
}

#[test]
fn stride_overflow_is_detected() {
    assert!(preview_stride_would_overflow(0x5555_5555, 1, 1));
    assert!(!preview_stride_would_overflow(100, 100, 8));
    assert!(!preview_stride_would_overflow(65536, 1, 65536));
}
