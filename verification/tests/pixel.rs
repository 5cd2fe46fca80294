use slime_kernel::pixel::decode_pixel;
use slime_kernel::pixel::encode_pixel;
use slime_kernel::pixel::PixelFormat;

fn bytes(format: PixelFormat, bytes_per_pixel: usize, color: u32) -> Vec<u8> {
    encode_pixel(format, bytes_per_pixel, color).unwrap().to_vec()
}

#[test]
fn rgb_three_bytes_is_red_green_blue() {
    assert_eq!(bytes(PixelFormat::Rgb, 3, 0x11223344), vec![0x22, 0x33, 0x44]);
    assert_eq!(bytes(PixelFormat::Rgb, 3, 0xFF0000), vec![0xFF, 0x00, 0x00]);
}

#[test]
fn rgb_four_bytes_is_blue_green_red_top() {
    assert_eq!(bytes(PixelFormat::Rgb, 4, 0x11223344), vec![0x44, 0x33, 0x22, 0x11]);
    assert_eq!(bytes(PixelFormat::Rgb, 4, 0x112233), vec![0x33, 0x22, 0x11, 0x00]);
    assert_eq!(bytes(PixelFormat::Rgb, 4, 0x112233), 0x112233u32.to_le_bytes().to_vec());
    assert_eq!(bytes(PixelFormat::Rgb, 4, 0xFFFFFF), vec![0xFF, 0xFF, 0xFF, 0x00]);
    assert_eq!(bytes(PixelFormat::Rgb, 4, 0x000000), vec![0x00, 0x00, 0x00, 0x00]);
}

#[test]
fn bgr_three_bytes_is_blue_green_red() {
    assert_eq!(bytes(PixelFormat::Bgr, 3, 0x11223344), vec![0x44, 0x33, 0x22]);
    assert_eq!(bytes(PixelFormat::Bgr, 3, 0xFF0000), vec![0x00, 0x00, 0xFF]);
}

#[test]
fn bgr_four_bytes_is_red_green_blue_top() {
    assert_eq!(bytes(PixelFormat::Bgr, 4, 0x11223344), vec![0x22, 0x33, 0x44, 0x11]);
    assert_eq!(bytes(PixelFormat::Bgr, 4, 0x112233), vec![0x11, 0x22, 0x33, 0x00]);
    assert_eq!(bytes(PixelFormat::Bgr, 4, 0xFF0000), vec![0xFF, 0x00, 0x00, 0x00]);
}

#[test]
fn other_pixel_sizes_hold_the_low_bytes_first() {
    assert_eq!(bytes(PixelFormat::Rgb, 0, 0x11223344), Vec::<u8>::new());
    assert_eq!(bytes(PixelFormat::Rgb, 1, 0x11223344), vec![0x44]);
    assert_eq!(bytes(PixelFormat::Bgr, 2, 0x11223344), vec![0x44, 0x33]);
    assert_eq!(bytes(PixelFormat::Rgb, 5, 0x11223344), vec![0x44, 0x33, 0x22, 0x11]);
    assert_eq!(bytes(PixelFormat::Bgr, 8, 0x11223344), vec![0x44, 0x33, 0x22, 0x11]);
}

#[test]
fn encoded_pixel_has_length_and_bytes() {
    let pixel = encode_pixel(PixelFormat::Bgr, 3, 0x0A0B0C).unwrap();
    assert_eq!(pixel.len(), 3);
    assert_eq!(pixel.get(0), 0x0C);
    assert_eq!(pixel.get(1), 0x0B);
    assert_eq!(pixel.get(2), 0x0A);
}

#[test]
fn unsupported_formats_are_refused() {
    let unknown = PixelFormat::Unknown { red_position: 0, green_position: 8, blue_position: 16 };
    assert!(encode_pixel(PixelFormat::U8, 1, 0x123456).is_none());
    assert!(encode_pixel(PixelFormat::U8, 4, 0x123456).is_none());
    assert!(encode_pixel(unknown, 4, 0x123456).is_none());
    assert_eq!(decode_pixel(PixelFormat::U8, 1, &[1, 2, 3, 4]), None);
    assert_eq!(decode_pixel(unknown, 4, &[1, 2, 3, 4]), None);
    assert!(!PixelFormat::U8.is_supported());
    assert!(!unknown.is_supported());
    assert!(PixelFormat::Rgb.is_supported());
    assert!(PixelFormat::Bgr.is_supported());
}

#[test]
fn decode_reads_each_layout() {
    assert_eq!(decode_pixel(PixelFormat::Rgb, 3, &[0x22, 0x33, 0x44]), Some(0x223344));
    assert_eq!(decode_pixel(PixelFormat::Rgb, 4, &[0x44, 0x33, 0x22, 0x11]), Some(0x11223344));
    assert_eq!(decode_pixel(PixelFormat::Bgr, 3, &[0x44, 0x33, 0x22]), Some(0x223344));
    assert_eq!(decode_pixel(PixelFormat::Bgr, 4, &[0x22, 0x33, 0x44, 0x11]), Some(0x11223344));
    assert_eq!(decode_pixel(PixelFormat::Rgb, 6, &[0x44, 0x33, 0x22, 0x11, 9, 9]), Some(0x11223344));
    assert_eq!(decode_pixel(PixelFormat::Bgr, 2, &[0x44, 0x33]), Some(0x3344));
    assert_eq!(decode_pixel(PixelFormat::Rgb, 0, &[]), Some(0));
}

#[test]
fn decode_needs_a_whole_pixel() {
    assert_eq!(decode_pixel(PixelFormat::Rgb, 3, &[0x22, 0x33]), None);
    assert_eq!(decode_pixel(PixelFormat::Bgr, 4, &[1, 2, 3]), None);
    assert_eq!(decode_pixel(PixelFormat::Rgb, 7, &[1, 2, 3]), None);
    assert_eq!(decode_pixel(PixelFormat::Rgb, 3, &[0x22, 0x33, 0x44, 0x55]), Some(0x223344));
}

#[test]
fn every_sampled_color_survives_encoding_and_decoding() {
    let formats = [PixelFormat::Rgb, PixelFormat::Bgr];
    let sizes: [usize; 3] = [3, 4, 5];
    for format in formats {
        for size in sizes {
            let mut color: u32 = 0;
            while color <= 0xFFFFFF {
                let pixel = bytes(format, size, color);
                assert_eq!(decode_pixel(format, size, &pixel), Some(color));
                color += 0x000101;
            }
            assert_eq!(decode_pixel(format, size, &bytes(format, size, 0xFFFFFF)), Some(0xFFFFFF));
        }
    }
}

#[test]
fn four_byte_pixels_keep_the_top_byte() {
    assert_eq!(decode_pixel(PixelFormat::Rgb, 4, &bytes(PixelFormat::Rgb, 4, 0xDEADBEEF)), Some(0xDEADBEEF));
    assert_eq!(decode_pixel(PixelFormat::Bgr, 4, &bytes(PixelFormat::Bgr, 4, 0xDEADBEEF)), Some(0xDEADBEEF));
    assert_eq!(decode_pixel(PixelFormat::Rgb, 3, &bytes(PixelFormat::Rgb, 3, 0xDEADBEEF)), Some(0xADBEEF));
}
