use slime_kernel::color::blend_colors;
use slime_kernel::frame_buffer::FrameBufferError;
use slime_kernel::pixel::PixelFormat;
use slime_kernel::raster::BufferGeometry;
use slime_kernel::raster::fill_pixels;
use slime_kernel::raster::load_bytes;
use slime_kernel::raster::render_bitmap;
use slime_kernel::raster::write_pixel_at;
use slime_kernel::raster::write_pixel_at_offset;

fn padded_rgb3() -> BufferGeometry {
    BufferGeometry { width: 4, height: 3, stride: 5, bytes_per_pixel: 3, pixel_format: PixelFormat::Rgb }
}

#[test]
fn slot_is_row_times_stride_plus_column_times_pixel_size() {
    let g = padded_rgb3();
    assert_eq!(g.slot(0, 0, 45), Some(0));
    assert_eq!(g.slot(2, 1, 45), Some(21));
    assert_eq!(g.slot(3, 2, 45), Some(39));
    assert_eq!(g.slot(3, 2, 42), Some(39));
    assert_eq!(g.slot(3, 2, 41), None);
    assert_eq!(g.slot(0, 0, 2), None);
    assert_eq!(g.slot(usize::MAX, usize::MAX, 45), None);
    assert_eq!(g.slot(1, usize::MAX, usize::MAX), None);
}

#[test]
fn slot_of_empty_pixels_is_the_start() {
    let g = BufferGeometry { width: 4, height: 4, stride: 4, bytes_per_pixel: 0, pixel_format: PixelFormat::Rgb };
    assert_eq!(g.slot(3, 3, 0), Some(0));
    assert_eq!(g.slot(usize::MAX, usize::MAX, 7), Some(0));
}

#[test]
fn pixel_lands_at_its_offset() {
    let g = padded_rgb3();
    let mut buffer = vec![0xAAu8; 45];
    assert_eq!(write_pixel_at(&mut buffer, &g, 2, 1, 0x112233), Ok(()));
    let mut expected = vec![0xAAu8; 45];
    expected[21] = 0x11;
    expected[22] = 0x22;
    expected[23] = 0x33;
    assert_eq!(buffer, expected);
}

#[test]
fn pixel_off_the_screen_is_refused_and_nothing_changes() {
    let g = padded_rgb3();
    let mut buffer = vec![0xAAu8; 45];
    assert_eq!(write_pixel_at(&mut buffer, &g, 4, 0, 0x112233), Err(FrameBufferError::InvalidPosition));
    assert_eq!(write_pixel_at(&mut buffer, &g, 0, 3, 0x112233), Err(FrameBufferError::InvalidPosition));
    assert_eq!(write_pixel_at(&mut buffer, &g, 4, 3, 0x112233), Err(FrameBufferError::InvalidPosition));
    assert_eq!(write_pixel_at(&mut buffer, &g, usize::MAX, 0, 0x112233), Err(FrameBufferError::InvalidPosition));
    assert_eq!(buffer, vec![0xAAu8; 45]);
}

#[test]
fn pixel_that_does_not_fit_the_buffer_is_dropped() {
    let g = padded_rgb3();
    let mut buffer = vec![0xAAu8; 40];
    assert_eq!(write_pixel_at(&mut buffer, &g, 3, 2, 0x112233), Ok(()));
    assert_eq!(buffer, vec![0xAAu8; 40]);
    write_pixel_at_offset(&mut buffer, &g, 38, 0x112233);
    assert_eq!(buffer, vec![0xAAu8; 40]);
    write_pixel_at_offset(&mut buffer, &g, usize::MAX, 0x112233);
    assert_eq!(buffer, vec![0xAAu8; 40]);
    write_pixel_at_offset(&mut buffer, &g, 37, 0x112233);
    assert_eq!(&buffer[37..40], &[0x11, 0x22, 0x33]);
}

#[test]
fn wide_pixels_keep_their_tail() {
    let g = BufferGeometry { width: 2, height: 1, stride: 2, bytes_per_pixel: 6, pixel_format: PixelFormat::Bgr };
    let mut buffer = vec![0xAAu8; 12];
    assert_eq!(write_pixel_at(&mut buffer, &g, 1, 0, 0x11223344), Ok(()));
    assert_eq!(buffer, vec![0xAA, 0xAA, 0xAA, 0xAA, 0xAA, 0xAA, 0x44, 0x33, 0x22, 0x11, 0xAA, 0xAA]);
}

#[test]
fn fill_reaches_every_visible_pixel_and_no_padding() {
    let g = padded_rgb3();
    let mut buffer = vec![0xAAu8; 45];
    fill_pixels(&mut buffer, &g, 0x010203);
    for y in 0..3usize {
        for x in 0..5usize {
            let at = (y * 5 + x) * 3;
            if x < 4 {
                assert_eq!(&buffer[at..at + 3], &[0x01, 0x02, 0x03]);
            } else {
                assert_eq!(&buffer[at..at + 3], &[0xAA, 0xAA, 0xAA]);
            }
        }
    }
}

#[test]
fn second_fill_changes_nothing() {
    let g = padded_rgb3();
    let mut buffer: Vec<u8> = (0..45u8).collect();
    fill_pixels(&mut buffer, &g, 0x445566);
    let once = buffer.clone();
    fill_pixels(&mut buffer, &g, 0x445566);
    assert_eq!(buffer, once);
}

#[test]
fn fill_of_a_short_buffer_stops_at_its_end() {
    let g = padded_rgb3();
    let mut buffer = vec![0xAAu8; 20];
    fill_pixels(&mut buffer, &g, 0x010203);
    assert_eq!(&buffer[0..12], &[1, 2, 3, 1, 2, 3, 1, 2, 3, 1, 2, 3]);
    assert_eq!(&buffer[12..15], &[0xAA, 0xAA, 0xAA]);
    assert_eq!(&buffer[15..18], &[1, 2, 3]);
    assert_eq!(&buffer[18..20], &[0xAA, 0xAA]);
}

#[test]
fn bitmap_is_blended_pixel_by_pixel() {
    let g = BufferGeometry { width: 4, height: 4, stride: 4, bytes_per_pixel: 3, pixel_format: PixelFormat::Rgb };
    let mut buffer = vec![0xAAu8; 48];
    let bitmap: [u8; 6] = [255, 0, 128, 1, 254, 0];
    assert_eq!(render_bitmap(&mut buffer, &g, 1, 2, &bitmap, 3, 2, 0xFFFFFF, 0x000000), Ok(()));
    let mut expected = vec![0xAAu8; 48];
    let cells: [(usize, usize, u8); 4] = [(1, 2, 255), (3, 2, 128), (1, 3, 1), (2, 3, 254)];
    for (x, y, alpha) in cells {
        let color: u32 = blend_colors(0x000000, 0xFFFFFF, alpha);
        let at = (y * 4 + x) * 3;
        expected[at] = (color >> 16) as u8;
        expected[at + 1] = (color >> 8) as u8;
        expected[at + 2] = color as u8;
    }
    assert_eq!(buffer, expected);
    assert_eq!(&buffer[27..30], &[0xFF, 0xFF, 0xFF]);
    assert_eq!(&buffer[33..36], &[0x80, 0x80, 0x80]);
}

#[test]
fn bitmap_is_cut_at_the_screen_edge() {
    let g = padded_rgb3();
    let mut buffer = vec![0xAAu8; 45];
    let bitmap: [u8; 4] = [255, 255, 255, 255];
    assert_eq!(render_bitmap(&mut buffer, &g, 3, 2, &bitmap, 2, 2, 0x010203, 0), Ok(()));
    let mut expected = vec![0xAAu8; 45];
    expected[39] = 1;
    expected[40] = 2;
    expected[41] = 3;
    assert_eq!(buffer, expected);
    assert_eq!(render_bitmap(&mut buffer, &g, usize::MAX, usize::MAX, &bitmap, 2, 2, 0x010203, 0), Ok(()));
    assert_eq!(buffer, expected);
}

#[test]
fn short_bitmap_is_refused_and_nothing_is_drawn() {
    let g = padded_rgb3();
    let mut buffer = vec![0xAAu8; 45];
    let bitmap: [u8; 3] = [255, 255, 255];
    assert_eq!(render_bitmap(&mut buffer, &g, 0, 0, &bitmap, 2, 2, 0xFFFFFF, 0), Err(FrameBufferError::BufferTooSmall));
    assert_eq!(render_bitmap(&mut buffer, &g, 0, 0, &bitmap, usize::MAX, 2, 0xFFFFFF, 0), Err(FrameBufferError::BufferTooSmall));
    assert_eq!(buffer, vec![0xAAu8; 45]);
    assert_eq!(render_bitmap(&mut buffer, &g, 0, 0, &bitmap, 3, 1, 0xFFFFFF, 0), Ok(()));
    assert_eq!(render_bitmap(&mut buffer, &g, 0, 0, &[], 0, 7, 0xFFFFFF, 0), Ok(()));
}

#[test]
fn longer_bitmap_draws_only_its_rows() {
    let g = padded_rgb3();
    let mut buffer = vec![0u8; 45];
    let bitmap: [u8; 5] = [255, 255, 255, 255, 255];
    assert_eq!(render_bitmap(&mut buffer, &g, 0, 0, &bitmap, 2, 2, 0x090909, 0), Ok(()));
    assert_eq!(&buffer[0..6], &[9, 9, 9, 9, 9, 9]);
    assert_eq!(&buffer[6..15], &[0, 0, 0, 0, 0, 0, 0, 0, 0]);
    assert_eq!(&buffer[15..21], &[9, 9, 9, 9, 9, 9]);
    assert_eq!(&buffer[21..45], &[0u8; 24]);
}

#[test]
fn bytes_are_read_back() {
    let buffer: Vec<u8> = (0..10u8).collect();
    assert_eq!(load_bytes(&buffer, 3, 4), vec![3, 4, 5, 6]);
    assert_eq!(load_bytes(&buffer, 10, 0), Vec::<u8>::new());
}
