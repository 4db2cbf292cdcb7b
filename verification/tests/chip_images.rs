use rightkeys::image::{encode_image, ImageFmt, TextImage};

#[test]
fn text_image_fills_and_outlines() {
    let mut img = TextImage::new(4, 3, (1, 2, 3));
    // Filled with the background color.
    assert_eq!(img.pixels[0], (1, 2, 3));
    img.draw_outline(0, 0, 4, 3, (9, 9, 9));
    // Border pixel (corner) set, interior pixel untouched.
    assert_eq!(img.pixels[0], (9, 9, 9));
    assert_eq!(img.pixels[4 + 1], (1, 2, 3));
    // Out-of-bounds writes are ignored, not panics.
    img.set(99, 99, (0, 0, 0));
}

#[test]
fn encode_image_packs_bgrx_little_endian() {
    // The common case: 32 bpp, LSB-first, masks R=0xff0000 G=0xff00 B=0xff.
    let fmt = ImageFmt {
        bytes_per_pixel: 4,
        scanline_pad_bytes: 4,
        lsb_first: true,
        r_shift: 16,
        g_shift: 8,
        b_shift: 0,
    };
    let img = TextImage::new(1, 1, (0x12, 0x34, 0x56));
    // Pixel 0x00123456 stored low-byte first: B, G, R, 0.
    assert_eq!(encode_image(&fmt, &img), vec![0x56, 0x34, 0x12, 0x00]);
}

#[test]
fn encode_image_pads_rows_to_scanline() {
    // 3 px wide at 4 bytes each = 12 bytes; padded up to a 8-byte scanline = 16.
    let fmt = ImageFmt {
        bytes_per_pixel: 4,
        scanline_pad_bytes: 8,
        lsb_first: true,
        r_shift: 16,
        g_shift: 8,
        b_shift: 0,
    };
    let img = TextImage::new(3, 2, (0, 0, 0));
    assert_eq!(encode_image(&fmt, &img).len(), 16 * 2);
}
