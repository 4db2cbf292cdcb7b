use rightkeys::fonts::FontBook;
use rightkeys::icon::{decode_rgba, rgba_of, PngColor, PngFrame};

/// Two RGBA pixels side by side.
const RGBA_PNG: &[u8] = &[
    0x89, 0x50, 0x4e, 0x47, 0x0d, 0x0a, 0x1a, 0x0a, 0x00, 0x00, 0x00, 0x0d, 0x49, 0x48, 0x44, 0x52,
    0x00, 0x00, 0x00, 0x02, 0x00, 0x00, 0x00, 0x01, 0x08, 0x06, 0x00, 0x00, 0x00, 0xf4, 0x22, 0x7f,
    0x8a, 0x00, 0x00, 0x00, 0x11, 0x49, 0x44, 0x41, 0x54, 0x78, 0x9c, 0x63, 0x60, 0x64, 0x62, 0x66,
    0x61, 0x65, 0x63, 0xe7, 0x00, 0x00, 0x00, 0x81, 0x00, 0x25, 0x98, 0x75, 0xd0, 0x9f, 0x00, 0x00,
    0x00, 0x00, 0x49, 0x45, 0x4e, 0x44, 0xae, 0x42, 0x60, 0x82,
];

/// One RGB pixel.
const RGB_PNG: &[u8] = &[
    0x89, 0x50, 0x4e, 0x47, 0x0d, 0x0a, 0x1a, 0x0a, 0x00, 0x00, 0x00, 0x0d, 0x49, 0x48, 0x44, 0x52,
    0x00, 0x00, 0x00, 0x01, 0x00, 0x00, 0x00, 0x01, 0x08, 0x02, 0x00, 0x00, 0x00, 0x90, 0x77, 0x53,
    0xde, 0x00, 0x00, 0x00, 0x0c, 0x49, 0x44, 0x41, 0x54, 0x78, 0x9c, 0x63, 0xe0, 0xe4, 0x60, 0x07,
    0x00, 0x00, 0x36, 0x00, 0x19, 0x6e, 0xb5, 0x2a, 0x2a, 0x00, 0x00, 0x00, 0x00, 0x49, 0x45, 0x4e,
    0x44, 0xae, 0x42, 0x60, 0x82,
];

/// A TrueType font whose only glyph is that of one character.
const TINY_FONT: &[u8] = &[
    0x00, 0x01, 0x00, 0x00, 0x00, 0x05, 0x00, 0x40, 0x00, 0x02, 0x00, 0x10, 0x63, 0x6d, 0x61, 0x70,
    0x00, 0x00, 0x00, 0x00, 0x00, 0x00, 0x00, 0x5c, 0x00, 0x00, 0x00, 0x18, 0x68, 0x65, 0x61, 0x64,
    0x00, 0x00, 0x00, 0x00, 0x00, 0x00, 0x00, 0x74, 0x00, 0x00, 0x00, 0x36, 0x68, 0x68, 0x65, 0x61,
    0x00, 0x00, 0x00, 0x00, 0x00, 0x00, 0x00, 0xac, 0x00, 0x00, 0x00, 0x24, 0x68, 0x6d, 0x74, 0x78,
    0x00, 0x00, 0x00, 0x00, 0x00, 0x00, 0x00, 0xd0, 0x00, 0x00, 0x00, 0x08, 0x6d, 0x61, 0x78, 0x70,
    0x00, 0x00, 0x00, 0x00, 0x00, 0x00, 0x00, 0xd8, 0x00, 0x00, 0x00, 0x06, 0x00, 0x00, 0x00, 0x01,
    0x00, 0x03, 0x00, 0x01, 0x00, 0x00, 0x00, 0x0c, 0x00, 0x06, 0x00, 0x0c, 0x00, 0x00, 0x00, 0x61,
    0x00, 0x01, 0x00, 0x01, 0x00, 0x01, 0x00, 0x00, 0x00, 0x01, 0x00, 0x00, 0x00, 0x00, 0x00, 0x00,
    0x5f, 0x0f, 0x3c, 0xf5, 0x00, 0x00, 0x03, 0xe8, 0x00, 0x00, 0x00, 0x00, 0x00, 0x00, 0x00, 0x00,
    0x00, 0x00, 0x00, 0x00, 0x00, 0x00, 0x00, 0x00, 0x00, 0x00, 0x00, 0x00, 0x00, 0x64, 0x00, 0x64,
    0x00, 0x00, 0x00, 0x08, 0x00, 0x02, 0x00, 0x00, 0x00, 0x00, 0x00, 0x00, 0x00, 0x01, 0x00, 0x00,
    0x03, 0x20, 0xff, 0x38, 0x00, 0x00, 0x01, 0xf4, 0x00, 0x00, 0x00, 0x00, 0x01, 0xf4, 0x00, 0x01,
    0x00, 0x00, 0x00, 0x00, 0x00, 0x00, 0x00, 0x00, 0x00, 0x00, 0x00, 0x00, 0x00, 0x00, 0x00, 0x02,
    0x01, 0xf4, 0x00, 0x00, 0x01, 0xf4, 0x00, 0x00, 0x00, 0x00, 0x50, 0x00, 0x00, 0x02, 0x00, 0x00,
];

/// Where that character stands in the font.
const CHARACTER_AT: usize = 111;

fn font_with(c: char) -> Vec<u8> {
    let mut data = TINY_FONT.to_vec();
    data[CHARACTER_AT] = c as u8;
    data
}

#[test]
fn rgba_images_decode_to_their_pixels() {
    assert_eq!(
        decode_rgba(RGBA_PNG),
        Some((vec![1, 2, 3, 4, 5, 6, 7, 8], 2, 1))
    );
}

#[test]
fn other_images_and_other_bytes_are_no_icon() {
    assert_eq!(decode_rgba(RGB_PNG), None);
    assert_eq!(decode_rgba(b"not a picture"), None);
    assert_eq!(decode_rgba(&RGBA_PNG[..40]), None);
}

#[test]
fn frames_are_cut_to_their_size() {
    let frame = |color, depth| PngFrame {
        width: 1,
        height: 1,
        color,
        depth,
        size: 4,
        pixels: vec![1, 2, 3, 4, 9, 9],
    };
    assert_eq!(
        rgba_of(frame(PngColor::Rgba, 8)),
        Some((vec![1, 2, 3, 4], 1, 1))
    );
    assert_eq!(rgba_of(frame(PngColor::Rgba, 16)), None);
    assert_eq!(rgba_of(frame(PngColor::Rgb, 8)), None);
}

#[test]
fn characters_fall_back_to_a_font_that_has_them() {
    let mut book = FontBook::new(font_with('a')).unwrap();
    assert_eq!(book.len(), 1);
    assert_eq!(book.find('a'), Some(0));
    assert_eq!(book.find(' '), Some(0));
    assert_eq!(book.find('b'), None);

    let path = "/fonts/b.ttf".to_string();
    assert!(!book.is_loaded(&path));
    assert_eq!(book.settle('b', Some(path.clone()), Some(font_with('b'))), 1);
    assert!(book.is_loaded(&path));
    assert_eq!(book.len(), 2);
    assert_eq!(book.find('b'), Some(1));

    // A second character of the same file does not load it again.
    assert_eq!(book.settle('c', Some(path), None), 1);
    assert_eq!(book.len(), 2);
    assert_eq!(book.find('c'), Some(1));
}

#[test]
fn characters_without_a_font_use_the_primary_one() {
    let mut book = FontBook::new(font_with('a')).unwrap();
    assert_eq!(book.settle('x', None, None), 0);
    assert_eq!(book.find('x'), Some(0));
    assert_eq!(book.settle('y', Some("/fonts/none".to_string()), None), 0);
    // A file that lacks the character, and one that is no font.
    assert_eq!(
        book.settle('z', Some("/fonts/b".to_string()), Some(font_with('b'))),
        0
    );
    assert_eq!(
        book.settle('w', Some("/fonts/junk".to_string()), Some(vec![0; 10])),
        0
    );
    assert_eq!(book.len(), 1);
    assert!(FontBook::new(vec![1, 2, 3]).is_none());
}
