use rightkeys::hints::{make_hints, place_hint, rects_overlap};
use rightkeys::image::{
    badge_canvas, badge_size, encode_image, image_fmt, label_canvas, label_layout, label_rows,
    linux_spacing, rgb, windows_spacing, ImageFmt, LayoutFault, PixmapFormat, TextImage,
    VisualMasks, APP_BG, HINT_BG, HINT_BORDER,
};
use rightkeys::key::Key;
use rightkeys::picker::{
    centered_on, chip_text, hint_targets, layout_chips, Picker, PickerStep, WindowFacts,
};

fn pixel(img: &TextImage, x: usize, y: usize) -> (u8, u8, u8) {
    img.pixels[y * img.width as usize + x]
}

#[test]
fn labels_are_laid_out_by_their_lines() {
    let both = label_layout(true, true, (26, 20, 16), (12, 80, 120), linux_spacing());
    assert_eq!((both.hint_w, both.info_w), (30, 142));
    assert_eq!((both.info_block, both.width, both.height), (37, 172, 43));
    let bare = label_layout(false, false, (26, 20, 16), (12, 0, 0), linux_spacing());
    assert_eq!((bare.info_w, bare.info_block, bare.height), (0, 0, 32));
    let wide = label_layout(true, false, (24, 18, 15), (10, 40, 0), windows_spacing());
    assert_eq!((wide.width, wide.height), (10 + 18 + 40 + 22, 34));
    let rows = label_rows(both, 26, true, 20, linux_spacing());
    assert_eq!((rows.hint_top, rows.app_top, rows.title_top, rows.info_left), (8, 3, 24, 41));
}

#[test]
fn canvases_have_their_border_and_field() {
    let layout = label_layout(true, false, (4, 4, 4), (2, 3, 0), linux_spacing());
    let img = label_canvas(layout);
    assert_eq!((img.width, img.height), (layout.width as u16, layout.height as u16));
    assert_eq!(pixel(&img, 0, 0), HINT_BORDER);
    assert_eq!(pixel(&img, 1, 1), HINT_BG);
    assert_eq!(pixel(&img, layout.hint_w as usize, 1), APP_BG);
    assert_eq!(pixel(&img, layout.hint_w as usize - 1, 5), HINT_BORDER);

    assert_eq!(badge_size(10, 12), (18, 16));
    let badge = badge_canvas(18, 16);
    assert_eq!(pixel(&badge, 17, 15), HINT_BORDER);
    assert_eq!(pixel(&badge, 8, 8), HINT_BG);
}

#[test]
fn the_pixel_layout_follows_the_server() {
    let formats = vec![
        PixmapFormat { depth: 1, bits_per_pixel: 1, scanline_pad: 32 },
        PixmapFormat { depth: 24, bits_per_pixel: 32, scanline_pad: 32 },
    ];
    let visuals = vec![VisualMasks { id: 9, red: 0xff0000, green: 0xff00, blue: 0xff }];
    let fmt = image_fmt(&formats, &visuals, 24, 9, true).unwrap();
    assert_eq!((fmt.bytes_per_pixel, fmt.scanline_pad_bytes), (4, 4));
    assert_eq!((fmt.r_shift, fmt.g_shift, fmt.b_shift), (16, 8, 0));
    assert_eq!(
        image_fmt(&formats, &visuals, 30, 9, true).unwrap_err(),
        LayoutFault::NoFormat
    );
    assert_eq!(
        image_fmt(&formats, &visuals, 24, 8, true).unwrap_err(),
        LayoutFault::NoVisual
    );
}

#[test]
fn big_endian_servers_get_the_high_byte_first() {
    let fmt = ImageFmt {
        bytes_per_pixel: 4,
        scanline_pad_bytes: 4,
        lsb_first: false,
        r_shift: 16,
        g_shift: 8,
        b_shift: 0,
    };
    let img = TextImage::new(1, 1, (1, 2, 3));
    assert_eq!(encode_image(&fmt, &img), vec![0, 1, 2, 3]);
    assert_eq!(rgb(0x17, 0x25, 0x54), 0x0054_2517);
}

#[test]
fn chips_are_centred_and_kept_apart() {
    assert_eq!(centered_on((100, 50), (31, 20)), (85, 40));
    let desired = vec![(10, 10), (10, 10), (-50, 10), (10, 10)];
    let sizes = vec![(40, 20), (40, 20), (40, 20), (40, 20)];
    let placed = layout_chips(&desired, &sizes, (400, 300));
    assert_eq!(placed[0], (10, 10, 40, 20));
    for i in 0..placed.len() {
        for k in 0..i {
            assert!(!rects_overlap(placed[i], placed[k]), "{i} {k}");
        }
        assert!(placed[i].0 >= 0 && placed[i].0 + 40 <= 400);
    }
    // Where every slot is taken the chip goes to its desired spot.
    assert_eq!(place_hint((0, 0), (10, 10), &[(0, 0, 10, 12)], (10, 12)), (0, 0));
}

#[test]
fn windows_of_the_desktop_get_hints() {
    let facts = |win, desktop| WindowFacts {
        win,
        desktop,
        origin: Some((-10, 20)),
        size: Some((101, 50)),
        class: Some(b"navigator\0Firefox\0".to_vec()),
        net_name: Some("Page \u{2014} Mozilla Firefox".as_bytes().to_vec()),
        name: None,
    };
    let targets = hint_targets(&vec![facts(1, Some(0)), facts(2, Some(1)), facts(3, None)], 1);
    assert_eq!(targets.len(), 1);
    assert_eq!((targets[0].win, targets[0].center), (2, (40, 45)));
    assert_eq!(
        (targets[0].label.as_str(), targets[0].rest.as_str()),
        ("Mozilla Firefox", "Page")
    );
    let (label, rest) = chip_text("Untitled", "gimp".to_string());
    assert_eq!((label.as_str(), rest.as_str()), ("gimp", "Untitled"));
}

#[test]
fn hints_are_typed_and_taken_back() {
    let mut picker = Picker::new(make_hints(30));
    assert_eq!(picker.press(Some(Key::A)), PickerStep::Updated);
    let narrowed = picker.visible();
    assert!(narrowed.iter().any(|v| *v) && narrowed.iter().any(|v| !*v));
    assert_eq!(picker.press(Some(Key::Backspace)), PickerStep::Updated);
    assert!(picker.visible().iter().all(|v| *v));
    assert_eq!(picker.press(Some(Key::F5)), PickerStep::Ignored);
    assert_eq!(picker.press(None), PickerStep::Ignored);
    assert_eq!(picker.press(Some(Key::Esc)), PickerStep::Cancelled);
    let mut few = Picker::new(make_hints(2));
    assert_eq!(few.press(Some(Key::Z)), PickerStep::Updated);
    assert!(few.visible().iter().all(|v| *v));
}

#[test]
fn all_hints_differ_and_can_be_typed() {
    for count in [1, 26, 27, 700] {
        let hints = make_hints(count);
        assert_eq!(hints.len(), count);
        for i in 0..count {
            assert_eq!(hints[i].len(), hints[0].len());
            assert!(!hints[..i].contains(&hints[i]));
        }
    }
}
