//! What the chips look like and how their pixels reach the screen.

use crate::double::{half_even, lemma_half_even_close};
use crate::fonts::{fallback, font_glyphs, FontBookView};
use crate::image::{
    format_from, info_lines, info_width, label_color, label_height, on_outline, packed_byte,
    pixel_value, row_bytes, stride, title_line_top, value_byte, visual_from, ChipSpacing, ImageFmt,
    LabelLayout, PixmapFormat, TextImage, VisualMasks, APP_BG, HINT_BG, HINT_BORDER,
};
use crate::rect::holds_point;
use vstd::prelude::*;

verus! {

// === Chips ===

/// The outline of a rectangle is what lies in it and at one of its edges.
pub proof fn outlines_are_the_edges(r: (int, int, int, int), x: int, y: int)
    requires
        r.2 > 0 && r.3 > 0,
    ensures
        on_outline(r, x, y) <==> holds_point(r, x, y) && (x == r.0 || x == r.0 + r.2 - 1 || y == r.1
            || y == r.1 + r.3 - 1),
{
}

/// A label has a frame round its hint, the hint's ground inside it, and the window's ground
/// right of it.
pub proof fn labels_frame_their_hint(layout: LabelLayout, x: int, y: int)
    requires
        layout.hint_w > 0 && layout.height > 0 && layout.info_w >= 0,
        0 <= x < layout.hint_w + layout.info_w,
        0 <= y < layout.height,
    ensures
        x >= layout.hint_w ==> label_color(layout, x, y) == APP_BG,
        x == 0 || x == layout.hint_w - 1 ==> label_color(layout, x, y) == HINT_BORDER,
        x < layout.hint_w && (y == 0 || y == layout.height - 1) ==> label_color(layout, x, y)
            == HINT_BORDER,
        0 < x < layout.hint_w - 1 && 0 < y < layout.height - 1 ==> label_color(layout, x, y)
            == HINT_BG,
{
}

/// The lines of a label fit on it: it is as high as the highest of the hint and of the
/// lines beside it, with a margin above and below; the title stands below the name, a gap
/// away, and the lines together end where they were said to end.
pub proof fn lines_fit_on_their_label(
    has_app: bool,
    has_title: bool,
    hint_line: int,
    app_line: int,
    title_line: int,
    spacing: ChipSpacing,
    layout: LabelLayout,
)
    requires
        layout.info_block == info_lines(has_app, has_title, app_line, title_line, spacing),
        layout.height == label_height(hint_line, layout.info_block as int, spacing),
        0 <= hint_line && 0 <= app_line && 0 <= title_line,
        spacing.vpad >= 0 && spacing.line_gap >= 0,
    ensures
        layout.height >= hint_line + 2 * spacing.vpad,
        layout.height >= layout.info_block + 2 * spacing.vpad,
        layout.height == hint_line + 2 * spacing.vpad || layout.height == layout.info_block + 2
            * spacing.vpad,
        has_app && has_title ==> layout.info_block == app_line + spacing.line_gap + title_line,
        has_app && !has_title ==> layout.info_block == app_line,
        !has_app && has_title ==> layout.info_block == title_line,
        !has_app && !has_title ==> layout.info_block == 0,
        ({
            let top = title_line_top(layout, false, app_line, spacing);
            &&& has_app && has_title ==> title_line_top(layout, true, app_line, spacing) == top
                + app_line + spacing.line_gap
            &&& has_app && has_title ==> title_line_top(layout, true, app_line, spacing) + title_line
                == top + layout.info_block
            &&& spacing.vpad <= top
            &&& top + layout.info_block <= layout.height - spacing.vpad
        }),
{
}

/// A label leaves room for the wider of its two texts and a margin of eleven pixels on
/// either side, and no room where there is neither.
pub proof fn texts_fit_on_their_label(has_app: bool, has_title: bool, app_w: int, title_w: int)
    ensures
        has_app || has_title ==> {
            let w = info_width(has_app, has_title, app_w, title_w);
            &&& w >= app_w + 22 && w >= title_w + 22
            &&& w == app_w + 22 || w == title_w + 22
        },
        !has_app && !has_title ==> info_width(has_app, has_title, app_w, title_w) == 0,
{
}

// === Pixels ===

/// An image has a pixel for each column and row, and no two share one.
pub proof fn images_have_a_pixel_for_each_place(
    img: TextImage,
    x: int,
    y: int,
    px: int,
    py: int,
)
    requires
        img.wf(),
        img.on_image(x, y) && img.on_image(px, py),
    ensures
        0 <= y * img.width + x < img.pixels@.len(),
        y * img.width + x == py * img.width + px ==> x == px && y == py,
        img.at(x, y) == img.pixels@[y * img.width + x],
        forall|a: int, b: int| #[trigger]
            img.on_image(a, b) <==> 0 <= a < img.width && 0 <= b < img.height,
{
    let (w, h) = (img.width as int, img.height as int);
    assert(0 <= y * w + x < w * h) by (nonlinear_arith)
        requires
            0 <= x < w,
            0 <= y < h,
    ;
    lemma_row(y, w, x);
    lemma_row(py, w, px);
}

/// A pixel's bytes stand in its row, in the order of the columns; what is left of a row is
/// filled with zeros.
pub proof fn pixels_are_packed_by_rows(fmt: ImageFmt, img: TextImage, x: int, y: int, k: int)
    requires
        fmt.scanline_pad_bytes > 0 && fmt.bytes_per_pixel > 0,
        img.on_image(x, y),
        0 <= k < fmt.bytes_per_pixel,
    ensures
        ({
            let at = y * stride(fmt, img.width) + x * fmt.bytes_per_pixel + k;
            packed_byte(fmt, img, at) == value_byte(fmt, pixel_value(fmt, img.at(x, y)), k)
        }),
        forall|column: int|
            row_bytes(fmt, img.width) <= column < stride(fmt, img.width) ==> #[trigger] packed_byte(
                fmt,
                img,
                y * stride(fmt, img.width) + column,
            ) == 0,
{
    let s = stride(fmt, img.width) as int;
    let b = fmt.bytes_per_pixel as int;
    let w = img.width as int;
    crate::image::rows_are_padded(fmt, img.width);
    let column = x * b + k;
    assert(0 <= column < w * b) by (nonlinear_arith)
        requires
            0 <= x < w,
            0 <= k < b,
            column == x * b + k,
    ;
    lemma_row(y, s, column);
    lemma_row(x, b, k);
    assert forall|c: int| row_bytes(fmt, img.width) <= c < s implies #[trigger] packed_byte(
        fmt,
        img,
        y * stride(fmt, img.width) + c,
    ) == 0 by {
        lemma_row(y, s, c);
    }
}

proof fn lemma_row(q: int, d: int, r: int)
    requires
        0 <= r < d,
    ensures
        (q * d + r) / d == q,
        (q * d + r) % d == r,
{
    vstd::arithmetic::div_mod::lemma_fundamental_div_mod_converse(q * d + r, d, q, r);
}

/// The four bytes of a pixel make up its value, the lowest first or the highest first.
pub proof fn bytes_make_up_the_value(fmt: ImageFmt, value: u32)
    requires
        fmt.bytes_per_pixel == 4,
    ensures
        ({
            let (a, b, c, d) = (
                value_byte(fmt, value, 0) as int,
                value_byte(fmt, value, 1) as int,
                value_byte(fmt, value, 2) as int,
                value_byte(fmt, value, 3) as int,
            );
            &&& fmt.lsb_first ==> value == a + 0x100 * b + 0x1_0000 * c + 0x100_0000 * d
            &&& !fmt.lsb_first ==> value == d + 0x100 * c + 0x1_0000 * b + 0x100_0000 * a
        }),
{
    let (a, b, c, d) = (
        (value >> 0u32) as u8,
        (value >> 8u32) as u8,
        (value >> 16u32) as u8,
        (value >> 24u32) as u8,
    );
    assert(value == (a as u32) + 0x100 * (b as u32) + 0x1_0000 * (c as u32) + 0x100_0000 * (
    d as u32)) by (bit_vector)
        requires
            a == (value >> 0u32) as u8,
            b == (value >> 8u32) as u8,
            c == (value >> 16u32) as u8,
            d == (value >> 24u32) as u8,
    ;
}

/// Where the colours have bits of their own, each can be read back from the pixel's value.
pub proof fn colours_can_be_read_back(fmt: ImageFmt, color: (u8, u8, u8))
    requires
        fmt.r_shift <= 24 && fmt.g_shift <= 24 && fmt.b_shift <= 24,
        fmt.r_shift + 8 <= fmt.g_shift || fmt.g_shift + 8 <= fmt.r_shift,
        fmt.r_shift + 8 <= fmt.b_shift || fmt.b_shift + 8 <= fmt.r_shift,
        fmt.g_shift + 8 <= fmt.b_shift || fmt.b_shift + 8 <= fmt.g_shift,
    ensures
        (pixel_value(fmt, color) >> fmt.r_shift) as u8 == color.0,
        (pixel_value(fmt, color) >> fmt.g_shift) as u8 == color.1,
        (pixel_value(fmt, color) >> fmt.b_shift) as u8 == color.2,
{
    lemma_channel(color.0, color.1, color.2, fmt.r_shift, fmt.g_shift, fmt.b_shift);
    lemma_channel(color.1, color.0, color.2, fmt.g_shift, fmt.r_shift, fmt.b_shift);
    lemma_channel(color.2, color.0, color.1, fmt.b_shift, fmt.r_shift, fmt.g_shift);
    let (r, g, b) = (color.0 as u32, color.1 as u32, color.2 as u32);
    let (i, j, k) = (fmt.r_shift, fmt.g_shift, fmt.b_shift);
    let (x, y, z) = (r << i, g << j, b << k);
    assert((x | y) | z == (y | x) | z && (x | y) | z == (z | x) | y) by (bit_vector);
}

proof fn lemma_channel(a: u8, b: u8, c: u8, i: u32, j: u32, k: u32)
    requires
        i <= 24 && j <= 24 && k <= 24,
        i + 8 <= j || j + 8 <= i,
        i + 8 <= k || k + 8 <= i,
    ensures
        (((((a as u32) << i) | ((b as u32) << j)) | ((c as u32) << k)) >> i) as u8 == a,
{
    assert((((((a as u32) << i) | ((b as u32) << j)) | ((c as u32) << k)) >> i) as u8 == a)
        by (bit_vector)
        requires
            i <= 24 && j <= 24 && k <= 24,
            i + 8 <= j || j + 8 <= i,
            i + 8 <= k || k + 8 <= i,
    ;
}

/// The first format of a depth is taken, and the first visual of a number.
pub proof fn the_first_fitting_format_is_taken(
    formats: Seq<PixmapFormat>,
    visuals: Seq<VisualMasks>,
    depth: u8,
    id: u32,
    i: int,
)
    requires
        0 <= i,
    ensures
        match format_from(formats, depth, i) {
            Some(f) => exists|k: int|
                {
                    &&& i <= k < formats.len()
                    &&& #[trigger] formats[k] == f && f.depth == depth
                    &&& forall|j: int| i <= j < k ==> (#[trigger] formats[j]).depth != depth
                },
            None => forall|j: int| i <= j < formats.len() ==> (#[trigger] formats[j]).depth != depth,
        },
        match visual_from(visuals, id, i) {
            Some(v) => exists|k: int|
                {
                    &&& i <= k < visuals.len()
                    &&& #[trigger] visuals[k] == v && v.id == id
                    &&& forall|j: int| i <= j < k ==> (#[trigger] visuals[j]).id != id
                },
            None => forall|j: int| i <= j < visuals.len() ==> (#[trigger] visuals[j]).id != id,
        },
    decreases formats.len() + visuals.len() - i,
{
    if i < formats.len() || i < visuals.len() {
        the_first_fitting_format_is_taken(formats, visuals, depth, id, i + 1);
        if i < formats.len() && formats[i].depth == depth {
            assert(formats[i] == format_from(formats, depth, i)->Some_0);
        }
        if i < visuals.len() && visuals[i].id == id {
            assert(visuals[i] == visual_from(visuals, id, i)->Some_0);
        }
    }
}

// === Fonts ===

/// A character that no font covers gets the font that is found for it, where that covers
/// it, and the first font else; the fonts there are stay what and where they are.
pub proof fn found_fonts_cover_their_character(
    b: FontBookView,
    c: char,
    path: Seq<char>,
    data: Option<Seq<u8>>,
)
    ensures
        fallback(b, c, None, data) == (b, 0int),
        b.loaded.contains_key(path) ==> fallback(b, c, Some(path), data) == (
            b,
            b.loaded[path] as int,
        ),
        ({
            let (after, i) = fallback(b, c, Some(path), data);
            &&& b.fonts.is_prefix_of(after.fonts)
            &&& after.cache == b.cache
            &&& !b.loaded.contains_key(path) ==> {
                let covers = data is Some && font_glyphs(data->Some_0) is Some && font_glyphs(
                    data->Some_0,
                )->Some_0[c] != 0;
                &&& covers ==> after.fonts.len() == b.fonts.len() + 1 && i == b.fonts.len()
                    && after.fonts[i][c] != 0 && after.loaded.contains_key(path)
                &&& !covers ==> after == b && i == 0
            }
        }),
{
}

// === Rounding ===

/// A quotient is rounded to the nearest whole number, and a half to the even one.
#[verifier::spinoff_prover]
#[verifier::rlimit(60)]
pub proof fn halves_are_rounded_to_even(n: int, d: int, k: int)
    requires
        d > 0,
    ensures
        2 * n - d <= 2 * (half_even(n, d) * d) <= 2 * n + d,
        2 * n == (2 * k + 1) * d ==> half_even(n, d) % 2 == 0 && (half_even(n, d) == k || half_even(
            n,
            d,
        ) == k + 1),
{
    lemma_half_even_close(n, d);
    if 2 * n == (2 * k + 1) * d {
        let h = half_even(n, d);
        assert(h == k || h == k + 1) by (nonlinear_arith)
            requires
                2 * n - d <= 2 * (h * d) <= 2 * n + d,
                2 * n == (2 * k + 1) * d,
                d > 0,
        ;
        let (q, r) = (n / d, n % d);
        vstd::arithmetic::div_mod::lemma_fundamental_div_mod(n, d);
        let m = 2 * k + 1 - 2 * q;
        assert(2 * r == d * m) by {
            assert((2 * k + 1) * d == d * (2 * k + 1)) by (nonlinear_arith);
            assert(d * (2 * k + 1) - 2 * (d * q) == d * (2 * k + 1 - 2 * q)) by (nonlinear_arith);
        }
        assert(m > -1) by (nonlinear_arith)
            requires
                2 * r == d * m,
                0 <= r,
                d > 0,
        ;
        assert(m < 2) by (nonlinear_arith)
            requires
                2 * r == d * m,
                r < d,
                d > 0,
        ;
        assert(m == 1);
    }
}

} // verus!
