//! Overlay chip images: composing them pixel by pixel, their layout, and packing
//! them into the byte layout a display server expects.

use crate::geometry::{fits, larger, quotient};
use vstd::prelude::*;

verus! {

// === Constants ===

/// Horizontal padding inside the hint key chip (pixels on each side).
pub const HINT_CHIP_PAD: i32 = 9;

/// Horizontal padding inside the app-name chip (pixels on each side).
pub const APP_CHIP_PAD: i32 = 11;

/// Vertical padding inside an element hint badge (pixels).
pub const ELEMENT_HINT_VPAD: i32 = 2;

/// Horizontal padding inside an element hint badge (pixels).
pub const ELEMENT_HINT_HPAD: i32 = 4;

/// Background of the hint key chip as `(r, g, b)`: an ice-blue badge.
pub const HINT_BG: (u8, u8, u8) = (0xca, 0xe0, 0xfa);

/// Border of the hint key chip: a medium blue.
pub const HINT_BORDER: (u8, u8, u8) = (0x3b, 0x82, 0xf6);

/// Background of the info chip: a slightly darker blue field.
pub const APP_BG: (u8, u8, u8) = (0x1e, 0x40, 0x7a);

// === Data structures ===

/// A CPU-rendered RGB image, row-major, used to compose an overlay chip before
/// uploading it to the display server.
#[derive(Debug)]
pub struct TextImage {
    pub width: u16,
    pub height: u16,
    pub pixels: Vec<(u8, u8, u8)>,
}

/// The server's pixel layout for the root depth, so a [`TextImage`] can be
/// serialized into the byte order and channel positions it expects.
#[derive(Clone, Copy, Debug)]
pub struct ImageFmt {
    pub bytes_per_pixel: usize,
    pub scanline_pad_bytes: usize,
    pub lsb_first: bool,
    pub r_shift: u32,
    pub g_shift: u32,
    pub b_shift: u32,
}

// === TextImage ===

impl TextImage {
    /// The image has as many pixels as its size says.
    pub open spec fn wf(&self) -> bool {
        self.pixels@.len() == self.width * self.height
    }

    /// The point lies on the image.
    pub open spec fn on_image(&self, x: int, y: int) -> bool {
        0 <= x < self.width && 0 <= y < self.height
    }

    /// The color at a point of the image.
    pub open spec fn at(&self, x: int, y: int) -> (u8, u8, u8) {
        self.pixels@[y * self.width + x]
    }

    /// The image is as big as another.
    pub open spec fn same_size(&self, other: &TextImage) -> bool {
        self.width == other.width && self.height == other.height
    }

    /// A `width`×`height` image filled with `bg`.
    pub fn new(width: u16, height: u16, bg: (u8, u8, u8)) -> (r: TextImage)
        ensures
            r.wf(),
            r.width == width,
            r.height == height,
            forall|i: int| 0 <= i < r.pixels@.len() ==> r.pixels@[i] == bg,
    {
        assert(0 <= width * height <= 0xffff * 0xffff) by (nonlinear_arith)
            requires
                0 <= width <= 0xffff,
                0 <= height <= 0xffff,
        ;
        let count: u32 = width as u32 * height as u32;
        let mut pixels: Vec<(u8, u8, u8)> = Vec::new();
        let mut i: u32 = 0;
        while i < count
            invariant
                i <= count,
                pixels@.len() == i,
                forall|k: int| 0 <= k < i ==> pixels@[k] == bg,
            decreases count - i,
        {
            pixels.push(bg);
            i = i + 1;
        }
        TextImage { width, height, pixels }
    }

    /// Set one pixel, ignoring out-of-bounds coordinates.
    pub fn set(&mut self, x: i32, y: i32, color: (u8, u8, u8))
        requires
            old(self).wf(),
        ensures
            final(self).wf(),
            final(self).same_size(old(self)),
            forall|px: int, py: int|
                final(self).on_image(px, py) ==> #[trigger] final(self).at(px, py) == if px == x
                    && py == y {
                    color
                } else {
                    old(self).at(px, py)
                },
    {
        if x >= 0 && y >= 0 && x < self.width as i32 && y < self.height as i32 {
            proof {
                lemma_offset(x as int, y as int, self.width as int, self.height as int);
                assert(0 <= self.width * self.height <= 0xffff * 0xffff) by (nonlinear_arith)
                    requires
                        0 <= self.width <= 0xffff,
                        0 <= self.height <= 0xffff,
                ;
                assert(0 <= y * self.width) by (nonlinear_arith)
                    requires
                        0 <= y,
                        0 <= self.width,
                ;
            }
            let offset: usize = y as usize * self.width as usize + x as usize;
            self.pixels[offset] = color;
            proof {
                assert forall|px: int, py: int| self.on_image(px, py) implies #[trigger] self.at(
                    px,
                    py,
                ) == if px == x && py == y {
                    color
                } else {
                    old(self).at(px, py)
                } by {
                    lemma_offset(px, py, self.width as int, self.height as int);
                    lemma_offset_unique(px, py, x as int, y as int, self.width as int);
                }
            }
        }
    }

    /// Fill a rectangle, clipped to the image bounds.
    pub fn fill_rect(&mut self, x: i32, y: i32, w: i32, h: i32, color: (u8, u8, u8))
        requires
            old(self).wf(),
        ensures
            final(self).wf(),
            final(self).same_size(old(self)),
            forall|px: int, py: int|
                final(self).on_image(px, py) ==> #[trigger] final(self).at(px, py) == if x <= px < x
                    + w && y <= py < y + h {
                    color
                } else {
                    old(self).at(px, py)
                },
    {
        let left: i32 = clip(x as i64, self.width);
        let right: i32 = clip(x as i64 + w as i64, self.width);
        let top: i32 = clip(y as i64, self.height);
        let bottom: i32 = clip(y as i64 + h as i64, self.height);
        let mut py: i32 = top;
        while py < bottom
            invariant
                0 <= top <= py,
                py <= bottom || py == top,
                0 <= left,
                right <= self.width,
                bottom <= self.height,
                self.wf(),
                self.same_size(old(self)),
                forall|qx: int, qy: int|
                    self.on_image(qx, qy) ==> #[trigger] self.at(qx, qy) == if left <= qx < right
                        && top <= qy < py {
                        color
                    } else {
                        old(self).at(qx, qy)
                    },
            decreases bottom - py,
        {
            let mut px: i32 = left;
            while px < right
                invariant
                    0 <= top <= py < bottom <= self.height,
                    0 <= left <= px,
                    px <= right || px == left,
                    right <= self.width,
                    self.wf(),
                    self.same_size(old(self)),
                    forall|qx: int, qy: int|
                        self.on_image(qx, qy) ==> #[trigger] self.at(qx, qy) == if (left <= qx
                            < right && top <= qy < py) || (qy == py && left <= qx < px) {
                            color
                        } else {
                            old(self).at(qx, qy)
                        },
                decreases right - px,
            {
                self.set(px, py, color);
                px = px + 1;
            }
            py = py + 1;
        }
    }

    /// Draw a 1-pixel rectangle outline, clipped to the image bounds.
    pub fn draw_outline(&mut self, x: i32, y: i32, w: i32, h: i32, color: (u8, u8, u8))
        requires
            old(self).wf(),
        ensures
            final(self).wf(),
            final(self).same_size(old(self)),
            forall|px: int, py: int|
                final(self).on_image(px, py) ==> #[trigger] final(self).at(px, py)
                    == if on_outline((x as int, y as int, w as int, h as int), px, py) {
                    color
                } else {
                    old(self).at(px, py)
                },
    {
        self.draw_row(x, w, y as i64, color);
        self.draw_row(x, w, y as i64 + h as i64 - 1, color);
        self.draw_column(y, h, x as i64, color);
        self.draw_column(y, h, x as i64 + w as i64 - 1, color);
    }

    fn draw_row(&mut self, x: i32, w: i32, y: i64, color: (u8, u8, u8))
        requires
            old(self).wf(),
        ensures
            final(self).wf(),
            final(self).same_size(old(self)),
            forall|px: int, py: int|
                final(self).on_image(px, py) ==> #[trigger] final(self).at(px, py) == if py == y
                    && x <= px < x + w {
                    color
                } else {
                    old(self).at(px, py)
                },
    {
        if y < 0 || y >= self.height as i64 {
            return ;
        }
        let left: i32 = clip(x as i64, self.width);
        let right: i32 = clip(x as i64 + w as i64, self.width);
        let mut px: i32 = left;
        while px < right
            invariant
                0 <= left <= px,
                px <= right || px == left,
                right <= self.width,
                0 <= y < self.height,
                self.wf(),
                self.same_size(old(self)),
                forall|qx: int, qy: int|
                    self.on_image(qx, qy) ==> #[trigger] self.at(qx, qy) == if qy == y && left
                        <= qx < px {
                        color
                    } else {
                        old(self).at(qx, qy)
                    },
            decreases right - px,
        {
            self.set(px, y as i32, color);
            px = px + 1;
        }
    }

    fn draw_column(&mut self, y: i32, h: i32, x: i64, color: (u8, u8, u8))
        requires
            old(self).wf(),
        ensures
            final(self).wf(),
            final(self).same_size(old(self)),
            forall|px: int, py: int|
                final(self).on_image(px, py) ==> #[trigger] final(self).at(px, py) == if px == x
                    && y <= py < y + h {
                    color
                } else {
                    old(self).at(px, py)
                },
    {
        if x < 0 || x >= self.width as i64 {
            return ;
        }
        let top: i32 = clip(y as i64, self.height);
        let bottom: i32 = clip(y as i64 + h as i64, self.height);
        let mut py: i32 = top;
        while py < bottom
            invariant
                0 <= top <= py,
                py <= bottom || py == top,
                bottom <= self.height,
                0 <= x < self.width,
                self.wf(),
                self.same_size(old(self)),
                forall|qx: int, qy: int|
                    self.on_image(qx, qy) ==> #[trigger] self.at(qx, qy) == if qx == x && top
                        <= qy < py {
                        color
                    } else {
                        old(self).at(qx, qy)
                    },
            decreases bottom - py,
        {
            self.set(x as i32, py, color);
            py = py + 1;
        }
    }
}

/// The point is on the one-pixel outline of a rectangle `(x, y, w, h)`.
pub open spec fn on_outline(r: (int, int, int, int), px: int, py: int) -> bool {
    ||| r.0 <= px < r.0 + r.2 && (py == r.1 || py == r.1 + r.3 - 1)
    ||| r.1 <= py < r.1 + r.3 && (px == r.0 || px == r.0 + r.2 - 1)
}

/// `v` clipped to `0..=len`.
fn clip(v: i64, len: u16) -> (r: i32)
    ensures
        r == if v < 0 {
            0
        } else if v > len {
            len as int
        } else {
            v as int
        },
        0 <= r <= len,
{
    if v < 0 {
        0
    } else if v > len as i64 {
        len as i32
    } else {
        v as i32
    }
}

proof fn lemma_offset(x: int, y: int, w: int, h: int)
    requires
        0 <= x < w,
        0 <= y < h,
    ensures
        0 <= y * w + x < w * h,
{
    assert(0 <= y * w + x < w * h) by (nonlinear_arith)
        requires
            0 <= x < w,
            0 <= y < h,
    ;
}

proof fn lemma_offset_unique(x: int, y: int, a: int, b: int, w: int)
    requires
        0 <= x < w,
        0 <= a < w,
    ensures
        (y * w + x == b * w + a) == (x == a && y == b),
{
    if y * w + x == b * w + a {
        vstd::arithmetic::div_mod::lemma_fundamental_div_mod_converse(y * w + x, w, y, x);
        vstd::arithmetic::div_mod::lemma_fundamental_div_mod_converse(b * w + a, w, b, a);
    }
}

// === Chip layout ===

/// The vertical spacing of a chip: the gap between the app-name and window-title
/// lines, and the padding above and below the text (pixels).
#[derive(Clone, Copy, Debug, Eq, PartialEq, Structural)]
pub struct ChipSpacing {
    pub line_gap: i32,
    pub vpad: i32,
}

/// The layout of a hint label: a hint-key chip on the left and, where there is an
/// app name or a title, an info chip on the right.
#[derive(Clone, Copy, Debug, Eq, PartialEq, Structural)]
pub struct LabelLayout {
    pub hint_w: i32,
    pub info_w: i32,
    pub info_block: i32,
    pub width: i32,
    pub height: i32,
}

/// Where the texts of a label begin: the hint key, the app name and the title,
/// each by its top, and the left of the latter two.
#[derive(Clone, Copy, Debug, Eq, PartialEq, Structural)]
pub struct LabelRows {
    pub hint_top: i32,
    pub app_top: i32,
    pub title_top: i32,
    pub info_left: i32,
}

/// The spacing of the chips on Linux.
pub fn linux_spacing() -> (r: ChipSpacing)
    ensures
        r == (ChipSpacing { line_gap: 1, vpad: 3 }),
{
    ChipSpacing { line_gap: 1, vpad: 3 }
}

/// The spacing of the chips on Windows.
pub fn windows_spacing() -> (r: ChipSpacing)
    ensures
        r == (ChipSpacing { line_gap: 2, vpad: 5 }),
{
    ChipSpacing { line_gap: 2, vpad: 5 }
}

/// The height of the lines in the info chip.
pub open spec fn info_lines(
    has_app: bool,
    has_title: bool,
    app_line: int,
    title_line: int,
    spacing: ChipSpacing,
) -> int {
    if has_app && has_title {
        app_line + spacing.line_gap + title_line
    } else if has_app {
        app_line
    } else if has_title {
        title_line
    } else {
        0
    }
}

/// How wide the info chip is.
pub open spec fn info_width(has_app: bool, has_title: bool, app_w: int, title_w: int) -> int {
    if has_app || has_title {
        larger(app_w, title_w) + APP_CHIP_PAD * 2
    } else {
        0
    }
}

/// The height of a label.
pub open spec fn label_height(hint_line: int, info_block: int, spacing: ChipSpacing) -> int {
    larger(hint_line, info_block) + spacing.vpad * 2
}

/// Lay out a hint's label from the line heights and text widths of its hint key,
/// app name and title. The info chip is omitted when both the app name and the
/// title are empty; a missing one collapses to the single remaining line.
pub fn label_layout(
    has_app: bool,
    has_title: bool,
    lines: (i32, i32, i32),
    widths: (i32, i32, i32),
    spacing: ChipSpacing,
) -> (r: LabelLayout)
    requires
        ({
            let block = info_lines(
                has_app,
                has_title,
                lines.1 as int,
                lines.2 as int,
                spacing,
            );
            let hint = widths.0 + HINT_CHIP_PAD * 2;
            let info = info_width(has_app, has_title, widths.1 as int, widths.2 as int);
            &&& fits(block)
            &&& fits(label_height(lines.0 as int, block, spacing))
            &&& fits(hint)
            &&& fits(info)
            &&& fits(hint + info)
        }),
    ensures
        r.hint_w == widths.0 + HINT_CHIP_PAD * 2,
        r.info_w == info_width(has_app, has_title, widths.1 as int, widths.2 as int),
        r.info_block == info_lines(has_app, has_title, lines.1 as int, lines.2 as int, spacing),
        r.width == r.hint_w + r.info_w,
        r.height == label_height(lines.0 as int, r.info_block as int, spacing),
{
    let info_block: i64 = if has_app && has_title {
        lines.1 as i64 + spacing.line_gap as i64 + lines.2 as i64
    } else if has_app {
        lines.1 as i64
    } else if has_title {
        lines.2 as i64
    } else {
        0
    };
    let tall: i64 = if lines.0 as i64 >= info_block {
        lines.0 as i64
    } else {
        info_block
    };
    let hint_w: i32 = widths.0 + HINT_CHIP_PAD * 2;
    let info_w: i32 = if has_app || has_title {
        let wide: i32 = if widths.1 >= widths.2 {
            widths.1
        } else {
            widths.2
        };
        wide + APP_CHIP_PAD * 2
    } else {
        0
    };
    LabelLayout {
        hint_w,
        info_w,
        info_block: info_block as i32,
        width: hint_w + info_w,
        height: (tall + spacing.vpad as i64 * 2) as i32,
    }
}

/// The top of the title's line.
pub open spec fn title_line_top(
    layout: LabelLayout,
    has_app: bool,
    app_line: int,
    spacing: ChipSpacing,
) -> int {
    quotient(layout.height - layout.info_block, 2) + if has_app {
        app_line + spacing.line_gap
    } else {
        0
    }
}

/// Where the texts of a laid-out label begin: the hint key centred against the
/// (possibly taller) info block, and the app name above the title.
pub fn label_rows(
    layout: LabelLayout,
    hint_line: i32,
    has_app: bool,
    app_line: i32,
    spacing: ChipSpacing,
) -> (r: LabelRows)
    requires
        fits(quotient(layout.height - hint_line, 2)),
        fits(quotient(layout.height - layout.info_block, 2)),
        fits(title_line_top(layout, has_app, app_line as int, spacing)),
        fits(layout.hint_w + APP_CHIP_PAD),
    ensures
        r.hint_top == quotient(layout.height - hint_line, 2),
        r.app_top == quotient(layout.height - layout.info_block, 2),
        r.title_top == title_line_top(layout, has_app, app_line as int, spacing),
        r.info_left == layout.hint_w + APP_CHIP_PAD,
{
    let app_top: i64 = halve(layout.height as i64 - layout.info_block as i64);
    let title_top: i64 = if has_app {
        app_top + app_line as i64 + spacing.line_gap as i64
    } else {
        app_top
    };
    LabelRows {
        hint_top: halve(layout.height as i64 - hint_line as i64) as i32,
        app_top: app_top as i32,
        title_top: title_top as i32,
        info_left: layout.hint_w + APP_CHIP_PAD,
    }
}

fn halve(v: i64) -> (r: i64)
    requires
        v > i64::MIN,
    ensures
        r == quotient(v as int, 2),
{
    if v >= 0 {
        v / 2
    } else {
        -((-v) / 2)
    }
}

/// The texts of a label lie inside its chip: the hint key, and the info block with
/// its lines, have the same room above and below but for a pixel.
pub proof fn labels_are_centred(height: int, block: int)
    requires
        0 <= block <= height,
    ensures
        ({
            let top = quotient(height - block, 2);
            let bottom = height - block - top;
            0 <= top && 0 <= bottom - top <= 1
        }),
{
}

/// The size of an element hint badge from its text width and line height.
pub fn badge_size(text_w: i32, line: i32) -> (r: (i32, i32))
    requires
        text_w + ELEMENT_HINT_HPAD * 2 <= i32::MAX,
        line + ELEMENT_HINT_VPAD * 2 <= i32::MAX,
    ensures
        r.0 == text_w + ELEMENT_HINT_HPAD * 2,
        r.1 == line + ELEMENT_HINT_VPAD * 2,
{
    (text_w + ELEMENT_HINT_HPAD * 2, line + ELEMENT_HINT_VPAD * 2)
}

/// The color of a label at a point, before any text is drawn: the border of the
/// hint key chip, the field of the info chip, and the badge itself.
pub open spec fn label_color(layout: LabelLayout, x: int, y: int) -> (u8, u8, u8) {
    if on_outline((0, 0, layout.hint_w as int, layout.height as int), x, y) {
        HINT_BORDER
    } else if layout.hint_w <= x < layout.hint_w + layout.info_w {
        APP_BG
    } else {
        HINT_BG
    }
}

fn blank(width: u16, height: u16) -> (r: TextImage)
    ensures
        r.wf(),
        r.width == width,
        r.height == height,
        forall|x: int, y: int| r.on_image(x, y) ==> #[trigger] r.at(x, y) == HINT_BG,
{
    let img = TextImage::new(width, height, HINT_BG);
    proof {
        assert forall|x: int, y: int| img.on_image(x, y) implies #[trigger] img.at(x, y)
            == HINT_BG by {
            lemma_offset(x, y, img.width as int, img.height as int);
        }
    }
    img
}

/// A laid-out label before any text is drawn.
pub fn label_canvas(layout: LabelLayout) -> (r: TextImage)
    requires
        0 <= layout.width <= u16::MAX,
        0 <= layout.height <= u16::MAX,
    ensures
        r.wf(),
        r.width == layout.width,
        r.height == layout.height,
        forall|x: int, y: int|
            r.on_image(x, y) ==> #[trigger] r.at(x, y) == label_color(layout, x, y),
{
    let mut img = blank(layout.width as u16, layout.height as u16);
    if layout.info_w > 0 {
        img.fill_rect(layout.hint_w, 0, layout.info_w, layout.height, APP_BG);
    }
    img.draw_outline(0, 0, layout.hint_w, layout.height, HINT_BORDER);
    img
}

/// An element hint badge before its text is drawn: the badge with its border.
pub fn badge_canvas(width: i32, height: i32) -> (r: TextImage)
    requires
        0 <= width <= u16::MAX,
        0 <= height <= u16::MAX,
    ensures
        r.wf(),
        r.width == width,
        r.height == height,
        forall|x: int, y: int|
            r.on_image(x, y) ==> #[trigger] r.at(x, y) == if on_outline(
                (0, 0, width as int, height as int),
                x,
                y,
            ) {
                HINT_BORDER
            } else {
                HINT_BG
            },
{
    let mut img = blank(width as u16, height as u16);
    img.draw_outline(0, 0, width, height, HINT_BORDER);
    img
}

// === Pixel layout ===

/// One pixmap format that a server offers.
#[derive(Clone, Copy, Debug)]
pub struct PixmapFormat {
    pub depth: u8,
    pub bits_per_pixel: u8,
    pub scanline_pad: u8,
}

/// The channel masks of a visual.
#[derive(Clone, Copy, Debug)]
pub struct VisualMasks {
    pub id: u32,
    pub red: u32,
    pub green: u32,
    pub blue: u32,
}

/// Why a server's pixel layout is unknown.
#[derive(Clone, Copy, Debug, Eq, PartialEq, Structural)]
pub enum LayoutFault {
    /// There is no pixmap format for the root depth.
    NoFormat,
    /// The root visual is not among those offered.
    NoVisual,
}

/// The first format with this depth, from number `i` on.
pub open spec fn format_from(formats: Seq<PixmapFormat>, depth: u8, i: int) -> Option<PixmapFormat>
    decreases formats.len() - i,
{
    if i < 0 || i >= formats.len() {
        None
    } else if formats[i].depth == depth {
        Some(formats[i])
    } else {
        format_from(formats, depth, i + 1)
    }
}

/// The first visual with this id, from number `i` on.
pub open spec fn visual_from(visuals: Seq<VisualMasks>, id: u32, i: int) -> Option<VisualMasks>
    decreases visuals.len() - i,
{
    if i < 0 || i >= visuals.len() {
        None
    } else if visuals[i].id == id {
        Some(visuals[i])
    } else {
        visual_from(visuals, id, i + 1)
    }
}

/// The server's pixel layout for the root depth: the byte counts of its format, and
/// each channel where its mask begins.
pub fn image_fmt(
    formats: &Vec<PixmapFormat>,
    visuals: &Vec<VisualMasks>,
    depth: u8,
    root_visual: u32,
    lsb_first: bool,
) -> (r: Result<ImageFmt, LayoutFault>)
    ensures
        match (
            format_from(formats@, depth, 0),
            visual_from(visuals@, root_visual, 0),
        ) {
            (None, _) => r == Err::<ImageFmt, LayoutFault>(LayoutFault::NoFormat),
            (Some(_), None) => r == Err::<ImageFmt, LayoutFault>(LayoutFault::NoVisual),
            (Some(f), Some(v)) => r == Ok::<ImageFmt, LayoutFault>(
                (ImageFmt {
                    bytes_per_pixel: (f.bits_per_pixel / 8) as usize,
                    scanline_pad_bytes: (f.scanline_pad / 8) as usize,
                    lsb_first,
                    r_shift: v.red.trailing_zeros(),
                    g_shift: v.green.trailing_zeros(),
                    b_shift: v.blue.trailing_zeros(),
                }),
            ),
        },
{
    let mut format: Option<PixmapFormat> = None;
    let mut i: usize = 0;
    while i < formats.len() && format.is_none()
        invariant
            i <= formats@.len(),
            format is Some ==> format_from(formats@, depth, 0) == format,
            format is None ==> format_from(formats@, depth, 0) == format_from(
                formats@,
                depth,
                i as int,
            ),
        decreases formats@.len() - i,
    {
        if formats[i].depth == depth {
            format = Some(formats[i]);
        }
        i = i + 1;
    }
    let mut visual: Option<VisualMasks> = None;
    let mut k: usize = 0;
    while k < visuals.len() && visual.is_none()
        invariant
            k <= visuals@.len(),
            visual is Some ==> visual_from(visuals@, root_visual, 0) == visual,
            visual is None ==> visual_from(visuals@, root_visual, 0) == visual_from(
                visuals@,
                root_visual,
                k as int,
            ),
        decreases visuals@.len() - k,
    {
        if visuals[k].id == root_visual {
            visual = Some(visuals[k]);
        }
        k = k + 1;
    }
    let f = match format {
        Some(f) => f,
        None => return Err(LayoutFault::NoFormat),
    };
    match visual {
        Some(v) => Ok(
            ImageFmt {
                bytes_per_pixel: (f.bits_per_pixel / 8) as usize,
                scanline_pad_bytes: (f.scanline_pad / 8) as usize,
                lsb_first,
                r_shift: v.red.trailing_zeros(),
                g_shift: v.green.trailing_zeros(),
                b_shift: v.blue.trailing_zeros(),
            },
        ),
        None => Err(LayoutFault::NoVisual),
    }
}

/// A color packed as `0x00BBGGRR`.
pub fn rgb(r: u8, g: u8, b: u8) -> (v: u32)
    ensures
        v == r + 0x100 * g + 0x1_0000 * b,
{
    let v: u32 = r as u32 + 0x100 * g as u32 + 0x1_0000 * b as u32;
    v
}

// === Packing ===

/// The bytes of one row, without padding.
pub open spec fn row_bytes(fmt: ImageFmt, width: u16) -> nat {
    (width as nat) * (fmt.bytes_per_pixel as nat)
}

/// The bytes of one row, padded to the scanline boundary.
pub open spec fn stride(fmt: ImageFmt, width: u16) -> nat {
    ((row_bytes(fmt, width) + fmt.scanline_pad_bytes - 1) / fmt.scanline_pad_bytes as int
        * fmt.scanline_pad_bytes) as nat
}

/// A color as the server's pixel value.
pub open spec fn pixel_value(fmt: ImageFmt, color: (u8, u8, u8)) -> u32 {
    ((color.0 as u32) << fmt.r_shift) | ((color.1 as u32) << fmt.g_shift) | ((color.2 as u32)
        << fmt.b_shift)
}

/// The byte number `k` of a pixel value, in the server's byte order.
pub open spec fn value_byte(fmt: ImageFmt, value: u32, k: int) -> u8 {
    if fmt.lsb_first {
        (value >> (8 * k) as u32) as u8
    } else {
        (value >> (8 * (fmt.bytes_per_pixel - 1 - k)) as u32) as u8
    }
}

/// The byte at an offset of the packed image: that of a pixel, or padding.
pub open spec fn packed_byte(fmt: ImageFmt, img: TextImage, offset: int) -> u8 {
    let y = offset / stride(fmt, img.width) as int;
    let column = offset % stride(fmt, img.width) as int;
    if column < row_bytes(fmt, img.width) {
        let x = column / fmt.bytes_per_pixel as int;
        let k = column % fmt.bytes_per_pixel as int;
        value_byte(fmt, pixel_value(fmt, img.at(x, y)), k)
    } else {
        0
    }
}

proof fn lemma_stride(fmt: ImageFmt, width: u16)
    requires
        fmt.scanline_pad_bytes > 0,
    ensures
        row_bytes(fmt, width) <= stride(fmt, width),
        stride(fmt, width) < row_bytes(fmt, width) + fmt.scanline_pad_bytes,
{
    let pad = fmt.scanline_pad_bytes as int;
    let row = row_bytes(fmt, width) as int;
    let q = (row + pad - 1) / pad;
    vstd::arithmetic::div_mod::lemma_fundamental_div_mod(row + pad - 1, pad);
    assert(q * pad == pad * q) by (nonlinear_arith);
    assert(q >= 0) by (nonlinear_arith)
        requires
            q == (row + pad - 1) / pad,
            row >= 0,
            pad > 0,
    ;
    assert(q * pad >= 0) by (nonlinear_arith)
        requires
            q >= 0,
            pad > 0,
    ;
}

fn one_byte(fmt: &ImageFmt, value: u32, k: usize) -> (r: u8)
    requires
        k < fmt.bytes_per_pixel <= 4,
    ensures
        r == value_byte(*fmt, value, k as int),
{
    let shift: u32 = if fmt.lsb_first {
        8 * k as u32
    } else {
        8 * (fmt.bytes_per_pixel - 1 - k) as u32
    };
    (value >> shift) as u8
}

/// Serialize a [`TextImage`] into the server's byte layout: one pixel per
/// `(r, g, b)`, channels placed by `fmt`'s shifts, bytes ordered per the server's
/// endianness, and each row padded to the scanline boundary.
pub fn encode_image(fmt: &ImageFmt, img: &TextImage) -> (r: Vec<u8>)
    requires
        img.wf(),
        fmt.scanline_pad_bytes > 0,
        fmt.bytes_per_pixel <= 4,
        fmt.r_shift < 32,
        fmt.g_shift < 32,
        fmt.b_shift < 32,
        row_bytes(*fmt, img.width) + fmt.scanline_pad_bytes <= usize::MAX,
        stride(*fmt, img.width) * img.height <= usize::MAX,
    ensures
        r@.len() == stride(*fmt, img.width) * img.height,
        forall|i: int| 0 <= i < r@.len() ==> r@[i] == packed_byte(*fmt, *img, i),
{
    let ghost total = stride(*fmt, img.width) as int;
    let ghost row = row_bytes(*fmt, img.width) as int;
    let bpp: usize = fmt.bytes_per_pixel;
    proof {
        lemma_stride(*fmt, img.width);
        assert(img.width * bpp <= 0xffff * 4) by (nonlinear_arith)
            requires
                0 <= img.width <= 0xffff,
                0 <= bpp <= 4,
        ;
        assert(0 <= img.width * img.height <= 0xffff * 0xffff) by (nonlinear_arith)
            requires
                0 <= img.width <= 0xffff,
                0 <= img.height <= 0xffff,
        ;
        let pad = fmt.scanline_pad_bytes as int;
        let q = (row + pad - 1) / pad;
        vstd::arithmetic::div_mod::lemma_fundamental_div_mod(row + pad - 1, pad);
        assert(q * pad == pad * q) by (nonlinear_arith);
    }
    let row_len: usize = img.width as usize * bpp;
    let scan: usize = (row_len + fmt.scanline_pad_bytes - 1) / fmt.scanline_pad_bytes
        * fmt.scanline_pad_bytes;
    let mut data: Vec<u8> = Vec::new();
    let mut y: usize = 0;
    assert(0 * total == 0);
    while y < img.height as usize
        invariant
            y <= img.height,
            img.wf(),
            bpp == fmt.bytes_per_pixel,
            bpp <= 4,
            fmt.scanline_pad_bytes > 0,
            fmt.r_shift < 32,
            fmt.g_shift < 32,
            fmt.b_shift < 32,
            total == stride(*fmt, img.width),
            row == row_bytes(*fmt, img.width),
            row <= total,
            row_len == row,
            scan == total,
            0 <= img.width * img.height <= 0xffff * 0xffff,
            data@.len() == y * total,
            forall|i: int| 0 <= i < data@.len() ==> data@[i] == packed_byte(*fmt, *img, i),
        decreases img.height - y,
    {
        let mut x: usize = 0;
        assert(0 * bpp == 0);
        while x < img.width as usize
            invariant
                y < img.height,
                x <= img.width,
                img.wf(),
                bpp == fmt.bytes_per_pixel,
                bpp <= 4,
                fmt.r_shift < 32,
                fmt.g_shift < 32,
                fmt.b_shift < 32,
                total == stride(*fmt, img.width),
                row == row_bytes(*fmt, img.width),
                row <= total,
                0 <= img.width * img.height <= 0xffff * 0xffff,
                data@.len() == y * total + x * bpp,
                forall|i: int| 0 <= i < data@.len() ==> data@[i] == packed_byte(*fmt, *img, i),
            decreases img.width - x,
        {
            proof {
                lemma_offset(x as int, y as int, img.width as int, img.height as int);
                assert(0 <= y * img.width) by (nonlinear_arith)
                    requires
                        0 <= y,
                        0 <= img.width,
                ;
            }
            let (r, g, b) = img.pixels[y * img.width as usize + x];
            let value: u32 = ((r as u32) << fmt.r_shift) | ((g as u32) << fmt.g_shift) | ((
            b as u32) << fmt.b_shift);
            let mut k: usize = 0;
            while k < bpp
                invariant
                    y < img.height,
                    x < img.width,
                    k <= bpp,
                    bpp == fmt.bytes_per_pixel,
                    bpp <= 4,
                    total == stride(*fmt, img.width),
                    row == row_bytes(*fmt, img.width),
                    row <= total,
                    value == pixel_value(*fmt, img.at(x as int, y as int)),
                    data@.len() == y * total + x * bpp + k,
                    forall|i: int|
                        0 <= i < data@.len() ==> data@[i] == packed_byte(*fmt, *img, i),
                decreases bpp - k,
            {
                proof {
                    let column = x * bpp + k;
                    assert(0 <= column < row) by (nonlinear_arith)
                        requires
                            column == x * bpp + k,
                            row == img.width * bpp,
                            x < img.width,
                            k < bpp,
                            0 <= x,
                            0 <= k,
                    ;
                    vstd::arithmetic::div_mod::lemma_fundamental_div_mod_converse(
                        y * total + column,
                        total,
                        y as int,
                        column,
                    );
                    vstd::arithmetic::div_mod::lemma_fundamental_div_mod_converse(
                        column,
                        bpp as int,
                        x as int,
                        k as int,
                    );
                }
                data.push(one_byte(fmt, value, k));
                k = k + 1;
            }
            assert(x * bpp + bpp == (x + 1) * bpp) by (nonlinear_arith);
            x = x + 1;
        }
        let mut c: usize = row_len;
        while c < scan
            invariant
                row_len <= c <= scan,
                row_len == row,
                scan == total,
                total == stride(*fmt, img.width),
                row == row_bytes(*fmt, img.width),
                data@.len() == y * total + c,
                forall|i: int| 0 <= i < data@.len() ==> data@[i] == packed_byte(*fmt, *img, i),
            decreases scan - c,
        {
            proof {
                vstd::arithmetic::div_mod::lemma_fundamental_div_mod_converse(
                    y * total + c,
                    total,
                    y as int,
                    c as int,
                );
            }
            data.push(0);
            c = c + 1;
        }
        assert(y * total + total == (y + 1) * total) by (nonlinear_arith);
        y = y + 1;
    }
    assert(img.height * total == total * img.height) by (nonlinear_arith);
    data
}

/// Every row of a packed image takes the same number of bytes, a multiple of the
/// scanline padding with room for the row and less than one padding more.
pub proof fn rows_are_padded(fmt: ImageFmt, width: u16)
    requires
        fmt.scanline_pad_bytes > 0,
    ensures
        stride(fmt, width) % fmt.scanline_pad_bytes as nat == 0,
        row_bytes(fmt, width) <= stride(fmt, width),
        stride(fmt, width) < row_bytes(fmt, width) + fmt.scanline_pad_bytes,
{
    lemma_stride(fmt, width);
    let pad = fmt.scanline_pad_bytes as int;
    let q = (row_bytes(fmt, width) + pad - 1) / pad;
    vstd::arithmetic::div_mod::lemma_mod_multiples_basic(q, pad);
    assert(q >= 0) by (nonlinear_arith)
        requires
            q == (row_bytes(fmt, width) + pad - 1) / pad,
            pad > 0,
    ;
    assert(q * pad >= 0) by (nonlinear_arith)
        requires
            q >= 0,
            pad > 0,
    ;
}

} // verus!
