//! The tray icon: raw pixels out of a PNG file.

use vstd::prelude::*;

verus! {

// === Data structures ===

/// How the samples of a decoded frame are to be read.
#[derive(Clone, Copy, Debug, Eq, PartialEq, Structural)]
pub enum PngColor {
    Grayscale,
    Rgb,
    Indexed,
    GrayscaleAlpha,
    Rgba,
}

/// A decoded frame: its size in pixels, how to read its samples and how many bits
/// each has, how many bytes it takes, and a buffer that holds at least those.
#[derive(Debug)]
pub struct PngFrame {
    pub width: u32,
    pub height: u32,
    pub color: PngColor,
    pub depth: u8,
    pub size: usize,
    pub pixels: Vec<u8>,
}

/// What a [`PngFrame`] says.
pub struct PngFrameView {
    pub width: u32,
    pub height: u32,
    pub color: PngColor,
    pub depth: u8,
    pub size: usize,
    pub pixels: Seq<u8>,
}

impl View for PngFrame {
    type V = PngFrameView;

    open spec fn view(&self) -> PngFrameView {
        PngFrameView {
            width: self.width,
            height: self.height,
            color: self.color,
            depth: self.depth,
            size: self.size,
            pixels: self.pixels@,
        }
    }
}

// === Decoding ===

/// The first frame of a PNG file, as the `png` crate decodes it into a buffer of the
/// size it asks for; nothing where the file is no PNG.
pub uninterp spec fn png_frame(png: Seq<u8>) -> Option<PngFrameView>;

/// `png::Decoder::read_info`, `Reader::output_buffer_size` and `Reader::next_frame`:
/// decodes the first frame, unless its buffer would not fit into the address space
/// of the machine.
#[verifier::external_body]
fn read_png(png: &[u8]) -> (r: Option<PngFrame>)
    ensures
        match r {
            Some(frame) => png_frame(png@) == Some(frame@),
            None => png_frame(png@) matches Some(frame) ==> frame.pixels.len() > isize::MAX,
        },
{
    let mut reader = png::Decoder::new(std::io::Cursor::new(png)).read_info().ok()?;
    let mut pixels = vec![0; reader.output_buffer_size()?];
    let frame = reader.next_frame(&mut pixels).ok()?;
    let color = match frame.color_type {
        png::ColorType::Grayscale => PngColor::Grayscale,
        png::ColorType::Rgb => PngColor::Rgb,
        png::ColorType::Indexed => PngColor::Indexed,
        png::ColorType::GrayscaleAlpha => PngColor::GrayscaleAlpha,
        png::ColorType::Rgba => PngColor::Rgba,
    };
    let (width, height, depth) = (frame.width, frame.height, frame.bit_depth as u8);
    Some(PngFrame { width, height, color, depth, size: frame.buffer_size(), pixels })
}

/// The frame holds 8-bit RGBA samples.
pub open spec fn is_rgba(f: PngFrameView) -> bool {
    f.color == PngColor::Rgba && f.depth == 8
}

/// The bytes of a frame, without what the buffer holds beyond them.
pub open spec fn frame_bytes(f: PngFrameView) -> Seq<u8> {
    if f.size <= f.pixels.len() {
        f.pixels.take(f.size as int)
    } else {
        f.pixels
    }
}

/// The raw `(pixels, width, height)` of a decoded frame, if it is 8-bit RGBA.
pub fn rgba_of(frame: PngFrame) -> (r: Option<(Vec<u8>, u32, u32)>)
    ensures
        match r {
            Some((pixels, width, height)) => is_rgba(frame@) && pixels@ == frame_bytes(frame@)
                && width == frame.width && height == frame.height,
            None => !is_rgba(frame@),
        },
{
    if frame.color != PngColor::Rgba || frame.depth != 8 {
        return None;
    }
    let mut pixels = frame.pixels;
    pixels.truncate(frame.size);
    assert(pixels@ =~= frame_bytes(frame@));
    Some((pixels, frame.width, frame.height))
}

/// Decode an 8-bit RGBA PNG into raw `(pixels, width, height)`.
pub fn decode_rgba(png: &[u8]) -> (r: Option<(Vec<u8>, u32, u32)>)
    ensures
        match r {
            Some((pixels, width, height)) => png_frame(png@) matches Some(f) && is_rgba(f)
                && pixels@ == frame_bytes(f) && width == f.width && height == f.height,
            None => png_frame(png@) matches Some(f) ==> !is_rgba(f) || f.pixels.len() > isize::MAX,
        },
{
    match read_png(png) {
        Some(frame) => rgba_of(frame),
        None => None,
    }
}

} // verus!
