//! Framebuffer geometry and pixel encoding for the early console.
use vstd::prelude::*;

verus! {

/// How many characters of `char_w` by `char_h` pixels fit on a framebuffer.
pub fn char_grid_size(fb_width: u64, fb_height: u64, char_w: u32, char_h: u32) -> (r: (u32, u32))
    requires
        char_w > 0,
        char_h > 0,
    ensures
        r.0 == (fb_width / (char_w as u64)) as u32,
        r.1 == (fb_height / (char_h as u64)) as u32,
{
    #[verifier::truncate]
    let w = (fb_width / char_w as u64) as u32;
    #[verifier::truncate]
    let h = (fb_height / char_h as u64) as u32;
    (w, h)
}

/// The console's font is embedded-graphics' `FONT_9X18` in its ISO 8859-16
/// variant (its bold variant has the same cell). The font's definition gives
/// it a character cell of 9 by 18 pixels; this reads that cell's width and height.
#[verifier::external_body]
pub(crate) fn font_character_size() -> (r: (u32, u32))
    ensures
        r.0 == 9,
        r.1 == 18,
{
    let size = embedded_graphics::mono_font::iso_8859_16::FONT_9X18.character_size;
    (size.width, size.height)
}

/// How many characters of the console's font fit on a framebuffer of
/// `fb_width` by `fb_height` pixels.
pub fn console_grid_size(fb_width: u64, fb_height: u64) -> (r: (u32, u32))
    ensures
        r.0 == (fb_width / 9) as u32,
        r.1 == (fb_height / 18) as u32,
{
    let (char_w, char_h) = font_character_size();
    char_grid_size(fb_width, fb_height, char_w, char_h)
}

/// The index of pixel (`x`, `y`) in a framebuffer `width` pixels wide and
/// `height` high, or nothing for a pixel outside it.
pub fn pixel_index(x: i32, y: i32, width: u64, height: u64) -> (r: Option<usize>)
    requires
        (0 <= x < width as i32 && 0 <= y < height as i32) ==> {
            &&& (y as u64) * width <= u64::MAX
            &&& x + (((y as u64) * width) as usize) <= usize::MAX
        },
    ensures
        (0 <= x < width as i32 && 0 <= y < height as i32) ==> r == Some(
            (x + (((y as u64) * width) as usize)) as usize,
        ),
        !(0 <= x < width as i32 && 0 <= y < height as i32) ==> r is None,
{
    #[verifier::truncate]
    let w = width as i32;
    #[verifier::truncate]
    let h = height as i32;
    if x >= 0 && x < w && y >= 0 && y < h {
        #[verifier::truncate]
        let row = (y as u64 * width) as usize;
        Some(x as usize + row)
    } else {
        None
    }
}

/// Positions and widths of the color channels within a pixel.
#[derive(Debug, Copy, Clone, PartialEq, Eq, Structural)]
pub struct ColorMasks {
    pub red_mask_size: u8,
    pub red_mask_shift: u8,
    pub green_mask_size: u8,
    pub green_mask_shift: u8,
    pub blue_mask_size: u8,
    pub blue_mask_shift: u8,
}

/// The masks' widths fit a color byte and their shifts fit a pixel word.
pub open spec fn masks_valid(m: ColorMasks) -> bool {
    &&& m.red_mask_size <= 8
    &&& m.green_mask_size <= 8
    &&& m.blue_mask_size <= 8
    &&& m.red_mask_shift < 32
    &&& m.green_mask_shift < 32
    &&& m.blue_mask_shift < 32
}

pub open spec fn spec_channel(v: u8, size: u8, shift: u8) -> u32 {
    ((v as u32) >> ((8 - size) as u32)) << (shift as u32)
}

/// Packs a color into a pixel word: each channel keeps its top `size` bits,
/// placed at its `shift`.
pub fn pack_color(r: u8, g: u8, b: u8, masks: ColorMasks) -> (c: u32)
    requires
        masks_valid(masks),
    ensures
        c == (0u32 | spec_channel(r, masks.red_mask_size, masks.red_mask_shift)) | spec_channel(
            g,
            masks.green_mask_size,
            masks.green_mask_shift,
        ) | spec_channel(b, masks.blue_mask_size, masks.blue_mask_shift),
{
    let red = ((r as u32) >> ((8 - masks.red_mask_size) as u32)) << (masks.red_mask_shift as u32);
    let green = ((g as u32) >> ((8 - masks.green_mask_size) as u32)) << (
    masks.green_mask_shift as u32);
    let blue = ((b as u32) >> ((8 - masks.blue_mask_size) as u32)) << (masks.blue_mask_shift as u32);
    0u32 | red | green | blue
}

/// What is stored for one pixel, by the framebuffer's bits per pixel.
#[derive(Debug, Copy, Clone, PartialEq, Eq, Structural)]
pub enum PixelWrite {
    Byte(u8),
    HalfWord(u16),
    /// Three bytes, most significant channel first.
    Triple(u8, u8, u8),
    Word(u32),
}

pub open spec fn supported_bpp(bpp: u16) -> bool {
    bpp == 8 || bpp == 15 || bpp == 16 || bpp == 24 || bpp == 32
}

/// The pixel store for a packed color: its low byte at 8 bits per pixel, its
/// low half at 15 or 16, its three low bytes from the top at 24, all of it at 32.
pub fn pixel_write(bpp: u16, direct_color: u32) -> (r: PixelWrite)
    requires
        supported_bpp(bpp),
    ensures
        bpp == 8 ==> r == PixelWrite::Byte(direct_color as u8),
        bpp == 15 || bpp == 16 ==> r == PixelWrite::HalfWord(direct_color as u16),
        bpp == 24 ==> r == PixelWrite::Triple(
            (direct_color >> 16u32) as u8,
            (direct_color >> 8u32) as u8,
            (direct_color >> 0u32) as u8,
        ),
        bpp == 32 ==> r == PixelWrite::Word(direct_color),
{
    if bpp == 8 {
        #[verifier::truncate]
        let v = direct_color as u8;
        PixelWrite::Byte(v)
    } else if bpp == 15 || bpp == 16 {
        #[verifier::truncate]
        let v = direct_color as u16;
        PixelWrite::HalfWord(v)
    } else if bpp == 24 {
        #[verifier::truncate]
        let hi = (direct_color >> 16u32) as u8;
        #[verifier::truncate]
        let mid = (direct_color >> 8u32) as u8;
        #[verifier::truncate]
        let lo = (direct_color >> 0u32) as u8;
        PixelWrite::Triple(hi, mid, lo)
    } else {
        PixelWrite::Word(direct_color)
    }
}

/// The pixel range a scroll by one text line moves: pixels from index
/// `fb_width * char_height` on are moved to the front, and there are
/// `char_height * height_chars * fb_width - fb_width * char_height` of them.
pub fn scroll_span(fb_width: usize, char_height: usize, height_chars: usize) -> (r: (usize, usize))
    requires
        char_height * height_chars <= usize::MAX,
        char_height * height_chars * fb_width <= usize::MAX,
        fb_width * char_height <= char_height * height_chars * fb_width,
    ensures
        r.0 == fb_width * char_height,
        r.1 == char_height * height_chars * fb_width - fb_width * char_height,
{
    let start_idx = fb_width * char_height;
    let end_idx = char_height * height_chars * fb_width;
    (start_idx, end_idx - start_idx)
}

} // verus!
