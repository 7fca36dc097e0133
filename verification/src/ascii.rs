//! ASCII-art encoder: one character per pixel, chosen from a brightness ramp,
//! drawn on a 24-bit background of the pixel's colour.

use vstd::prelude::*;
use crate::ansi::{
    cursor_to, sgr_reset, true_color, push_cursor_to, push_sgr_reset, push_true_color, lemma_cursor_to_ascii,
    lemma_sgr_reset_ascii, lemma_true_color_ascii,
};
use crate::text::{append_bytes, is_ascii_bytes, lemma_ascii_concat};

verus! {

/// The brightness ramp ` .:-=+*#%@`, darkest first.
pub open spec fn ramp() -> Seq<u8> {
    seq![32u8, 46u8, 58u8, 45u8, 61u8, 43u8, 42u8, 35u8, 37u8, 64u8]
}

/// Integer luma of a colour, 0..255 (weights 77, 150, 29 out of 256).
pub open spec fn luminance(r: u8, g: u8, b: u8) -> nat {
    ((r as nat) * 77 + (g as nat) * 150 + (b as nat) * 29) / 256
}

/// The colour of pixel `i` of packed RGB data.
pub open spec fn rgb_at(data: Seq<u8>, i: nat) -> (u8, u8, u8) {
    (data[(3 * i) as int], data[(3 * i + 1) as int], data[(3 * i + 2) as int])
}

/// The text of one ASCII cell: background colour, black (`30`) text on bright
/// pixels (luma above 140) or white (`37`) otherwise, then the ramp character.
pub open spec fn ascii_cell(c: (u8, u8, u8)) -> Seq<u8> {
    let l = luminance(c.0, c.1, c.2);
    let fg: Seq<u8> = if l > 140 { seq![51u8, 48u8] } else { seq![51u8, 55u8] };
    true_color(48, c.0, c.1, c.2) + seq![27u8, 91u8] + fg + seq![109u8] + seq![ramp()[(l * 9 / 255) as int]]
}

/// The cells of the first `k` pixels of row `y`.
pub open spec fn ascii_cells(data: Seq<u8>, width: nat, y: nat, k: nat) -> Seq<u8>
    decreases k,
{
    if k == 0 {
        seq![]
    } else {
        ascii_cells(data, width, y, (k - 1) as nat) + ascii_cell(rgb_at(data, (y * width + (k - 1)) as nat))
    }
}

/// The first `count` rows, each placed with a cursor movement and ended by an
/// attribute reset.
pub open spec fn ascii_rows(data: Seq<u8>, width: nat, count: nat, x_off: nat, y_off: nat) -> Seq<u8>
    decreases count,
{
    if count == 0 {
        seq![]
    } else {
        let y = (count - 1) as nat;
        ascii_rows(data, width, y, x_off, y_off) + cursor_to(y_off + y + 1, x_off + 1) + ascii_cells(
            data,
            width,
            y,
            width,
        ) + sgr_reset()
    }
}

/// What the ASCII encoder writes for a frame with its top-left cell at column
/// `x_off`, row `y_off` (0-based); nothing for an empty frame.
pub open spec fn ascii_frame(width: nat, height: nat, data: Seq<u8>, x_off: nat, y_off: nat) -> Seq<u8> {
    if width == 0 || height == 0 || data.len() == 0 {
        seq![]
    } else {
        ascii_rows(data, width, height, x_off, y_off)
    }
}

/// The brightness of a pixel weighs red by 77, green by 150 and blue by 29
/// parts in 256: 256 times it is the weighted sum, rounded down to a multiple
/// of 256. So green counts most and blue least, and a grey pixel's brightness
/// is its grey level.
pub proof fn lemma_luma_weights(r: u8, g: u8, b: u8)
    ensures
        luminance(r, g, b) * 256 <= 77 * r + 150 * g + 29 * b < (luminance(r, g, b) + 1) * 256,
        luminance(0, r, 0) >= luminance(r, 0, 0) >= luminance(0, 0, r),
        luminance(r, r, r) == r,
{
    assert(luminance(0, r, 0) == (150 * r as nat) / 256);
    assert(luminance(r, 0, 0) == (77 * r as nat) / 256);
    assert(luminance(0, 0, r) == (29 * r as nat) / 256);
    assert((150 * r as nat) / 256 >= (77 * r as nat) / 256) by (nonlinear_arith);
    assert((77 * r as nat) / 256 >= (29 * r as nat) / 256) by (nonlinear_arith);
    assert(luminance(r, r, r) == (256 * r as nat) / 256);
}

/// A grey pixel of level `v` is drawn as the ramp character at `v * 9 / 255`
/// on its own colour, in black text when `v` is above 140 and white otherwise.
pub proof fn lemma_grey_cell(v: u8)
    ensures
        ascii_cell((v, v, v)) == true_color(48, v, v, v) + seq![27u8, 91u8] + (if v > 140 {
            seq![51u8, 48u8]
        } else {
            seq![51u8, 55u8]
        }) + seq![109u8] + seq![ramp()[(v * 9 / 255) as int]],
{
    lemma_luma_weights(v, v, v);
}

proof fn lemma_ascii_cell_ascii(c: (u8, u8, u8))
    ensures
        is_ascii_bytes(ascii_cell(c)),
{
    let l = luminance(c.0, c.1, c.2);
    assert(l <= 255) by (nonlinear_arith)
        requires l == ((c.0 as nat) * 77 + (c.1 as nat) * 150 + (c.2 as nat) * 29) / 256, c.0 <= 255, c.1 <= 255, c.2 <= 255;
    assert(l * 9 / 255 <= 9) by (nonlinear_arith)
        requires l <= 255;
    let fg: Seq<u8> = if l > 140 { seq![51u8, 48u8] } else { seq![51u8, 55u8] };
    let tc = true_color(48, c.0, c.1, c.2);
    lemma_true_color_ascii(48, c.0, c.1, c.2);
    assert(is_ascii_bytes(ramp()));
    let ch = seq![ramp()[(l * 9 / 255) as int]];
    assert(is_ascii_bytes(ch));
    assert(is_ascii_bytes(fg));
    lemma_ascii_concat(tc, seq![27u8, 91u8]);
    lemma_ascii_concat(tc + seq![27u8, 91u8], fg);
    lemma_ascii_concat(tc + seq![27u8, 91u8] + fg, seq![109u8]);
    lemma_ascii_concat(tc + seq![27u8, 91u8] + fg + seq![109u8], ch);
}

proof fn lemma_ascii_cells_ascii(data: Seq<u8>, width: nat, y: nat, k: nat)
    ensures
        is_ascii_bytes(ascii_cells(data, width, y, k)),
    decreases k,
{
    if k > 0 {
        lemma_ascii_cells_ascii(data, width, y, (k - 1) as nat);
        let c = rgb_at(data, (y * width + (k - 1)) as nat);
        lemma_ascii_cell_ascii(c);
        lemma_ascii_concat(ascii_cells(data, width, y, (k - 1) as nat), ascii_cell(c));
    }
}

proof fn lemma_ascii_rows_ascii(data: Seq<u8>, width: nat, count: nat, x_off: nat, y_off: nat)
    ensures
        is_ascii_bytes(ascii_rows(data, width, count, x_off, y_off)),
    decreases count,
{
    if count > 0 {
        let y = (count - 1) as nat;
        let prev = ascii_rows(data, width, y, x_off, y_off);
        let cur = cursor_to(y_off + y + 1, x_off + 1);
        lemma_ascii_rows_ascii(data, width, y, x_off, y_off);
        lemma_cursor_to_ascii(y_off + y + 1, x_off + 1);
        lemma_ascii_concat(prev, cur);
        lemma_ascii_cells_ascii(data, width, y, width);
        lemma_ascii_concat(prev + cur, ascii_cells(data, width, y, width));
        lemma_sgr_reset_ascii();
        lemma_ascii_concat(prev + cur + ascii_cells(data, width, y, width), sgr_reset());
    }
}

/// What the ASCII encoder writes is ASCII.
pub proof fn lemma_ascii_frame_ascii(width: nat, height: nat, data: Seq<u8>, x_off: nat, y_off: nat)
    ensures
        is_ascii_bytes(ascii_frame(width, height, data, x_off, y_off)),
{
    if !(width == 0 || height == 0 || data.len() == 0) {
        lemma_ascii_rows_ascii(data, width, height, x_off, y_off);
    }
}

/// The pixel data an encoder reads: none at all, or at least `width * height` RGB pixels.
pub open spec fn rgb_frame_ok(len: nat, width: nat, height: nat) -> bool {
    len == 0 || width == 0 || height == 0 || len >= width * height * 3
}

/// Where a frame is drawn: every row number and the column fit the terminal's
/// 32-bit cursor coordinates.
pub open spec fn origin_ok(x_off: u32, y_off: u32, rows: nat) -> bool {
    x_off < u32::MAX && y_off as nat + rows <= u32::MAX
}

/// Renders RGB frames as coloured ASCII art.
pub struct AsciiEncoder;

/// The same as `AsciiEncoder::new()`.
impl Default for AsciiEncoder {
    fn default() -> (res: Self)
        ensures
            res == AsciiEncoder,
    {
        AsciiEncoder::new()
    }
}

impl AsciiEncoder {
    pub fn new() -> (res: Self) {
        AsciiEncoder
    }

    /// Appends the ASCII rendering of a `width` x `height` RGB frame, one text
    /// row per pixel row, its top-left cell at column `x_off`, row `y_off`.
    pub fn encode_frame(
        &mut self,
        writer: &mut Vec<u8>,
        width: usize,
        height: usize,
        rgb_data: &[u8],
        x_off: u32,
        y_off: u32,
    )
        requires
            rgb_frame_ok(rgb_data@.len(), width as nat, height as nat),
            origin_ok(x_off, y_off, height as nat),
        ensures
            final(writer)@ == old(writer)@ + ascii_frame(width as nat, height as nat, rgb_data@, x_off as nat, y_off as nat),
    {
        if width == 0 || height == 0 || rgb_data.len() == 0 {
            return;
        }
        let total: usize = rgb_data.len();
        let mut buf: Vec<u8> = Vec::new();
        let mut y: usize = 0;
        while y < height
            invariant
                0 <= y <= height,
                width > 0,
                total == rgb_data@.len(),
                rgb_data@.len() >= width * height * 3,
                origin_ok(x_off, y_off, height as nat),
                writer@ == old(writer)@ + ascii_rows(rgb_data@, width as nat, y as nat, x_off as nat, y_off as nat),
            decreases height - y,
        {
            buf.clear();
            push_cursor_to(&mut buf, y_off + y as u32 + 1, x_off + 1);
            let ghost head = buf@;
            let mut x: usize = 0;
            while x < width
                invariant
                    0 <= x <= width,
                    y < height,
                    total == rgb_data@.len(),
                    rgb_data@.len() >= width * height * 3,
                    buf@ == head + ascii_cells(rgb_data@, width as nat, y as nat, x as nat),
                decreases width - x,
            {
                assert((y * width + x) * 3 + 2 < width * height * 3) by (nonlinear_arith)
                    requires x < width, y < height;
                let offset = (y * width + x) * 3;
                let r = rgb_data[offset];
                let g = rgb_data[offset + 1];
                let b = rgb_data[offset + 2];
                let lum: u32 = (r as u32 * 77 + g as u32 * 150 + b as u32 * 29) >> 8;
                let ghost sum: u32 = (r as u32 * 77 + g as u32 * 150 + b as u32 * 29) as u32;
                assert(lum == sum / 256 && sum <= 65280) by (bit_vector)
                    requires
                        sum == (r as u32 * 77 + g as u32 * 150 + b as u32 * 29),
                        lum == sum >> 8,
                        r <= 255, g <= 255, b <= 255;
                let idx: u32 = lum * 9 / 255;
                let ramp: [u8; 10] = [32u8, 46u8, 58u8, 45u8, 61u8, 43u8, 42u8, 35u8, 37u8, 64u8];
                let ch = ramp[idx as usize];
                push_true_color(&mut buf, 48, r, g, b);
                buf.push(27u8);
                buf.push(91u8);
                if lum > 140 {
                    buf.push(51u8);
                    buf.push(48u8);
                } else {
                    buf.push(51u8);
                    buf.push(55u8);
                }
                buf.push(109u8);
                buf.push(ch);
                proof {
                    assert(rgb_at(rgb_data@, (y * width + x) as nat) == (r, g, b));
                    assert(lum as nat == luminance(r, g, b));
                    assert(buf@ =~= head + ascii_cells(rgb_data@, width as nat, y as nat, (x + 1) as nat));
                }
                x = x + 1;
            }
            push_sgr_reset(&mut buf);
            append_bytes(writer, buf.as_slice());
            proof {
                assert(writer@ =~= old(writer)@ + ascii_rows(rgb_data@, width as nat, (y + 1) as nat, x_off as nat, y_off as nat));
            }
            y = y + 1;
        }
    }
}

} // verus!
