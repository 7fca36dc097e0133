//! Half-block encoder: each text cell shows two vertically stacked pixels with the
//! upper half block glyph (U+2580), the upper pixel as foreground colour and the
//! lower one as background colour.

use vstd::prelude::*;
use vstd::utf8::{codepoint_width_3, valid_utf8};
use crate::ansi::{
    cursor_to, sgr_reset, true_color, push_cursor_to, push_sgr_reset, push_true_color, lemma_cursor_to_ascii,
    lemma_sgr_reset_ascii, lemma_true_color_ascii,
};
use crate::ascii::rgb_at;
use crate::text::{append_bytes, is_ascii_bytes, lemma_ascii_valid, lemma_three_byte_char_valid, lemma_utf8_concat};

verus! {

/// UTF-8 encoding of U+2580, the upper half block.
pub open spec fn upper_half_block() -> Seq<u8> {
    seq![226u8, 150u8, 128u8]
}

/// `ESC [ 49 m`: default background colour.
pub open spec fn default_background() -> Seq<u8> {
    seq![27u8, 91u8, 52u8, 57u8, 109u8]
}

/// The text of the cell in column `x` covering pixel rows `2i` and `2i + 1`; on
/// the last row of an image of odd height the lower half keeps the default
/// background.
pub open spec fn half_cell(data: Seq<u8>, width: nat, height: nat, x: nat, i: nat) -> Seq<u8> {
    let top = rgb_at(data, 2 * i * width + x);
    let lower: Seq<u8> = if 2 * i + 1 < height {
        let bottom = rgb_at(data, (2 * i + 1) * width + x);
        true_color(48, bottom.0, bottom.1, bottom.2)
    } else {
        default_background()
    };
    true_color(38, top.0, top.1, top.2) + lower + upper_half_block()
}

/// The first `k` cells of text row `i`.
pub open spec fn half_cells(data: Seq<u8>, width: nat, height: nat, i: nat, k: nat) -> Seq<u8>
    decreases k,
{
    if k == 0 {
        seq![]
    } else {
        half_cells(data, width, height, i, (k - 1) as nat) + half_cell(data, width, height, (k - 1) as nat, i)
    }
}

/// Number of text rows: `ceil(height / 2)`.
pub open spec fn half_row_count(height: nat) -> nat {
    (height + 1) / 2
}

/// The first `count` text rows, each placed with a cursor movement and ended by a reset.
pub open spec fn half_rows(data: Seq<u8>, width: nat, height: nat, count: nat, x_off: nat, y_off: nat) -> Seq<u8>
    decreases count,
{
    if count == 0 {
        seq![]
    } else {
        let i = (count - 1) as nat;
        half_rows(data, width, height, i, x_off, y_off) + cursor_to(y_off + i + 1, x_off + 1) + half_cells(
            data,
            width,
            height,
            i,
            width,
        ) + sgr_reset()
    }
}

/// What the half-block encoder writes for a frame with its top-left cell at column
/// `x_off`, row `y_off`; nothing for an empty frame.
pub open spec fn half_frame(width: nat, height: nat, data: Seq<u8>, x_off: nat, y_off: nat) -> Seq<u8> {
    if width == 0 || height == 0 || data.len() == 0 {
        seq![]
    } else {
        half_rows(data, width, height, half_row_count(height), x_off, y_off)
    }
}

/// The cell in column `x` of text row `i` shows pixel (`x`, `2i`) as the
/// foreground of the upper half block and pixel (`x`, `2i + 1`) as its
/// background; past the last pixel row the background is the terminal's own.
pub proof fn lemma_half_cell_pixels(data: Seq<u8>, width: nat, height: nat, x: nat, i: nat)
    ensures
        ({
            let t: int = ((2 * i * width + x) * 3) as int;
            let u: int = (((2 * i + 1) * width + x) * 3) as int;
            half_cell(data, width, height, x, i) == true_color(38, data[t], data[t + 1], data[t + 2]) + (if 2
                * i + 1 < height {
                true_color(48, data[u], data[u + 1], data[u + 2])
            } else {
                seq![27u8, 91u8, 52u8, 57u8, 109u8]
            }) + seq![226u8, 150u8, 128u8]
        }),
{
    assert(3 * (2 * i * width + x) == (2 * i * width + x) * 3);
    assert(3 * ((2 * i + 1) * width + x) == ((2 * i + 1) * width + x) * 3);
}

/// The half block glyph is one well-formed UTF-8 character.
pub proof fn lemma_upper_half_block_valid()
    ensures
        valid_utf8(upper_half_block()),
{
    assert(codepoint_width_3(226u8, 150u8, 128u8) == 0x2580u32) by (bit_vector);
    lemma_three_byte_char_valid(226u8, 150u8, 128u8);
}

proof fn lemma_half_cell_valid(data: Seq<u8>, width: nat, height: nat, x: nat, i: nat)
    ensures
        valid_utf8(half_cell(data, width, height, x, i)),
{
    let top = rgb_at(data, 2 * i * width + x);
    lemma_true_color_ascii(38, top.0, top.1, top.2);
    lemma_ascii_valid(true_color(38, top.0, top.1, top.2));
    let lower: Seq<u8> = if 2 * i + 1 < height {
        let bottom = rgb_at(data, (2 * i + 1) * width + x);
        lemma_true_color_ascii(48, bottom.0, bottom.1, bottom.2);
        true_color(48, bottom.0, bottom.1, bottom.2)
    } else {
        assert(is_ascii_bytes(default_background()));
        default_background()
    };
    lemma_ascii_valid(lower);
    lemma_utf8_concat(true_color(38, top.0, top.1, top.2), lower);
    lemma_upper_half_block_valid();
    lemma_utf8_concat(true_color(38, top.0, top.1, top.2) + lower, upper_half_block());
}

proof fn lemma_half_cells_valid(data: Seq<u8>, width: nat, height: nat, i: nat, k: nat)
    ensures
        valid_utf8(half_cells(data, width, height, i, k)),
    decreases k,
{
    if k == 0 {
        assert(valid_utf8(Seq::<u8>::empty()));
    } else {
        lemma_half_cells_valid(data, width, height, i, (k - 1) as nat);
        lemma_half_cell_valid(data, width, height, (k - 1) as nat, i);
        lemma_utf8_concat(half_cells(data, width, height, i, (k - 1) as nat), half_cell(data, width, height, (k - 1) as nat, i));
    }
}

proof fn lemma_half_rows_valid(data: Seq<u8>, width: nat, height: nat, count: nat, x_off: nat, y_off: nat)
    ensures
        valid_utf8(half_rows(data, width, height, count, x_off, y_off)),
    decreases count,
{
    if count == 0 {
        assert(valid_utf8(Seq::<u8>::empty()));
    } else {
        let i = (count - 1) as nat;
        let prev = half_rows(data, width, height, i, x_off, y_off);
        lemma_half_rows_valid(data, width, height, i, x_off, y_off);
        lemma_cursor_to_ascii(y_off + i + 1, x_off + 1);
        lemma_ascii_valid(cursor_to(y_off + i + 1, x_off + 1));
        lemma_utf8_concat(prev, cursor_to(y_off + i + 1, x_off + 1));
        lemma_half_cells_valid(data, width, height, i, width);
        lemma_utf8_concat(prev + cursor_to(y_off + i + 1, x_off + 1), half_cells(data, width, height, i, width));
        lemma_sgr_reset_ascii();
        lemma_ascii_valid(sgr_reset());
        lemma_utf8_concat(
            prev + cursor_to(y_off + i + 1, x_off + 1) + half_cells(data, width, height, i, width),
            sgr_reset(),
        );
    }
}

/// What the half-block encoder writes is valid UTF-8.
pub proof fn lemma_half_frame_valid(width: nat, height: nat, data: Seq<u8>, x_off: nat, y_off: nat)
    ensures
        valid_utf8(half_frame(width, height, data, x_off, y_off)),
{
    if width == 0 || height == 0 || data.len() == 0 {
        assert(valid_utf8(Seq::<u8>::empty()));
    } else {
        lemma_half_rows_valid(data, width, height, half_row_count(height), x_off, y_off);
    }
}

/// Renders RGB frames with half blocks, two pixel rows per text row.
pub struct HalfBlockEncoder;

impl HalfBlockEncoder {
    pub fn new() -> (res: Self) {
        HalfBlockEncoder
    }

    /// Appends the half-block rendering of a `width` x `height` RGB frame, its
    /// top-left cell at column `x_off`, row `y_off`.
    pub fn encode_frame(
        &mut self,
        writer: &mut Vec<u8>,
        width: usize,
        height: usize,
        rgb_data: &[u8],
        x_off: u32,
        y_off: u32,
    )
        requires
            crate::ascii::rgb_frame_ok(rgb_data@.len(), width as nat, height as nat),
            crate::ascii::origin_ok(x_off, y_off, half_row_count(height as nat)),
        ensures
            final(writer)@ == old(writer)@ + half_frame(width as nat, height as nat, rgb_data@, x_off as nat, y_off as nat),
    {
        if width == 0 || height == 0 || rgb_data.len() == 0 {
            return;
        }
        let total: usize = rgb_data.len();
        assert(height * 3 <= width * height * 3) by (nonlinear_arith)
            requires width >= 1, height >= 1;
        let mut buf: Vec<u8> = Vec::new();
        let mut i: usize = 0;
        let mut y: usize = 0;
        while y < height
            invariant
                y == 2 * i,
                y <= height + 1,
                y < height ==> i < half_row_count(height as nat),
                y >= height ==> i == half_row_count(height as nat),
                width > 0,
                total == rgb_data@.len(),
                rgb_data@.len() >= width * height * 3,
                height * 3 <= total,
                crate::ascii::origin_ok(x_off, y_off, half_row_count(height as nat)),
                writer@ == old(writer)@ + half_rows(rgb_data@, width as nat, height as nat, i as nat, x_off as nat, y_off as nat),
            decreases height + 1 - y,
        {
            buf.clear();
            push_cursor_to(&mut buf, y_off + i as u32 + 1, x_off + 1);
            let ghost head = buf@;
            let mut x: usize = 0;
            while x < width
                invariant
                    0 <= x <= width,
                    y == 2 * i,
                    y < height,
                    total == rgb_data@.len(),
                    rgb_data@.len() >= width * height * 3,
                    height * 3 <= total,
                    buf@ == head + half_cells(rgb_data@, width as nat, height as nat, i as nat, x as nat),
                decreases width - x,
            {
                assert((y * width + x) * 3 + 2 < width * height * 3) by (nonlinear_arith)
                    requires x < width, y < height;
                let top = (y * width + x) * 3;
                push_true_color(&mut buf, 38, rgb_data[top], rgb_data[top + 1], rgb_data[top + 2]);
                if y + 1 < height {
                    assert(((y + 1) * width + x) * 3 + 2 < width * height * 3) by (nonlinear_arith)
                        requires x < width, y + 1 < height;
                    let bottom = ((y + 1) * width + x) * 3;
                    push_true_color(&mut buf, 48, rgb_data[bottom], rgb_data[bottom + 1], rgb_data[bottom + 2]);
                } else {
                    append_bytes(&mut buf, &[27u8, 91u8, 52u8, 57u8, 109u8]);
                }
                append_bytes(&mut buf, &[226u8, 150u8, 128u8]);
                proof {
                    assert(2 * i * width + x == y * width + x);
                    assert(buf@ =~= head + half_cells(rgb_data@, width as nat, height as nat, i as nat, (x + 1) as nat));
                }
                x = x + 1;
            }
            push_sgr_reset(&mut buf);
            append_bytes(writer, buf.as_slice());
            proof {
                assert(writer@ =~= old(writer)@ + half_rows(rgb_data@, width as nat, height as nat, (i + 1) as nat, x_off as nat, y_off as nat));
            }
            i = i + 1;
            y = y + 2;
        }
    }
}

} // verus!
