//! Braille encoder: each text cell covers a 2 x 4 block of pixels and shows the
//! full braille pattern (U+28FF) in the block's average colour.

use vstd::prelude::*;
use vstd::utf8::{codepoint_width_3, valid_utf8};
use crate::ansi::{
    cursor_to, sgr_reset, true_color, push_cursor_to, push_sgr_reset, push_true_color, lemma_cursor_to_ascii,
    lemma_sgr_reset_ascii, lemma_true_color_ascii,
};
use crate::text::{append_bytes, lemma_ascii_valid, lemma_three_byte_char_valid, lemma_utf8_concat};

verus! {

/// Channel `ch` of the pixel at (`px`, `py`) in packed RGB data.
pub open spec fn channel_at(data: Seq<u8>, width: nat, px: nat, py: nat, ch: nat) -> nat {
    data[((py * width + px) * 3 + ch) as int] as nat
}

/// Whether the `k`-th position of the block at (`bx`, `by`) (row-major within
/// the 2 x 4 block) lies inside the image.
pub open spec fn in_block(width: nat, height: nat, bx: nat, by: nat, k: nat) -> bool {
    by + k / 2 < height && bx + k % 2 < width
}

/// Sum of channel `ch` over the first `k` positions of the block that lie in the image.
pub open spec fn block_sum(data: Seq<u8>, width: nat, height: nat, bx: nat, by: nat, ch: nat, k: nat) -> nat
    decreases k,
{
    if k == 0 {
        0
    } else {
        block_sum(data, width, height, bx, by, ch, (k - 1) as nat) + if in_block(width, height, bx, by, (k - 1) as nat) {
            channel_at(data, width, (bx + (k - 1) % 2) as nat, (by + (k - 1) / 2) as nat, ch)
        } else {
            0
        }
    }
}

/// Number of the first `k` positions of the block that lie in the image.
pub open spec fn block_count(width: nat, height: nat, bx: nat, by: nat, k: nat) -> nat
    decreases k,
{
    if k == 0 {
        0
    } else {
        block_count(width, height, bx, by, (k - 1) as nat) + if in_block(width, height, bx, by, (k - 1) as nat) {
            1nat
        } else {
            0nat
        }
    }
}

/// Average of channel `ch` over the pixels of the block (rounded down).
pub open spec fn block_avg(data: Seq<u8>, width: nat, height: nat, bx: nat, by: nat, ch: nat) -> u8 {
    (block_sum(data, width, height, bx, by, ch, 8) / block_count(width, height, bx, by, 8)) as u8
}

/// UTF-8 encoding of U+28FF, the braille pattern with all eight dots.
pub open spec fn full_braille() -> Seq<u8> {
    seq![226u8, 163u8, 191u8]
}

/// The text of the cell for the block at (`bx`, `by`): foreground colour, then the glyph.
pub open spec fn braille_cell(data: Seq<u8>, width: nat, height: nat, bx: nat, by: nat) -> Seq<u8> {
    true_color(
        38,
        block_avg(data, width, height, bx, by, 0),
        block_avg(data, width, height, bx, by, 1),
        block_avg(data, width, height, bx, by, 2),
    ) + full_braille()
}

/// The first `k` cells of the text row covering pixel rows `by .. by + 4`.
pub open spec fn braille_cells(data: Seq<u8>, width: nat, height: nat, by: nat, k: nat) -> Seq<u8>
    decreases k,
{
    if k == 0 {
        seq![]
    } else {
        braille_cells(data, width, height, by, (k - 1) as nat) + braille_cell(data, width, height, (2 * (k - 1)) as nat, by)
    }
}

/// Number of text cells across: `ceil(width / 2)`.
pub open spec fn braille_cols(width: nat) -> nat {
    (width + 1) / 2
}

/// Number of text rows: `ceil(height / 4)`.
pub open spec fn braille_row_count(height: nat) -> nat {
    (height + 3) / 4
}

/// The first `count` text rows, each placed with a cursor movement and ended by a reset.
pub open spec fn braille_rows(data: Seq<u8>, width: nat, height: nat, count: nat, x_off: nat, y_off: nat) -> Seq<u8>
    decreases count,
{
    if count == 0 {
        seq![]
    } else {
        let i = (count - 1) as nat;
        braille_rows(data, width, height, i, x_off, y_off) + cursor_to(y_off + i + 1, x_off + 1) + braille_cells(
            data,
            width,
            height,
            4 * i,
            braille_cols(width),
        ) + sgr_reset()
    }
}

/// What the braille encoder writes for a frame with its top-left cell at column
/// `x_off`, row `y_off`; nothing for an empty frame.
pub open spec fn braille_frame(width: nat, height: nat, data: Seq<u8>, x_off: nat, y_off: nat) -> Seq<u8> {
    if width == 0 || height == 0 || data.len() == 0 {
        seq![]
    } else {
        braille_rows(data, width, height, braille_row_count(height), x_off, y_off)
    }
}

proof fn lemma_block_bounds(data: Seq<u8>, width: nat, height: nat, bx: nat, by: nat, ch: nat, k: nat)
    requires
        k <= 8,
    ensures
        block_sum(data, width, height, bx, by, ch, k) <= 255 * block_count(width, height, bx, by, k),
        block_count(width, height, bx, by, k) <= k,
    decreases k,
{
    if k > 0 {
        lemma_block_bounds(data, width, height, bx, by, ch, (k - 1) as nat);
    }
}

/// A braille cell's colour is, per channel, the average (rounded down) over the
/// pixels of its 2 x 4 block that lie inside the image: columns `bx` and
/// `bx + 1`, rows `by` to `by + 3`.
pub proof fn lemma_cell_is_block_average(data: Seq<u8>, width: nat, height: nat, bx: nat, by: nat, ch: nat)
    requires
        bx < width,
        by < height,
        ch < 3,
    ensures
        ({
            let v = |dx: nat, dy: nat|
                if by + dy < height && bx + dx < width {
                    data[(((by + dy) * width + bx + dx) * 3 + ch) as int] as nat
                } else {
                    0nat
                };
            let n = |dx: nat, dy: nat| if by + dy < height && bx + dx < width { 1nat } else { 0nat };
            let sum = v(0, 0) + v(1, 0) + v(0, 1) + v(1, 1) + v(0, 2) + v(1, 2) + v(0, 3) + v(1, 3);
            let count = n(0, 0) + n(1, 0) + n(0, 1) + n(1, 1) + n(0, 2) + n(1, 2) + n(0, 3) + n(1, 3);
            &&& count >= 1
            &&& block_avg(data, width, height, bx, by, ch) == (sum / count) as u8
        }),
{
    reveal_with_fuel(block_sum, 9);
    reveal_with_fuel(block_count, 9);
}

/// The braille glyph is one well-formed UTF-8 character.
pub proof fn lemma_full_braille_valid()
    ensures
        valid_utf8(full_braille()),
{
    assert(codepoint_width_3(226u8, 163u8, 191u8) == 0x28ffu32) by (bit_vector);
    lemma_three_byte_char_valid(226u8, 163u8, 191u8);
}

proof fn lemma_braille_cells_valid(data: Seq<u8>, width: nat, height: nat, by: nat, k: nat)
    ensures
        valid_utf8(braille_cells(data, width, height, by, k)),
    decreases k,
{
    if k == 0 {
        assert(valid_utf8(Seq::<u8>::empty()));
    } else {
        let prev = braille_cells(data, width, height, by, (k - 1) as nat);
        let bx = (2 * (k - 1)) as nat;
        lemma_braille_cells_valid(data, width, height, by, (k - 1) as nat);
        let tc = true_color(
            38,
            block_avg(data, width, height, bx, by, 0),
            block_avg(data, width, height, bx, by, 1),
            block_avg(data, width, height, bx, by, 2),
        );
        lemma_true_color_ascii(
            38,
            block_avg(data, width, height, bx, by, 0),
            block_avg(data, width, height, bx, by, 1),
            block_avg(data, width, height, bx, by, 2),
        );
        lemma_ascii_valid(tc);
        lemma_full_braille_valid();
        lemma_utf8_concat(tc, full_braille());
        lemma_utf8_concat(prev, braille_cell(data, width, height, bx, by));
    }
}

proof fn lemma_braille_rows_valid(data: Seq<u8>, width: nat, height: nat, count: nat, x_off: nat, y_off: nat)
    ensures
        valid_utf8(braille_rows(data, width, height, count, x_off, y_off)),
    decreases count,
{
    if count == 0 {
        assert(valid_utf8(Seq::<u8>::empty()));
    } else {
        let i = (count - 1) as nat;
        let prev = braille_rows(data, width, height, i, x_off, y_off);
        let cur = cursor_to(y_off + i + 1, x_off + 1);
        let cells = braille_cells(data, width, height, 4 * i, braille_cols(width));
        lemma_braille_rows_valid(data, width, height, i, x_off, y_off);
        lemma_cursor_to_ascii(y_off + i + 1, x_off + 1);
        lemma_ascii_valid(cur);
        lemma_utf8_concat(prev, cur);
        lemma_braille_cells_valid(data, width, height, 4 * i, braille_cols(width));
        lemma_utf8_concat(prev + cur, cells);
        lemma_sgr_reset_ascii();
        lemma_ascii_valid(sgr_reset());
        lemma_utf8_concat(prev + cur + cells, sgr_reset());
    }
}

/// What the braille encoder writes is valid UTF-8.
pub proof fn lemma_braille_frame_valid(width: nat, height: nat, data: Seq<u8>, x_off: nat, y_off: nat)
    ensures
        valid_utf8(braille_frame(width, height, data, x_off, y_off)),
{
    if width == 0 || height == 0 || data.len() == 0 {
        assert(valid_utf8(Seq::<u8>::empty()));
    } else {
        lemma_braille_rows_valid(data, width, height, braille_row_count(height), x_off, y_off);
    }
}

/// Renders RGB frames with braille glyphs.
pub struct BrailleEncoder;

/// The same as `BrailleEncoder::new()`.
impl Default for BrailleEncoder {
    fn default() -> (res: Self)
        ensures
            res == BrailleEncoder,
    {
        BrailleEncoder::new()
    }
}

impl BrailleEncoder {
    pub fn new() -> (res: Self) {
        BrailleEncoder
    }

    /// Appends the braille rendering of a `width` x `height` RGB frame, one text
    /// cell per 2 x 4 pixel block, its top-left cell at column `x_off`, row `y_off`.
    pub fn encode_frame(
        &mut self,
        writer: &mut Vec<u8>,
        width: usize,
        height: usize,
        rgb_data: &[u8],
        x_off: u32,
        y_off: u32,
    )
        requires
            crate::ascii::rgb_frame_ok(rgb_data@.len(), width as nat, height as nat),
            crate::ascii::origin_ok(x_off, y_off, braille_row_count(height as nat)),
        ensures
            final(writer)@ == old(writer)@ + braille_frame(width as nat, height as nat, rgb_data@, x_off as nat, y_off as nat),
    {
        if width == 0 || height == 0 || rgb_data.len() == 0 {
            return;
        }
        let total: usize = rgb_data.len();
        assert(height * 3 <= width * height * 3 && width * 3 <= width * height * 3) by (nonlinear_arith)
            requires width >= 1, height >= 1;
        let mut buf: Vec<u8> = Vec::new();
        let mut i: usize = 0;
        let mut by: usize = 0;
        while by < height
            invariant
                by == 4 * i,
                by <= height + 3,
                by < height ==> i < braille_row_count(height as nat),
                by >= height ==> i == braille_row_count(height as nat),
                width > 0,
                height > 0,
                total == rgb_data@.len(),
                rgb_data@.len() >= width * height * 3,
                height * 3 <= total,
                width * 3 <= total,
                crate::ascii::origin_ok(x_off, y_off, braille_row_count(height as nat)),
                writer@ == old(writer)@ + braille_rows(rgb_data@, width as nat, height as nat, i as nat, x_off as nat, y_off as nat),
            decreases height + 3 - by,
        {
            buf.clear();
            push_cursor_to(&mut buf, y_off + i as u32 + 1, x_off + 1);
            let ghost head = buf@;
            let mut c: usize = 0;
            let mut bx: usize = 0;
            while bx < width
                invariant
                    bx == 2 * c,
                    bx <= width + 1,
                    bx < width ==> c < braille_cols(width as nat),
                    bx >= width ==> c == braille_cols(width as nat),
                    by < height,
                    total == rgb_data@.len(),
                    rgb_data@.len() >= width * height * 3,
                    height * 3 <= total,
                    width * 3 <= total,
                    buf@ == head + braille_cells(rgb_data@, width as nat, height as nat, by as nat, c as nat),
                decreases width + 1 - bx,
            {
                let mut r_sum: u32 = 0;
                let mut g_sum: u32 = 0;
                let mut b_sum: u32 = 0;
                let mut count: u32 = 0;
                let mut dy: usize = 0;
                while dy < 4
                    invariant
                        0 <= dy <= 4,
                        bx < width,
                        by < height,
                        height * 3 <= total,
                        width * 3 <= total,
                        total == rgb_data@.len(),
                        rgb_data@.len() >= width * height * 3,
                        r_sum as nat == block_sum(rgb_data@, width as nat, height as nat, bx as nat, by as nat, 0, (2 * dy) as nat),
                        g_sum as nat == block_sum(rgb_data@, width as nat, height as nat, bx as nat, by as nat, 1, (2 * dy) as nat),
                        b_sum as nat == block_sum(rgb_data@, width as nat, height as nat, bx as nat, by as nat, 2, (2 * dy) as nat),
                        count as nat == block_count(width as nat, height as nat, bx as nat, by as nat, (2 * dy) as nat),
                    decreases 4 - dy,
                {
                    proof {
                        lemma_block_bounds(rgb_data@, width as nat, height as nat, bx as nat, by as nat, 0, (2 * dy) as nat);
                        lemma_block_bounds(rgb_data@, width as nat, height as nat, bx as nat, by as nat, 1, (2 * dy) as nat);
                        lemma_block_bounds(rgb_data@, width as nat, height as nat, bx as nat, by as nat, 2, (2 * dy) as nat);
                    }
                    let py = by + dy;
                    if py < height {
                        let mut dx: usize = 0;
                        while dx < 2
                            invariant
                                0 <= dx <= 2,
                                dy < 4,
                                py == by + dy,
                                py < height,
                                bx < width,
                                width * 3 <= total,
                                total == rgb_data@.len(),
                                rgb_data@.len() >= width * height * 3,
                                r_sum as nat == block_sum(rgb_data@, width as nat, height as nat, bx as nat, by as nat, 0, (2 * dy + dx) as nat),
                                g_sum as nat == block_sum(rgb_data@, width as nat, height as nat, bx as nat, by as nat, 1, (2 * dy + dx) as nat),
                                b_sum as nat == block_sum(rgb_data@, width as nat, height as nat, bx as nat, by as nat, 2, (2 * dy + dx) as nat),
                                count as nat == block_count(width as nat, height as nat, bx as nat, by as nat, (2 * dy + dx) as nat),
                            decreases 2 - dx,
                        {
                            proof {
                                lemma_block_bounds(rgb_data@, width as nat, height as nat, bx as nat, by as nat, 0, (2 * dy + dx) as nat);
                                lemma_block_bounds(rgb_data@, width as nat, height as nat, bx as nat, by as nat, 1, (2 * dy + dx) as nat);
                                lemma_block_bounds(rgb_data@, width as nat, height as nat, bx as nat, by as nat, 2, (2 * dy + dx) as nat);
                                let k = (2 * dy + dx) as nat;
                                assert(k / 2 == dy && k % 2 == dx);
                            }
                            let px = bx + dx;
                            if px < width {
                                assert((py * width + px) * 3 + 2 < width * height * 3) by (nonlinear_arith)
                                    requires px < width, py < height;
                                let offset = (py * width + px) * 3;
                                r_sum = r_sum + rgb_data[offset] as u32;
                                g_sum = g_sum + rgb_data[offset + 1] as u32;
                                b_sum = b_sum + rgb_data[offset + 2] as u32;
                                count = count + 1;
                            }
                            dx = dx + 1;
                        }
                    } else {
                        proof {
                            let k0 = (2 * dy) as nat;
                            let (w, h, x0, y0) = (width as nat, height as nat, bx as nat, by as nat);
                            assert(k0 / 2 == dy && (k0 + 1) / 2 == dy);
                            assert(!in_block(w, h, x0, y0, k0));
                            assert(!in_block(w, h, x0, y0, k0 + 1));
                            assert(block_sum(rgb_data@, w, h, x0, y0, 0, k0 + 1) == block_sum(rgb_data@, w, h, x0, y0, 0, k0));
                            assert(block_sum(rgb_data@, w, h, x0, y0, 1, k0 + 1) == block_sum(rgb_data@, w, h, x0, y0, 1, k0));
                            assert(block_sum(rgb_data@, w, h, x0, y0, 2, k0 + 1) == block_sum(rgb_data@, w, h, x0, y0, 2, k0));
                            assert(block_count(w, h, x0, y0, k0 + 1) == block_count(w, h, x0, y0, k0));
                        }
                    }
                    dy = dy + 1;
                }
                proof {
                    assert(in_block(width as nat, height as nat, bx as nat, by as nat, 0));
                    lemma_block_count_positive(width as nat, height as nat, bx as nat, by as nat, 8);
                }
                let r_avg = r_sum / count;
                let g_avg = g_sum / count;
                let b_avg = b_sum / count;
                push_true_color(
                    &mut buf,
                    38,
                    #[verifier::truncate] (r_avg as u8),
                    #[verifier::truncate] (g_avg as u8),
                    #[verifier::truncate] (b_avg as u8),
                );
                buf.push(226u8);
                buf.push(163u8);
                buf.push(191u8);
                proof {
                    assert(buf@ =~= head + braille_cells(rgb_data@, width as nat, height as nat, by as nat, (c + 1) as nat));
                }
                c = c + 1;
                bx = bx + 2;
            }
            push_sgr_reset(&mut buf);
            append_bytes(writer, buf.as_slice());
            proof {
                assert(writer@ =~= old(writer)@ + braille_rows(rgb_data@, width as nat, height as nat, (i + 1) as nat, x_off as nat, y_off as nat));
            }
            i = i + 1;
            by = by + 4;
        }
    }
}

proof fn lemma_block_count_positive(width: nat, height: nat, bx: nat, by: nat, k: nat)
    requires
        k >= 1,
        in_block(width, height, bx, by, 0),
    ensures
        block_count(width, height, bx, by, k) >= 1,
    decreases k,
{
    if k > 1 {
        lemma_block_count_positive(width, height, bx, by, (k - 1) as nat);
    }
}

} // verus!
