//! Terminal geometry and control sequences: screen size, character cell size,
//! centring, and clearing a drawn image.

use vstd::prelude::*;
use crate::ansi::{cursor_to, push_cursor_to};
use crate::decimal::{decimal, push_decimal};
use crate::protocol::ImageProtocol;
use crate::text::append_bytes;

verus! {

/// `ESC [ 2 J`: clear the screen.
pub open spec fn clear_screen_seq() -> Seq<u8> {
    seq![27u8, 91u8, 50u8, 74u8]
}

/// `ESC [ ? 25 l`: hide the cursor.
pub open spec fn hide_cursor_seq() -> Seq<u8> {
    seq![27u8, 91u8, 63u8, 50u8, 53u8, 108u8]
}

/// Appends the clear-screen sequence.
pub fn clear_screen(w: &mut Vec<u8>)
    ensures
        final(w)@ == old(w)@ + clear_screen_seq(),
{
    append_bytes(w, &[27u8, 91u8, 50u8, 74u8]);
}

/// Appends the hide-cursor sequence.
pub fn hide_cursor(w: &mut Vec<u8>)
    ensures
        final(w)@ == old(w)@ + hide_cursor_seq(),
{
    append_bytes(w, &[27u8, 91u8, 63u8, 50u8, 53u8, 108u8]);
}

/// Calls `terminal_size::terminal_size()`, which asks stdout, then stderr, then
/// stdin for the terminal's size in columns and rows.
/// Trusted: a size is reported only with both sides positive (the source answers
/// `None` for a zero column or row count); which size, and whether there is one,
/// depends on the terminal and is not stated.
#[verifier::external_body]
fn query_terminal_size() -> (res: Option<(u16, u16)>)
    ensures
        res matches Some((w, h)) ==> w > 0 && h > 0,
{
    terminal_size::terminal_size().map(|(w, h)| (w.0, h.0))
}

/// A reported terminal size in columns and rows, or 80 x 24 when none is known.
pub fn terminal_size_or_default(size: Option<(u16, u16)>) -> (res: (u32, u32))
    ensures
        res == match size {
            Some((w, h)) => (w as u32, h as u32),
            None => (80u32, 24u32),
        },
{
    match size {
        Some((w, h)) => (w as u32, h as u32),
        None => (80, 24),
    }
}

/// The terminal's size in columns and rows (80 x 24 when it cannot be asked).
pub fn terminal_size() -> (res: (u32, u32))
    ensures
        res == (80u32, 24u32) || (0 < res.0 <= u16::MAX && 0 < res.1 <= u16::MAX),
{
    terminal_size_or_default(query_terminal_size())
}

/// The pixel size of a character cell from a window-size report (`ok` when the
/// report was obtained): window pixels divided by columns and rows when all four
/// numbers and both quotients are positive, else the fallback 9 x 18.
pub fn cell_size_from_window(ok: bool, ws_col: u16, ws_row: u16, ws_xpixel: u16, ws_ypixel: u16) -> (res: (u32, u32))
    ensures
        res == (if ok && ws_xpixel > 0 && ws_ypixel > 0 && ws_col > 0 && ws_row > 0 && ws_xpixel / ws_col > 0
            && ws_ypixel / ws_row > 0 {
            ((ws_xpixel / ws_col) as u32, (ws_ypixel / ws_row) as u32)
        } else {
            (9u32, 18u32)
        }),
        res.0 > 0 && res.1 > 0,
{
    if ok && ws_xpixel > 0 && ws_ypixel > 0 && ws_col > 0 && ws_row > 0 {
        let cw = ws_xpixel as u32 / ws_col as u32;
        let ch = ws_ypixel as u32 / ws_row as u32;
        if cw > 0 && ch > 0 {
            return (cw, ch);
        }
    }
    (9, 18)
}

/// Image pixels drawn per text column and row: one by two for half blocks, two
/// by four for braille, one by one for ASCII, and the cell size in pixels for
/// the pixel protocols.
pub fn pixels_per_cell(protocol: ImageProtocol, cell_w: u32, cell_h: u32) -> (res: (u32, u32))
    ensures
        res == match protocol {
            ImageProtocol::HalfBlock => (1u32, 2u32),
            ImageProtocol::Braille => (2u32, 4u32),
            ImageProtocol::Ascii => (1u32, 1u32),
            _ => (cell_w, cell_h),
        },
{
    match protocol {
        ImageProtocol::HalfBlock => (1, 2),
        ImageProtocol::Braille => (2, 4),
        ImageProtocol::Ascii => (1, 1),
        _ => (cell_w, cell_h),
    }
}

/// Offset of `extent` text cells centred in `total`, or 0 when it does not fit.
pub open spec fn centred(extent: u32, total: u32) -> u32 {
    if extent < total {
        ((total - extent) / 2) as u32
    } else {
        0
    }
}

/// A centred run of cells that fits leaves margins on both sides that differ by
/// at most one cell, the larger one after it.
pub proof fn lemma_centred_margins(extent: u32, total: u32)
    requires
        extent < total,
    ensures
        ({
            let left = centred(extent, total) as int;
            let right = total - extent - left;
            left <= right <= left + 1
        }),
{
}

/// The text-cell offset (column, row) that centres a `tw` x `th` pixel image on a
/// terminal of `term.0` columns and `term.1` rows with cells of `cell` pixels.
pub open spec fn center_offset(tw: u32, th: u32, protocol: ImageProtocol, term: (u32, u32), cell: (u32, u32)) -> (u32, u32) {
    let (cols, rows) = term;
    match protocol {
        ImageProtocol::Sixel | ImageProtocol::Kitty => {
            let phys_w = cols * cell.0;
            let phys_h = rows * cell.1;
            (
                ((if phys_w > tw { phys_w - tw } else { 0 }) / 2 / (cell.0 as int)) as u32,
                ((if phys_h > th { phys_h - th } else { 0 }) / 2 / (cell.1 as int)) as u32,
            )
        },
        ImageProtocol::HalfBlock => (centred(tw, cols), centred(th / 2, rows)),
        ImageProtocol::Braille => (centred(tw / 2, cols), centred(th / 4, rows)),
        ImageProtocol::Ascii => (centred(tw, cols), centred(th, rows)),
    }
}

/// Where to draw a `tw` x `th` image so that it is centred: (0, 0) unless `center`
/// is set. `term` is the terminal size in columns and rows, `cell` the cell size
/// in pixels.
pub fn compute_center_offset(
    tw: u32,
    th: u32,
    protocol: ImageProtocol,
    center: bool,
    term: (u32, u32),
    cell: (u32, u32),
) -> (res: (u32, u32))
    requires
        center && (protocol == ImageProtocol::Sixel || protocol == ImageProtocol::Kitty) ==> {
            &&& cell.0 > 0
            &&& cell.1 > 0
            &&& term.0 * cell.0 <= u32::MAX
            &&& term.1 * cell.1 <= u32::MAX
        },
    ensures
        res == (if center { center_offset(tw, th, protocol, term, cell) } else { (0u32, 0u32) }),
{
    if !center {
        return (0, 0);
    }
    let (cols, rows) = term;
    match protocol {
        ImageProtocol::Sixel | ImageProtocol::Kitty => {
            let (cell_w, cell_h) = cell;
            let phys_w = cols * cell_w;
            let phys_h = rows * cell_h;
            let cx = ((phys_w.saturating_sub(tw)) / 2) / cell_w;
            let cy = ((phys_h.saturating_sub(th)) / 2) / cell_h;
            (cx, cy)
        },
        ImageProtocol::HalfBlock => {
            let fc = tw;
            let fr = th / 2;
            let cx = if fc < cols { (cols - fc) / 2 } else { 0 };
            let cy = if fr < rows { (rows - fr) / 2 } else { 0 };
            (cx, cy)
        },
        ImageProtocol::Braille => {
            let fc = tw / 2;
            let fr = th / 4;
            let cx = if fc < cols { (cols - fc) / 2 } else { 0 };
            let cy = if fr < rows { (rows - fr) / 2 } else { 0 };
            (cx, cy)
        },
        ImageProtocol::Ascii => {
            let fc = tw;
            let fr = th;
            let cx = if fc < cols { (cols - fc) / 2 } else { 0 };
            let cy = if fr < rows { (rows - fr) / 2 } else { 0 };
            (cx, cy)
        },
    }
}

/// What `clear_image` writes: for kitty, delete image 1; for sixel, an empty
/// `pixel_w` x `pixel_h` sixel image at (`x`, `y`) painted with the background;
/// nothing for the text protocols.
pub open spec fn clear_image_seq(protocol: ImageProtocol, pixel_w: u32, pixel_h: u32, x: u32, y: u32) -> Seq<u8> {
    match protocol {
        ImageProtocol::Kitty => seq![27u8, 95u8, 71u8, 97u8, 61u8, 100u8, 44u8, 105u8, 61u8, 49u8, 27u8, 92u8],
        ImageProtocol::Sixel => cursor_to(y as nat + 1, x as nat + 1) + seq![
            27u8,
            80u8,
            48u8,
            59u8,
            49u8,
            59u8,
            113u8,
            34u8,
            49u8,
            59u8,
            49u8,
            59u8,
        ] + decimal(pixel_w as nat) + seq![59u8] + decimal(pixel_h as nat) + seq![27u8, 92u8],
        _ => seq![],
    }
}

/// Appends the sequence that removes an image drawn with `protocol`.
pub fn clear_image(protocol: ImageProtocol, pixel_w: u32, pixel_h: u32, x: u32, y: u32, writer: &mut Vec<u8>)
    requires
        protocol == ImageProtocol::Sixel ==> x < u32::MAX && y < u32::MAX,
    ensures
        final(writer)@ == old(writer)@ + clear_image_seq(protocol, pixel_w, pixel_h, x, y),
{
    match protocol {
        ImageProtocol::Kitty => {
            append_bytes(writer, &[27u8, 95u8, 71u8, 97u8, 61u8, 100u8, 44u8, 105u8, 61u8, 49u8, 27u8, 92u8]);
        },
        ImageProtocol::Sixel => {
            push_cursor_to(writer, y + 1, x + 1);
            append_bytes(writer, &[27u8, 80u8, 48u8, 59u8, 49u8, 59u8, 113u8, 34u8, 49u8, 59u8, 49u8, 59u8]);
            push_decimal(pixel_w, writer);
            writer.push(59u8);
            push_decimal(pixel_h, writer);
            writer.push(27u8);
            writer.push(92u8);
            assert(writer@ =~= old(writer)@ + clear_image_seq(protocol, pixel_w, pixel_h, x, y));
        },
        _ => {
            assert(writer@ =~= old(writer)@ + clear_image_seq(protocol, pixel_w, pixel_h, x, y));
        },
    }
}

} // verus!
