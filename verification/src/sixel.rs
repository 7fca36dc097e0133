//! Native sixel encoder: palette construction (the exact colours of a frame, or a
//! median-cut palette when there are too many) and generation of the sixel stream.

pub mod band;
pub mod median;
pub mod quantize;
pub mod sort;

use vstd::prelude::*;
use crate::decimal::{decimal, push_decimal, lemma_decimal_ascii};
use crate::sixel::band::{band_sixels, emit_band_sixels, lemma_band_sixels_ascii, lemma_band_sixels_no_colors};
use crate::sixel::median::{Rgb, median_cut, median_cut_palette, lemma_median_cut_len, lemma_median_cut_nonempty};
use crate::sixel::quantize::{
    ColorLut, byte_stride, collect_unique_colors, distinct_colors, first_index, lut_entry, lut_key, lut_mid,
    nearest, nearest_index, pixel_at, pixels_of, color_key, lemma_color_key_injective,
    lemma_pixel_in_bounds, position_of, lemma_first_index_scan, lemma_distinct_colors,
    lemma_first_index_bound, lemma_nearest_index_bound,
};
use crate::text::{ascii_chars, ascii_string, is_ascii_bytes, lemma_ascii_concat};

verus! {

/// Device control string introducer: `ESC P 0 ; 0 ; q`, or `ESC P 0 ; <bg> ; q`.
pub open spec fn introducer(background_select: u8) -> Seq<u8> {
    if background_select == 0 {
        seq![27u8, 80u8, 48u8, 59u8, 48u8, 59u8, 113u8]
    } else {
        seq![27u8, 80u8, 48u8, 59u8] + decimal(background_select as nat) + seq![59u8, 113u8]
    }
}

/// A channel value scaled from 0..255 to 0..100, rounded to nearest.
pub open spec fn percent(v: u8) -> nat {
    ((v as nat) * 100 + 127) / 255
}

/// Colour register definition `#i;2;r;g;b` with channels in percent.
pub open spec fn palette_def(i: nat, c: Rgb) -> Seq<u8> {
    seq![35u8] + decimal(i) + seq![59u8, 50u8, 59u8] + decimal(percent(c.0)) + seq![59u8] + decimal(percent(c.1))
        + seq![59u8] + decimal(percent(c.2))
}

/// A channel's percentage is its value scaled from 0..255 to 0..100 and rounded
/// to the nearest whole number: it is off from `v * 100 / 255` by at most one half.
pub proof fn lemma_percent_rounds(v: u8)
    ensures
        percent(v) * 255 <= v * 100 + 127,
        v * 100 + 127 < percent(v) * 255 + 255,
        percent(v) <= 100,
        percent(0) == 0 && percent(255) == 100,
{
    let x = (v as nat) * 100 + 127;
    assert(percent(v) * 255 <= x && x < percent(v) * 255 + 255) by (nonlinear_arith)
        requires percent(v) == x / 255;
}

/// Definitions of all colour registers of a palette, in order.
pub open spec fn palette_defs(p: Seq<Rgb>) -> Seq<u8>
    decreases p.len(),
{
    if p.len() == 0 {
        seq![]
    } else {
        palette_defs(p.drop_last()) + palette_def((p.len() - 1) as nat, p.last())
    }
}

/// Rows of the band starting at row `start`: six, or what is left of the image.
pub open spec fn band_height(height: nat, start: nat) -> nat {
    if start + 6 <= height {
        6
    } else if start <= height {
        (height - start) as nat
    } else {
        0
    }
}

/// The text of the band starting at row `start`, followed by the graphics new line
/// `-\n` unless it is the last band.
pub open spec fn band_block(indices: Seq<u16>, width: nat, height: nat, n_colors: nat, start: nat) -> Seq<u8> {
    band_sixels(indices, width, start, band_height(height, start), n_colors) + if start + 6 < height {
        seq![45u8, 10u8]
    } else {
        seq![]
    }
}

/// The first `count` bands, starting at rows 0, 6, 12, ...
pub open spec fn all_bands(indices: Seq<u16>, width: nat, height: nat, n_colors: nat, count: nat) -> Seq<u8>
    decreases count,
{
    if count == 0 {
        seq![]
    } else {
        all_bands(indices, width, height, n_colors, (count - 1) as nat) + band_block(
            indices,
            width,
            height,
            n_colors,
            (6 * (count - 1)) as nat,
        )
    }
}

/// Number of six-row bands covering `height` rows.
pub open spec fn band_count(height: nat) -> nat {
    (height + 5) / 6
}

/// The sixel stream of an image whose pixels are given as colour register numbers:
/// introducer, raster attributes `"1;1;width;height`, colour registers, bands, and
/// the string terminator `ESC \`.
pub open spec fn sixel_image(indices: Seq<u16>, palette: Seq<Rgb>, width: nat, height: nat, background_select: u8) -> Seq<u8> {
    introducer(background_select) + seq![34u8, 49u8, 59u8, 49u8, 59u8] + decimal(width) + seq![59u8] + decimal(height)
        + palette_defs(palette) + all_bands(indices, width, height, palette.len(), band_count(height)) + seq![27u8, 92u8]
}

/// The palette for a frame: its distinct colours when there are at most
/// `max_colors` of them, else the median-cut palette.
pub open spec fn frame_palette(px: Seq<Rgb>, max_colors: nat) -> Seq<Rgb> {
    let u = distinct_colors(px);
    if u.len() <= max_colors {
        u
    } else {
        median_cut_palette(px, max_colors)
    }
}

/// Register of each pixel with exact matching of the quantised palette: the
/// position of its colour among the distinct colours, or of the nearest
/// median-cut colour.
pub open spec fn exact_indices(px: Seq<Rgb>, max_colors: nat) -> Seq<u16> {
    let u = distinct_colors(px);
    if u.len() <= max_colors {
        Seq::new(px.len(), |i: int| first_index(u, px[i]) as u16)
    } else {
        let p = median_cut_palette(px, max_colors);
        Seq::new(px.len(), |i: int| nearest_index(p, px[i]) as u16)
    }
}

/// Register of each pixel as the streaming encoder finds it: exact positions for
/// a palette of distinct colours, the lookup-table entry otherwise.
pub open spec fn lut_indices(px: Seq<Rgb>, max_colors: nat) -> Seq<u16> {
    let u = distinct_colors(px);
    if u.len() <= max_colors {
        Seq::new(px.len(), |i: int| first_index(u, px[i]) as u16)
    } else {
        let p = median_cut_palette(px, max_colors);
        Seq::new(px.len(), |i: int| if p.len() == 0 { 0u16 } else { lut_entry(p, lut_key(px[i])) })
    }
}

/// Bytes per pixel of a frame of `n` pixels held in `len` bytes.
pub open spec fn stride_of(len: nat, n: nat) -> nat {
    if len == n * 4 {
        4
    } else {
        3
    }
}

/// Frames the encoders accept: empty, or exactly `width * height` RGB or RGBA pixels,
/// with a width and height that the raster attributes can write as 32-bit numbers.
pub open spec fn frame_ok(len: nat, width: nat, height: nat) -> bool {
    width == 0 || height == 0 || len == 0 || ((len == width * height * 3 || len == width * height * 4)
        && width <= u32::MAX && height <= u32::MAX)
}

/// The stream `image2sixel` produces.
pub open spec fn image2sixel_bytes(data: Seq<u8>, width: nat, height: nat, max_colors: u8, background_select: u8) -> Seq<u8> {
    if width == 0 || height == 0 || data.len() == 0 {
        seq![]
    } else {
        let px = pixels_of(data, stride_of(data.len(), width * height), width * height);
        sixel_image(
            exact_indices(px, max_colors as nat),
            frame_palette(px, max_colors as nat),
            width,
            height,
            background_select,
        )
    }
}

/// The stream `SixelEncoder::encode_frame` produces.
pub open spec fn encoder_frame_bytes(data: Seq<u8>, width: nat, height: nat, max_colors: u8, background_select: u8) -> Seq<u8> {
    if width == 0 || height == 0 || data.len() == 0 {
        seq![]
    } else {
        let px = pixels_of(data, stride_of(data.len(), width * height), width * height);
        sixel_image(
            lut_indices(px, max_colors as nat),
            frame_palette(px, max_colors as nat),
            width,
            height,
            background_select,
        )
    }
}

/// Register of each pixel for a caller-supplied palette: the position of its
/// colour in the palette (0 when it is absent); transparent pixels (alpha 0 in
/// RGBA data) get the palette's length, a register that is never painted.
pub open spec fn palette_indices(data: Seq<u8>, stride: nat, n: nat, palette: Seq<Rgb>) -> Seq<u16> {
    Seq::new(
        n,
        |i: int|
            if stride == 4 && data[i * 4 + 3] == 0 {
                palette.len() as u16
            } else {
                first_index(palette, pixel_at(data, stride, i as nat)) as u16
            },
    )
}

/// The stream `sixel_encode` produces.
pub open spec fn sixel_encode_bytes(data: Seq<u8>, width: nat, height: nat, palette: Seq<Rgb>) -> Seq<u8> {
    if width == 0 || height == 0 || data.len() == 0 {
        seq![]
    } else {
        let n = width * height;
        sixel_image(palette_indices(data, stride_of(data.len(), n), n, palette), palette, width, height, 0)
    }
}


/// Appends the introducer for `background_select`.
fn push_introducer(background_select: u8, out: &mut Vec<u8>)
    ensures
        final(out)@ == old(out)@ + introducer(background_select),
{
    if background_select == 0 {
        out.push(27u8);
        out.push(80u8);
        out.push(48u8);
        out.push(59u8);
        out.push(48u8);
        out.push(59u8);
        out.push(113u8);
    } else {
        out.push(27u8);
        out.push(80u8);
        out.push(48u8);
        out.push(59u8);
        push_decimal(background_select as u32, out);
        out.push(59u8);
        out.push(113u8);
    }
    assert(out@ =~= old(out)@ + introducer(background_select));
}

/// Appends the colour register definitions of `palette`.
fn write_palette_defs(palette: &[Rgb], out: &mut Vec<u8>)
    requires
        palette@.len() <= u32::MAX,
    ensures
        final(out)@ == old(out)@ + palette_defs(palette@),
{
    let mut i: usize = 0;
    while i < palette.len()
        invariant
            0 <= i <= palette.len(),
            palette@.len() <= u32::MAX,
            out@ == old(out)@ + palette_defs(palette@.take(i as int)),
        decreases palette.len() - i,
    {
        let (r, g, b) = palette[i];
        let rp: u8 = ((r as u32 * 100 + 127) / 255) as u8;
        let gp: u8 = ((g as u32 * 100 + 127) / 255) as u8;
        let bp: u8 = ((b as u32 * 100 + 127) / 255) as u8;
        out.push(35u8);
        push_decimal(i as u32, out);
        out.push(59u8);
        out.push(50u8);
        out.push(59u8);
        push_decimal(rp as u32, out);
        out.push(59u8);
        push_decimal(gp as u32, out);
        out.push(59u8);
        push_decimal(bp as u32, out);
        proof {
            assert(palette@.take(i + 1).drop_last() =~= palette@.take(i as int));
            assert(palette@.take(i + 1).last() == palette@[i as int]);
            assert(out@ =~= old(out)@ + palette_defs(palette@.take(i + 1)));
        }
        i = i + 1;
    }
    proof {
        assert(palette@.take(palette.len() as int) =~= palette@);
    }
}

/// Appends the raster attributes, colour registers, bands and terminator of a
/// sixel image (everything after the introducer). The vectors after `out` are
/// work buffers for the band encoder, sized to one more than the palette.
#[verifier::rlimit(30)]
fn write_sixel_body(
    indices: &[u16],
    width: usize,
    height: usize,
    palette: &[Rgb],
    out: &mut Vec<u8>,
    color_data: &mut Vec<Vec<u8>>,
    used_colors: &mut Vec<u16>,
    slot_map: &mut Vec<i32>,
    last_code: &mut Vec<u8>,
    last_code_init: &mut Vec<bool>,
    cur_code: &mut Vec<u8>,
    accu: &mut Vec<u32>,
)
    requires
        width >= 1,
        height >= 1,
        indices@.len() == width * height,
        width * height * 3 <= usize::MAX,
        width <= u32::MAX,
        height <= u32::MAX,
        palette@.len() <= 65535,
        old(slot_map).len() == palette@.len() + 1,
        old(last_code).len() == palette@.len() + 1,
        old(last_code_init).len() == palette@.len() + 1,
        old(cur_code).len() == palette@.len() + 1,
        old(accu).len() == palette@.len() + 1,
    ensures
        final(out)@ == old(out)@ + seq![34u8, 49u8, 59u8, 49u8, 59u8] + decimal(width as nat) + seq![59u8]
            + decimal(height as nat) + palette_defs(palette@) + all_bands(
            indices@,
            width as nat,
            height as nat,
            palette@.len(),
            band_count(height as nat),
        ) + seq![27u8, 92u8],
{
    assert(width <= width * height && height <= width * height) by (nonlinear_arith)
        requires width >= 1, height >= 1;
    out.push(34u8);
    push_decimal(1, out);
    out.push(59u8);
    push_decimal(1, out);
    out.push(59u8);
    push_decimal(width as u32, out);
    out.push(59u8);
    push_decimal(height as u32, out);
    write_palette_defs(palette, out);
    let ghost head = out@;
    proof {
        assert(decimal(1) == seq![49u8]);
        assert(head =~= old(out)@ + seq![34u8, 49u8, 59u8, 49u8, 59u8] + decimal(width as nat) + seq![59u8]
            + decimal(height as nat) + palette_defs(palette@));
    }
    let n_colors = palette.len();
    let mut band: usize = 0;
    let ghost mut count: nat = 0;
    while band < height
        invariant
            band == 6 * count,
            band <= height + 5,
            band < height ==> count < band_count(height as nat),
            band >= height ==> count == band_count(height as nat),
            width >= 1,
            height >= 1,
            width <= width * height,
            height <= width * height,
            indices@.len() == width * height,
            width * height * 3 <= usize::MAX,
            width <= u32::MAX,
            height <= u32::MAX,
            n_colors == palette@.len(),
            n_colors <= 65535,
            slot_map.len() == n_colors + 1,
            last_code.len() == n_colors + 1,
            last_code_init.len() == n_colors + 1,
            cur_code.len() == n_colors + 1,
            accu.len() == n_colors + 1,
            out@ == head + all_bands(indices@, width as nat, height as nat, n_colors as nat, count),
        decreases height + 5 - band,
    {
        let band_h: usize = if height - band < 6 { height - band } else { 6 };
        assert((band + band_h) * width <= height * width) by (nonlinear_arith)
            requires band + band_h <= height;
        assert(height * width == width * height) by (nonlinear_arith);
        emit_band_sixels(
            indices,
            width,
            band,
            band_h,
            n_colors,
            out,
            color_data,
            used_colors,
            slot_map,
            last_code,
            last_code_init,
            cur_code,
            accu,
        );
        if band + 6 < height {
            out.push(45u8);
            out.push(10u8);
        }
        proof {
            assert(band_height(height as nat, band as nat) == band_h);
            assert(out@ =~= head + all_bands(indices@, width as nat, height as nat, n_colors as nat, count + 1));
            count = count + 1;
        }
        band = band + 6;
    }
    out.push(27u8);
    out.push(92u8);
    proof {
        assert(out@ =~= old(out)@ + seq![34u8, 49u8, 59u8, 49u8, 59u8] + decimal(width as nat) + seq![59u8]
            + decimal(height as nat) + palette_defs(palette@) + all_bands(
            indices@,
            width as nat,
            height as nat,
            palette@.len(),
            band_count(height as nat),
        ) + seq![27u8, 92u8]);
    }
}


/// Sixel streams are ASCII.
pub proof fn lemma_sixel_image_ascii(
    indices: Seq<u16>,
    palette: Seq<Rgb>,
    width: nat,
    height: nat,
    background_select: u8,
)
    ensures
        is_ascii_bytes(sixel_image(indices, palette, width, height, background_select)),
{
    lemma_decimal_ascii(background_select as nat);
    lemma_ascii_concat(seq![27u8, 80u8, 48u8, 59u8], decimal(background_select as nat));
    lemma_ascii_concat(seq![27u8, 80u8, 48u8, 59u8] + decimal(background_select as nat), seq![59u8, 113u8]);
    let a = introducer(background_select) + seq![34u8, 49u8, 59u8, 49u8, 59u8];
    lemma_ascii_concat(introducer(background_select), seq![34u8, 49u8, 59u8, 49u8, 59u8]);
    lemma_decimal_ascii(width);
    lemma_ascii_concat(a, decimal(width));
    lemma_ascii_concat(a + decimal(width), seq![59u8]);
    lemma_decimal_ascii(height);
    lemma_ascii_concat(a + decimal(width) + seq![59u8], decimal(height));
    let b = a + decimal(width) + seq![59u8] + decimal(height);
    lemma_palette_defs_ascii(palette);
    lemma_ascii_concat(b, palette_defs(palette));
    lemma_all_bands_ascii(indices, width, height, palette.len(), band_count(height));
    lemma_ascii_concat(b + palette_defs(palette), all_bands(indices, width, height, palette.len(), band_count(height)));
    lemma_ascii_concat(
        b + palette_defs(palette) + all_bands(indices, width, height, palette.len(), band_count(height)),
        seq![27u8, 92u8],
    );
}

proof fn lemma_palette_defs_ascii(p: Seq<Rgb>)
    ensures
        is_ascii_bytes(palette_defs(p)),
    decreases p.len(),
{
    if p.len() > 0 {
        lemma_palette_defs_ascii(p.drop_last());
        let i = (p.len() - 1) as nat;
        let c = p.last();
        lemma_decimal_ascii(i);
        lemma_decimal_ascii(percent(c.0));
        lemma_decimal_ascii(percent(c.1));
        lemma_decimal_ascii(percent(c.2));
        let x1 = seq![35u8] + decimal(i);
        lemma_ascii_concat(seq![35u8], decimal(i));
        lemma_ascii_concat(x1, seq![59u8, 50u8, 59u8]);
        let x2 = x1 + seq![59u8, 50u8, 59u8];
        lemma_ascii_concat(x2, decimal(percent(c.0)));
        let x3 = x2 + decimal(percent(c.0));
        lemma_ascii_concat(x3, seq![59u8]);
        lemma_ascii_concat(x3 + seq![59u8], decimal(percent(c.1)));
        let x4 = x3 + seq![59u8] + decimal(percent(c.1));
        lemma_ascii_concat(x4, seq![59u8]);
        lemma_ascii_concat(x4 + seq![59u8], decimal(percent(c.2)));
        lemma_ascii_concat(palette_defs(p.drop_last()), palette_def(i, c));
    }
}

proof fn lemma_all_bands_ascii(indices: Seq<u16>, width: nat, height: nat, n_colors: nat, count: nat)
    ensures
        is_ascii_bytes(all_bands(indices, width, height, n_colors, count)),
    decreases count,
{
    if count > 0 {
        lemma_all_bands_ascii(indices, width, height, n_colors, (count - 1) as nat);
        let start = (6 * (count - 1)) as nat;
        lemma_band_sixels_ascii(indices, width, start, band_height(height, start), n_colors);
        let tail: Seq<u8> = if start + 6 < height { seq![45u8, 10u8] } else { seq![] };
        lemma_ascii_concat(band_sixels(indices, width, start, band_height(height, start), n_colors), tail);
        lemma_ascii_concat(
            all_bands(indices, width, height, n_colors, (count - 1) as nat),
            band_block(indices, width, height, n_colors, start),
        );
    }
}

/// With an empty palette the bands do not depend on the register numbers.
proof fn lemma_all_bands_no_colors(a: Seq<u16>, b: Seq<u16>, width: nat, height: nat, count: nat)
    ensures
        all_bands(a, width, height, 0, count) == all_bands(b, width, height, 0, count),
    decreases count,
{
    if count > 0 {
        lemma_all_bands_no_colors(a, b, width, height, (count - 1) as nat);
        let start = (6 * (count - 1)) as nat;
        lemma_band_sixels_no_colors(a, width, start, band_height(height, start));
        lemma_band_sixels_no_colors(b, width, start, band_height(height, start));
    }
}

/// A frame's palette never has more than `max_colors` colours.
pub proof fn lemma_frame_palette_len(px: Seq<Rgb>, max_colors: nat)
    ensures
        frame_palette(px, max_colors).len() <= max_colors,
{
    lemma_median_cut_len(px, max_colors);
}

/// Every pixel of a frame is painted with a colour register its palette defines,
/// with either way of finding the registers.
pub proof fn lemma_registers_defined(px: Seq<Rgb>, max_colors: u8, i: int)
    requires
        0 <= i < px.len(),
        max_colors > 0,
    ensures
        exact_indices(px, max_colors as nat)[i] < frame_palette(px, max_colors as nat).len(),
        lut_indices(px, max_colors as nat)[i] < frame_palette(px, max_colors as nat).len(),
{
    let m = max_colors as nat;
    let u = distinct_colors(px);
    lemma_distinct_colors(px);
    if u.len() <= m {
        assert(u.contains(px[i]));
        lemma_first_index_bound(u, px[i]);
    } else {
        let p = median_cut_palette(px, m);
        lemma_median_cut_nonempty(px, m);
        lemma_median_cut_len(px, m);
        lemma_nearest_index_bound(p, px[i]);
        let key = lut_key(px[i]);
        lemma_nearest_index_bound(
            p,
            (lut_mid(key / 64) as u8, lut_mid((key / 8) % 8) as u8, lut_mid(key % 8) as u8),
        );
    }
}

/// When a frame has at most `max_colors` distinct colours, `image2sixel` and the
/// streaming `SixelEncoder` produce the same stream.
pub proof fn lemma_exact_palette_streams_agree(
    data: Seq<u8>,
    width: nat,
    height: nat,
    max_colors: u8,
    background_select: u8,
)
    requires
        distinct_colors(pixels_of(data, stride_of(data.len(), width * height), width * height)).len() <= max_colors,
    ensures
        image2sixel_bytes(data, width, height, max_colors, background_select) == encoder_frame_bytes(
            data,
            width,
            height,
            max_colors,
            background_select,
        ),
{
    let px = pixels_of(data, stride_of(data.len(), width * height), width * height);
    assert(exact_indices(px, max_colors as nat) =~= lut_indices(px, max_colors as nat));
}

/// RGBA data and the same data without its alpha bytes give the same sixel
/// stream, from `image2sixel` and from the streaming encoder alike.
pub proof fn lemma_alpha_is_ignored(
    rgba: Seq<u8>,
    rgb: Seq<u8>,
    width: nat,
    height: nat,
    max_colors: u8,
    background_select: u8,
)
    requires
        width * height >= 1,
        rgba.len() == 4 * (width * height),
        rgb.len() == 3 * (width * height),
        forall|i: int, k: int| 0 <= i < width * height && 0 <= k < 3 ==> #[trigger] rgb[3 * i + k] == rgba[4 * i + k],
    ensures
        image2sixel_bytes(rgba, width, height, max_colors, background_select) == image2sixel_bytes(
            rgb,
            width,
            height,
            max_colors,
            background_select,
        ),
        encoder_frame_bytes(rgba, width, height, max_colors, background_select) == encoder_frame_bytes(
            rgb,
            width,
            height,
            max_colors,
            background_select,
        ),
{
    let n = width * height;
    assert(rgba.len() == n * 4);
    assert(rgb.len() == n * 3);
    assert(rgb.len() != n * 4);
    assert(stride_of(rgba.len(), n) == 4);
    assert(stride_of(rgb.len(), n) == 3);
    assert forall|i: int| 0 <= i < n implies #[trigger] pixel_at(rgba, 4, i as nat) == pixel_at(rgb, 3, i as nat) by {
        assert(rgb[3 * i + 0] == rgba[4 * i + 0]);
        assert(rgb[3 * i + 1] == rgba[4 * i + 1]);
        assert(rgb[3 * i + 2] == rgba[4 * i + 2]);
    }
    assert(pixels_of(rgba, 4, n) =~= pixels_of(rgb, 3, n));
}

/// The colours of the first `n` pixels of `data`.
fn gather_pixels(data: &[u8], n: usize, stride: usize) -> (res: Vec<Rgb>)
    requires
        stride == 3 || stride == 4,
        data@.len() == n * stride,
    ensures
        res@ == pixels_of(data@, stride as nat, n as nat),
{
    let total: usize = data.len();
    let mut pixels: Vec<Rgb> = Vec::new();
    let mut i: usize = 0;
    while i < n
        invariant
            0 <= i <= n,
            stride == 3 || stride == 4,
            total == data@.len(),
            data@.len() == n * stride,
            pixels@ == pixels_of(data@, stride as nat, n as nat).take(i as int),
        decreases n - i,
    {
        proof {
            lemma_pixel_in_bounds(i as nat, n as nat, stride as nat);
        }
        let pi = i * stride;
        pixels.push((data[pi], data[pi + 1], data[pi + 2]));
        proof {
            assert(pixels@ =~= pixels_of(data@, stride as nat, n as nat).take(i + 1));
        }
        i = i + 1;
    }
    proof {
        assert(pixels@ =~= pixels_of(data@, stride as nat, n as nat));
    }
    pixels
}

/// A vector of `n` copies of `v`.
fn filled<T: Copy>(v: T, n: usize) -> (res: Vec<T>)
    ensures
        res@ == Seq::new(n as nat, |i: int| v),
{
    let mut res: Vec<T> = Vec::new();
    let mut i: usize = 0;
    while i < n
        invariant
            0 <= i <= n,
            res@ == Seq::new(i as nat, |j: int| v),
        decreases n - i,
    {
        res.push(v);
        proof {
            assert(res@ =~= Seq::new((i + 1) as nat, |j: int| v));
        }
        i = i + 1;
    }
    res
}

/// Encodes RGB (3 bytes per pixel) or RGBA (4 bytes per pixel, alpha ignored)
/// pixel data to a sixel device control string. Up to `max_colors` distinct colours
/// are used as they are; with more, a median-cut palette of `max_colors` colours
/// is built and each pixel takes its nearest palette colour.
/// `background_select` is the second introducer parameter: 0 leaves unpainted
/// pixels transparent. Empty images give an empty string.
pub fn image2sixel(data: &[u8], width: usize, height: usize, max_colors: u8, background_select: u8) -> (res: String)
    requires
        frame_ok(data@.len(), width as nat, height as nat),
    ensures
        res@ == ascii_chars(image2sixel_bytes(data@, width as nat, height as nat, max_colors, background_select)),
{
    if width == 0 || height == 0 || data.len() == 0 {
        let out: Vec<u8> = Vec::new();
        return ascii_string(&out);
    }
    let n = width * height;
    let max_colors = max_colors as usize;
    let stride = byte_stride(data, n);
    let ghost px = pixels_of(data@, stride as nat, n as nat);
    let (mut palette, mut indices) = collect_unique_colors(data, n, stride);
    if palette.len() > max_colors {
        let pixels = gather_pixels(data, n, stride);
        palette = median_cut(&pixels, max_colors);
        proof {
            lemma_median_cut_len(px, max_colors as nat);
        }
        let mut i: usize = 0;
        while i < n
            invariant
                0 <= i <= n,
                pixels@ == px,
                px.len() == n,
                indices@.len() == n,
                palette@ == median_cut_palette(px, max_colors as nat),
                forall|j: int| 0 <= j < i ==> #[trigger] indices@[j] == nearest_index(palette@, px[j]) as u16,
            decreases n - i,
        {
            let (r, g, b) = pixels[i];
            let best = nearest(&palette, r, g, b);
            indices.set(i, #[verifier::truncate] (best as u16));
            i = i + 1;
        }
    }
    proof {
        assert(indices@ =~= exact_indices(px, max_colors as nat));
        assert(palette@ =~= frame_palette(px, max_colors as nat));
        crate::sixel::quantize::lemma_distinct_colors(px);
    }
    let n_colors = palette.len();
    let mut out: Vec<u8> = Vec::with_capacity(n * 2 + 256);
    push_introducer(background_select, &mut out);
    let mut color_data: Vec<Vec<u8>> = Vec::new();
    let mut used_colors: Vec<u16> = Vec::new();
    let mut slot_map: Vec<i32> = filled(-1i32, n_colors + 1);
    let mut last_code: Vec<u8> = filled(0u8, n_colors + 1);
    let mut last_code_init: Vec<bool> = filled(false, n_colors + 1);
    let mut cur_code: Vec<u8> = filled(0u8, n_colors + 1);
    let mut accu: Vec<u32> = filled(1u32, n_colors + 1);
    write_sixel_body(
        indices.as_slice(),
        width,
        height,
        palette.as_slice(),
        &mut out,
        &mut color_data,
        &mut used_colors,
        &mut slot_map,
        &mut last_code,
        &mut last_code_init,
        &mut cur_code,
        &mut accu,
    );
    proof {
        assert(out@ =~= sixel_image(indices@, palette@, width as nat, height as nat, background_select));
        lemma_sixel_image_ascii(indices@, palette@, width as nat, height as nat, background_select);
    }
    ascii_string(&out)
}


/// Encodes RGB or RGBA pixel data with a given palette, skipping quantisation:
/// each pixel is painted with the register of its colour's position in the
/// palette (the first colour when it is absent); fully transparent RGBA pixels
/// (alpha 0) are skipped. The introducer
/// always selects a transparent background. Empty images give an empty string.
pub fn sixel_encode(data: &[u8], width: usize, height: usize, palette: &[Rgb]) -> (res: String)
    requires
        frame_ok(data@.len(), width as nat, height as nat),
        palette@.len() <= 65535,
    ensures
        res@ == ascii_chars(sixel_encode_bytes(data@, width as nat, height as nat, palette@)),
{
    if width == 0 || height == 0 || data.len() == 0 {
        let out: Vec<u8> = Vec::new();
        return ascii_string(&out);
    }
    let n = width * height;
    let stride = byte_stride(data, n);
    let total: usize = data.len();

    let mut palette_packed: Vec<u32> = Vec::with_capacity(palette.len());
    let mut j: usize = 0;
    while j < palette.len()
        invariant
            0 <= j <= palette.len(),
            palette_packed@.len() == j,
            forall|k: int| 0 <= k < j ==> #[trigger] palette_packed@[k] == color_key(palette@[k]),
        decreases palette.len() - j,
    {
        let (r, g, b) = palette[j];
        palette_packed.push(crate::sixel::quantize::pack(r, g, b));
        j = j + 1;
    }

    let ghost target = palette_indices(data@, stride as nat, n as nat, palette@);
    let mut indices: Vec<u16> = filled(0u16, n);
    let mut i: usize = 0;
    while i < n
        invariant
            0 <= i <= n,
            stride == 3 || stride == 4,
            total == data@.len(),
            data@.len() == n * stride,
            stride == stride_of(data@.len(), n as nat),
            palette@.len() <= 65535,
            palette_packed@.len() == palette@.len(),
            forall|k: int| 0 <= k < palette@.len() ==> #[trigger] palette_packed@[k] == color_key(palette@[k]),
            target == palette_indices(data@, stride as nat, n as nat, palette@),
            indices@.len() == n,
            forall|k: int| 0 <= k < i ==> #[trigger] indices@[k] == target[k],
            forall|k: int| i <= k < n ==> #[trigger] indices@[k] == 0,
        decreases n - i,
    {
        proof {
            lemma_pixel_in_bounds(i as nat, n as nat, stride as nat);
            if stride == 4 {
                assert(i * 4 + 3 < n * 4) by (nonlinear_arith)
                    requires i < n;
            }
        }
        let pi = i * stride;
        let a: u8 = if stride == 4 { data[pi + 3] } else { 0xff };
        if a != 0 {
            let key = crate::sixel::quantize::pack(data[pi], data[pi + 1], data[pi + 2]);
            let ghost c = pixel_at(data@, stride as nat, i as nat);
            let idx: usize = match position_of(&palette_packed, key) {
                Some(p) => p,
                None => 0,
            };
            proof {
                assert(color_key(c) == key);
                assert forall|k: int| 0 <= k < palette@.len() implies (palette_packed@[k] == key <==> #[trigger] palette@[k] == c) by {
                    lemma_color_key_injective(palette@[k], c);
                }
                if idx < palette@.len() && palette_packed@[idx as int] == key {
                    lemma_first_index_scan(palette@, c, idx as int);
                } else {
                    lemma_first_index_scan(palette@, c, palette@.len() as int);
                }
            }
            indices.set(i, idx as u16);
        } else {
            indices.set(i, palette.len() as u16);
        }
        i = i + 1;
    }
    let mut out: Vec<u8> = Vec::with_capacity(n * 2 + 256);
    push_introducer(0, &mut out);
    let n_colors = palette.len();
    let mut color_data: Vec<Vec<u8>> = Vec::new();
    let mut used_colors: Vec<u16> = Vec::new();
    let mut slot_map: Vec<i32> = filled(-1i32, n_colors + 1);
    let mut last_code: Vec<u8> = filled(0u8, n_colors + 1);
    let mut last_code_init: Vec<bool> = filled(false, n_colors + 1);
    let mut cur_code: Vec<u8> = filled(0u8, n_colors + 1);
    let mut accu: Vec<u32> = filled(1u32, n_colors + 1);
    write_sixel_body(
        indices.as_slice(),
        width,
        height,
        palette,
        &mut out,
        &mut color_data,
        &mut used_colors,
        &mut slot_map,
        &mut last_code,
        &mut last_code_init,
        &mut cur_code,
        &mut accu,
    );
    proof {
        assert(indices@ =~= target);
        assert(out@ =~= sixel_image(indices@, palette@, width as nat, height as nat, 0));
        lemma_sixel_image_ascii(indices@, palette@, width as nat, height as nat, 0);
    }
    ascii_string(&out)
}


/// Streaming sixel encoder: quantises each frame to at most `max_colors` colours
/// (median cut plus a colour lookup table when a frame has more distinct colours)
/// and reuses its buffers from frame to frame.
pub struct SixelEncoder {
    max_colors: u8,
    background_select: u8,
    color_lut: ColorLut,
    palette: Vec<Rgb>,
    indices: Vec<u16>,
    out: Vec<u8>,
    color_data: Vec<Vec<u8>>,
    used_colors: Vec<u16>,
    slot_map: Vec<i32>,
    last_code: Vec<u8>,
    last_code_init: Vec<bool>,
    cur_code: Vec<u8>,
    accu: Vec<u32>,
    cached_palette_len: usize,
}

impl SixelEncoder {
    /// Colour budget per frame.
    pub closed spec fn max_colors(&self) -> u8 {
        self.max_colors
    }

    /// Background selection parameter written in the introducer.
    pub closed spec fn background_select(&self) -> u8 {
        self.background_select
    }

    /// Internal consistency of the reusable state.
    pub closed spec fn wf(&self) -> bool {
        self.color_lut.entries().len() == 512
    }

    /// Every encoder is consistent.
    pub proof fn lemma_wf(&self)
        ensures
            self.wf(),
    {
        self.color_lut.lemma_entries_len();
    }

    /// An encoder with the given colour budget and a transparent background.
    pub fn new(max_colors: u8) -> (res: Self)
        ensures
            res.wf(),
            res.max_colors() == max_colors,
            res.background_select() == 0,
    {
        SixelEncoder {
            max_colors,
            background_select: 0,
            color_lut: ColorLut::new(),
            palette: Vec::new(),
            indices: Vec::new(),
            out: Vec::new(),
            color_data: Vec::new(),
            used_colors: Vec::new(),
            slot_map: Vec::new(),
            last_code: Vec::new(),
            last_code_init: Vec::new(),
            cur_code: Vec::new(),
            accu: Vec::new(),
            cached_palette_len: 0,
        }
    }

    /// An encoder with the given colour budget and background selection.
    pub fn with_background_select(max_colors: u8, background_select: u8) -> (res: Self)
        ensures
            res.wf(),
            res.max_colors() == max_colors,
            res.background_select() == background_select,
    {
        SixelEncoder {
            max_colors,
            background_select,
            color_lut: ColorLut::new(),
            palette: Vec::new(),
            indices: Vec::new(),
            out: Vec::new(),
            color_data: Vec::new(),
            used_colors: Vec::new(),
            slot_map: Vec::new(),
            last_code: Vec::new(),
            last_code_init: Vec::new(),
            cur_code: Vec::new(),
            accu: Vec::new(),
            cached_palette_len: 0,
        }
    }

    /// Encodes one RGB or RGBA frame to a sixel device control string (empty for
    /// an empty frame). With more distinct colours than the budget, pixels take the
    /// median-cut colour found through the 512-cell lookup table.
    pub fn encode_frame(&mut self, width: usize, height: usize, data: &[u8]) -> (res: String)
        requires
            old(self).wf(),
            frame_ok(data@.len(), width as nat, height as nat),
        ensures
            final(self).wf(),
            final(self).max_colors() == old(self).max_colors(),
            final(self).background_select() == old(self).background_select(),
            res@ == ascii_chars(
                encoder_frame_bytes(data@, width as nat, height as nat, old(self).max_colors(), old(self).background_select()),
            ),
    {
        let bytes = self.encode_frame_bytes(width, height, data);
        ascii_string(&bytes)
    }

    /// The bytes of `encode_frame`'s result.
    #[verifier::rlimit(30)]
    pub(crate) fn encode_frame_bytes(&mut self, width: usize, height: usize, data: &[u8]) -> (res: Vec<u8>)
        requires
            old(self).wf(),
            frame_ok(data@.len(), width as nat, height as nat),
        ensures
            final(self).wf(),
            final(self).max_colors() == old(self).max_colors(),
            final(self).background_select() == old(self).background_select(),
            res@ == encoder_frame_bytes(data@, width as nat, height as nat, old(self).max_colors(), old(self).background_select()),
            is_ascii_bytes(res@),
    {
        if width == 0 || height == 0 || data.len() == 0 {
            let out: Vec<u8> = Vec::new();
            assert(is_ascii_bytes(out@));
            return out;
        }
        let n = width * height;
        let max_colors = self.max_colors as usize;
        let stride = byte_stride(data, n);
        let ghost px = pixels_of(data@, stride as nat, n as nat);
        let total: usize = data.len();

        let (palette, indices) = collect_unique_colors(data, n, stride);
        self.palette = palette;
        self.indices = indices;
        proof {
            crate::sixel::quantize::lemma_distinct_colors(px);
        }

        if self.palette.len() > max_colors {
            let pixels = gather_pixels(data, n, stride);
            self.palette = median_cut(&pixels, max_colors);
            proof {
                lemma_median_cut_len(px, max_colors as nat);
            }
            self.color_lut.rebuild(&self.palette);
            let mut i: usize = 0;
            while i < n
                invariant
                    0 <= i <= n,
                    stride == 3 || stride == 4,
                    total == data@.len(),
                    data@.len() == n * stride,
                    px == pixels_of(data@, stride as nat, n as nat),
                    self.indices@.len() == n,
                    self.max_colors == old(self).max_colors,
                    self.background_select == old(self).background_select,
                    max_colors == self.max_colors as usize,
                    self.palette@ == median_cut_palette(px, max_colors as nat),
                    self.color_lut.entries().len() == 512,
                    self.palette@.len() > 0 ==> forall|k: int| 0 <= k < 512 ==> #[trigger] self.color_lut.entries()[k] == lut_entry(self.palette@, k as nat),
                    self.palette@.len() > 0 ==> forall|j: int| 0 <= j < i ==> #[trigger] self.indices@[j] == lut_entry(self.palette@, lut_key(px[j])),
                decreases n - i,
            {
                proof {
                    lemma_pixel_in_bounds(i as nat, n as nat, stride as nat);
                }
                let pi = i * stride;
                let v = self.color_lut.lookup(data[pi], data[pi + 1], data[pi + 2]);
                proof {
                    assert(px[i as int] == (data@[pi as int], data@[pi + 1], data@[pi + 2]));
                    let k = lut_key(px[i as int]);
                    assert(k < 512);
                }
                self.indices.set(i, v);
                i = i + 1;
            }
        } else if self.palette.len() != self.cached_palette_len {
            self.color_lut.rebuild(&self.palette);
            self.cached_palette_len = self.palette.len();
        }

        let n_colors = self.palette.len();
        self.out.clear();
        push_introducer(self.background_select, &mut self.out);
        self.slot_map.resize(n_colors + 1, -1);
        self.last_code.resize(n_colors + 1, 0);
        self.last_code_init.resize(n_colors + 1, false);
        self.cur_code.resize(n_colors + 1, 0);
        self.accu.resize(n_colors + 1, 1);
        write_sixel_body(
            self.indices.as_slice(),
            width,
            height,
            self.palette.as_slice(),
            &mut self.out,
            &mut self.color_data,
            &mut self.used_colors,
            &mut self.slot_map,
            &mut self.last_code,
            &mut self.last_code_init,
            &mut self.cur_code,
            &mut self.accu,
        );
        let ghost target = lut_indices(px, max_colors as nat);
        proof {
            let pal = self.palette@;
            assert(pal =~= frame_palette(px, max_colors as nat));
            if pal.len() == 0 {
                lemma_all_bands_no_colors(self.indices@, target, width as nat, height as nat, band_count(height as nat));
            } else {
                assert(self.indices@ =~= target);
            }
            assert(self.out@ =~= sixel_image(target, pal, width as nat, height as nat, self.background_select));
            lemma_sixel_image_ascii(target, pal, width as nat, height as nat, self.background_select);
        }
        let mut result: Vec<u8> = Vec::new();
        std::mem::swap(&mut result, &mut self.out);
        result
    }
}

} // verus!
