//! Pictures inside a text-cell layout: converting between cells and pixels, and
//! what a picture widget writes when it is drawn into an area of the screen.

use vstd::prelude::*;
use crate::encoder::{encode_once, fresh_accepts, fresh_stream, place_stream, placed};
use crate::image::{Picture, Samples, at_least_one, resize_image, resized_rgb};
use crate::kitty::base64_len;
use crate::protocol::ImageProtocol;

verus! {

/// A rectangle of text cells: its top-left cell and its size in cells.
#[derive(Clone, Copy, Debug, PartialEq, Eq, Structural)]
pub struct Rect {
    pub x: u16,
    pub y: u16,
    pub width: u16,
    pub height: u16,
}

/// The size of one text cell, in pixels.
#[derive(Clone, Copy, Debug, PartialEq, Eq, Structural)]
pub struct FontSize {
    pub width: u32,
    pub height: u32,
}

/// The pixels covered by `cols` x `rows` cells.
pub open spec fn cells_to_pixels(font: FontSize, cols: nat, rows: nat) -> (nat, nat) {
    (cols * font.width as nat, rows * font.height as nat)
}

/// The cells needed to cover `px_w` x `px_h` pixels (a partly covered cell counts).
pub open spec fn pixels_to_cells(font: FontSize, px_w: nat, px_h: nat) -> (nat, nat) {
    (
        ((px_w + font.width - 1) / (font.width as int)) as nat,
        ((px_h + font.height - 1) / (font.height as int)) as nat,
    )
}

impl FontSize {
    /// The pixel size of `cols` x `rows` cells.
    pub fn cell_to_pixel(&self, cols: u32, rows: u32) -> (res: (u32, u32))
        requires
            cols as nat * self.width as nat <= u32::MAX,
            rows as nat * self.height as nat <= u32::MAX,
        ensures
            (res.0 as nat, res.1 as nat) == cells_to_pixels(*self, cols as nat, rows as nat),
    {
        (cols * self.width, rows * self.height)
    }

    /// The number of cells (columns, rows) that cover `px_w` x `px_h` pixels.
    pub fn pixel_to_cell(&self, px_w: u32, px_h: u32) -> (res: (u32, u32))
        requires
            self.width > 0,
            self.height > 0,
            px_w as nat + self.width as nat <= u32::MAX,
            px_h as nat + self.height as nat <= u32::MAX,
        ensures
            (res.0 as nat, res.1 as nat) == pixels_to_cells(*self, px_w as nat, px_h as nat),
    {
        ((px_w + self.width - 1) / self.width, (px_h + self.height - 1) / self.height)
    }
}

/// Cells converted to pixels and back are the same cells.
pub proof fn lemma_cells_round_trip(font: FontSize, cols: nat, rows: nat)
    requires
        font.width > 0,
        font.height > 0,
    ensures
        ({
            let (pw, ph) = cells_to_pixels(font, cols, rows);
            pixels_to_cells(font, pw, ph) == (cols, rows)
        }),
{
    let w = font.width as int;
    let h = font.height as int;
    assert((cols * w + w - 1) / w == cols) by (nonlinear_arith)
        requires w > 0, cols >= 0;
    assert((rows * h + h - 1) / h == rows) by (nonlinear_arith)
        requires h > 0, rows >= 0;
}

/// The cells that cover some pixels span at least those pixels, and less than one
/// more cell in each direction.
pub proof fn lemma_cells_cover_pixels(font: FontSize, px_w: nat, px_h: nat)
    requires
        font.width > 0,
        font.height > 0,
    ensures
        ({
            let (cols, rows) = pixels_to_cells(font, px_w, px_h);
            let (cw, ch) = cells_to_pixels(font, cols, rows);
            px_w <= cw < px_w + font.width && px_h <= ch < px_h + font.height
        }),
{
    let w = font.width as int;
    let h = font.height as int;
    assert(px_w <= ((px_w + w - 1) / w) * w < px_w + w) by (nonlinear_arith)
        requires w > 0, px_w >= 0;
    assert(px_h <= ((px_h + h - 1) / h) * h < px_h + h) by (nonlinear_arith)
        requires h > 0, px_h >= 0;
}

/// The pixel size a picture is resized to for `area`: the area's pixel size, each
/// side at least 1.
pub open spec fn target_size(area: Rect, font: FontSize) -> (u32, u32) {
    let (pw, ph) = cells_to_pixels(font, area.width as nat, area.height as nat);
    (at_least_one(pw as u32), at_least_one(ph as u32))
}

/// `source` can be drawn into `area` with `protocol`: the sizes fit the integer
/// types used, the encoder accepts the resized frame, and the cursor position
/// for the area can be written.
pub open spec fn can_draw(source: &Picture, area: Rect, protocol: ImageProtocol, font: FontSize) -> bool {
    let (w, h) = target_size(area, font);
    &&& source.wf()
    &&& area.width as nat * font.width as nat <= u32::MAX
    &&& area.height as nat * font.height as nat <= u32::MAX
    &&& w as nat * h as nat * 3 <= usize::MAX
    &&& source.width as nat * h as nat * 4 <= usize::MAX
    &&& fresh_accepts(protocol, w as nat, h as nat, w as nat * h as nat * 3)
    &&& (area.x != 0 || area.y != 0) ==> area.x < u16::MAX && area.y < u16::MAX
}

/// What is written when `source` is drawn into `area`: the picture resized to the
/// area's pixel size, encoded by a new encoder and placed at the area's corner.
pub open spec fn area_stream(
    source: &Picture,
    area: Rect,
    protocol: ImageProtocol,
    max_colors: u8,
    font: FontSize,
) -> Seq<char> {
    let (w, h) = target_size(area, font);
    placed(
        fresh_stream(
            protocol,
            max_colors,
            w as nat,
            h as nat,
            resized_rgb(source, w, h),
        ),
        area.x as nat,
        area.y as nat,
    )
}

/// Whether `source` can be drawn into `area` with `protocol` (see `can_draw`).
pub fn check_can_draw(source: &Picture, area: Rect, protocol: ImageProtocol, font: FontSize) -> (res: bool)
    ensures
        res == can_draw(source, area, protocol, font),
{
    assert(area.width as int * font.width as int <= u16::MAX as int * u32::MAX as int) by (nonlinear_arith)
        requires area.width <= u16::MAX, font.width <= u32::MAX;
    assert(area.height as int * font.height as int <= u16::MAX as int * u32::MAX as int) by (nonlinear_arith)
        requires area.height <= u16::MAX, font.height <= u32::MAX;
    assert(source.width as int * source.height as int <= u32::MAX as int * u32::MAX as int) by (nonlinear_arith)
        requires source.width <= u32::MAX, source.height <= u32::MAX;
    let pw: u64 = area.width as u64 * font.width as u64;
    let ph: u64 = area.height as u64 * font.height as u64;
    let count: usize = match &source.samples {
        Samples::Eight(v) => v.len(),
        Samples::Sixteen(v) => v.len(),
    };
    if count as u128 != source.width as u128 * source.height as u128 * 3 {
        return false;
    }
    if pw > u32::MAX as u64 || ph > u32::MAX as u64 {
        return false;
    }
    let w: u128 = if pw == 0 { 1 } else { pw as u128 };
    let h: u128 = if ph == 0 { 1 } else { ph as u128 };
    assert(w <= u32::MAX && h <= u32::MAX);
    assert(w * h <= u32::MAX as int * u32::MAX as int) by (nonlinear_arith)
        requires w <= u32::MAX, h <= u32::MAX, w >= 0, h >= 0;
    if w * h * 3 > usize::MAX as u128 {
        return false;
    }
    assert(source.width as int * h <= u32::MAX as int * u32::MAX as int) by (nonlinear_arith)
        requires source.width <= u32::MAX, h <= u32::MAX, h >= 0;
    if source.width as u128 * h * 4 > usize::MAX as u128 {
        return false;
    }
    let len: u128 = w * h * 3;
    let accepted = match protocol {
        ImageProtocol::Kitty => (len + 2) / 3 * 4 <= usize::MAX as u128,
        _ => true,
    };
    if !accepted {
        return false;
    }
    (area.x == 0 && area.y == 0) || (area.x < u16::MAX && area.y < u16::MAX)
}

/// Resizes `source` to the pixel size of `area` and encodes it with a new encoder
/// for `protocol`, placed at the area's top-left cell.
pub fn encode_area(source: &Picture, area: Rect, protocol: ImageProtocol, max_colors: u8, font: FontSize) -> (res: String)
    requires
        can_draw(source, area, protocol, font),
    ensures
        res@ == area_stream(source, area, protocol, max_colors, font),
{
    let (max_px_w, max_px_h) = font.cell_to_pixel(area.width as u32, area.height as u32);
    let rgb = resize_image(source, max_px_w, max_px_h);
    let pw: u32 = if max_px_w == 0 { 1 } else { max_px_w };
    let ph: u32 = if max_px_h == 0 { 1 } else { max_px_h };
    let stream = encode_once(protocol, max_colors, pw as usize, ph as usize, rgb.as_slice());
    place_stream(stream, area.x as u32, area.y as u32)
}

/// A picture already resized to the pixels it is drawn at.
pub struct ImageWidget {
    pub encoder_type: ImageProtocol,
    pub max_colors: u8,
    pub data: Vec<u8>,
    pub pixel_width: usize,
    pub pixel_height: usize,
}

impl ImageWidget {
    /// A widget for `data`, a `pixel_width` x `pixel_height` frame.
    pub fn new(
        encoder_type: ImageProtocol,
        max_colors: u8,
        data: Vec<u8>,
        pixel_width: usize,
        pixel_height: usize,
    ) -> (res: Self)
        ensures
            res.encoder_type == encoder_type,
            res.max_colors == max_colors,
            res.data@ == data@,
            res.pixel_width == pixel_width,
            res.pixel_height == pixel_height,
    {
        ImageWidget { encoder_type, max_colors, data, pixel_width, pixel_height }
    }

    /// A widget for `img` resized to the pixel size of `area` in cells of `font`.
    pub fn from_image(encoder_type: ImageProtocol, max_colors: u8, img: &Picture, area: Rect, font: FontSize) -> (res: Self)
        requires
            img.wf(),
            area.width as nat * font.width as nat <= u32::MAX,
            area.height as nat * font.height as nat <= u32::MAX,
            target_size(area, font).0 as nat * target_size(area, font).1 as nat * 3 <= usize::MAX,
            img.width as nat * target_size(area, font).1 as nat * 4 <= usize::MAX,
        ensures
            res.encoder_type == encoder_type,
            res.max_colors == max_colors,
            res.pixel_width as nat == target_size(area, font).0,
            res.pixel_height as nat == target_size(area, font).1,
            res.data@ == resized_rgb(img, target_size(area, font).0, target_size(area, font).1),
    {
        let (max_px_w, max_px_h) = font.cell_to_pixel(area.width as u32, area.height as u32);
        let raw = resize_image(img, max_px_w, max_px_h);
        let pw: u32 = if max_px_w == 0 { 1 } else { max_px_w };
        let ph: u32 = if max_px_h == 0 { 1 } else { max_px_h };
        ImageWidget { encoder_type, max_colors, data: raw, pixel_width: pw as usize, pixel_height: ph as usize }
    }

    /// Whether the widget's frame can be drawn into `area` (see `render_stream`).
    pub open spec fn can_render(&self, area: Rect) -> bool {
        &&& fresh_accepts(self.encoder_type, self.pixel_width as nat, self.pixel_height as nat, self.data@.len())
        &&& (area.x != 0 || area.y != 0) ==> area.x < u16::MAX && area.y < u16::MAX
    }

    /// What the widget writes when drawn into `area`: its frame encoded by a new
    /// encoder, placed at the area's top-left cell.
    pub fn render_stream(&self, area: Rect) -> (res: String)
        requires
            self.can_render(area),
        ensures
            res@ == placed(
                fresh_stream(self.encoder_type, self.max_colors, self.pixel_width as nat, self.pixel_height as nat, self.data@),
                area.x as nat,
                area.y as nat,
            ),
    {
        let stream = encode_once(self.encoder_type, self.max_colors, self.pixel_width, self.pixel_height, self.data.as_slice());
        place_stream(stream, area.x as u32, area.y as u32)
    }
}

/// A picture widget whose picture lives in an `ImageState` and is resized to the
/// area each time it is drawn.
pub struct StatefulImage {
    pub encoder_type: ImageProtocol,
    pub max_colors: u8,
}

/// The picture a `StatefulImage` draws.
pub struct ImageState {
    pub source_image: Picture,
}

impl ImageState {
    /// A state holding `source_image`.
    pub fn new(source_image: Picture) -> (res: Self)
        ensures
            res.source_image == source_image,
    {
        ImageState { source_image }
    }
}

impl StatefulImage {
    /// A widget drawing with `encoder_type` and a sixel budget of `max_colors`.
    pub fn new(encoder_type: ImageProtocol, max_colors: u8) -> (res: Self)
        ensures
            res.encoder_type == encoder_type,
            res.max_colors == max_colors,
    {
        StatefulImage { encoder_type, max_colors }
    }

    /// What the widget writes when drawn into `area`: nothing for a picture without
    /// pixels, else the picture resized to the area and encoded (`area_stream`).
    pub fn render_stream(&self, area: Rect, state: &ImageState, font: FontSize) -> (res: Option<String>)
        requires
            state.source_image.is_empty() || can_draw(&state.source_image, area, self.encoder_type, font),
        ensures
            match res {
                None => state.source_image.is_empty(),
                Some(s) => !state.source_image.is_empty() && s@ == area_stream(
                    &state.source_image,
                    area,
                    self.encoder_type,
                    self.max_colors,
                    font,
                ),
            },
    {
        if state.source_image.width == 0 || state.source_image.height == 0 {
            return None;
        }
        Some(encode_area(&state.source_image, area, self.encoder_type, self.max_colors, font))
    }
}

/// What a background-encoded picture widget does when it is drawn.
#[derive(Clone, Copy, Debug, PartialEq, Eq, Structural)]
pub enum AsyncDraw {
    /// Write the cached stream and blank the cells of the cached area.
    Cached,
    /// Show the loading message.
    Loading,
    /// Ask the worker to encode the picture for the area, then show the loading
    /// message.
    Request,
    /// Draw nothing.
    Nothing,
}

/// The state of a picture that is encoded in the background.
pub struct AsyncImageState {
    pub source_image: Picture,
    pub cached_stream: Option<String>,
    pub cached_area: Option<Rect>,
    pub loading: bool,
}

/// One drawing of a background-encoded picture: a finished encoding (`polled`)
/// is cached for `area` first; then a cached stream is drawn, a pending request
/// shows the loading message, and a picture of non-zero width is requested.
pub open spec fn async_step(s: AsyncImageState, polled: Option<String>, area: Rect) -> (AsyncImageState, AsyncDraw) {
    let s1 = match polled {
        Some(stream) => AsyncImageState {
            source_image: s.source_image,
            cached_stream: Some(stream),
            cached_area: Some(area),
            loading: false,
        },
        None => s,
    };
    if s1.cached_stream is Some {
        (s1, AsyncDraw::Cached)
    } else if s1.loading {
        (s1, AsyncDraw::Loading)
    } else if s1.source_image.width > 0 {
        (AsyncImageState { loading: true, ..s1 }, AsyncDraw::Request)
    } else {
        (s1, AsyncDraw::Nothing)
    }
}

impl AsyncImageState {
    /// A state with nothing cached and no request pending.
    pub fn new(source_image: Picture) -> (res: Self)
        ensures
            res.source_image == source_image,
            res.cached_stream is None,
            res.cached_area is None,
            !res.loading,
    {
        AsyncImageState { source_image, cached_stream: None, cached_area: None, loading: false }
    }

    /// Takes in what the worker finished (`polled`) and decides what drawing into
    /// `area` does, as `async_step` describes.
    pub fn next_draw(&mut self, polled: Option<String>, area: Rect) -> (res: AsyncDraw)
        ensures
            (*final(self), res) == async_step(*old(self), polled, area),
    {
        match polled {
            Some(stream) => {
                self.cached_stream = Some(stream);
                self.cached_area = Some(area);
                self.loading = false;
            },
            None => {},
        }
        if self.cached_stream.is_some() {
            AsyncDraw::Cached
        } else if self.loading {
            AsyncDraw::Loading
        } else if self.source_image.width > 0 {
            self.loading = true;
            AsyncDraw::Request
        } else {
            AsyncDraw::Nothing
        }
    }
}

/// Once a stream is cached, every later drawing without a new result draws it and
/// changes nothing.
pub proof fn lemma_cached_stream_stays(s: AsyncImageState, area: Rect)
    requires
        s.cached_stream is Some,
    ensures
        async_step(s, None, area) == (s, AsyncDraw::Cached),
{
}

/// A request is made at most once until a result comes back: the drawing after a
/// request, with no result yet, shows the loading message and asks for nothing.
pub proof fn lemma_single_request(s: AsyncImageState, polled: Option<String>, area: Rect, later: Rect)
    requires
        async_step(s, polled, area).1 == AsyncDraw::Request,
    ensures
        async_step(async_step(s, polled, area).0, None, later) == (async_step(s, polled, area).0, AsyncDraw::Loading),
{
}

/// With nothing cached and no result this time, a picture of non-zero width is
/// requested once: an idle state asks for it and becomes loading, a loading
/// state only shows the loading message and stays as it is.
pub proof fn lemma_request_when_idle(s: AsyncImageState, area: Rect)
    requires
        s.cached_stream is None,
        s.source_image.width > 0,
    ensures
        !s.loading ==> async_step(s, None, area) == (AsyncImageState { loading: true, ..s }, AsyncDraw::Request),
        s.loading ==> async_step(s, None, area) == (s, AsyncDraw::Loading),
{
}

/// A finished encoding is always drawn right away, and is drawn for the area it
/// arrived in.
pub proof fn lemma_result_is_drawn(s: AsyncImageState, stream: String, area: Rect)
    ensures
        async_step(s, Some(stream), area).1 == AsyncDraw::Cached,
        async_step(s, Some(stream), area).0.cached_stream == Some(stream),
        async_step(s, Some(stream), area).0.cached_area == Some(area),
        !async_step(s, Some(stream), area).0.loading,
{
}

} // verus!
