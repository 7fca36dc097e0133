//! One front for all encoders: choose by protocol, encode frames to a writer or
//! a string, and convert between pixel and text-cell sizes.

use vstd::prelude::*;
use vstd::string::StringExecFns;
use crate::ansi::{cursor_to, push_cursor_to};
use crate::ascii::{AsciiEncoder, ascii_frame, origin_ok, rgb_frame_ok};
use crate::braille::{BrailleEncoder, braille_frame, braille_row_count};
use crate::error::Error;
use crate::halfblock::{HalfBlockEncoder, half_frame, half_row_count};
use crate::kitty::{KittyEncoder, base64_len, kitty_frame};
use crate::protocol::ImageProtocol;
use crate::sixel::{SixelEncoder, encoder_frame_bytes, frame_ok, frame_palette, lut_indices, stride_of};
use crate::sixel::quantize::pixels_of;
use vstd::utf8::{decode_utf8, encode_utf8, valid_utf8};
use crate::text::{
    ascii_chars, ascii_string, append_bytes, is_ascii_bytes, string_from_bytes, lemma_ascii_concat, lemma_ascii_decode,
    lemma_ascii_valid, lemma_utf8_round_trip,
};
use crate::ascii::lemma_ascii_frame_ascii;
use crate::braille::lemma_braille_frame_valid;
use crate::halfblock::lemma_half_frame_valid;
use crate::kitty::lemma_kitty_frame_ascii;
use crate::sixel::lemma_sixel_image_ascii;
use crate::ansi::lemma_cursor_to_ascii;

verus! {

/// An encoded frame with the number of text columns and rows it covers.
pub struct RenderResult {
    pub stream: String,
    pub cols: u32,
    pub rows: u32,
}

/// An encoder for one of the protocols.
pub enum Encoder {
    Sixel(Box<SixelEncoder>),
    Kitty(KittyEncoder),
    HalfBlock(HalfBlockEncoder),
    Braille(BrailleEncoder),
    Ascii(AsciiEncoder),
}

/// `ceil(a / b)`.
pub open spec fn div_ceil(a: nat, b: nat) -> nat {
    ((a + b - 1) / (b as int)) as nat
}

fn u32_div_ceil(a: u32, b: u32) -> (res: u32)
    requires
        b > 0,
    ensures
        res as nat == div_ceil(a as nat, b as nat),
{
    let q = a / b;
    proof {
        lemma_div_ceil(a as int, b as int);
    }
    if a % b != 0 {
        q + 1
    } else {
        q
    }
}

proof fn lemma_div_ceil(a: int, b: int)
    requires
        0 <= a <= u32::MAX,
        b > 0,
    ensures
        (a + b - 1) / b == a / b + (if a % b != 0 { 1int } else { 0int }),
        a % b != 0 ==> a / b < u32::MAX,
{
    assert((a + b - 1) / b == a / b + (if a % b != 0 { 1int } else { 0int })) by (nonlinear_arith)
        requires b > 0, a >= 0;
    assert(a % b != 0 ==> a / b < u32::MAX) by (nonlinear_arith)
        requires b > 0, 0 <= a <= u32::MAX;
}

/// The frames a newly made encoder for `protocol` accepts at the top-left corner.
pub open spec fn fresh_accepts(protocol: ImageProtocol, width: nat, height: nat, len: nat) -> bool {
    match protocol {
        ImageProtocol::Sixel => frame_ok(len, width, height),
        ImageProtocol::Kitty => base64_len(len) <= usize::MAX,
        ImageProtocol::HalfBlock => rgb_frame_ok(len, width, height) && origin_ok(0, 0, half_row_count(height)),
        ImageProtocol::Braille => rgb_frame_ok(len, width, height) && origin_ok(0, 0, braille_row_count(height)),
        ImageProtocol::Ascii => rgb_frame_ok(len, width, height) && origin_ok(0, 0, height),
    }
}

/// The bytes a newly made encoder for `protocol` (sixel budget `max_colors`,
/// transparent background) writes for a frame drawn at the top-left corner.
pub open spec fn fresh_bytes(protocol: ImageProtocol, max_colors: u8, width: nat, height: nat, data: Seq<u8>) -> Seq<u8> {
    match protocol {
        ImageProtocol::Sixel => encoder_frame_bytes(data, width, height, max_colors, 0),
        ImageProtocol::Kitty => if width == 0 || height == 0 || data.len() == 0 {
            seq![]
        } else {
            kitty_frame(width, height, data, 1, 0, 0)
        },
        ImageProtocol::HalfBlock => half_frame(width, height, data, 0, 0),
        ImageProtocol::Braille => braille_frame(width, height, data, 0, 0),
        ImageProtocol::Ascii => ascii_frame(width, height, data, 0, 0),
    }
}

/// The string a newly made encoder turns a frame into: the characters its
/// bytes encode.
pub open spec fn fresh_stream(protocol: ImageProtocol, max_colors: u8, width: nat, height: nat, data: Seq<u8>) -> Seq<char> {
    decode_utf8(fresh_bytes(protocol, max_colors, width, height, data))
}

/// `stream` drawn at text position (`x`, `y`): a cursor movement comes first
/// unless the position is the origin.
pub open spec fn placed(stream: Seq<char>, x: nat, y: nat) -> Seq<char> {
    if x != 0 || y != 0 {
        ascii_chars(cursor_to(y + 1, x + 1)) + stream
    } else {
        stream
    }
}

/// Puts `stream` at text position (`x`, `y`), as `placed` describes.
pub fn place_stream(stream: String, x: u32, y: u32) -> (res: String)
    requires
        (x != 0 || y != 0) ==> x < u32::MAX && y < u32::MAX,
    ensures
        res@ == placed(stream@, x as nat, y as nat),
{
    if x != 0 || y != 0 {
        let mut prefix_bytes: Vec<u8> = Vec::new();
        push_cursor_to(&mut prefix_bytes, y + 1, x + 1);
        proof {
            lemma_cursor_to_ascii(y as nat + 1, x as nat + 1);
        }
        let mut prefix = ascii_string(&prefix_bytes);
        prefix.append(stream.as_str());
        prefix
    } else {
        stream
    }
}

/// Makes an encoder for `protocol` and encodes one frame with it, as a string
/// drawn at the top-left corner.
pub fn encode_once(protocol: ImageProtocol, max_colors: u8, width: usize, height: usize, data: &[u8]) -> (res: String)
    requires
        fresh_accepts(protocol, width as nat, height as nat, data@.len()),
    ensures
        res@ == fresh_stream(protocol, max_colors, width as nat, height as nat, data@),
{
    match Encoder::new(protocol, max_colors) {
        Ok(mut enc) => enc.encode_to_string(width, height, data),
        Err(_) => String::new(),
    }
}

/// The sixel stream of the streaming encoder is ASCII.
pub proof fn lemma_encoder_frame_ascii(data: Seq<u8>, width: nat, height: nat, max_colors: u8, background_select: u8)
    ensures
        is_ascii_bytes(encoder_frame_bytes(data, width, height, max_colors, background_select)),
{
    if !(width == 0 || height == 0 || data.len() == 0) {
        let px = pixels_of(data, stride_of(data.len(), width * height), width * height);
        lemma_sixel_image_ascii(
            lut_indices(px, max_colors as nat),
            frame_palette(px, max_colors as nat),
            width,
            height,
            background_select,
        );
    }
}

/// Whatever an encoder writes for a frame is valid UTF-8.
pub proof fn lemma_frame_bytes_valid(e: Encoder, width: nat, height: nat, data: Seq<u8>, x: u32, y: u32)
    ensures
        valid_utf8(e.frame_bytes(width, height, data, x, y)),
{
    match e {
        Encoder::Sixel(s) => {
            let pre: Seq<u8> = if x != 0 || y != 0 { cursor_to(y as nat + 1, x as nat + 1) } else { seq![] };
            lemma_cursor_to_ascii(y as nat + 1, x as nat + 1);
            assert(is_ascii_bytes(pre));
            lemma_encoder_frame_ascii(data, width, height, s.max_colors(), s.background_select());
            lemma_ascii_concat(pre, encoder_frame_bytes(data, width, height, s.max_colors(), s.background_select()));
            lemma_ascii_valid(e.frame_bytes(width, height, data, x, y));
        },
        Encoder::Kitty(k) => {
            if !(width == 0 || height == 0 || data.len() == 0) {
                lemma_kitty_frame_ascii(width, height, data, (k.frame_id() + 1) as nat, x as nat, y as nat);
            }
            lemma_ascii_valid(e.frame_bytes(width, height, data, x, y));
        },
        Encoder::HalfBlock(_) => lemma_half_frame_valid(width, height, data, x as nat, y as nat),
        Encoder::Braille(_) => lemma_braille_frame_valid(width, height, data, x as nat, y as nat),
        Encoder::Ascii(_) => {
            lemma_ascii_frame_ascii(width, height, data, x as nat, y as nat);
            lemma_ascii_valid(e.frame_bytes(width, height, data, x, y));
        },
    }
}

/// A newly made encoder's frame bytes are valid UTF-8.
pub proof fn lemma_fresh_bytes_valid(protocol: ImageProtocol, max_colors: u8, width: nat, height: nat, data: Seq<u8>)
    ensures
        valid_utf8(fresh_bytes(protocol, max_colors, width, height, data)),
{
    let b = fresh_bytes(protocol, max_colors, width, height, data);
    match protocol {
        ImageProtocol::Sixel => {
            lemma_encoder_frame_ascii(data, width, height, max_colors, 0);
            lemma_ascii_valid(b);
        },
        ImageProtocol::Kitty => {
            if !(width == 0 || height == 0 || data.len() == 0) {
                lemma_kitty_frame_ascii(width, height, data, 1, 0, 0);
            }
            lemma_ascii_valid(b);
        },
        ImageProtocol::HalfBlock => lemma_half_frame_valid(width, height, data, 0, 0),
        ImageProtocol::Braille => lemma_braille_frame_valid(width, height, data, 0, 0),
        ImageProtocol::Ascii => {
            lemma_ascii_frame_ascii(width, height, data, 0, 0);
            lemma_ascii_valid(b);
        },
    }
}

impl Encoder {
    /// The protocol this encoder speaks.
    pub open spec fn protocol(&self) -> ImageProtocol {
        match self {
            Encoder::Sixel(_) => ImageProtocol::Sixel,
            Encoder::Kitty(_) => ImageProtocol::Kitty,
            Encoder::HalfBlock(_) => ImageProtocol::HalfBlock,
            Encoder::Braille(_) => ImageProtocol::Braille,
            Encoder::Ascii(_) => ImageProtocol::Ascii,
        }
    }

    /// The encoder can take another frame: its state is consistent and, for kitty,
    /// image ids are not exhausted.
    pub open spec fn ready(&self) -> bool {
        match self {
            Encoder::Sixel(e) => e.wf(),
            Encoder::Kitty(e) => e.frame_id() < u32::MAX,
            _ => true,
        }
    }

    /// The frames this encoder accepts at text position (`x`, `y`).
    pub open spec fn accepts(&self, width: nat, height: nat, len: nat, x: u32, y: u32) -> bool {
        match self {
            Encoder::Sixel(_) => frame_ok(len, width, height) && x < u32::MAX && y < u32::MAX,
            Encoder::Kitty(_) => base64_len(len) <= usize::MAX && x < u32::MAX && y < u32::MAX,
            Encoder::HalfBlock(_) => rgb_frame_ok(len, width, height) && origin_ok(x, y, half_row_count(height)),
            Encoder::Braille(_) => rgb_frame_ok(len, width, height) && origin_ok(x, y, braille_row_count(height)),
            Encoder::Ascii(_) => rgb_frame_ok(len, width, height) && origin_ok(x, y, height),
        }
    }

    /// The bytes of a frame drawn at text position (`x`, `y`) by this encoder in
    /// its current state. Sixel places the cursor first unless the position is the
    /// origin; the other encoders place each row themselves.
    pub open spec fn frame_bytes(&self, width: nat, height: nat, data: Seq<u8>, x: u32, y: u32) -> Seq<u8> {
        match self {
            Encoder::Sixel(e) => (if x != 0 || y != 0 {
                cursor_to(y as nat + 1, x as nat + 1)
            } else {
                seq![]
            }) + encoder_frame_bytes(data, width, height, e.max_colors(), e.background_select()),
            Encoder::Kitty(e) => if width == 0 || height == 0 || data.len() == 0 {
                seq![]
            } else {
                kitty_frame(width, height, data, (e.frame_id() + 1) as nat, x as nat, y as nat)
            },
            Encoder::HalfBlock(_) => half_frame(width, height, data, x as nat, y as nat),
            Encoder::Braille(_) => braille_frame(width, height, data, x as nat, y as nat),
            Encoder::Ascii(_) => ascii_frame(width, height, data, x as nat, y as nat),
        }
    }

    /// How encoding a frame changes the encoder: same protocol and settings; a
    /// kitty encoder moves to the next image id for each non-empty frame.
    pub open spec fn advanced(&self, next: &Self, width: nat, height: nat, len: nat) -> bool {
        match (self, next) {
            (Encoder::Sixel(a), Encoder::Sixel(b)) => b.wf() && a.max_colors() == b.max_colors()
                && a.background_select() == b.background_select(),
            (Encoder::Kitty(a), Encoder::Kitty(b)) => if width == 0 || height == 0 || len == 0 {
                b.frame_id() == a.frame_id()
            } else {
                b.frame_id() == a.frame_id() + 1
            },
            (Encoder::HalfBlock(_), Encoder::HalfBlock(_)) => true,
            (Encoder::Braille(_), Encoder::Braille(_)) => true,
            (Encoder::Ascii(_), Encoder::Ascii(_)) => true,
            _ => false,
        }
    }

    /// Whether this encoder can take a `width` x `height` frame of `len` bytes drawn
    /// at text position (`x`, `y`): it is `ready` and `accepts` the frame.
    pub fn can_encode(&self, width: usize, height: usize, len: usize, x: u32, y: u32) -> (res: bool)
        ensures
            res == (self.ready() && self.accepts(width as nat, height as nat, len as nat, x, y)),
    {
        let w = width as u128;
        let h = height as u128;
        let n = len as u128;
        assert(w * h <= 0xffff_ffff_ffff_ffff * 0xffff_ffff_ffff_ffff) by (nonlinear_arith)
            requires w <= 0xffff_ffff_ffff_ffff, h <= 0xffff_ffff_ffff_ffff, w >= 0, h >= 0;
        let wh = w * h;
        assert((n / 3 >= wh) == (n >= wh * 3)) by (nonlinear_arith)
            requires n >= 0, wh >= 0;
        assert((n % 3 == 0 && n / 3 == wh) == (n == wh * 3)) by (nonlinear_arith)
            requires n >= 0, wh >= 0;
        assert((n % 4 == 0 && n / 4 == wh) == (n == wh * 4)) by (nonlinear_arith)
            requires n >= 0, wh >= 0;
        let fits_rgb = n == 0 || w == 0 || h == 0 || n / 3 >= wh;
        match self {
            Encoder::Sixel(e) => {
                proof {
                    e.lemma_wf();
                }
                let ok = w == 0 || h == 0 || n == 0 || (((n % 3 == 0 && n / 3 == wh) || (n % 4 == 0 && n / 4 == wh))
                    && w <= u32::MAX as u128 && h <= u32::MAX as u128);
                ok && x < u32::MAX && y < u32::MAX
            },
            Encoder::Kitty(e) => {
                e.frames_sent() < u32::MAX && (n + 2) / 3 * 4 <= usize::MAX as u128 && x < u32::MAX && y
                    < u32::MAX
            },
            Encoder::HalfBlock(_) => fits_rgb && x < u32::MAX && y as u128 + (h + 1) / 2 <= u32::MAX as u128,
            Encoder::Braille(_) => fits_rgb && x < u32::MAX && y as u128 + (h + 3) / 4 <= u32::MAX as u128,
            Encoder::Ascii(_) => fits_rgb && x < u32::MAX && y as u128 + h <= u32::MAX as u128,
        }
    }

    /// An encoder for `protocol` with a sixel colour budget of `max_colors` and a
    /// transparent sixel background.
    pub fn new(protocol: ImageProtocol, max_colors: u8) -> (res: Result<Self, Error>)
        ensures
            res matches Ok(e) && e.protocol() == protocol && e.ready() && (e matches Encoder::Sixel(s)
                ==> s.max_colors() == max_colors && s.background_select() == 0) && (e matches Encoder::Kitty(k)
                ==> k.frame_id() == 0),
    {
        Self::with_options(protocol, max_colors, 0)
    }

    /// An encoder for `protocol`; `max_colors` and `background_select` configure
    /// the sixel encoder.
    pub fn with_options(protocol: ImageProtocol, max_colors: u8, background_select: u8) -> (res: Result<Self, Error>)
        ensures
            res matches Ok(e) && e.protocol() == protocol && e.ready() && (e matches Encoder::Sixel(s)
                ==> s.max_colors() == max_colors && s.background_select() == background_select) && (e matches Encoder::Kitty(
                k,
            ) ==> k.frame_id() == 0),
    {
        match protocol {
            ImageProtocol::Sixel => Ok(
                Self::Sixel(Box::new(SixelEncoder::with_background_select(max_colors, background_select))),
            ),
            ImageProtocol::Kitty => Ok(Self::Kitty(KittyEncoder::new())),
            ImageProtocol::HalfBlock => Ok(Self::HalfBlock(HalfBlockEncoder::new())),
            ImageProtocol::Braille => Ok(Self::Braille(BrailleEncoder::new())),
            ImageProtocol::Ascii => Ok(Self::Ascii(AsciiEncoder::new())),
        }
    }

    /// Appends a frame drawn at text position (`x`, `y`).
    pub fn encode_frame_at(
        &mut self,
        width: usize,
        height: usize,
        rgb_data: &[u8],
        x: u32,
        y: u32,
        writer: &mut Vec<u8>,
    )
        requires
            old(self).ready(),
            old(self).accepts(width as nat, height as nat, rgb_data@.len(), x, y),
        ensures
            old(self).advanced(final(self), width as nat, height as nat, rgb_data@.len()),
            final(writer)@ == old(writer)@ + old(self).frame_bytes(width as nat, height as nat, rgb_data@, x, y),
    {
        match self {
            Encoder::Sixel(enc) => {
                let stream = enc.encode_frame_bytes(width, height, rgb_data);
                if x != 0 || y != 0 {
                    push_cursor_to(writer, y + 1, x + 1);
                }
                append_bytes(writer, stream.as_slice());
            },
            Encoder::Kitty(enc) => {
                enc.encode_frame(writer, width, height, rgb_data, x, y);
            },
            Encoder::HalfBlock(enc) => {
                enc.encode_frame(writer, width, height, rgb_data, x, y);
            },
            Encoder::Braille(enc) => {
                enc.encode_frame(writer, width, height, rgb_data, x, y);
            },
            Encoder::Ascii(enc) => {
                enc.encode_frame(writer, width, height, rgb_data, x, y);
            },
        }
    }

    /// Appends a frame drawn at the top-left corner.
    pub fn encode_frame(&mut self, width: usize, height: usize, rgb_data: &[u8], writer: &mut Vec<u8>)
        requires
            old(self).ready(),
            old(self).accepts(width as nat, height as nat, rgb_data@.len(), 0, 0),
        ensures
            old(self).advanced(final(self), width as nat, height as nat, rgb_data@.len()),
            final(writer)@ == old(writer)@ + old(self).frame_bytes(width as nat, height as nat, rgb_data@, 0, 0),
    {
        self.encode_frame_at(width, height, rgb_data, 0, 0, writer)
    }

    /// A frame drawn at the top-left corner, as a string: the characters the frame's
    /// bytes encode (they are valid UTF-8), so the string's bytes are exactly the
    /// bytes `encode_frame` writes.
    pub fn encode_to_string(&mut self, width: usize, height: usize, data: &[u8]) -> (res: String)
        requires
            old(self).ready(),
            old(self).accepts(width as nat, height as nat, data@.len(), 0, 0),
        ensures
            old(self).advanced(final(self), width as nat, height as nat, data@.len()),
            valid_utf8(old(self).frame_bytes(width as nat, height as nat, data@, 0, 0)),
            res@ == decode_utf8(old(self).frame_bytes(width as nat, height as nat, data@, 0, 0)),
            encode_utf8(res@) == old(self).frame_bytes(width as nat, height as nat, data@, 0, 0),
    {
        let ghost bytes = self.frame_bytes(width as nat, height as nat, data@, 0, 0);
        proof {
            lemma_frame_bytes_valid(*self, width as nat, height as nat, data@, 0, 0);
            lemma_utf8_round_trip(bytes);
        }
        match self {
            Encoder::Sixel(e) => {
                let s = e.encode_frame(width, height, data);
                proof {
                    let b = encoder_frame_bytes(data@, width as nat, height as nat, e.max_colors(), e.background_select());
                    assert(bytes =~= b);
                    lemma_encoder_frame_ascii(data@, width as nat, height as nat, e.max_colors(), e.background_select());
                    lemma_ascii_decode(b);
                }
                s
            },
            _ => {
                let mut buf: Vec<u8> = Vec::new();
                self.encode_frame_at(width, height, data, 0, 0, &mut buf);
                assert(buf@ =~= bytes);
                string_from_bytes(buf.as_slice())
            },
        }
    }

    /// The text cells (columns, rows) a `pixel_w` x `pixel_h` frame covers; `cell`
    /// is the cell size in pixels, which sixel and kitty images are measured in.
    pub fn cell_count(&self, pixel_w: usize, pixel_h: usize, cell: (u32, u32)) -> (res: (u32, u32))
        requires
            (self.protocol() == ImageProtocol::Sixel || self.protocol() == ImageProtocol::Kitty) ==> cell.0 > 0 && cell.1 > 0,
        ensures
            ({
                let w = (pixel_w as u32) as nat;
                let h = (pixel_h as u32) as nat;
                match self.protocol() {
                    ImageProtocol::HalfBlock => res.0 as nat == w && res.1 as nat == div_ceil(h, 2),
                    ImageProtocol::Braille => res.0 as nat == div_ceil(w, 2) && res.1 as nat == div_ceil(h, 4),
                    ImageProtocol::Ascii => res.0 as nat == w && res.1 as nat == h,
                    _ => res.0 as nat == div_ceil(w, cell.0 as nat) && res.1 as nat == div_ceil(h, cell.1 as nat),
                }
            }),
    {
        let (cw, ch) = cell;
        let w = #[verifier::truncate] (pixel_w as u32);
        let h = #[verifier::truncate] (pixel_h as u32);
        match self {
            Encoder::HalfBlock(_) => (w, u32_div_ceil(h, 2)),
            Encoder::Braille(_) => (u32_div_ceil(w, 2), u32_div_ceil(h, 4)),
            Encoder::Ascii(_) => (w, h),
            _ => (u32_div_ceil(w, cw), u32_div_ceil(h, ch)),
        }
    }

    /// Encodes a frame to a string placed at text position (`x`, `y`) (a cursor
    /// movement is prepended unless it is the origin) and reports the text cells it
    /// covers.
    pub fn render(&mut self, width: usize, height: usize, data: &[u8], x: u32, y: u32, cell: (u32, u32)) -> (res: RenderResult)
        requires
            old(self).ready(),
            old(self).accepts(width as nat, height as nat, data@.len(), 0, 0),
            (x != 0 || y != 0) ==> x < u32::MAX && y < u32::MAX,
            (old(self).protocol() == ImageProtocol::Sixel || old(self).protocol() == ImageProtocol::Kitty) ==> cell.0 > 0
                && cell.1 > 0,
        ensures
            old(self).advanced(final(self), width as nat, height as nat, data@.len()),
            ({
                let body = decode_utf8(old(self).frame_bytes(width as nat, height as nat, data@, 0, 0));
                res.stream@ == placed(body, x as nat, y as nat)
            }),
            ({
                let w = (width as u32) as nat;
                let h = (height as u32) as nat;
                match old(self).protocol() {
                    ImageProtocol::HalfBlock => res.cols as nat == w && res.rows as nat == div_ceil(h, 2),
                    ImageProtocol::Braille => res.cols as nat == div_ceil(w, 2) && res.rows as nat == div_ceil(h, 4),
                    ImageProtocol::Ascii => res.cols as nat == w && res.rows as nat == h,
                    _ => res.cols as nat == div_ceil(w, cell.0 as nat) && res.rows as nat == div_ceil(h, cell.1 as nat),
                }
            }),
    {
        let stream = self.encode_to_string(width, height, data);
        let stream = place_stream(stream, x, y);
        let (cols, rows) = self.cell_count(width, height, cell);
        RenderResult { stream, cols, rows }
    }

    /// The protocol's name.
    pub fn protocol_name(&self) -> (res: &'static str)
        ensures
            res@ == match self.protocol() {
                ImageProtocol::Sixel => "sixel"@,
                ImageProtocol::Kitty => "kitty"@,
                ImageProtocol::HalfBlock => "halfblock"@,
                ImageProtocol::Braille => "braille"@,
                ImageProtocol::Ascii => "ascii"@,
            },
    {
        match self {
            Encoder::Sixel(_) => "sixel",
            Encoder::Kitty(_) => "kitty",
            Encoder::HalfBlock(_) => "halfblock",
            Encoder::Braille(_) => "braille",
            Encoder::Ascii(_) => "ascii",
        }
    }

    /// The text row just below a picture of `target_height` pixel rows, plus one,
    /// where a status line goes.
    pub fn status_row(&self, target_height: u32) -> (res: u32)
        requires
            (self.protocol() != ImageProtocol::HalfBlock && self.protocol() != ImageProtocol::Braille) ==> target_height
                <= u32::MAX - 2,
        ensures
            res == match self.protocol() {
                ImageProtocol::HalfBlock => target_height / 2 + 2,
                ImageProtocol::Braille => target_height / 4 + 2,
                _ => target_height + 2,
            },
    {
        match self {
            Encoder::HalfBlock(_) => target_height / 2 + 2,
            Encoder::Braille(_) => target_height / 4 + 2,
            _ => target_height + 2,
        }
    }
}

} // verus!
