//! Still pictures: which file names are treated as images, and resizing an RGB
//! picture, at the depth it was decoded at, to the size it is drawn at.

use vstd::prelude::*;
use crate::strings::{ascii_lower, is_ascii_chars, str_eq, to_lowercase, lowercase};

verus! {

/// The samples of an RGB picture at the depth it was decoded at: 8 or 16 bits
/// per channel, three channels per pixel, row by row.
#[derive(Clone, Debug)]
pub enum Samples {
    Eight(Vec<u8>),
    Sixteen(Vec<u16>),
}

/// An RGB picture of `width * height` pixels.
#[derive(Clone, Debug)]
pub struct Picture {
    pub width: u32,
    pub height: u32,
    pub samples: Samples,
}

impl Picture {
    /// The number of samples held.
    pub open spec fn sample_count(&self) -> nat {
        match self.samples {
            Samples::Eight(v) => v@.len(),
            Samples::Sixteen(v) => v@.len(),
        }
    }

    /// The buffer holds exactly `width * height` RGB pixels.
    pub open spec fn wf(&self) -> bool {
        self.sample_count() == self.width as nat * self.height as nat * 3
    }

    /// Whether the picture has no pixels.
    pub open spec fn is_empty(&self) -> bool {
        self.width == 0 || self.height == 0
    }
}

/// What `Path::extension` gives for a path: the part of its file name after the
/// final `.`; none when there is no file name, no `.` in it, or only a leading one.
pub uninterp spec fn path_extension(path: Seq<char>) -> Option<Seq<char>>;

/// Calls `std::path::Path::extension` on `path`.
/// Trusted: the result is the extension, named `path_extension` (which component
/// is the file name follows the separators of the Unix targets this program is
/// built for), and, being what follows the final `.`, holds no `.`; the extension
/// of a `&str` path is valid UTF-8, so the conversion back to a string loses nothing.
#[verifier::external_body]
fn file_extension(path: &str) -> (res: Option<String>)
    ensures
        match res {
            Some(e) => path_extension(path@) == Some(e@) && !e@.contains('.'),
            None => path_extension(path@) is None,
        },
{
    std::path::Path::new(path).extension().and_then(|e| e.to_str()).map(|e| e.to_string())
}

/// The extensions, in lower case, of the image formats that are decoded directly.
pub open spec fn is_known_image_extension(ext: Seq<char>) -> bool {
    ||| ext == "jpg"@
    ||| ext == "jpeg"@
    ||| ext == "png"@
    ||| ext == "gif"@
    ||| ext == "webp"@
    ||| ext == "bmp"@
    ||| ext == "tiff"@
    ||| ext == "tif"@
    ||| ext == "ico"@
    ||| ext == "avif"@
    ||| ext == "pnm"@
    ||| ext == "ppm"@
    ||| ext == "pgm"@
    ||| ext == "pbm"@
    ||| ext == "hdr"@
    ||| ext == "qoi"@
    ||| ext == "exr"@
}

/// Whether `ext` (already in lower case) names an image format decoded directly.
pub fn is_known_extension(ext: &str) -> (res: bool)
    ensures
        res == is_known_image_extension(ext@),
{
    str_eq(ext, "jpg") || str_eq(ext, "jpeg") || str_eq(ext, "png") || str_eq(ext, "gif")
        || str_eq(ext, "webp") || str_eq(ext, "bmp") || str_eq(ext, "tiff") || str_eq(ext, "tif")
        || str_eq(ext, "ico") || str_eq(ext, "avif") || str_eq(ext, "pnm") || str_eq(ext, "ppm")
        || str_eq(ext, "pgm") || str_eq(ext, "pbm") || str_eq(ext, "hdr") || str_eq(ext, "qoi")
        || str_eq(ext, "exr")
}

/// Whether `path` names a still image: its extension, in lower case, is one of
/// the known image formats; a path without an extension is not an image.
pub fn is_image_extension(path: &str) -> (res: bool)
    ensures
        res == match path_extension(path@) {
            Some(e) => is_known_image_extension(lowercase(e)),
            None => false,
        },
        path_extension(path@) matches Some(e) ==> (is_ascii_chars(e) ==> res == is_known_image_extension(ascii_lower(e))),
{
    match file_extension(path) {
        Some(e) => {
            let lower = to_lowercase(e.as_str());
            is_known_extension(lower.as_str())
        },
        None => false,
    }
}

/// What `image::imageops::resize` with the triangle filter makes of a
/// `src_w` x `src_h` RGB picture at the size `w` x `h`.
pub uninterp spec fn triangle_resize(src: Seq<u8>, src_w: u32, src_h: u32, w: u32, h: u32) -> Seq<u8>;

/// An all-black RGB picture of `len / 3` pixels.
pub open spec fn zero_bytes(len: nat) -> Seq<u8> {
    Seq::new(len, |i: int| 0u8)
}

/// Calls `image::imageops::resize` with `FilterType::Triangle` on the RGB picture
/// `src` of `src_w` x `src_h` pixels.
/// Trusted: the result, named `triangle_resize`, is a `w` x `h` RGB picture; the
/// source returns a copy when the size does not change and a black picture when
/// the source has no pixels.
#[verifier::external_body]
fn resize_rgb(src: &[u8], src_w: u32, src_h: u32, w: u32, h: u32) -> (out: Vec<u8>)
    requires
        src@.len() == src_w as nat * src_h as nat * 3,
        w as nat * h as nat * 3 <= usize::MAX,
        src_w as nat * h as nat * 4 <= usize::MAX,
    ensures
        out@ == triangle_resize(src@, src_w, src_h, w, h),
        out@.len() == w as nat * h as nat * 3,
        (src_w == 0 || src_h == 0) ==> out@ == zero_bytes(w as nat * h as nat * 3),
        (src_w != 0 && src_h != 0 && w == src_w && h == src_h) ==> out@ == src@,
{
    let buf: ::image::RgbImage = ::image::ImageBuffer::from_raw(src_w, src_h, src.to_vec()).unwrap();
    ::image::imageops::resize(&buf, w, h, ::image::imageops::FilterType::Triangle).into_raw()
}

/// What `image::imageops::resize` with the triangle filter makes of a
/// `src_w` x `src_h` 16-bit RGB picture at the size `w` x `h`.
pub uninterp spec fn triangle_resize16(src: Seq<u16>, src_w: u32, src_h: u32, w: u32, h: u32) -> Seq<u16>;

/// Calls `image::imageops::resize` with `FilterType::Triangle` on the 16-bit RGB
/// picture `src` of `src_w` x `src_h` pixels.
/// Trusted: the result, named `triangle_resize16`, is a `w` x `h` 16-bit RGB
/// picture; the source returns a copy when the size does not change and a black
/// picture when the source has no pixels.
#[verifier::external_body]
fn resize_rgb16(src: &[u16], src_w: u32, src_h: u32, w: u32, h: u32) -> (out: Vec<u16>)
    requires
        src@.len() == src_w as nat * src_h as nat * 3,
        w as nat * h as nat * 3 <= usize::MAX,
        src_w as nat * h as nat * 4 <= usize::MAX,
    ensures
        out@ == triangle_resize16(src@, src_w, src_h, w, h),
        out@.len() == w as nat * h as nat * 3,
        (src_w != 0 && src_h != 0 && w == src_w && h == src_h) ==> out@ == src@,
{
    let buf: ::image::ImageBuffer<::image::Rgb<u16>, Vec<u16>> = ::image::ImageBuffer::from_raw(src_w, src_h, src.to_vec()).unwrap();
    ::image::imageops::resize(&buf, w, h, ::image::imageops::FilterType::Triangle).into_raw()
}

/// What `DynamicImage::to_rgb8` makes of a `width` x `height` 16-bit RGB picture.
pub uninterp spec fn rgb8_from_rgb16(src: Seq<u16>, width: u32, height: u32) -> Seq<u8>;

/// Calls `DynamicImage::to_rgb8` on the 16-bit RGB picture `src`.
/// Trusted: the result, named `rgb8_from_rgb16`, holds one 8-bit sample for each
/// 16-bit one.
#[verifier::external_body]
fn rgb16_to_rgb8(src: Vec<u16>, width: u32, height: u32) -> (out: Vec<u8>)
    requires
        src@.len() == width as nat * height as nat * 3,
    ensures
        out@ == rgb8_from_rgb16(src@, width, height),
        out@.len() == src@.len(),
{
    let buf: ::image::ImageBuffer<::image::Rgb<u16>, Vec<u16>> = ::image::ImageBuffer::from_raw(width, height, src).unwrap();
    ::image::DynamicImage::ImageRgb16(buf).to_rgb8().into_raw()
}

/// `n`, but at least 1.
pub open spec fn at_least_one(n: u32) -> u32 {
    if n == 0 { 1 } else { n }
}

/// The 8-bit RGB samples of `img` resized (triangle filter) to `w` x `h`: the
/// picture is resized at its own depth, then brought to 8 bits.
pub open spec fn resized_rgb(img: &Picture, w: u32, h: u32) -> Seq<u8> {
    match img.samples {
        Samples::Eight(v) => triangle_resize(v@, img.width, img.height, w, h),
        Samples::Sixteen(v) => rgb8_from_rgb16(triangle_resize16(v@, img.width, img.height, w, h), w, h),
    }
}

/// The 8-bit RGB bytes of `img` resized (triangle filter, aspect ratio not kept)
/// to `target_width` x `target_height`, each raised to at least 1.
pub fn resize_image(img: &Picture, target_width: u32, target_height: u32) -> (out: Vec<u8>)
    requires
        img.wf(),
        at_least_one(target_width) as nat * at_least_one(target_height) as nat * 3 <= usize::MAX,
        img.width as nat * at_least_one(target_height) as nat * 4 <= usize::MAX,
    ensures
        out@ == resized_rgb(img, at_least_one(target_width), at_least_one(target_height)),
        out@.len() == at_least_one(target_width) as nat * at_least_one(target_height) as nat * 3,
{
    let w = if target_width == 0 { 1 } else { target_width };
    let h = if target_height == 0 { 1 } else { target_height };
    match &img.samples {
        Samples::Eight(v) => resize_rgb(v.as_slice(), img.width, img.height, w, h),
        Samples::Sixteen(v) => {
            let deep = resize_rgb16(v.as_slice(), img.width, img.height, w, h);
            rgb16_to_rgb8(deep, w, h)
        },
    }
}

} // verus!
