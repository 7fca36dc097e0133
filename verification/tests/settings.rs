use vt::config::{effective_colors, parse_size};
use vt::image::{is_image_extension, is_known_extension, resize_image, Picture, Samples};
use vt::video::copy_frame_rows;

#[test]
fn sizes_parse() {
    assert_eq!(parse_size("80x40"), Some((80, 40)));
    assert_eq!(parse_size("+5x6"), Some((5, 6)));
    assert_eq!(parse_size("0x0"), Some((0, 0)));
    assert_eq!(parse_size("80X40"), None);
    assert_eq!(parse_size("x40"), None);
    assert_eq!(parse_size("80x"), None);
    assert_eq!(parse_size("1x2x3"), None);
    assert_eq!(parse_size("abc"), None);
    assert_eq!(parse_size(""), None);
    assert_eq!(parse_size("4294967296x1"), None);
    assert_eq!(parse_size("4294967295x1"), Some((u32::MAX, 1)));
    assert_eq!(parse_size(" 8x9"), None);
}

#[test]
fn colour_budget() {
    assert_eq!(effective_colors(0), (255, false));
    assert_eq!(effective_colors(1), (255, false));
    assert_eq!(effective_colors(2), (2, true));
    assert_eq!(effective_colors(128), (128, true));
    assert_eq!(effective_colors(255), (255, true));
}

#[test]
fn image_file_names() {
    assert!(is_image_extension("photo.jpeg"));
    assert!(is_image_extension("dir/a.PNG"));
    assert!(is_image_extension("x.Tif"));
    assert!(is_image_extension("archive.tar.qoi"));
    assert!(!is_image_extension("video.mp4"));
    assert!(!is_image_extension("noext"));
    assert!(!is_image_extension(".png"));
    assert!(!is_image_extension("a.png.gz"));
    assert!(!is_image_extension(""));
}

#[test]
fn known_extensions_are_lower_case() {
    for e in [
        "jpg", "jpeg", "png", "gif", "webp", "bmp", "tiff", "tif", "ico", "avif", "pnm", "ppm", "pgm", "pbm",
        "hdr", "qoi", "exr",
    ] {
        assert!(is_known_extension(e));
    }
    assert!(!is_known_extension("PNG"));
    assert!(!is_known_extension("svg"));
}

#[test]
fn resizing_pictures() {
    let pic = Picture { width: 2, height: 1, samples: Samples::Eight(vec![1, 2, 3, 4, 5, 6]) };
    assert_eq!(resize_image(&pic, 2, 1), vec![1, 2, 3, 4, 5, 6]);
    assert_eq!(resize_image(&pic, 0, 0).len(), 3);
    let one = Picture { width: 1, height: 1, samples: Samples::Eight(vec![10, 20, 30]) };
    assert_eq!(resize_image(&one, 2, 2), vec![10, 20, 30, 10, 20, 30, 10, 20, 30, 10, 20, 30]);
    let empty = Picture { width: 0, height: 0, samples: Samples::Eight(vec![]) };
    assert_eq!(resize_image(&empty, 2, 2), vec![0u8; 12]);
}

#[test]
fn frame_rows_packed() {
    let mut out = vec![7u8, 7];
    copy_frame_rows(&mut out, &[1, 2, 3, 9, 4, 5, 6, 9], 4, 1, 2);
    assert_eq!(out, vec![1, 2, 3, 4, 5, 6]);
    let mut out = Vec::new();
    copy_frame_rows(&mut out, &[1, 2, 3, 4, 5, 6], 3, 1, 2);
    assert_eq!(out, vec![1, 2, 3, 4, 5, 6]);
    let mut out = vec![1u8];
    copy_frame_rows(&mut out, &[], 0, 0, 0);
    assert!(out.is_empty());
}

#[test]
fn formatted_sizes_read_back() {
    for (w, h) in [(0u32, 0u32), (80, 40), (7, 123456), (u32::MAX, 1)] {
        assert_eq!(parse_size(&format!("{w}x{h}")), Some((w, h)));
    }
}

#[test]
fn image_names_in_any_case() {
    assert!(is_image_extension("photo.JPG"));
    assert!(is_image_extension("scan.TiFf"));
    assert!(!is_image_extension("clip.MP4"));
}

#[test]
fn sixteen_bit_pictures_resize_at_their_depth() {
    let deep = Picture { width: 1, height: 1, samples: Samples::Sixteen(vec![65535, 0, 32896]) };
    assert_eq!(resize_image(&deep, 1, 1), vec![255, 0, 128]);
    assert_eq!(resize_image(&deep, 2, 1), vec![255, 0, 128, 255, 0, 128]);
}
