use vt::encoder::Encoder;
use vt::protocol::ImageProtocol;
use vt::sixel::{image2sixel, sixel_encode, SixelEncoder};

const RED: [u8; 3] = [255, 0, 0];

#[test]
fn single_red_pixel() {
    let s = image2sixel(&RED, 1, 1, 255, 0);
    assert_eq!(s, "\x1bP0;0;q\"1;1;1;1#0;2;100;0;0#0@$\x1b\\");
}

#[test]
fn two_colours_one_row() {
    let data = [255, 0, 0, 0, 0, 255];
    let s = image2sixel(&data, 2, 1, 255, 0);
    assert_eq!(s, "\x1bP0;0;q\"1;1;2;1#0;2;100;0;0#1;2;0;0;100#0@$#1?@$\x1b\\");
}

#[test]
fn run_length_of_repeated_columns() {
    let data: Vec<u8> = RED.iter().cycle().take(15).copied().collect();
    let s = image2sixel(&data, 5, 1, 255, 0);
    assert_eq!(s, "\x1bP0;0;q\"1;1;5;1#0;2;100;0;0#0!5@$\x1b\\");
}

#[test]
fn short_runs_are_repeated_characters() {
    let data: Vec<u8> = RED.iter().cycle().take(9).copied().collect();
    let s = image2sixel(&data, 3, 1, 255, 0);
    assert_eq!(s, "\x1bP0;0;q\"1;1;3;1#0;2;100;0;0#0@@@$\x1b\\");
}

#[test]
fn second_band_after_six_rows() {
    let data: Vec<u8> = RED.iter().cycle().take(21).copied().collect();
    let s = image2sixel(&data, 1, 7, 255, 0);
    assert_eq!(s, "\x1bP0;0;q\"1;1;1;7#0;2;100;0;0#0~$-\n#0@$\x1b\\");
}

#[test]
fn background_select_in_introducer() {
    let s = image2sixel(&RED, 1, 1, 255, 1);
    assert_eq!(s, "\x1bP0;1;q\"1;1;1;1#0;2;100;0;0#0@$\x1b\\");
}

#[test]
fn empty_frames_give_empty_streams() {
    assert_eq!(image2sixel(&[], 1, 1, 255, 0), "");
    assert_eq!(image2sixel(&RED, 0, 1, 255, 0), "");
    assert_eq!(image2sixel(&RED, 1, 0, 255, 0), "");
    let mut enc = SixelEncoder::new(255);
    assert_eq!(enc.encode_frame(0, 0, &[]), "");
}

#[test]
fn rgba_alpha_is_ignored() {
    let s = image2sixel(&[255, 0, 0, 7], 1, 1, 255, 0);
    assert_eq!(s, "\x1bP0;0;q\"1;1;1;1#0;2;100;0;0#0@$\x1b\\");
}

#[test]
fn median_cut_when_colours_exceed_budget() {
    let data = [255, 0, 0, 0, 255, 0, 0, 0, 255];
    let expected = "\x1bP0;0;q\"1;1;3;1#0;2;0;100;0#1;2;50;0;50#1@?@$#0?@$\x1b\\";
    assert_eq!(image2sixel(&data, 3, 1, 2, 0), expected);
    let mut enc = SixelEncoder::new(2);
    assert_eq!(enc.encode_frame(3, 1, &data), expected);
}

#[test]
fn encoder_matches_image2sixel_with_few_colours() {
    let data = [10, 20, 30, 40, 50, 60, 10, 20, 30, 70, 80, 90];
    let mut enc = SixelEncoder::new(255);
    let a = enc.encode_frame(2, 2, &data);
    let b = image2sixel(&data, 2, 2, 255, 0);
    assert_eq!(a, b);
    // a second frame is encoded the same way
    assert_eq!(enc.encode_frame(2, 2, &data), b);
}

#[test]
fn encoder_background_select() {
    let mut enc = SixelEncoder::with_background_select(255, 2);
    assert_eq!(enc.encode_frame(1, 1, &RED), "\x1bP0;2;q\"1;1;1;1#0;2;100;0;0#0@$\x1b\\");
}

#[test]
fn percent_rounding_of_palette() {
    let s = image2sixel(&[128, 1, 254], 1, 1, 255, 0);
    assert!(s.contains("#0;2;50;0;100"));
}

#[test]
fn sixel_encode_with_given_palette() {
    let data = [255, 0, 0, 255, 0, 0, 0, 0];
    let palette = [(255u8, 0u8, 0u8), (0u8, 0u8, 255u8)];
    let s = sixel_encode(&data, 2, 1, &palette);
    assert_eq!(s, "\x1bP0;0;q\"1;1;2;1#0;2;100;0;0#1;2;0;0;100#0@$\x1b\\");
    assert_eq!(sixel_encode(&[], 2, 1, &palette), "");
}

#[test]
fn sixel_encode_registers_follow_palette() {
    let palette = [(255u8, 0u8, 0u8), (0u8, 0u8, 255u8)];
    // blue, then a colour missing from the palette (painted with the first colour)
    let data = [0, 0, 255, 1, 2, 3];
    let s = sixel_encode(&data, 2, 1, &palette);
    assert_eq!(s, "\x1bP0;0;q\"1;1;2;1#0;2;100;0;0#1;2;0;0;100#1@$#0?@$\x1b\\");
}

#[test]
fn encoder_front_for_sixel() {
    let mut enc = Encoder::with_options(ImageProtocol::Sixel, 255, 1).unwrap();
    let s = enc.encode_to_string(1, 1, &RED);
    assert_eq!(s, "\x1bP0;1;q\"1;1;1;1#0;2;100;0;0#0@$\x1b\\");
    let mut out = Vec::new();
    enc.encode_frame_at(1, 1, &RED, 2, 1, &mut out);
    assert_eq!(String::from_utf8(out).unwrap(), "\x1b[2;3H\x1bP0;1;q\"1;1;1;1#0;2;100;0;0#0@$\x1b\\");
    let mut out = Vec::new();
    enc.encode_frame(1, 1, &RED, &mut out);
    assert_eq!(String::from_utf8(out).unwrap(), "\x1bP0;1;q\"1;1;1;1#0;2;100;0;0#0@$\x1b\\");
}

#[test]
fn large_palettes_are_written_in_full() {
    let palette: Vec<(u8, u8, u8)> = (0u32..40000).map(|k| ((k % 256) as u8, ((k / 256) % 256) as u8, 7u8)).collect();
    let s = sixel_encode(&[63, 156, 7], 1, 1, &palette);
    assert!(s.starts_with("\x1bP0;0;q\"1;1;1;1#0;2;0;0;3#1;2;0;0;3"));
    assert!(s.contains("#39999;2;25;61;3"));
    assert!(s.ends_with("#39999@$\x1b\\"));
}

#[test]
fn large_frames_are_accepted() {
    let enc = Encoder::new(ImageProtocol::Sixel, 255).unwrap();
    assert!(enc.can_encode(5000, 5000, 75_000_000, 0, 0));
    assert!(!enc.can_encode(5000, 5000, 75_000_001, 0, 0));
}

#[test]
fn frame_strings_match_frame_bytes() {
    let data = [10, 20, 30, 200, 100, 0, 5, 5, 5, 250, 250, 250];
    for p in [ImageProtocol::Sixel, ImageProtocol::Kitty, ImageProtocol::HalfBlock, ImageProtocol::Braille, ImageProtocol::Ascii] {
        let mut a = Encoder::new(p, 255).unwrap();
        let mut b = Encoder::new(p, 255).unwrap();
        let mut out = Vec::new();
        a.encode_frame(2, 2, &data, &mut out);
        assert_eq!(b.encode_to_string(2, 2, &data).into_bytes(), out);
    }
}
