use vt::ascii::AsciiEncoder;
use vt::braille::BrailleEncoder;
use vt::decimal::itoa;
use vt::encoder::Encoder;
use vt::halfblock::HalfBlockEncoder;
use vt::kitty::KittyEncoder;
use vt::protocol::ImageProtocol;

fn text(v: Vec<u8>) -> String {
    String::from_utf8(v).unwrap()
}

#[test]
fn ascii_white_and_black() {
    let mut enc = AsciiEncoder::new();
    let mut out = Vec::new();
    enc.encode_frame(&mut out, 2, 1, &[255, 255, 255, 0, 0, 0], 0, 0);
    assert_eq!(
        text(out),
        "\x1b[1;1H\x1b[48;2;255;255;255m\x1b[30m@\x1b[48;2;0;0;0m\x1b[37m \x1b[0m"
    );
}

#[test]
fn ascii_rows_and_offset() {
    let mut enc = AsciiEncoder::default();
    let mut out = Vec::new();
    enc.encode_frame(&mut out, 1, 2, &[100, 100, 100, 200, 200, 200], 2, 3);
    // luminance 100 -> ramp index 3 ('-'), luminance 200 -> index 7 ('#')
    assert_eq!(
        text(out),
        "\x1b[4;3H\x1b[48;2;100;100;100m\x1b[37m-\x1b[0m\x1b[5;3H\x1b[48;2;200;200;200m\x1b[30m#\x1b[0m"
    );
}

#[test]
fn ascii_empty_frame() {
    let mut enc = AsciiEncoder::new();
    let mut out = vec![1u8];
    enc.encode_frame(&mut out, 0, 3, &[1, 2, 3], 0, 0);
    assert_eq!(out, vec![1u8]);
}

#[test]
fn braille_full_cell() {
    let mut enc = BrailleEncoder::new();
    let data: Vec<u8> = [10u8, 20, 30].iter().cycle().take(24).copied().collect();
    let mut out = Vec::new();
    enc.encode_frame(&mut out, 2, 4, &data, 0, 0);
    assert_eq!(text(out), "\x1b[1;1H\x1b[38;2;10;20;30m\u{28ff}\x1b[0m");
}

#[test]
fn braille_partial_cells_average() {
    let mut enc = BrailleEncoder::default();
    let data = [0, 0, 0, 100, 100, 100, 7, 8, 9];
    let mut out = Vec::new();
    enc.encode_frame(&mut out, 3, 1, &data, 0, 0);
    assert_eq!(
        text(out),
        "\x1b[1;1H\x1b[38;2;50;50;50m\u{28ff}\x1b[38;2;7;8;9m\u{28ff}\x1b[0m"
    );
}

#[test]
fn braille_second_row() {
    let mut enc = BrailleEncoder::new();
    let data: Vec<u8> = [1u8, 1, 1].iter().cycle().take(15).copied().collect();
    let mut out = Vec::new();
    enc.encode_frame(&mut out, 1, 5, &data, 4, 0);
    assert_eq!(
        text(out),
        "\x1b[1;5H\x1b[38;2;1;1;1m\u{28ff}\x1b[0m\x1b[2;5H\x1b[38;2;1;1;1m\u{28ff}\x1b[0m"
    );
}

#[test]
fn half_blocks_two_rows_per_cell() {
    let mut enc = HalfBlockEncoder::new();
    let mut out = Vec::new();
    enc.encode_frame(&mut out, 1, 3, &[255, 0, 0, 0, 0, 255, 1, 2, 3], 0, 0);
    assert_eq!(
        text(out),
        "\x1b[1;1H\x1b[38;2;255;0;0m\x1b[48;2;0;0;255m\u{2580}\x1b[0m\x1b[2;1H\x1b[38;2;1;2;3m\x1b[49m\u{2580}\x1b[0m"
    );
}

#[test]
fn kitty_single_chunk_and_frame_ids() {
    let mut enc = KittyEncoder::new();
    let mut out = Vec::new();
    enc.encode_frame(&mut out, 1, 1, &[1, 2, 3], 0, 0);
    assert_eq!(text(out), "\x1b[1;1H\x1b_Ga=T,f=24,s=1,v=1,i=1,p=1,q=1,m=0;AQID\x1b\\");
    let mut out = Vec::new();
    enc.encode_frame(&mut out, 1, 1, &[1, 2, 3], 4, 5);
    assert_eq!(text(out), "\x1b[6;5H\x1b_Ga=T,f=24,s=1,v=1,i=2,p=1,q=1,m=0;AQID\x1b\\");
}

#[test]
fn kitty_empty_frame_keeps_id() {
    let mut enc = KittyEncoder::default();
    let mut out = Vec::new();
    enc.encode_frame(&mut out, 0, 1, &[1, 2, 3], 0, 0);
    assert!(out.is_empty());
    enc.encode_frame(&mut out, 1, 1, &[0, 0, 0], 0, 0);
    assert_eq!(text(out), "\x1b[1;1H\x1b_Ga=T,f=24,s=1,v=1,i=1,p=1,q=1,m=0;AAAA\x1b\\");
}

#[test]
fn kitty_payload_split_into_chunks() {
    let mut enc = KittyEncoder::new();
    let data = vec![0u8; 12291];
    let mut out = Vec::new();
    enc.encode_frame(&mut out, 4097, 1, &data, 0, 0);
    let mut expected = String::from("\x1b[1;1H\x1b_Ga=T,f=24,s=4097,v=1,i=1,p=1,q=1,m=1;");
    expected.push_str(&"A".repeat(16384));
    expected.push_str("\x1b\\\x1b_Gm=0;AAAA\x1b\\");
    assert_eq!(text(out), expected);
}

#[test]
fn kitty_exact_chunk_is_single() {
    let mut enc = KittyEncoder::new();
    let data = vec![0u8; 12288];
    let mut out = Vec::new();
    enc.encode_frame(&mut out, 4096, 1, &data, 0, 0);
    let s = text(out);
    assert!(s.starts_with("\x1b[1;1H\x1b_Ga=T,f=24,s=4096,v=1,i=1,p=1,q=1,m=0;"));
    assert_eq!(s.matches("\x1b_G").count(), 1);
}

#[test]
fn encoder_strings_for_text_protocols() {
    let mut enc = Encoder::new(ImageProtocol::Braille, 255).unwrap();
    let data: Vec<u8> = [9u8, 9, 9].iter().cycle().take(24).copied().collect();
    assert_eq!(enc.encode_to_string(2, 4, &data), "\x1b[1;1H\x1b[38;2;9;9;9m\u{28ff}\x1b[0m");
    let mut enc = Encoder::new(ImageProtocol::Kitty, 255).unwrap();
    assert_eq!(
        enc.encode_to_string(1, 1, &[1, 2, 3]),
        "\x1b[1;1H\x1b_Ga=T,f=24,s=1,v=1,i=1,p=1,q=1,m=0;AQID\x1b\\"
    );
    assert_eq!(
        enc.encode_to_string(1, 1, &[1, 2, 3]),
        "\x1b[1;1H\x1b_Ga=T,f=24,s=1,v=1,i=2,p=1,q=1,m=0;AQID\x1b\\"
    );
}

#[test]
fn encoder_render_places_stream() {
    let mut enc = Encoder::new(ImageProtocol::Ascii, 255).unwrap();
    let r = enc.render(1, 1, &[0, 0, 0], 2, 1, (9, 18));
    assert_eq!(r.stream, "\x1b[2;3H\x1b[1;1H\x1b[48;2;0;0;0m\x1b[37m \x1b[0m");
    assert_eq!((r.cols, r.rows), (1, 1));
    let r = enc.render(1, 1, &[0, 0, 0], 0, 0, (9, 18));
    assert_eq!(r.stream, "\x1b[1;1H\x1b[48;2;0;0;0m\x1b[37m \x1b[0m");
}

#[test]
fn encoder_frame_at_for_text_protocols() {
    let mut enc = Encoder::new(ImageProtocol::HalfBlock, 255).unwrap();
    let mut out = Vec::new();
    enc.encode_frame_at(1, 1, &[1, 2, 3], 3, 4, &mut out);
    assert_eq!(text(out), "\x1b[5;4H\x1b[38;2;1;2;3m\x1b[49m\u{2580}\x1b[0m");
}

#[test]
fn encoder_names_and_geometry() {
    let names = [
        (ImageProtocol::Sixel, "sixel"),
        (ImageProtocol::Kitty, "kitty"),
        (ImageProtocol::HalfBlock, "halfblock"),
        (ImageProtocol::Braille, "braille"),
        (ImageProtocol::Ascii, "ascii"),
    ];
    for (p, n) in names {
        assert_eq!(Encoder::new(p, 255).unwrap().protocol_name(), n);
    }
    let half = Encoder::new(ImageProtocol::HalfBlock, 255).unwrap();
    let braille = Encoder::new(ImageProtocol::Braille, 255).unwrap();
    let ascii = Encoder::new(ImageProtocol::Ascii, 255).unwrap();
    let sixel = Encoder::new(ImageProtocol::Sixel, 255).unwrap();
    assert_eq!(half.cell_count(10, 5, (9, 18)), (10, 3));
    assert_eq!(braille.cell_count(5, 5, (9, 18)), (3, 2));
    assert_eq!(ascii.cell_count(4, 4, (9, 18)), (4, 4));
    assert_eq!(sixel.cell_count(20, 37, (9, 18)), (3, 3));
    assert_eq!(half.status_row(10), 7);
    assert_eq!(braille.status_row(10), 4);
    assert_eq!(ascii.status_row(10), 12);
    assert_eq!(half.status_row(u32::MAX), u32::MAX / 2 + 2);
}

#[test]
fn decimal_digits() {
    assert_eq!(itoa(0), b"0".to_vec());
    assert_eq!(itoa(12345), b"12345".to_vec());
    assert_eq!(itoa(u32::MAX), b"4294967295".to_vec());
}

#[test]
fn kitty_payload_padding() {
    let mut enc = KittyEncoder::new();
    let mut out = Vec::new();
    enc.encode_frame(&mut out, 1, 1, &[1, 2, 3, 4], 0, 0);
    assert_eq!(text(out), "\x1b[1;1H\x1b_Ga=T,f=24,s=1,v=1,i=1,p=1,q=1,m=0;AQIDBA==\x1b\\");
    let mut out = Vec::new();
    enc.encode_frame(&mut out, 1, 1, &[255, 254, 253, 62, 63], 0, 0);
    assert_eq!(text(out), "\x1b[1;1H\x1b_Ga=T,f=24,s=1,v=1,i=2,p=1,q=1,m=0;//79Pj8=\x1b\\");
}
