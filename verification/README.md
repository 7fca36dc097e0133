# vt

Terminal media rendering with verified encoders. The library (`src/`) turns RGB
frames into the byte streams terminals draw: sixel (with exact or median-cut
palettes), the kitty graphics protocol, half blocks, braille and coloured ASCII.
It also holds the geometry around them (cell and pixel sizes, centring, areas of
a text layout), protocol detection from the terminal's environment, and the
parsing of command-line settings. Every function there carries a contract
proved by Verus, except the small trusted wrappers around outside calls whose
contracts are taken as given: `string_from_bytes` (`String::from_utf8_lossy`),
`to_lowercase` (`str::to_lowercase`), `file_extension` (`Path::extension`),
`base64_encode_slice` (the base64 crate), `query_terminal_size` (the
terminal_size crate), and `resize_rgb`, `resize_rgb16`, `rgb16_to_rgb8` (the
image crate).

`app/` is the program around the library: argument parsing, terminal queries,
image decoding, video decoding with FFmpeg, and ratatui widgets.

Layout of `src/`:

- `sixel.rs`, `sixel/`: palettes (`quantize`, `median`, `sort`) and band encoding (`band`)
- `kitty.rs`, `halfblock.rs`, `braille.rs`, `ascii.rs`: the other encoders
- `encoder.rs`: one front for all encoders
- `protocol.rs`, `terminal.rs`, `ratatui.rs`, `image.rs`, `video.rs`, `config.rs`
- `ansi.rs`, `decimal.rs`, `strings.rs`, `text.rs`: shared byte and string helpers
