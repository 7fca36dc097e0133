//! Kitty graphics protocol encoder: the frame is sent as base64-encoded RGB data
//! in escape sequences of at most 16384 payload bytes each.

use vstd::prelude::*;
use base64::Engine;
use crate::ansi::{cursor_to, push_cursor_to, lemma_cursor_to_ascii};
use crate::decimal::{decimal, push_decimal, push_decimal_usize, lemma_decimal_ascii};
use crate::text::{append_bytes, is_ascii_bytes, lemma_ascii_concat};

verus! {

#[verifier::external_type_specification]
#[verifier::external_body]
pub struct ExEncodeSliceError(base64::EncodeSliceError);

/// The character of the standard base64 alphabet (`A`-`Z`, `a`-`z`, `0`-`9`,
/// `+`, `/`) for a 6-bit value.
pub open spec fn base64_digit(v: nat) -> u8 {
    if v < 26 {
        (65 + v) as u8
    } else if v < 52 {
        (97 + v - 26) as u8
    } else if v < 62 {
        (48 + v - 52) as u8
    } else if v == 62 {
        43u8
    } else {
        47u8
    }
}

/// The padded standard-alphabet base64 encoding of `data` (RFC 4648, as
/// `base64::engine::general_purpose::STANDARD` writes it): every three bytes
/// become four characters, and a last group of one or two bytes is completed
/// with `=`.
pub open spec fn base64_standard(data: Seq<u8>) -> Seq<u8>
    decreases data.len(),
{
    if data.len() == 0 {
        seq![]
    } else if data.len() == 1 {
        let a = data[0] as nat;
        seq![base64_digit(a / 4), base64_digit((a % 4) * 16), 61u8, 61u8]
    } else if data.len() == 2 {
        let a = data[0] as nat;
        let b = data[1] as nat;
        seq![base64_digit(a / 4), base64_digit((a % 4) * 16 + b / 16), base64_digit((b % 16) * 4), 61u8]
    } else {
        let a = data[0] as nat;
        let b = data[1] as nat;
        let c = data[2] as nat;
        seq![
            base64_digit(a / 4),
            base64_digit((a % 4) * 16 + b / 16),
            base64_digit((b % 16) * 4 + c / 64),
            base64_digit(c % 64),
        ] + base64_standard(data.skip(3))
    }
}

/// Length of a padded base64 encoding of `n` bytes: four characters per started
/// group of three bytes.
pub open spec fn base64_len(n: nat) -> nat {
    ((n + 2) / 3) * 4
}

/// `STANDARD.encode_slice(input, output)` from the base64 crate.
/// Trusted: when `output` holds at least `base64_len(input.len())` bytes the call
/// succeeds, returns that length and writes the standard base64 encoding
/// (`base64_standard`) over the start of `output`, leaving the rest; otherwise it fails and writes nothing. It panics
/// only when the encoded length overflows `usize`, which `requires` rules out.
#[verifier::external_body]
fn base64_encode_slice(input: &[u8], output: &mut Vec<u8>) -> (res: Result<usize, base64::EncodeSliceError>)
    requires
        base64_len(input@.len()) <= usize::MAX,
    ensures
        final(output)@.len() == old(output)@.len(),
        res is Ok <==> old(output)@.len() >= base64_len(input@.len()),
        res matches Ok(n) ==> {
            &&& n == base64_len(input@.len())
            &&& final(output)@.subrange(0, n as int) == base64_standard(input@)
            &&& final(output)@.subrange(n as int, old(output)@.len() as int) == old(output)@.subrange(
                n as int,
                old(output)@.len() as int,
            )
        },
        res is Err ==> final(output)@ == old(output)@,
{
    base64::engine::general_purpose::STANDARD.encode_slice(input, output.as_mut_slice())
}

/// Payload bytes per escape sequence.
pub open spec fn chunk_size() -> nat {
    16384
}

/// Number of escape sequences for a payload of `len` bytes.
pub open spec fn chunk_count(len: nat) -> nat {
    (len + 16383) / 16384
}

/// The `k`-th payload chunk.
pub open spec fn chunk(payload: Seq<u8>, k: nat) -> Seq<u8> {
    let start = k * 16384;
    let end = if start + 16384 <= payload.len() { start + 16384 } else { payload.len() as nat };
    payload.subrange(start as int, end as int)
}

/// Control data of the `k`-th escape sequence: the first one carries the action
/// (`a=T`, transmit and display), format (`f=24`, RGB), size, image id, placement
/// id and quiet mode; `m` is 1 while more chunks follow and 0 on the last.
pub open spec fn chunk_header(k: nat, count: nat, width: nat, height: nat, frame_id: nat) -> Seq<u8> {
    let m: nat = if k + 1 == count { 0 } else { 1 };
    if k == 0 {
        seq![27u8, 95u8, 71u8, 97u8, 61u8, 84u8, 44u8, 102u8, 61u8, 50u8, 52u8, 44u8, 115u8, 61u8] + decimal(width)
            + seq![44u8, 118u8, 61u8] + decimal(height) + seq![44u8, 105u8, 61u8] + decimal(frame_id) + seq![
            44u8,
            112u8,
            61u8,
            49u8,
            44u8,
            113u8,
            61u8,
            49u8,
            44u8,
            109u8,
            61u8,
        ] + decimal(m) + seq![59u8]
    } else {
        seq![27u8, 95u8, 71u8, 109u8, 61u8] + decimal(m) + seq![59u8]
    }
}

/// The first `k` escape sequences of a payload: header, chunk, string terminator `ESC \`.
pub open spec fn kitty_chunks(payload: Seq<u8>, width: nat, height: nat, frame_id: nat, k: nat) -> Seq<u8>
    decreases k,
{
    if k == 0 {
        seq![]
    } else {
        kitty_chunks(payload, width, height, frame_id, (k - 1) as nat) + chunk_header(
            (k - 1) as nat,
            chunk_count(payload.len()),
            width,
            height,
            frame_id,
        ) + chunk(payload, (k - 1) as nat) + seq![27u8, 92u8]
    }
}

/// No chunk of a payload holds more than `chunk_size()` bytes, and every payload
/// byte is sent in its place: byte `i` is byte `i % 16384` of chunk `i / 16384`,
/// one of the `chunk_count` chunks.
pub proof fn lemma_chunks_cover_payload(payload: Seq<u8>, i: int, k: nat)
    requires
        0 <= i < payload.len(),
        k < chunk_count(payload.len()),
    ensures
        chunk(payload, k).len() <= chunk_size(),
        i / 16384 < chunk_count(payload.len()),
        chunk(payload, (i / 16384) as nat)[i % 16384] == payload[i],
{
    let q = i / 16384;
    let r = i % 16384;
    assert(i == q * 16384 + r);
    assert(q < (payload.len() + 16383) / 16384);
    let n = payload.len() as int;
    assert(k * 16384 < n) by (nonlinear_arith)
        requires k < (n + 16383) / 16384, n >= 0;
    assert(q * 16384 <= i) by (nonlinear_arith)
        requires q == i / 16384, i >= 0;
}

/// Base64 text is ASCII.
pub proof fn lemma_base64_ascii(data: Seq<u8>)
    ensures
        is_ascii_bytes(base64_standard(data)),
    decreases data.len(),
{
    if data.len() >= 3 {
        lemma_base64_ascii(data.skip(3));
        let a = data[0] as nat;
        let b = data[1] as nat;
        let c = data[2] as nat;
        let head = seq![
            base64_digit(a / 4),
            base64_digit((a % 4) * 16 + b / 16),
            base64_digit((b % 16) * 4 + c / 64),
            base64_digit(c % 64),
        ];
        assert(a / 4 < 64 && (a % 4) * 16 + b / 16 < 64 && (b % 16) * 4 + c / 64 < 64);
        lemma_ascii_concat(head, base64_standard(data.skip(3)));
    } else if data.len() == 2 {
        let a = data[0] as nat;
        let b = data[1] as nat;
        assert(a / 4 < 64 && (a % 4) * 16 + b / 16 < 64 && (b % 16) * 4 < 64);
    } else if data.len() == 1 {
        let a = data[0] as nat;
        assert(a / 4 < 64 && (a % 4) * 16 < 64);
    }
}

proof fn lemma_chunk_header_ascii(k: nat, count: nat, width: nat, height: nat, frame_id: nat)
    ensures
        is_ascii_bytes(chunk_header(k, count, width, height, frame_id)),
{
    let m: nat = if k + 1 == count { 0 } else { 1 };
    lemma_decimal_ascii(m);
    if k == 0 {
        lemma_decimal_ascii(width);
        lemma_decimal_ascii(height);
        lemma_decimal_ascii(frame_id);
        let p1 = seq![27u8, 95u8, 71u8, 97u8, 61u8, 84u8, 44u8, 102u8, 61u8, 50u8, 52u8, 44u8, 115u8, 61u8];
        let p2 = seq![44u8, 118u8, 61u8];
        let p3 = seq![44u8, 105u8, 61u8];
        let p4 = seq![44u8, 112u8, 61u8, 49u8, 44u8, 113u8, 61u8, 49u8, 44u8, 109u8, 61u8];
        lemma_ascii_concat(p1, decimal(width));
        lemma_ascii_concat(p1 + decimal(width), p2);
        lemma_ascii_concat(p1 + decimal(width) + p2, decimal(height));
        lemma_ascii_concat(p1 + decimal(width) + p2 + decimal(height), p3);
        lemma_ascii_concat(p1 + decimal(width) + p2 + decimal(height) + p3, decimal(frame_id));
        lemma_ascii_concat(p1 + decimal(width) + p2 + decimal(height) + p3 + decimal(frame_id), p4);
        lemma_ascii_concat(p1 + decimal(width) + p2 + decimal(height) + p3 + decimal(frame_id) + p4, decimal(m));
        lemma_ascii_concat(
            p1 + decimal(width) + p2 + decimal(height) + p3 + decimal(frame_id) + p4 + decimal(m),
            seq![59u8],
        );
    } else {
        lemma_ascii_concat(seq![27u8, 95u8, 71u8, 109u8, 61u8], decimal(m));
        lemma_ascii_concat(seq![27u8, 95u8, 71u8, 109u8, 61u8] + decimal(m), seq![59u8]);
    }
}

proof fn lemma_kitty_chunks_ascii(payload: Seq<u8>, width: nat, height: nat, frame_id: nat, k: nat)
    requires
        is_ascii_bytes(payload),
        k <= chunk_count(payload.len()),
    ensures
        is_ascii_bytes(kitty_chunks(payload, width, height, frame_id, k)),
    decreases k,
{
    if k > 0 {
        let j = (k - 1) as nat;
        lemma_kitty_chunks_ascii(payload, width, height, frame_id, j);
        let n = payload.len() as int;
        assert(j * 16384 < n) by (nonlinear_arith)
            requires j < (n + 16383) / 16384, n >= 0;
        let hd = chunk_header(j, chunk_count(payload.len()), width, height, frame_id);
        lemma_chunk_header_ascii(j, chunk_count(payload.len()), width, height, frame_id);
        let ch = chunk(payload, j);
        assert(is_ascii_bytes(ch)) by {
            assert forall|i: int| 0 <= i < ch.len() implies #[trigger] ch[i] < 128 by {
                assert(ch[i] == payload[j * 16384 + i]);
            }
        }
        let prev = kitty_chunks(payload, width, height, frame_id, j);
        lemma_ascii_concat(prev, hd);
        lemma_ascii_concat(prev + hd, ch);
        lemma_ascii_concat(prev + hd + ch, seq![27u8, 92u8]);
    }
}

/// What the kitty encoder writes for a frame is ASCII.
pub proof fn lemma_kitty_frame_ascii(width: nat, height: nat, data: Seq<u8>, frame_id: nat, x_off: nat, y_off: nat)
    ensures
        is_ascii_bytes(kitty_frame(width, height, data, frame_id, x_off, y_off)),
{
    let payload = base64_standard(data);
    lemma_base64_ascii(data);
    lemma_cursor_to_ascii(y_off + 1, x_off + 1);
    lemma_kitty_chunks_ascii(payload, width, height, frame_id, chunk_count(payload.len()));
    lemma_ascii_concat(
        cursor_to(y_off + 1, x_off + 1),
        kitty_chunks(payload, width, height, frame_id, chunk_count(payload.len())),
    );
}

/// Writes an encoded payload as kitty graphics escape sequences for a
/// `width` x `height` image with the given id.
#[verifier::rlimit(40)]
pub fn write_kitty_chunks(writer: &mut Vec<u8>, payload: &[u8], width: usize, height: usize, frame_id: u32)
    ensures
        final(writer)@ == old(writer)@ + kitty_chunks(
            payload@,
            width as nat,
            height as nat,
            frame_id as nat,
            chunk_count(payload@.len()),
        ),
{
    let len = payload.len();
    let num_chunks: usize = len / 16384 + if len % 16384 > 0 { 1 } else { 0 };
    assert(num_chunks == chunk_count(len as nat));
    let mut i: usize = 0;
    while i < num_chunks
        invariant
            0 <= i <= num_chunks,
            len == payload@.len(),
            num_chunks == chunk_count(len as nat),
            writer@ == old(writer)@ + kitty_chunks(payload@, width as nat, height as nat, frame_id as nat, i as nat),
        decreases num_chunks - i,
    {
        let m: u32 = if i == num_chunks - 1 { 0 } else { 1 };
        let ghost before = writer@;
        if i == 0 {
            append_bytes(writer, &[27u8, 95u8, 71u8, 97u8, 61u8, 84u8, 44u8, 102u8, 61u8, 50u8, 52u8, 44u8, 115u8, 61u8]);
            push_decimal_usize(width, writer);
            append_bytes(writer, &[44u8, 118u8, 61u8]);
            push_decimal_usize(height, writer);
            append_bytes(writer, &[44u8, 105u8, 61u8]);
            push_decimal(frame_id, writer);
            append_bytes(writer, &[44u8, 112u8, 61u8, 49u8, 44u8, 113u8, 61u8, 49u8, 44u8, 109u8, 61u8]);
            push_decimal(m, writer);
            writer.push(59u8);
        } else {
            append_bytes(writer, &[27u8, 95u8, 71u8, 109u8, 61u8]);
            push_decimal(m, writer);
            writer.push(59u8);
        }
        proof {
            assert(writer@ =~= before + chunk_header(i as nat, num_chunks as nat, width as nat, height as nat, frame_id as nat));
        }
        assert(i * 16384 < len) by (nonlinear_arith)
            requires i < num_chunks, num_chunks == (len + 16383) / 16384;
        let start = i * 16384;
        let end = if len - start >= 16384 { start + 16384 } else { len };
        let piece = vstd::slice::slice_subrange(payload, start, end);
        append_bytes(writer, piece);
        writer.push(27u8);
        writer.push(92u8);
        proof {
            assert(piece@ == chunk(payload@, i as nat));
            assert(writer@ =~= old(writer)@ + kitty_chunks(payload@, width as nat, height as nat, frame_id as nat, (i + 1) as nat));
        }
        i = i + 1;
    }
}

/// What the kitty encoder writes for a frame with the given id, its top-left
/// cell at column `x_off`, row `y_off`: cursor placement and the escape sequences
/// of the base64 encoding of the RGB data.
pub open spec fn kitty_frame(width: nat, height: nat, data: Seq<u8>, frame_id: nat, x_off: nat, y_off: nat) -> Seq<u8> {
    let payload = base64_standard(data);
    cursor_to(y_off + 1, x_off + 1) + kitty_chunks(payload, width, height, frame_id, chunk_count(payload.len()))
}

/// Encoder for the kitty graphics protocol; every frame gets the next image id.
pub struct KittyEncoder {
    frame_id: u32,
    b64_buffer: Vec<u8>,
}

/// The same as `KittyEncoder::new()`.
impl Default for KittyEncoder {
    fn default() -> (res: Self)
        ensures
            res.frame_id() == 0,
    {
        KittyEncoder::new()
    }
}

impl KittyEncoder {
    /// Id of the last frame sent (0 before the first).
    pub closed spec fn frame_id(&self) -> u32 {
        self.frame_id
    }

    /// The id of the last frame sent (0 before the first).
    pub fn frames_sent(&self) -> (res: u32)
        ensures
            res == self.frame_id(),
    {
        self.frame_id
    }

    pub fn new() -> (res: Self)
        ensures
            res.frame_id() == 0,
    {
        KittyEncoder { frame_id: 0, b64_buffer: Vec::new() }
    }

    /// Appends a `width` x `height` RGB frame in kitty graphics escape sequences,
    /// placed at column `x_off`, row `y_off`; nothing for an empty frame. Each
    /// non-empty frame takes the next image id.
    pub fn encode_frame(
        &mut self,
        writer: &mut Vec<u8>,
        width: usize,
        height: usize,
        rgb_data: &[u8],
        x_off: u32,
        y_off: u32,
    )
        requires
            old(self).frame_id() < u32::MAX,
            x_off < u32::MAX,
            y_off < u32::MAX,
            base64_len(rgb_data@.len()) <= usize::MAX,
        ensures
            (width == 0 || height == 0 || rgb_data@.len() == 0) ==> final(self).frame_id() == old(self).frame_id()
                && final(writer)@ == old(writer)@,
            !(width == 0 || height == 0 || rgb_data@.len() == 0) ==> final(self).frame_id() == old(self).frame_id() + 1
                && final(writer)@ == old(writer)@ + kitty_frame(
                width as nat,
                height as nat,
                rgb_data@,
                final(self).frame_id() as nat,
                x_off as nat,
                y_off as nat,
            ),
    {
        if width == 0 || height == 0 || rgb_data.len() == 0 {
            return;
        }
        self.frame_id = self.frame_id + 1;
        let frame_id = self.frame_id;
        push_cursor_to(writer, y_off + 1, x_off + 1);
        let len = rgb_data.len();
        let encoded_len: usize = (len / 3 + if len % 3 > 0 { 1 } else { 0 }) * 4;
        assert(encoded_len == base64_len(len as nat));
        if self.b64_buffer.len() != encoded_len {
            self.b64_buffer.resize(encoded_len, 0);
        }
        match base64_encode_slice(rgb_data, &mut self.b64_buffer) {
            Ok(_) => {},
            Err(_) => {
                assert(false);
            },
        }
        proof {
            assert(self.b64_buffer@ =~= self.b64_buffer@.subrange(0, encoded_len as int));
        }
        write_kitty_chunks(writer, self.b64_buffer.as_slice(), width, height, frame_id);
    }
}

} // verus!
