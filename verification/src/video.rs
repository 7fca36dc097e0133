//! Decoded video frames: the rows of a scaled RGB frame, whose lines may be
//! padded, packed into a buffer without gaps.

use vstd::prelude::*;
use vstd::arithmetic::div_mod::lemma_fundamental_div_mod_converse;

verus! {

/// The `height` rows of `row_bytes` bytes each of a buffer whose rows start
/// `stride` bytes apart, one after the other without the padding between them.
pub open spec fn packed_rows(data: Seq<u8>, stride: nat, row_bytes: nat, height: nat) -> Seq<u8> {
    Seq::new(row_bytes * height, |i: int| data[(i / row_bytes as int) * stride + i % row_bytes as int])
}

/// Every one of the `height` rows lies inside a buffer of `len` bytes.
pub open spec fn rows_in_buffer(len: nat, stride: nat, row_bytes: nat, height: nat) -> bool {
    height == 0 || (height - 1) * stride + row_bytes <= len
}

/// Replaces the contents of `output_buffer` with the `height` rows of `width` RGB
/// pixels found in `data`, whose rows start `stride` bytes apart.
pub fn copy_frame_rows(output_buffer: &mut Vec<u8>, data: &[u8], stride: usize, width: usize, height: usize)
    requires
        width as nat * 3 <= usize::MAX,
        width as nat * 3 * height as nat <= usize::MAX,
        rows_in_buffer(data@.len(), stride as nat, width as nat * 3, height as nat),
    ensures
        final(output_buffer)@ == packed_rows(data@, stride as nat, width as nat * 3, height as nat),
{
    let row_bytes: usize = width * 3;
    let ghost rb = row_bytes as int;
    let total: usize = data.len();
    output_buffer.clear();
    let mut y: usize = 0;
    while y < height
        invariant
            0 <= y <= height,
            row_bytes == width * 3,
            rb == row_bytes as int,
            total == data@.len(),
            width as nat * 3 * height as nat <= usize::MAX,
            rows_in_buffer(data@.len(), stride as nat, row_bytes as nat, height as nat),
            output_buffer@ == packed_rows(data@, stride as nat, row_bytes as nat, y as nat),
        decreases height - y,
    {
        assert(y as int * stride as int <= (height as int - 1) * stride as int) by (nonlinear_arith)
            requires y < height, stride >= 0;
        assert(y as int * stride as int + rb <= data@.len());
        assert((y as int + 1) * rb <= usize::MAX) by (nonlinear_arith)
            requires
                y < height,
                rb == width as int * 3,
                width as nat * 3 * height as nat <= usize::MAX,
                rb >= 0;
        let start: usize = y * stride;
        let mut x: usize = 0;
        while x < row_bytes
            invariant
                0 <= x <= row_bytes,
                y < height,
                row_bytes == width * 3,
                rb == row_bytes as int,
                start == y * stride,
                total == data@.len(),
                start as int + row_bytes as int <= data@.len(),
                (y as int + 1) * rb <= usize::MAX,
                output_buffer@ == Seq::new(
                    (y * row_bytes + x) as nat,
                    |i: int| data@[(i / rb) * stride as int + i % rb],
                ),
            decreases row_bytes - x,
        {
            output_buffer.push(data[start + x]);
            proof {
                let i = y as int * rb + x as int;
                lemma_fundamental_div_mod_converse(i, rb, y as int, x as int);
                assert(output_buffer@ =~= Seq::new(
                    (i + 1) as nat,
                    |k: int| data@[(k / rb) * stride as int + k % rb],
                ));
            }
            x = x + 1;
        }
        proof {
            assert(y as int * rb + rb == rb * (y as int + 1)) by (nonlinear_arith);
            assert(output_buffer@ =~= packed_rows(data@, stride as nat, row_bytes as nat, (y + 1) as nat));
        }
        y = y + 1;
    }
}

} // verus!
