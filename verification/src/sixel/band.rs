//! Encoding of one six-row band of palette indices into sixel data.
//!
//! Within a band every colour gets its own sixel line: for each column a six-bit
//! code says in which of the band's rows that colour is present, and runs of equal
//! codes are run-length encoded. Colours are emitted in order of first appearance,
//! scanning the band column by column, top to bottom.

use vstd::prelude::*;
use crate::decimal::{decimal, push_decimal, itoa};
use crate::text::{append_bytes, is_ascii_bytes, lemma_ascii_concat};
use crate::decimal::lemma_decimal_ascii;

verus! {

/// The printable sixel character of a six-bit column code.
pub open spec fn sixel_char(code: u8) -> u8 {
    (code + 63) as u8
}

/// The sixel text for `n` consecutive columns carrying `code`: the character
/// repeated when `n` is at most three, otherwise `!`, the count, and the character.
pub open spec fn sixel_run(code: u8, n: nat) -> Seq<u8> {
    if n > 3 {
        seq![33u8] + decimal(n) + seq![sixel_char(code)]
    } else {
        Seq::new(n, |i: int| sixel_char(code))
    }
}

/// Run-length state after reading `codes` left to right: the text of the closed
/// runs, the code of the open run and its length (zero when nothing was read).
pub open spec fn rle_state(codes: Seq<u8>) -> (Seq<u8>, u8, nat)
    decreases codes.len(),
{
    if codes.len() == 0 {
        (seq![], 0u8, 0nat)
    } else {
        let (e, l, n) = rle_state(codes.drop_last());
        let c = codes.last();
        if n > 0 && c == l {
            (e, l, n + 1)
        } else if n > 0 {
            (e + sixel_run(l, n), c, 1nat)
        } else {
            (e, c, 1nat)
        }
    }
}

/// The run-length encoded sixel text of a colour's column codes; a final run of
/// empty columns is left out.
pub open spec fn rle_bytes(codes: Seq<u8>) -> Seq<u8> {
    let (e, l, n) = rle_state(codes);
    if n > 0 && l != 0 {
        e + sixel_run(l, n)
    } else {
        e
    }
}

/// The colour number that the band encoder reads for pixel (`x`, `band + y`):
/// the stored palette index plus one.
pub open spec fn pixel_color(indices: Seq<u16>, width: nat, band: nat, x: nat, y: nat) -> nat {
    indices[((band + y) * width + x) as int] as nat + 1
}

/// Bit mask of the first `h` rows of column `x` in which colour `c` occurs
/// (row `y` contributes the bit `1 << y`).
pub open spec fn column_code(indices: Seq<u16>, width: nat, band: nat, c: nat, x: nat, h: nat) -> u8
    decreases h,
{
    if h == 0 {
        0u8
    } else {
        let below = column_code(indices, width, band, c, x, (h - 1) as nat);
        if pixel_color(indices, width, band, x, (h - 1) as nat) == c {
            below | (1u8 << ((h - 1) as u8))
        } else {
            below
        }
    }
}

/// The column codes of colour `c` across the whole band.
pub open spec fn color_codes(indices: Seq<u16>, width: nat, band: nat, band_h: nat, c: nat) -> Seq<u8> {
    Seq::new(width, |x: int| column_code(indices, width, band, c, x as nat, band_h))
}

/// Colours met in the first `h` rows of column `x`, appended to `prev` in order of
/// first appearance; colours above `n_colors` are ignored.
pub open spec fn scan_column(
    prev: Seq<nat>,
    indices: Seq<u16>,
    width: nat,
    band: nat,
    n_colors: nat,
    x: nat,
    h: nat,
) -> Seq<nat>
    decreases h,
{
    if h == 0 {
        prev
    } else {
        let s = scan_column(prev, indices, width, band, n_colors, x, (h - 1) as nat);
        let c = pixel_color(indices, width, band, x, (h - 1) as nat);
        if c <= n_colors && !s.contains(c) {
            s.push(c)
        } else {
            s
        }
    }
}

/// Colours of the first `x` columns of the band in order of first appearance.
pub open spec fn band_colors(
    indices: Seq<u16>,
    width: nat,
    band: nat,
    band_h: nat,
    n_colors: nat,
    x: nat,
) -> Seq<nat>
    decreases x,
{
    if x == 0 {
        seq![]
    } else {
        scan_column(
            band_colors(indices, width, band, band_h, n_colors, (x - 1) as nat),
            indices,
            width,
            band,
            n_colors,
            (x - 1) as nat,
            band_h,
        )
    }
}

/// The text of one colour within a band: `#`, the colour register, its sixel
/// line and `$` (nothing when the line is empty).
pub open spec fn band_entry(indices: Seq<u16>, width: nat, band: nat, band_h: nat, c: nat) -> Seq<u8> {
    let data = rle_bytes(color_codes(indices, width, band, band_h, c));
    if data.len() == 0 {
        seq![]
    } else {
        seq![35u8] + decimal((c - 1) as nat) + data + seq![36u8]
    }
}

/// The entries of the given colours, in order.
pub open spec fn band_entries(
    colors: Seq<nat>,
    indices: Seq<u16>,
    width: nat,
    band: nat,
    band_h: nat,
) -> Seq<u8>
    decreases colors.len(),
{
    if colors.len() == 0 {
        seq![]
    } else {
        band_entries(colors.drop_last(), indices, width, band, band_h) + band_entry(
            indices,
            width,
            band,
            band_h,
            colors.last(),
        )
    }
}

/// The complete sixel text of the band starting at row `band` with `band_h` rows.
pub open spec fn band_sixels(
    indices: Seq<u16>,
    width: nat,
    band: nat,
    band_h: nat,
    n_colors: nat,
) -> Seq<u8> {
    band_entries(
        band_colors(indices, width, band, band_h, n_colors, width),
        indices,
        width,
        band,
        band_h,
    )
}

/// Appends the sixel text for `repeat` columns carrying `code`.
pub fn code_to_sixel(code: u8, repeat: u32, out: &mut Vec<u8>)
    requires
        code < 64,
    ensures
        final(out)@ == old(out)@ + sixel_run(code, repeat as nat),
{
    let c: u8 = code + 63;
    if repeat > 3 {
        out.push(33u8);
        let digits = itoa(repeat);
        let mut i: usize = 0;
        while i < digits.len()
            invariant
                0 <= i <= digits.len(),
                out@ == old(out)@ + seq![33u8] + digits@.take(i as int),
            decreases digits.len() - i,
        {
            out.push(digits[i]);
            proof {
                assert(digits@.take(i + 1) == digits@.take(i as int).push(digits@[i as int]));
            }
            i = i + 1;
        }
        assert(digits@.take(digits.len() as int) == digits@);
        out.push(c);
    } else {
        let mut i: u32 = 0;
        while i < repeat
            invariant
                0 <= i <= repeat,
                c == sixel_char(code),
                out@ == old(out)@ + Seq::new(i as nat, |j: int| c),
            decreases repeat - i,
        {
            out.push(c);
            proof {
                assert(Seq::new((i + 1) as nat, |j: int| c) =~= Seq::new(i as nat, |j: int| c).push(c));
            }
            i = i + 1;
        }
    }
    proof {
        assert(out@ =~= old(out)@ + sixel_run(code, repeat as nat));
    }
}


/// Column codes use only the bits of the rows looked at, so they stay below `1 << h`.
pub proof fn lemma_column_code_bound(indices: Seq<u16>, width: nat, band: nat, c: nat, x: nat, h: nat)
    requires
        h <= 6,
    ensures
        (column_code(indices, width, band, c, x, h) as nat) < pow2_small(h),
    decreases h,
{
    if h > 0 {
        lemma_column_code_bound(indices, width, band, c, x, (h - 1) as nat);
        let below = column_code(indices, width, band, c, x, (h - 1) as nat);
        let k: u8 = (h - 1) as u8;
        if k == 0 {
            assert(below < 1 ==> (below | (1u8 << 0u8)) < 2) by (bit_vector);
        } else if k == 1 {
            assert(below < 2 ==> (below | (1u8 << 1u8)) < 4) by (bit_vector);
        } else if k == 2 {
            assert(below < 4 ==> (below | (1u8 << 2u8)) < 8) by (bit_vector);
        } else if k == 3 {
            assert(below < 8 ==> (below | (1u8 << 3u8)) < 16) by (bit_vector);
        } else if k == 4 {
            assert(below < 16 ==> (below | (1u8 << 4u8)) < 32) by (bit_vector);
        } else {
            assert(below < 32 ==> (below | (1u8 << 5u8)) < 64) by (bit_vector);
        }
    }
}

/// `2^h` for the row counts of a band.
pub open spec fn pow2_small(h: nat) -> nat {
    if h == 0 {
        1
    } else if h == 1 {
        2
    } else if h == 2 {
        4
    } else if h == 3 {
        8
    } else if h == 4 {
        16
    } else if h == 5 {
        32
    } else {
        64
    }
}

/// The open run never exceeds the number of codes read, and is non-empty once a
/// code was read; its code is one of the codes.
pub proof fn lemma_rle_state_count(codes: Seq<u8>)
    ensures
        rle_state(codes).2 <= codes.len(),
        codes.len() > 0 ==> rle_state(codes).2 > 0,
        (forall|i: int| 0 <= i < codes.len() ==> #[trigger] codes[i] < 64) ==> rle_state(codes).1 < 64,
    decreases codes.len(),
{
    if codes.len() > 0 {
        lemma_rle_state_count(codes.drop_last());
        if forall|i: int| 0 <= i < codes.len() ==> #[trigger] codes[i] < 64 {
            assert forall|i: int| 0 <= i < codes.drop_last().len() implies #[trigger] codes.drop_last()[i] < 64 by {
                assert(codes.drop_last()[i] == codes[i]);
            }
            assert(codes.last() == codes[codes.len() - 1]);
        }
    }
}

/// Reading only empty columns leaves a single open run of empty columns.
pub proof fn lemma_rle_state_zeros(codes: Seq<u8>)
    requires
        forall|i: int| 0 <= i < codes.len() ==> #[trigger] codes[i] == 0,
    ensures
        rle_state(codes) == (Seq::<u8>::empty(), 0u8, codes.len()),
    decreases codes.len(),
{
    if codes.len() > 0 {
        assert forall|i: int| 0 <= i < codes.drop_last().len() implies #[trigger] codes.drop_last()[i] == 0 by {
            assert(codes.drop_last()[i] == codes[i]);
        }
        lemma_rle_state_zeros(codes.drop_last());
        assert(codes.last() == codes[codes.len() - 1]);
    }
}

/// Scanning a column keeps what was found before and finds every colour (up to
/// `n_colors`) that occurs in the rows scanned.
pub proof fn lemma_scan_column_contains(
    prev: Seq<nat>,
    indices: Seq<u16>,
    width: nat,
    band: nat,
    n_colors: nat,
    x: nat,
    h: nat,
)
    ensures
        forall|c: nat| prev.contains(c) ==> #[trigger] scan_column(prev, indices, width, band, n_colors, x, h).contains(c),
        forall|y: nat|
            y < h && pixel_color(indices, width, band, x, y) <= n_colors ==> #[trigger] scan_column(
                prev,
                indices,
                width,
                band,
                n_colors,
                x,
                h,
            ).contains(pixel_color(indices, width, band, x, y)),
        scan_column(prev, indices, width, band, n_colors, x, h).take(prev.len() as int) == prev,
        scan_column(prev, indices, width, band, n_colors, x, h).len() >= prev.len(),
    decreases h,
{
    if h > 0 {
        lemma_scan_column_contains(prev, indices, width, band, n_colors, x, (h - 1) as nat);
        let s = scan_column(prev, indices, width, band, n_colors, x, (h - 1) as nat);
        let c = pixel_color(indices, width, band, x, (h - 1) as nat);
        if c <= n_colors && !s.contains(c) {
            let t = s.push(c);
            assert(t[s.len() as int] == c);
            assert forall|d: nat| s.contains(d) implies #[trigger] t.contains(d) by {
                let i = choose|i: int| 0 <= i < s.len() && s[i] == d;
                assert(t[i] == d);
            }
            assert(t.take(prev.len() as int) =~= s.take(prev.len() as int));
        }
    }
}

/// A colour that is absent from a column's rows has an empty column code.
pub proof fn lemma_column_code_absent(indices: Seq<u16>, width: nat, band: nat, c: nat, x: nat, h: nat)
    requires
        forall|y: nat| y < h ==> #[trigger] pixel_color(indices, width, band, x, y) != c,
    ensures
        column_code(indices, width, band, c, x, h) == 0,
    decreases h,
{
    if h > 0 {
        lemma_column_code_absent(indices, width, band, c, x, (h - 1) as nat);
    }
}

/// The colour lists of longer prefixes extend those of shorter ones, and every
/// colour (up to `n_colors`) of the scanned columns is listed.
pub proof fn lemma_band_colors_contains(
    indices: Seq<u16>,
    width: nat,
    band: nat,
    band_h: nat,
    n_colors: nat,
    x: nat,
)
    ensures
        forall|x2: nat, y: nat|
            x2 < x && y < band_h && pixel_color(indices, width, band, x2, y) <= n_colors
                ==> #[trigger] band_colors(indices, width, band, band_h, n_colors, x).contains(
                #[trigger] pixel_color(indices, width, band, x2, y),
            ),
        forall|i: int|
            0 <= i < band_colors(indices, width, band, band_h, n_colors, x).len() ==> 1
                <= #[trigger] band_colors(indices, width, band, band_h, n_colors, x)[i] <= n_colors,
    decreases x,
{
    if x > 0 {
        let prev = band_colors(indices, width, band, band_h, n_colors, (x - 1) as nat);
        lemma_band_colors_contains(indices, width, band, band_h, n_colors, (x - 1) as nat);
        lemma_scan_column_contains(prev, indices, width, band, n_colors, (x - 1) as nat, band_h);
        lemma_scan_column_members(prev, indices, width, band, n_colors, (x - 1) as nat, band_h);
    }
}

/// Scanning adds only colours between 1 and `n_colors`.
pub proof fn lemma_scan_column_members(
    prev: Seq<nat>,
    indices: Seq<u16>,
    width: nat,
    band: nat,
    n_colors: nat,
    x: nat,
    h: nat,
)
    requires
        forall|i: int| 0 <= i < prev.len() ==> 1 <= #[trigger] prev[i] <= n_colors,
    ensures
        forall|i: int|
            0 <= i < scan_column(prev, indices, width, band, n_colors, x, h).len() ==> 1
                <= #[trigger] scan_column(prev, indices, width, band, n_colors, x, h)[i] <= n_colors,
    decreases h,
{
    if h > 0 {
        lemma_scan_column_members(prev, indices, width, band, n_colors, x, (h - 1) as nat);
        let s = scan_column(prev, indices, width, band, n_colors, x, (h - 1) as nat);
        let c = pixel_color(indices, width, band, x, (h - 1) as nat);
        if c <= n_colors && !s.contains(c) {
            assert forall|i: int| 0 <= i < s.push(c).len() implies 1 <= #[trigger] s.push(c)[i] <= n_colors by {
                if i < s.len() {
                    assert(s.push(c)[i] == s[i]);
                }
            }
        }
    }
}

/// A colour not yet listed after `x` columns has empty codes in all of them.
pub proof fn lemma_unlisted_codes_zero(
    indices: Seq<u16>,
    width: nat,
    band: nat,
    band_h: nat,
    n_colors: nat,
    x: nat,
    c: nat,
)
    requires
        c <= n_colors,
        x <= width,
        !band_colors(indices, width, band, band_h, n_colors, x).contains(c),
    ensures
        forall|i: int| 0 <= i < x ==> #[trigger] color_codes(indices, width, band, band_h, c).take(x as int)[i] == 0,
{
    lemma_band_colors_contains(indices, width, band, band_h, n_colors, x);
    assert forall|i: int| 0 <= i < x implies #[trigger] color_codes(indices, width, band, band_h, c).take(x as int)[i] == 0 by {
        assert forall|y: nat| y < band_h implies #[trigger] pixel_color(indices, width, band, i as nat, y) != c by {
            if pixel_color(indices, width, band, i as nat, y) == c {
                assert(band_colors(indices, width, band, band_h, n_colors, x).contains(
                    pixel_color(indices, width, band, i as nat, y)));
            }
        }
        lemma_column_code_absent(indices, width, band, c, i as nat, band_h);
    }
}


/// A list of distinct numbers between 1 and `n` has at most `n` entries.
pub proof fn lemma_distinct_bounded_len(s: Seq<nat>, n: nat)
    requires
        forall|i: int, j: int| 0 <= i < s.len() && 0 <= j < s.len() && #[trigger] s[i] == #[trigger] s[j] ==> i == j,
        forall|i: int| 0 <= i < s.len() ==> 1 <= #[trigger] s[i] <= n,
    ensures
        s.len() <= n,
    decreases n,
{
    if n == 0 {
        if s.len() > 0 {
            assert(1 <= s[0] <= n);
        }
    } else if s.contains(n) {
        let j = choose|j: int| 0 <= j < s.len() && s[j] == n;
        let t = s.remove(j);
        assert forall|i: int| 0 <= i < t.len() implies #[trigger] t[i] == (if i < j { s[i] } else { s[i + 1] }) by {}
        assert forall|i: int| 0 <= i < t.len() implies 1 <= #[trigger] t[i] <= (n - 1) as nat by {
            if i < j {
                assert(s[i] != s[j]);
            } else {
                assert(s[i + 1] != s[j]);
            }
        }
        assert forall|a: int, b: int| 0 <= a < t.len() && 0 <= b < t.len() && #[trigger] t[a] == #[trigger] t[b] implies a == b by {
            let a2 = if a < j { a } else { a + 1 };
            let b2 = if b < j { b } else { b + 1 };
            assert(s[a2] == s[b2]);
        }
        lemma_distinct_bounded_len(t, (n - 1) as nat);
    } else {
        assert forall|i: int| 0 <= i < s.len() implies 1 <= #[trigger] s[i] <= (n - 1) as nat by {
            assert(s[i] != n);
        }
        lemma_distinct_bounded_len(s, (n - 1) as nat);
    }
}

/// The slot tables never hold more colours than there are colour numbers.
pub proof fn lemma_slots_len(colors: Seq<nat>, used: Seq<u16>, slot_map: Seq<i32>, n_colors: nat)
    requires
        slots_match(colors, used, slot_map, n_colors),
    ensures
        colors.len() <= n_colors,
{
    assert forall|i: int, j: int| 0 <= i < colors.len() && 0 <= j < colors.len() && #[trigger] colors[i] == #[trigger] colors[j] implies i == j by {
        assert(slot_map[colors[i] as int] == i);
        assert(slot_map[colors[j] as int] == j);
    }
    lemma_distinct_bounded_len(colors, n_colors);
}

/// Correspondence between the slot tables of the band encoder and the list of
/// colours met so far: slot `s` holds colour `colors[s]`, and `slot_map` sends each
/// listed colour to its slot and every other colour to `-1`.
pub open spec fn slots_match(colors: Seq<nat>, used: Seq<u16>, slot_map: Seq<i32>, n_colors: nat) -> bool {
    &&& used.len() == colors.len()
    &&& forall|s: int| 0 <= s < colors.len() ==> #[trigger] used[s] as nat == colors[s]
    &&& forall|s: int| 0 <= s < colors.len() ==> 1 <= #[trigger] colors[s] <= n_colors
    &&& slot_map.len() >= n_colors + 1
    &&& forall|c: int| 0 <= c <= n_colors ==> (#[trigger] slot_map[c] == -1 <==> !colors.contains(c as nat))
    &&& forall|s: int| 0 <= s < colors.len() ==> #[trigger] slot_map[colors[s] as int] == s
}

/// The run-length state kept for one slot after `x` columns: before any column it
/// is fresh, afterwards it is the state of the colour's first `x` codes.
pub open spec fn run_ok(data: Seq<u8>, last: u8, count: u32, init: bool, codes: Seq<u8>, x: nat) -> bool {
    if x > 0 {
        &&& init
        &&& rle_state(codes.take(x as int)) == (data, last, count as nat)
        &&& last < 64
    } else {
        &&& !init
        &&& data == Seq::<u8>::empty()
    }
}

/// Writes the sixel text of one band (rows `band .. band + band_h`) of
/// `indices`, a row-major image `width` pixels wide, to `out`. Pixel `p` is drawn in
/// colour register `indices[p]` (colour numbers `indices[p] + 1` above `n_colors`
/// are skipped). The remaining arguments are work buffers reused across bands;
/// they are reset here.
#[verifier::rlimit(50)]
pub fn emit_band_sixels(
    indices: &[u16],
    width: usize,
    band: usize,
    band_h: usize,
    n_colors: usize,
    out: &mut Vec<u8>,
    color_data: &mut Vec<Vec<u8>>,
    used_colors: &mut Vec<u16>,
    slot_map: &mut Vec<i32>,
    last_code: &mut Vec<u8>,
    last_code_init: &mut Vec<bool>,
    cur_code: &mut Vec<u8>,
    accu: &mut Vec<u32>,
)
    requires
        1 <= band_h <= 6,
        (band + band_h) * width <= indices@.len(),
        n_colors <= 65535,
        width <= u32::MAX,
        old(slot_map).len() >= n_colors + 1,
        old(last_code).len() >= n_colors + 1,
        old(last_code_init).len() >= n_colors + 1,
        old(cur_code).len() >= n_colors + 1,
        old(accu).len() >= n_colors + 1,
    ensures
        final(out)@ == old(out)@ + band_sixels(indices@, width as nat, band as nat, band_h as nat, n_colors as nat),
        final(slot_map).len() == old(slot_map).len(),
        final(last_code).len() == old(last_code).len(),
        final(last_code_init).len() == old(last_code_init).len(),
        final(cur_code).len() == old(cur_code).len(),
        final(accu).len() == old(accu).len(),
{
    let ghost ind = indices@;
    let ghost w = width as nat;
    let ghost bd = band as nat;
    let ghost bh = band_h as nat;
    let ghost nc = n_colors as nat;

    color_data.clear();
    used_colors.clear();
    let mut i: usize = 0;
    while i <= n_colors
        invariant
            0 <= i <= n_colors + 1,
            slot_map.len() == old(slot_map).len(),
            slot_map.len() >= n_colors + 1,
            last_code.len() == old(last_code).len(),
            last_code.len() >= n_colors + 1,
            last_code_init.len() == old(last_code_init).len(),
            last_code_init.len() >= n_colors + 1,
            cur_code.len() == old(cur_code).len(),
            cur_code.len() >= n_colors + 1,
            accu.len() == old(accu).len(),
            accu.len() >= n_colors + 1,
            forall|j: int| 0 <= j < i ==> #[trigger] slot_map@[j] == -1,
            forall|j: int| 0 <= j < i ==> !(#[trigger] last_code_init@[j]),
            forall|j: int| 0 <= j < i ==> #[trigger] cur_code@[j] == 0,
        decreases n_colors + 1 - i,
    {
        slot_map[i] = -1;
        last_code[i] = 0;
        last_code_init[i] = false;
        cur_code[i] = 0;
        accu[i] = 1;
        i = i + 1;
    }

    let n_ind: usize = indices.len();
    let mut x: usize = 0;
    while x < width
        invariant
            0 <= x <= width,
            n_ind == ind.len(),
            width <= u32::MAX,
            1 <= band_h <= 6,
            (band + band_h) * width <= ind.len(),
            ind == indices@,
            w == width, bd == band, bh == band_h, nc == n_colors,
            n_colors <= 65535,
            out@ == old(out)@,
            slot_map.len() == old(slot_map).len(),
            slot_map.len() >= n_colors + 1,
            last_code.len() == old(last_code).len(),
            last_code.len() >= n_colors + 1,
            last_code_init.len() == old(last_code_init).len(),
            last_code_init.len() >= n_colors + 1,
            cur_code.len() == old(cur_code).len(),
            cur_code.len() >= n_colors + 1,
            accu.len() == old(accu).len(),
            accu.len() >= n_colors + 1,
            color_data.len() == band_colors(ind, w, bd, bh, nc, x as nat).len(),
            slots_match(band_colors(ind, w, bd, bh, nc, x as nat), used_colors@, slot_map@, nc),
            forall|s: int| 0 <= s < color_data.len() ==> #[trigger] run_ok(
                color_data@[s]@,
                last_code@[s],
                accu@[s],
                last_code_init@[s],
                color_codes(ind, w, bd, bh, band_colors(ind, w, bd, bh, nc, x as nat)[s]),
                x as nat,
            ),
            forall|s: int| color_data.len() <= s <= n_colors ==> !(#[trigger] last_code_init@[s]),
            forall|s: int| color_data.len() <= s <= n_colors ==> #[trigger] cur_code@[s] == 0,
        decreases width - x,
    {
        let ghost colors0 = band_colors(ind, w, bd, bh, nc, x as nat);
        let ghost k0 = colors0.len();
        proof {
            lemma_slots_len(colors0, used_colors@, slot_map@, nc);
        }
        let mut t: usize = 0;
        while t < color_data.len()
            invariant
                0 <= t <= color_data.len(),
                color_data.len() == k0,
                k0 <= n_colors,
                cur_code.len() == old(cur_code).len(),
                cur_code.len() >= n_colors + 1,
                forall|s: int| 0 <= s < t ==> #[trigger] cur_code@[s] == 0,
                forall|s: int| color_data.len() <= s <= n_colors ==> #[trigger] cur_code@[s] == 0,
            decreases color_data.len() - t,
        {
            cur_code[t] = 0;
            t = t + 1;
        }
        proof {
            lemma_band_colors_contains(ind, w, bd, bh, nc, x as nat);
        }

        let mut y: usize = 0;
        while y < band_h
            invariant
                0 <= y <= band_h,
                n_ind == ind.len(),
                0 <= x < width,
                width <= u32::MAX,
                1 <= band_h <= 6,
                (band + band_h) * width <= ind.len(),
                ind == indices@,
                w == width, bd == band, bh == band_h, nc == n_colors,
                n_colors <= 65535,
                colors0 == band_colors(ind, w, bd, bh, nc, x as nat),
                k0 == colors0.len(),
                slot_map.len() == old(slot_map).len(),
                slot_map.len() >= n_colors + 1,
                last_code.len() == old(last_code).len(),
                last_code.len() >= n_colors + 1,
                last_code_init.len() == old(last_code_init).len(),
                last_code_init.len() >= n_colors + 1,
                cur_code.len() == old(cur_code).len(),
                cur_code.len() >= n_colors + 1,
                accu.len() == old(accu).len(),
                accu.len() >= n_colors + 1,
                out@ == old(out)@,
                color_data.len() == scan_column(colors0, ind, w, bd, nc, x as nat, y as nat).len(),
                scan_column(colors0, ind, w, bd, nc, x as nat, y as nat).take(k0 as int) == colors0,
                slots_match(scan_column(colors0, ind, w, bd, nc, x as nat, y as nat), used_colors@, slot_map@, nc),
                forall|s: int| 0 <= s < color_data.len() ==> #[trigger] run_ok(
                    color_data@[s]@,
                    last_code@[s],
                    accu@[s],
                    last_code_init@[s],
                    color_codes(ind, w, bd, bh, scan_column(colors0, ind, w, bd, nc, x as nat, y as nat)[s]),
                    x as nat,
                ),
                forall|s: int| 0 <= s < color_data.len() ==> #[trigger] cur_code@[s] == column_code(
                    ind,
                    w,
                    bd,
                    scan_column(colors0, ind, w, bd, nc, x as nat, y as nat)[s],
                    x as nat,
                    y as nat,
                ),
                forall|s: int| color_data.len() <= s <= n_colors ==> !(#[trigger] last_code_init@[s]),
            forall|s: int| color_data.len() <= s <= n_colors ==> #[trigger] cur_code@[s] == 0,
            decreases band_h - y,
        {
            let ghost cy = scan_column(colors0, ind, w, bd, nc, x as nat, y as nat);
            proof {
                lemma_scan_column_contains(colors0, ind, w, bd, nc, x as nat, y as nat);
                assert((band + y) * width + x < (band + band_h) * width && band + y <= (band + y) * width)
                    by (nonlinear_arith)
                    requires y < band_h, x < width;
            }
            let idx: usize = indices[(band + y) * width + x] as usize + 1;
            assert(idx as nat == pixel_color(ind, w, bd, x as nat, y as nat));
            let ghost cy1 = scan_column(colors0, ind, w, bd, nc, x as nat, (y + 1) as nat);
            if idx <= n_colors {
                if slot_map[idx] == -1 {
                    let k = color_data.len();
                    proof {
                        lemma_slots_len(cy, used_colors@, slot_map@, nc);
                        assert(!cy.contains(idx as nat));
                        assert(cy1 == cy.push(idx as nat));
                        assert forall|y2: nat| y2 < y implies #[trigger] pixel_color(ind, w, bd, x as nat, y2) != idx by {
                            if pixel_color(ind, w, bd, x as nat, y2) == idx {
                                assert(cy.contains(pixel_color(ind, w, bd, x as nat, y2)));
                            }
                        }
                        lemma_column_code_absent(ind, w, bd, idx as nat, x as nat, y as nat);
                        if x > 0 {
                            assert(!colors0.contains(idx as nat)) by {
                                if colors0.contains(idx as nat) {
                                    let j = choose|j: int| 0 <= j < colors0.len() && colors0[j] == idx;
                                    assert(cy.take(k0 as int)[j] == cy[j]);
                                }
                            }
                            lemma_unlisted_codes_zero(ind, w, bd, bh, nc, x as nat, idx as nat);
                            lemma_rle_state_zeros(color_codes(ind, w, bd, bh, idx as nat).take(x as int));
                        }
                    }
                    slot_map[idx] = k as i32;
                    color_data.push(Vec::new());
                    used_colors.push(idx as u16);
                    if x > 0 {
                        last_code[k] = 0;
                        last_code_init[k] = true;
                        accu[k] = x as u32;
                    }
                    proof {
                        assert(cy1[k as int] == idx);
                        assert forall|c: int| 0 <= c <= n_colors implies (#[trigger] slot_map@[c] == -1 <==> !cy1.contains(c as nat)) by {
                            if c != idx {
                                if cy1.contains(c as nat) {
                                    let j = choose|j: int| 0 <= j < cy1.len() && cy1[j] == c;
                                    assert(j != k);
                                    assert(cy.contains(c as nat)) by { assert(cy[j] == c); }
                                } else {
                                    assert forall|j: int| 0 <= j < cy.len() implies cy[j] != c by {
                                        assert(cy1[j] == cy[j]);
                                    }
                                }
                            } else {
                                assert(cy1.contains(c as nat));
                            }
                        }
                        assert(cy1.take(k0 as int) =~= colors0) by {
                            assert(cy1.take(k0 as int) =~= cy.take(k0 as int));
                        }
                    }
                }
                let sl: usize = slot_map[idx] as usize;
                proof {
                    assert(cy1.contains(idx as nat));
                    assert(slots_match(cy1, used_colors@, slot_map@, nc));
                    lemma_slots_len(cy1, used_colors@, slot_map@, nc);
                    let j = choose|j: int| 0 <= j < cy1.len() && cy1[j] == idx;
                    assert(slot_map@[cy1[j] as int] == j);
                    assert(sl == j);
                }
                cur_code[sl] = cur_code[sl] | (1u8 << (y as u8));
                proof {
                    assert forall|s: int| 0 <= s < color_data.len() implies #[trigger] cur_code@[s] == column_code(
                        ind, w, bd, cy1[s], x as nat, (y + 1) as nat) by {
                        if s != sl {
                            assert(cy1[s] != idx);
                        }
                    }
                    assert forall|s: int| 0 <= s < color_data.len() implies #[trigger] run_ok(
                        color_data@[s]@, last_code@[s], accu@[s], last_code_init@[s],
                        color_codes(ind, w, bd, bh, cy1[s]), x as nat) by {
                    }
                }
            } else {
                proof {
                    assert(cy1 == cy);
                }
            }
            y = y + 1;
        }

        let ghost colors1 = band_colors(ind, w, bd, bh, nc, (x + 1) as nat);
        assert(colors1 == scan_column(colors0, ind, w, bd, nc, x as nat, bh));
        let mut s: usize = 0;
        while s < color_data.len()
            invariant
                0 <= s <= color_data.len(),
                0 <= x < width,
                width <= u32::MAX,
                1 <= band_h <= 6,
                ind == indices@,
                w == width, bd == band, bh == band_h, nc == n_colors,
                n_colors <= 65535,
                colors1 == band_colors(ind, w, bd, bh, nc, (x + 1) as nat),
                slot_map.len() == old(slot_map).len(),
                slot_map.len() >= n_colors + 1,
                last_code.len() == old(last_code).len(),
                last_code.len() >= n_colors + 1,
                last_code_init.len() == old(last_code_init).len(),
                last_code_init.len() >= n_colors + 1,
                cur_code.len() == old(cur_code).len(),
                cur_code.len() >= n_colors + 1,
                accu.len() == old(accu).len(),
                accu.len() >= n_colors + 1,
                out@ == old(out)@,
                color_data.len() == colors1.len(),
                slots_match(colors1, used_colors@, slot_map@, nc),
                forall|t: int| 0 <= t < s ==> #[trigger] run_ok(
                    color_data@[t]@,
                    last_code@[t],
                    accu@[t],
                    last_code_init@[t],
                    color_codes(ind, w, bd, bh, colors1[t]),
                    (x + 1) as nat,
                ),
                forall|t: int| s <= t < color_data.len() ==> #[trigger] run_ok(
                    color_data@[t]@,
                    last_code@[t],
                    accu@[t],
                    last_code_init@[t],
                    color_codes(ind, w, bd, bh, colors1[t]),
                    x as nat,
                ),
                forall|t: int| s <= t < color_data.len() ==> #[trigger] cur_code@[t] == column_code(
                    ind,
                    w,
                    bd,
                    colors1[t],
                    x as nat,
                    bh,
                ),
                forall|t: int| color_data.len() <= t <= n_colors ==> !(#[trigger] last_code_init@[t]),
                forall|t: int| color_data.len() <= t <= n_colors ==> #[trigger] cur_code@[t] == 0,
            decreases color_data.len() - s,
        {
            let ghost codes = color_codes(ind, w, bd, bh, colors1[s as int]);
            proof {
                lemma_slots_len(colors1, used_colors@, slot_map@, nc);
                assert(run_ok(color_data@[s as int]@, last_code@[s as int], accu@[s as int],
                    last_code_init@[s as int], codes, x as nat));
                lemma_column_code_bound(ind, w, bd, colors1[s as int], x as nat, bh);
                assert(codes.take(x + 1).drop_last() =~= codes.take(x as int));
                assert(codes.take(x + 1).last() == codes[x as int]);
                assert(codes[x as int] == cur_code@[s as int]);
                lemma_rle_state_count(codes.take(x as int));
            }
            if last_code_init[s] && cur_code[s] == last_code[s] {
                accu[s] = accu[s] + 1;
            } else {
                if last_code_init[s] && cur_code[s] != last_code[s] {
                    code_to_sixel(last_code[s], accu[s], &mut color_data[s]);
                }
                last_code[s] = cur_code[s];
                last_code_init[s] = true;
                accu[s] = 1;
            }
            proof {
                assert(run_ok(color_data@[s as int]@, last_code@[s as int], accu@[s as int],
                    last_code_init@[s as int], codes, (x + 1) as nat));
            }
            s = s + 1;
        }
        x = x + 1;
    }

    let ghost colors = band_colors(ind, w, bd, bh, nc, w);
    let mut s: usize = 0;
    while s < color_data.len()
        invariant
            0 <= s <= color_data.len(),
            x == width,
            ind == indices@,
            w == width, bd == band, bh == band_h, nc == n_colors,
            colors == band_colors(ind, w, bd, bh, nc, w),
            color_data.len() == colors.len(),
            last_code.len() == old(last_code).len(),
            last_code.len() >= n_colors + 1,
            last_code_init.len() == old(last_code_init).len(),
            last_code_init.len() >= n_colors + 1,
            accu.len() == old(accu).len(),
            accu.len() >= n_colors + 1,
            slots_match(colors, used_colors@, slot_map@, nc),
            out@ == old(out)@,
            forall|t: int| 0 <= t < s ==> #[trigger] color_data@[t]@ == rle_bytes(color_codes(ind, w, bd, bh, colors[t])),
            forall|t: int| s <= t < color_data.len() ==> #[trigger] run_ok(
                color_data@[t]@,
                last_code@[t],
                accu@[t],
                last_code_init@[t],
                color_codes(ind, w, bd, bh, colors[t]),
                w,
            ),
        decreases color_data.len() - s,
    {
        let ghost codes = color_codes(ind, w, bd, bh, colors[s as int]);
        proof {
            lemma_slots_len(colors, used_colors@, slot_map@, nc);
            assert(codes.take(w as int) =~= codes);
            assert(run_ok(color_data@[s as int]@, last_code@[s as int], accu@[s as int],
                last_code_init@[s as int], codes, w));
            lemma_rle_state_count(codes);
            assert(width > 0) by {
                if width == 0 {
                    assert(colors.len() == 0);
                }
            }
        }
        if last_code_init[s] && last_code[s] != 0 {
            code_to_sixel(last_code[s], accu[s], &mut color_data[s]);
        }
        s = s + 1;
    }

    let mut s: usize = 0;
    while s < color_data.len()
        invariant
            0 <= s <= color_data.len(),
            ind == indices@,
            w == width, bd == band, bh == band_h, nc == n_colors,
            colors == band_colors(ind, w, bd, bh, nc, w),
            color_data.len() == colors.len(),
            slots_match(colors, used_colors@, slot_map@, nc),
            forall|t: int| 0 <= t < color_data.len() ==> #[trigger] color_data@[t]@ == rle_bytes(color_codes(ind, w, bd, bh, colors[t])),
            out@ == old(out)@ + band_entries(colors.take(s as int), ind, w, bd, bh),
        decreases color_data.len() - s,
    {
        proof {
            assert(colors.take(s + 1).drop_last() =~= colors.take(s as int));
            assert(colors.take(s + 1).last() == colors[s as int]);
            assert(used_colors@[s as int] as nat == colors[s as int]);
        }
        if color_data[s].len() != 0 {
            let idx: u16 = used_colors[s];
            out.push(35u8);
            push_decimal(idx as u32 - 1, out);
            append_bytes(out, color_data[s].as_slice());
            out.push(36u8);
            proof {
                assert(out@ =~= old(out)@ + band_entries(colors.take(s + 1), ind, w, bd, bh));
            }
        }
        s = s + 1;
    }
    proof {
        assert(colors.take(colors.len() as int) =~= colors);
    }
}


/// Sixel runs are ASCII.
pub proof fn lemma_sixel_run_ascii(code: u8, n: nat)
    requires
        code < 64,
    ensures
        is_ascii_bytes(sixel_run(code, n)),
{
    if n > 3 {
        lemma_decimal_ascii(n);
        lemma_ascii_concat(seq![33u8], decimal(n));
        lemma_ascii_concat(seq![33u8] + decimal(n), seq![sixel_char(code)]);
    }
}

/// The run-length text of codes below 64 is ASCII.
pub proof fn lemma_rle_ascii(codes: Seq<u8>)
    requires
        forall|i: int| 0 <= i < codes.len() ==> #[trigger] codes[i] < 64,
    ensures
        is_ascii_bytes(rle_state(codes).0),
        is_ascii_bytes(rle_bytes(codes)),
    decreases codes.len(),
{
    lemma_rle_state_count(codes);
    if codes.len() > 0 {
        let q = codes.drop_last();
        assert forall|i: int| 0 <= i < q.len() implies #[trigger] q[i] < 64 by {
            assert(q[i] == codes[i]);
        }
        lemma_rle_ascii(q);
        lemma_rle_state_count(q);
        let (e, l, n) = rle_state(q);
        lemma_sixel_run_ascii(l, n);
        lemma_ascii_concat(e, sixel_run(l, n));
    }
    let (e, l, n) = rle_state(codes);
    lemma_sixel_run_ascii(l, n);
    lemma_ascii_concat(e, sixel_run(l, n));
}

/// Column codes of a band of at most six rows are below 64.
pub proof fn lemma_color_codes_small(indices: Seq<u16>, width: nat, band: nat, band_h: nat, c: nat)
    requires
        band_h <= 6,
    ensures
        forall|i: int| 0 <= i < color_codes(indices, width, band, band_h, c).len() ==> #[trigger] color_codes(
            indices,
            width,
            band,
            band_h,
            c,
        )[i] < 64,
{
    assert forall|i: int| 0 <= i < color_codes(indices, width, band, band_h, c).len() implies #[trigger] color_codes(
        indices, width, band, band_h, c)[i] < 64 by {
        lemma_column_code_bound(indices, width, band, c, i as nat, band_h);
    }
}

/// Band text is ASCII.
pub proof fn lemma_band_entries_ascii(colors: Seq<nat>, indices: Seq<u16>, width: nat, band: nat, band_h: nat)
    requires
        band_h <= 6,
    ensures
        is_ascii_bytes(band_entries(colors, indices, width, band, band_h)),
    decreases colors.len(),
{
    if colors.len() > 0 {
        lemma_band_entries_ascii(colors.drop_last(), indices, width, band, band_h);
        let c = colors.last();
        let codes = color_codes(indices, width, band, band_h, c);
        lemma_color_codes_small(indices, width, band, band_h, c);
        lemma_rle_ascii(codes);
        let data = rle_bytes(codes);
        lemma_decimal_ascii((c - 1) as nat);
        lemma_ascii_concat(seq![35u8], decimal((c - 1) as nat));
        lemma_ascii_concat(seq![35u8] + decimal((c - 1) as nat), data);
        lemma_ascii_concat(seq![35u8] + decimal((c - 1) as nat) + data, seq![36u8]);
        lemma_ascii_concat(
            band_entries(colors.drop_last(), indices, width, band, band_h),
            band_entry(indices, width, band, band_h, c),
        );
    }
}

/// Band text is ASCII.
pub proof fn lemma_band_sixels_ascii(indices: Seq<u16>, width: nat, band: nat, band_h: nat, n_colors: nat)
    requires
        band_h <= 6,
    ensures
        is_ascii_bytes(band_sixels(indices, width, band, band_h, n_colors)),
{
    lemma_band_entries_ascii(band_colors(indices, width, band, band_h, n_colors, width), indices, width, band, band_h);
}

/// With no colour registers nothing is drawn, whatever the indices.
pub proof fn lemma_band_sixels_no_colors(indices: Seq<u16>, width: nat, band: nat, band_h: nat)
    ensures
        band_sixels(indices, width, band, band_h, 0) == Seq::<u8>::empty(),
{
    lemma_band_colors_contains(indices, width, band, band_h, 0, width);
    let colors = band_colors(indices, width, band, band_h, 0, width);
    assert(colors.len() == 0) by {
        if colors.len() > 0 {
            assert(1 <= colors[0] <= 0);
        }
    }
    assert(colors =~= Seq::<nat>::empty());
}

} // verus!
