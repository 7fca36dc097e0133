//! Median-cut colour quantisation.
//!
//! All pixels start in one box. While there are fewer boxes than colours wanted,
//! the boxes are ordered by their largest channel extent (widest first, ties kept
//! in order), the first one is taken out and split at the median of its widest
//! channel into two boxes that are appended at the end. A box of a single pixel
//! cannot be split; it is put back at the end and cutting stops. Each box then
//! contributes the average colour of its pixels to the palette.

use vstd::prelude::*;
use crate::sixel::sort::{sort_by_keys, sort_copy_by_keys, sort_owned_by_keys, lemma_sort_len,
    lemma_sort_prop, lemma_sort_map, lemma_sort_small, lemma_sort_sorted};

verus! {

/// An RGB colour.
pub type Rgb = (u8, u8, u8);

/// Channel extremes of a box: red min, red max, green min, green max, blue min, blue max.
pub type Bounds = (u8, u8, u8, u8, u8, u8);

/// A box of the median cut: the pixel indices it holds and their channel extremes.
pub struct BoxSpec {
    pub indices: Seq<usize>,
    pub bounds: Bounds,
}

pub open spec fn min_u8(a: u8, b: u8) -> u8 {
    if b < a { b } else { a }
}

pub open spec fn max_u8(a: u8, b: u8) -> u8 {
    if b > a { b } else { a }
}

/// Channel extremes of the pixels at `idx`; `(255, 0, 255, 0, 255, 0)` for no pixel.
pub open spec fn bounds_of(pixels: Seq<Rgb>, idx: Seq<usize>) -> Bounds
    decreases idx.len(),
{
    if idx.len() == 0 {
        (255u8, 0u8, 255u8, 0u8, 255u8, 0u8)
    } else {
        let b = bounds_of(pixels, idx.drop_last());
        let p = pixels[idx.last() as int];
        (min_u8(b.0, p.0), max_u8(b.1, p.0), min_u8(b.2, p.1), max_u8(b.3, p.1), min_u8(b.4, p.2), max_u8(b.5, p.2))
    }
}

/// Largest extent over the three channels.
pub open spec fn box_range(b: Bounds) -> u8 {
    let dr = (b.1 - b.0) as u8;
    let dg = (b.3 - b.2) as u8;
    let db = (b.5 - b.4) as u8;
    max_u8(max_u8(dr, dg), db)
}

/// Channel along which a box is split: red if its extent is at least the others,
/// else green if at least blue's, else blue.
pub open spec fn split_channel(b: Bounds) -> nat {
    let dr = (b.1 - b.0) as u8;
    let dg = (b.3 - b.2) as u8;
    let db = (b.5 - b.4) as u8;
    if dr >= dg && dr >= db {
        0
    } else if dg >= db {
        1
    } else {
        2
    }
}

pub open spec fn channel(p: Rgb, ch: nat) -> u8 {
    if ch == 0 {
        p.0
    } else if ch == 1 {
        p.1
    } else {
        p.2
    }
}

/// The chosen channel of each pixel referred to by `idx`.
pub open spec fn channel_keys(pixels: Seq<Rgb>, idx: Seq<usize>, ch: nat) -> Seq<u8> {
    Seq::new(idx.len(), |i: int| channel(pixels[idx[i] as int], ch))
}

pub open spec fn make_box(pixels: Seq<Rgb>, idx: Seq<usize>) -> BoxSpec {
    BoxSpec { indices: idx, bounds: bounds_of(pixels, idx) }
}

/// Splitting a box: its pixels stably sorted along the split channel, cut in the
/// middle (the upper half gets the extra pixel). `None` when a half would be empty.
pub open spec fn split_spec(pixels: Seq<Rgb>, b: BoxSpec) -> Option<(BoxSpec, BoxSpec)> {
    let sorted = sort_by_keys(b.indices, channel_keys(pixels, b.indices, split_channel(b.bounds)));
    let mid = sorted.len() / 2;
    if mid == 0 || mid == sorted.len() {
        None
    } else {
        Some((make_box(pixels, sorted.take(mid as int)), make_box(pixels, sorted.skip(mid as int))))
    }
}

/// Keys ordering boxes widest first.
pub open spec fn range_keys(boxes: Seq<BoxSpec>) -> Seq<u8> {
    Seq::new(boxes.len(), |i: int| (255 - box_range(boxes[i].bounds)) as u8)
}

/// The cutting loop, from the list `boxes` until there are `max_colors` boxes or
/// the widest box cannot be split.
pub open spec fn cut_boxes(pixels: Seq<Rgb>, boxes: Seq<BoxSpec>, max_colors: nat) -> Seq<BoxSpec>
    decreases max_colors - boxes.len(),
{
    if boxes.len() >= max_colors || boxes.len() == 0 {
        boxes
    } else {
        let sorted = sort_by_keys(boxes, range_keys(boxes));
        let largest = sorted[0];
        let rest = sorted.drop_first();
        match split_spec(pixels, largest) {
            Some((l, r)) => {
                proof {
                    lemma_sort_len(boxes, range_keys(boxes));
                }
                cut_boxes(pixels, rest.push(l).push(r), max_colors)
            },
            None => rest.push(largest),
        }
    }
}

/// Sum of one channel over the pixels at `idx`.
pub open spec fn channel_sum(pixels: Seq<Rgb>, idx: Seq<usize>, ch: nat) -> nat
    decreases idx.len(),
{
    if idx.len() == 0 {
        0
    } else {
        channel_sum(pixels, idx.drop_last(), ch) + channel(pixels[idx.last() as int], ch) as nat
    }
}

/// The average colour of a box (each channel rounded down).
pub open spec fn average(pixels: Seq<Rgb>, b: BoxSpec) -> Rgb {
    let n = b.indices.len();
    (
        (channel_sum(pixels, b.indices, 0) / n) as u8,
        (channel_sum(pixels, b.indices, 1) / n) as u8,
        (channel_sum(pixels, b.indices, 2) / n) as u8,
    )
}

/// Indices `0 .. n`.
pub open spec fn all_indices(n: nat) -> Seq<usize> {
    Seq::new(n, |i: int| i as usize)
}

/// The median-cut palette of at most `max_colors` colours for `pixels`.
pub open spec fn median_cut_palette(pixels: Seq<Rgb>, max_colors: nat) -> Seq<Rgb> {
    if pixels.len() == 0 || max_colors == 0 {
        seq![]
    } else {
        cut_boxes(pixels, seq![make_box(pixels, all_indices(pixels.len()))], max_colors).map_values(
            |b: BoxSpec| average(pixels, b),
        )
    }
}

/// A box of the median cut as the algorithm holds it.
struct ColorBox {
    indices: Vec<usize>,
    r_min: u8,
    r_max: u8,
    g_min: u8,
    g_max: u8,
    b_min: u8,
    b_max: u8,
}

impl View for ColorBox {
    type V = BoxSpec;

    closed spec fn view(&self) -> BoxSpec {
        BoxSpec {
            indices: self.indices@,
            bounds: (self.r_min, self.r_max, self.g_min, self.g_max, self.b_min, self.b_max),
        }
    }
}

/// Indices all refer to pixels.
pub open spec fn indices_valid(idx: Seq<usize>, n: nat) -> bool {
    forall|i: int| 0 <= i < idx.len() ==> (#[trigger] idx[i] as nat) < n
}

/// A box as the cut keeps it: non-empty, at most `n` valid indices, exact bounds.
pub open spec fn box_ok(pixels: Seq<Rgb>, b: BoxSpec) -> bool {
    &&& 0 < b.indices.len() <= pixels.len()
    &&& indices_valid(b.indices, pixels.len())
    &&& b.bounds == bounds_of(pixels, b.indices)
}

/// The minimum of each channel is at most its maximum once a pixel is counted.
pub proof fn lemma_bounds_ordered(pixels: Seq<Rgb>, idx: Seq<usize>)
    requires
        idx.len() > 0,
    ensures
        bounds_of(pixels, idx).0 <= bounds_of(pixels, idx).1,
        bounds_of(pixels, idx).2 <= bounds_of(pixels, idx).3,
        bounds_of(pixels, idx).4 <= bounds_of(pixels, idx).5,
    decreases idx.len(),
{
    if idx.len() > 1 {
        lemma_bounds_ordered(pixels, idx.drop_last());
    }
}

/// The bounds of a box are the least and greatest value of each channel over
/// its pixels: every pixel lies within them, and each is reached by a pixel.
pub proof fn lemma_bounds_are_extremes(pixels: Seq<Rgb>, idx: Seq<usize>)
    requires
        idx.len() > 0,
    ensures
        forall|i: int| 0 <= i < idx.len() ==> {
            let p = #[trigger] pixels[idx[i] as int];
            let b = bounds_of(pixels, idx);
            b.0 <= p.0 <= b.1 && b.2 <= p.1 <= b.3 && b.4 <= p.2 <= b.5
        },
        exists|i: int| 0 <= i < idx.len() && pixels[idx[i] as int].0 == bounds_of(pixels, idx).0,
        exists|i: int| 0 <= i < idx.len() && pixels[idx[i] as int].0 == bounds_of(pixels, idx).1,
        exists|i: int| 0 <= i < idx.len() && pixels[idx[i] as int].1 == bounds_of(pixels, idx).2,
        exists|i: int| 0 <= i < idx.len() && pixels[idx[i] as int].1 == bounds_of(pixels, idx).3,
        exists|i: int| 0 <= i < idx.len() && pixels[idx[i] as int].2 == bounds_of(pixels, idx).4,
        exists|i: int| 0 <= i < idx.len() && pixels[idx[i] as int].2 == bounds_of(pixels, idx).5,
    decreases idx.len(),
{
    let n = idx.len() as int;
    let b = bounds_of(pixels, idx);
    let last = pixels[idx[n - 1] as int];
    if n == 1 {
        assert(idx.drop_last().len() == 0);
        assert(pixels[idx[0] as int] == last);
    } else {
        let q = idx.drop_last();
        lemma_bounds_are_extremes(pixels, q);
        let bq = bounds_of(pixels, q);
        assert forall|i: int| 0 <= i < idx.len() implies {
            let p = #[trigger] pixels[idx[i] as int];
            b.0 <= p.0 <= b.1 && b.2 <= p.1 <= b.3 && b.4 <= p.2 <= b.5
        } by {
            if i < n - 1 {
                assert(idx[i] == q[i]);
                let p = pixels[q[i] as int];
                assert(bq.0 <= p.0 <= bq.1 && bq.2 <= p.1 <= bq.3 && bq.4 <= p.2 <= bq.5);
            }
        }
        let i0 = choose|i: int| 0 <= i < q.len() && pixels[q[i] as int].0 == bq.0;
        let i1 = choose|i: int| 0 <= i < q.len() && pixels[q[i] as int].0 == bq.1;
        let i2 = choose|i: int| 0 <= i < q.len() && pixels[q[i] as int].1 == bq.2;
        let i3 = choose|i: int| 0 <= i < q.len() && pixels[q[i] as int].1 == bq.3;
        let i4 = choose|i: int| 0 <= i < q.len() && pixels[q[i] as int].2 == bq.4;
        let i5 = choose|i: int| 0 <= i < q.len() && pixels[q[i] as int].2 == bq.5;
        assert(idx[i0] == q[i0] && idx[i1] == q[i1] && idx[i2] == q[i2]);
        assert(idx[i3] == q[i3] && idx[i4] == q[i4] && idx[i5] == q[i5]);
        assert(idx[n - 1] == idx.last());
    }
}

proof fn lemma_channel_sum_range(pixels: Seq<Rgb>, idx: Seq<usize>, ch: nat, lo: nat, hi: nat)
    requires
        forall|i: int| 0 <= i < idx.len() ==> lo <= #[trigger] channel(pixels[idx[i] as int], ch) <= hi,
    ensures
        idx.len() * lo <= channel_sum(pixels, idx, ch) <= idx.len() * hi,
    decreases idx.len(),
{
    if idx.len() > 0 {
        let q = idx.drop_last();
        assert forall|i: int| 0 <= i < q.len() implies lo <= #[trigger] channel(pixels[q[i] as int], ch) <= hi by {
            assert(q[i] == idx[i]);
        }
        lemma_channel_sum_range(pixels, q, ch, lo, hi);
        let v = channel(pixels[idx[idx.len() - 1] as int], ch);
        assert(lo <= v <= hi);
        assert(idx.len() * lo == q.len() * lo + lo) by (nonlinear_arith)
            requires idx.len() == q.len() + 1;
        assert(idx.len() * hi == q.len() * hi + hi) by (nonlinear_arith)
            requires idx.len() == q.len() + 1;
    }
}

/// A palette colour lies among the colours of its box: when every pixel of a
/// box has each channel between those of `lo` and `hi`, so does the box's
/// average; a box of pixels of one colour averages to that colour.
pub proof fn lemma_average_within(pixels: Seq<Rgb>, idx: Seq<usize>, lo: Rgb, hi: Rgb)
    requires
        idx.len() > 0,
        forall|i: int| 0 <= i < idx.len() ==> {
            let p = #[trigger] pixels[idx[i] as int];
            lo.0 <= p.0 <= hi.0 && lo.1 <= p.1 <= hi.1 && lo.2 <= p.2 <= hi.2
        },
    ensures
        ({
            let a = average(pixels, make_box(pixels, idx));
            lo.0 <= a.0 <= hi.0 && lo.1 <= a.1 <= hi.1 && lo.2 <= a.2 <= hi.2
        }),
{
    let n = idx.len();
    assert forall|i: int| 0 <= i < idx.len() implies lo.0 <= #[trigger] channel(pixels[idx[i] as int], 0) <= hi.0 by {
        let p = pixels[idx[i] as int];
    }
    assert forall|i: int| 0 <= i < idx.len() implies lo.1 <= #[trigger] channel(pixels[idx[i] as int], 1) <= hi.1 by {
        let p = pixels[idx[i] as int];
    }
    assert forall|i: int| 0 <= i < idx.len() implies lo.2 <= #[trigger] channel(pixels[idx[i] as int], 2) <= hi.2 by {
        let p = pixels[idx[i] as int];
    }
    lemma_channel_sum_range(pixels, idx, 0, lo.0 as nat, hi.0 as nat);
    lemma_channel_sum_range(pixels, idx, 1, lo.1 as nat, hi.1 as nat);
    lemma_channel_sum_range(pixels, idx, 2, lo.2 as nat, hi.2 as nat);
    let s0 = channel_sum(pixels, idx, 0);
    let s1 = channel_sum(pixels, idx, 1);
    let s2 = channel_sum(pixels, idx, 2);
    assert(lo.0 <= s0 / n <= hi.0) by (nonlinear_arith)
        requires n > 0, n * lo.0 <= s0 <= n * hi.0;
    assert(lo.1 <= s1 / n <= hi.1) by (nonlinear_arith)
        requires n > 0, n * lo.1 <= s1 <= n * hi.1;
    assert(lo.2 <= s2 / n <= hi.2) by (nonlinear_arith)
        requires n > 0, n * lo.2 <= s2 <= n * hi.2;
}

/// A box is cut along its widest channel (red when it is at least as wide as the
/// others, else green when at least as wide as blue, else blue): every pixel of
/// the lower half has a value along that channel no greater than every pixel of
/// the upper half. The halves hold the box's pixels between them, the lower one
/// half of them rounded down; a box of fewer than two pixels is not cut.
pub proof fn lemma_split_along_widest(pixels: Seq<Rgb>, idx: Seq<usize>)
    ensures
        match split_spec(pixels, make_box(pixels, idx)) {
            Some((l, r)) => {
                let b = bounds_of(pixels, idx);
                let dr = b.1 - b.0;
                let dg = b.3 - b.2;
                let db = b.5 - b.4;
                let c: nat = if dr >= dg && dr >= db { 0 } else if dg >= db { 1 } else { 2 };
                &&& l.indices.len() == idx.len() / 2
                &&& l.indices.len() + r.indices.len() == idx.len()
                &&& forall|x: int, y: int|
                    0 <= x < l.indices.len() && 0 <= y < r.indices.len() ==> channel(
                        #[trigger] pixels[l.indices[x] as int],
                        c,
                    ) <= channel(#[trigger] pixels[r.indices[y] as int], c)
            },
            None => idx.len() <= 1,
        },
{
    let bx = make_box(pixels, idx);
    let c = split_channel(bx.bounds);
    let keys = channel_keys(pixels, idx, c);
    let f = |e: usize| channel(pixels[e as int], c);
    lemma_sort_len(idx, keys);
    assert forall|i: int| 0 <= i < idx.len() implies #[trigger] keys[i] == f(idx[i]) by {}
    lemma_sort_sorted(idx, keys, f);
    let sorted = sort_by_keys(idx, keys);
    let mid = sorted.len() / 2;
    if idx.len() >= 2 {
        lemma_bounds_ordered(pixels, idx);
        let l = sorted.take(mid as int);
        let r = sorted.skip(mid as int);
        assert forall|x: int, y: int| 0 <= x < l.len() && 0 <= y < r.len() implies channel(
            #[trigger] pixels[l[x] as int],
            c,
        ) <= channel(#[trigger] pixels[r[y] as int], c) by {
            assert(l[x] == sorted[x]);
            assert(r[y] == sorted[mid + y]);
            assert(f(sorted[x]) <= f(sorted[mid + y]));
        }
    }
}

fn calc_bounds(pixels: &Vec<Rgb>, indices: &Vec<usize>) -> (res: Bounds)
    requires
        indices_valid(indices@, pixels@.len()),
    ensures
        res == bounds_of(pixels@, indices@),
{
    let mut r_min: u8 = 255;
    let mut r_max: u8 = 0;
    let mut g_min: u8 = 255;
    let mut g_max: u8 = 0;
    let mut b_min: u8 = 255;
    let mut b_max: u8 = 0;
    let mut i: usize = 0;
    while i < indices.len()
        invariant
            0 <= i <= indices.len(),
            indices_valid(indices@, pixels@.len()),
            (r_min, r_max, g_min, g_max, b_min, b_max) == bounds_of(pixels@, indices@.take(i as int)),
        decreases indices.len() - i,
    {
        let idx = indices[i];
        let (r, g, b) = pixels[idx];
        if r < r_min {
            r_min = r;
        }
        if r > r_max {
            r_max = r;
        }
        if g < g_min {
            g_min = g;
        }
        if g > g_max {
            g_max = g;
        }
        if b < b_min {
            b_min = b;
        }
        if b > b_max {
            b_max = b;
        }
        proof {
            assert(indices@.take(i + 1).drop_last() =~= indices@.take(i as int));
        }
        i = i + 1;
    }
    proof {
        assert(indices@.take(indices.len() as int) =~= indices@);
    }
    (r_min, r_max, g_min, g_max, b_min, b_max)
}

fn range_of(b: &ColorBox) -> (res: u8)
    requires
        b.r_min <= b.r_max,
        b.g_min <= b.g_max,
        b.b_min <= b.b_max,
    ensures
        res == box_range(b@.bounds),
{
    let dr = b.r_max - b.r_min;
    let dg = b.g_max - b.g_min;
    let db = b.b_max - b.b_min;
    let m = if dg > dr { dg } else { dr };
    if db > m { db } else { m }
}

fn split_box(b: &mut ColorBox, pixels: &Vec<Rgb>) -> (res: Option<(ColorBox, ColorBox)>)
    requires
        box_ok(pixels@, old(b)@),
    ensures
        match split_spec(pixels@, old(b)@) {
            Some((l, r)) => res matches Some((x, y)) && x@ == l && y@ == r,
            None => res is None && final(b)@ == old(b)@,
        },
{
    proof {
        lemma_bounds_ordered(pixels@, b@.indices);
    }
    let dr = b.r_max - b.r_min;
    let dg = b.g_max - b.g_min;
    let db = b.b_max - b.b_min;
    let ghost ch = split_channel(old(b)@.bounds);
    let mut keys: Vec<u8> = Vec::new();
    let mut i: usize = 0;
    while i < b.indices.len()
        invariant
            0 <= i <= b.indices.len(),
            b@ == old(b)@,
            box_ok(pixels@, b@),
            dr == (b.r_max - b.r_min) as u8,
            dg == (b.g_max - b.g_min) as u8,
            db == (b.b_max - b.b_min) as u8,
            ch == split_channel(b@.bounds),
            keys@ == channel_keys(pixels@, b.indices@, ch).take(i as int),
        decreases b.indices.len() - i,
    {
        let p = pixels[b.indices[i]];
        let key = if dr >= dg && dr >= db {
            p.0
        } else if dg >= db {
            p.1
        } else {
            p.2
        };
        keys.push(key);
        proof {
            assert(keys@ =~= channel_keys(pixels@, b.indices@, ch).take(i + 1));
        }
        i = i + 1;
    }
    proof {
        assert(keys@ =~= channel_keys(pixels@, b.indices@, ch));
    }
    let sorted = sort_copy_by_keys(&b.indices, &keys);
    proof {
        lemma_sort_len(old(b)@.indices, keys@);
        if old(b)@.indices.len() <= 1 {
            lemma_sort_small(old(b)@.indices, keys@);
        }
        let n = pixels@.len();
        lemma_sort_prop(old(b)@.indices, keys@, |j: usize| (j as nat) < n);
    }
    b.indices = sorted;

    let mid = b.indices.len() / 2;
    if mid == 0 || mid == b.indices.len() {
        return None;
    }
    let right_indices = b.indices.split_off(mid);
    let mut left_indices: Vec<usize> = Vec::new();
    std::mem::swap(&mut left_indices, &mut b.indices);
    let (lr_min, lr_max, lg_min, lg_max, lb_min, lb_max) = calc_bounds(pixels, &left_indices);
    let (rr_min, rr_max, rg_min, rg_max, rb_min, rb_max) = calc_bounds(pixels, &right_indices);
    let left = ColorBox {
        indices: left_indices,
        r_min: lr_min,
        r_max: lr_max,
        g_min: lg_min,
        g_max: lg_max,
        b_min: lb_min,
        b_max: lb_max,
    };
    let right = ColorBox {
        indices: right_indices,
        r_min: rr_min,
        r_max: rr_max,
        g_min: rg_min,
        g_max: rg_max,
        b_min: rb_min,
        b_max: rb_max,
    };
    proof {
        assert(left@.indices =~= sort_by_keys(old(b)@.indices, keys@).take(mid as int));
        assert(right@.indices =~= sort_by_keys(old(b)@.indices, keys@).skip(mid as int));
    }
    Some((left, right))
}


/// Keeps the views of a list of boxes.
spec fn views(boxes: Seq<ColorBox>) -> Seq<BoxSpec> {
    boxes.map_values(|b: ColorBox| b@)
}

/// Sum of a channel over the pixels of a box, computed front to back.
fn box_channel_sums(pixels: &Vec<Rgb>, indices: &Vec<usize>) -> (res: (u128, u128, u128))
    requires
        indices_valid(indices@, pixels@.len()),
    ensures
        res.0 as nat == channel_sum(pixels@, indices@, 0),
        res.1 as nat == channel_sum(pixels@, indices@, 1),
        res.2 as nat == channel_sum(pixels@, indices@, 2),
{
    let len: usize = indices.len();
    let mut r: u128 = 0;
    let mut g: u128 = 0;
    let mut b: u128 = 0;
    let mut i: usize = 0;
    while i < indices.len()
        invariant
            0 <= i <= indices.len(),
            len == indices@.len(),
            indices_valid(indices@, pixels@.len()),
            r as nat == channel_sum(pixels@, indices@.take(i as int), 0),
            g as nat == channel_sum(pixels@, indices@.take(i as int), 1),
            b as nat == channel_sum(pixels@, indices@.take(i as int), 2),
            r <= 255 * i,
            g <= 255 * i,
            b <= 255 * i,
        decreases indices.len() - i,
    {
        let p = pixels[indices[i]];
        proof {
            assert(indices@.take(i + 1).drop_last() =~= indices@.take(i as int));
        }
        r = r + p.0 as u128;
        g = g + p.1 as u128;
        b = b + p.2 as u128;
        i = i + 1;
    }
    proof {
        assert(indices@.take(indices.len() as int) =~= indices@);
    }
    (r, g, b)
}

/// Median-cut palette of at most `max_colors` colours for `pixels`.
pub fn median_cut(pixels: &Vec<Rgb>, max_colors: usize) -> (res: Vec<Rgb>)
    ensures
        res@ == median_cut_palette(pixels@, max_colors as nat),
{
    if pixels.len() == 0 || max_colors == 0 {
        return Vec::new();
    }
    let n = pixels.len();
    let mut all_idx: Vec<usize> = Vec::new();
    let mut i: usize = 0;
    while i < n
        invariant
            0 <= i <= n,
            n == pixels@.len(),
            all_idx@ == all_indices(i as nat),
        decreases n - i,
    {
        all_idx.push(i);
        proof {
            assert(all_idx@ =~= all_indices((i + 1) as nat));
        }
        i = i + 1;
    }
    let (r_min, r_max, g_min, g_max, b_min, b_max) = calc_bounds(pixels, &all_idx);
    let first = ColorBox { indices: all_idx, r_min, r_max, g_min, g_max, b_min, b_max };
    let mut boxes: Vec<ColorBox> = Vec::new();
    boxes.push(first);
    let ghost target = cut_boxes(pixels@, seq![make_box(pixels@, all_indices(n as nat))], max_colors as nat);
    proof {
        assert(views(boxes@) =~= seq![make_box(pixels@, all_indices(n as nat))]);
    }

    while boxes.len() < max_colors
        invariant_except_break
            cut_boxes(pixels@, views(boxes@), max_colors as nat) == target,
            boxes.len() >= 1,
            forall|j: int| 0 <= j < boxes.len() ==> box_ok(pixels@, #[trigger] boxes@[j]@),
        ensures
            views(boxes@) == target,
            forall|j: int| 0 <= j < boxes.len() ==> box_ok(pixels@, #[trigger] boxes@[j]@),
        decreases max_colors - boxes.len(),
    {
        let ghost before = views(boxes@);
        let mut keys: Vec<u8> = Vec::new();
        let mut j: usize = 0;
        while j < boxes.len()
            invariant
                0 <= j <= boxes.len(),
                before == views(boxes@),
                forall|t: int| 0 <= t < boxes.len() ==> box_ok(pixels@, #[trigger] boxes@[t]@),
                keys@ == range_keys(before).take(j as int),
            decreases boxes.len() - j,
        {
            proof {
                assert(box_ok(pixels@, boxes@[j as int]@));
                lemma_bounds_ordered(pixels@, boxes@[j as int]@.indices);
            }
            let rg = range_of(&boxes[j]);
            keys.push(255 - rg);
            proof {
                assert(before[j as int] == boxes@[j as int]@);
                assert(keys@ =~= range_keys(before).take(j + 1));
            }
            j = j + 1;
        }
        proof {
            assert(keys@ =~= range_keys(before));
        }
        let ghost unsorted = boxes@;
        boxes = sort_owned_by_keys(boxes, &keys);
        proof {
            lemma_sort_map(unsorted, keys@, |b: ColorBox| b@);
            lemma_sort_len(unsorted, keys@);
            let pv = pixels@;
            lemma_sort_prop(unsorted, keys@, |b: ColorBox| box_ok(pv, b@));
            assert(views(boxes@) == sort_by_keys(before, range_keys(before)));
        }
        let mut largest = boxes.remove(0);
        proof {
            assert(box_ok(pixels@, largest@));
            assert(views(boxes@) =~= sort_by_keys(before, range_keys(before)).drop_first());
        }
        match split_box(&mut largest, pixels) {
            Some((left, right)) => {
                proof {
                    let srt = sort_by_keys(before, range_keys(before));
                    lemma_sort_len(srt[0].indices, channel_keys(pixels@, srt[0].indices, split_channel(srt[0].bounds)));
                    lemma_sort_prop(srt[0].indices, channel_keys(pixels@, srt[0].indices, split_channel(srt[0].bounds)),
                        |j: usize| (j as nat) < pixels@.len());
                }
                boxes.push(left);
                boxes.push(right);
                proof {
                    let srt = sort_by_keys(before, range_keys(before));
                    assert(views(boxes@) =~= srt.drop_first().push(left@).push(right@));
                    assert(box_ok(pixels@, left@));
                    assert(box_ok(pixels@, right@));
                }
            },
            None => {
                boxes.push(largest);
                proof {
                    let srt = sort_by_keys(before, range_keys(before));
                    assert(views(boxes@) =~= srt.drop_first().push(srt[0]));
                }
                break ;
            },
        }
    }

    let mut palette: Vec<Rgb> = Vec::new();
    let mut j: usize = 0;
    while j < boxes.len()
        invariant
            0 <= j <= boxes.len(),
            views(boxes@) == target,
            forall|t: int| 0 <= t < boxes.len() ==> box_ok(pixels@, #[trigger] boxes@[t]@),
            palette@ == target.take(j as int).map_values(|b: BoxSpec| average(pixels@, b)),
        decreases boxes.len() - j,
    {
        proof {
            assert(box_ok(pixels@, boxes@[j as int]@));
            assert(target[j as int] == boxes@[j as int]@);
        }
        let count = boxes[j].indices.len() as u128;
        let (r_sum, g_sum, b_sum) = box_channel_sums(pixels, &boxes[j].indices);
        palette.push(((r_sum / count) as u8, (g_sum / count) as u8, (b_sum / count) as u8));
        proof {
            assert(palette@ =~= target.take(j + 1).map_values(|b: BoxSpec| average(pixels@, b)));
        }
        j = j + 1;
    }
    proof {
        assert(target.take(boxes.len() as int) =~= target);
    }
    palette
}


/// Cutting never produces more than `max_colors` boxes when it starts with at most that many.
pub proof fn lemma_cut_boxes_len(pixels: Seq<Rgb>, boxes: Seq<BoxSpec>, max_colors: nat)
    requires
        boxes.len() <= max_colors,
    ensures
        cut_boxes(pixels, boxes, max_colors).len() <= max_colors,
    decreases max_colors - boxes.len(),
{
    if boxes.len() < max_colors && boxes.len() > 0 {
        lemma_sort_len(boxes, range_keys(boxes));
        let sorted = sort_by_keys(boxes, range_keys(boxes));
        let rest = sorted.drop_first();
        match split_spec(pixels, sorted[0]) {
            Some((l, r)) => {
                lemma_cut_boxes_len(pixels, rest.push(l).push(r), max_colors);
            },
            None => {},
        }
    }
}

/// Cutting keeps at least one box when it starts with one.
pub proof fn lemma_cut_boxes_nonempty(pixels: Seq<Rgb>, boxes: Seq<BoxSpec>, max_colors: nat)
    requires
        boxes.len() >= 1,
    ensures
        cut_boxes(pixels, boxes, max_colors).len() >= 1,
    decreases max_colors - boxes.len(),
{
    if boxes.len() < max_colors {
        lemma_sort_len(boxes, range_keys(boxes));
        let sorted = sort_by_keys(boxes, range_keys(boxes));
        let rest = sorted.drop_first();
        match split_spec(pixels, sorted[0]) {
            Some((l, r)) => {
                lemma_cut_boxes_nonempty(pixels, rest.push(l).push(r), max_colors);
            },
            None => {},
        }
    }
}

/// The median-cut palette of some pixels has at least one colour when colours are allowed.
pub proof fn lemma_median_cut_nonempty(pixels: Seq<Rgb>, max_colors: nat)
    requires
        pixels.len() > 0,
        max_colors > 0,
    ensures
        median_cut_palette(pixels, max_colors).len() >= 1,
{
    lemma_cut_boxes_nonempty(pixels, seq![make_box(pixels, all_indices(pixels.len()))], max_colors);
}

/// The median-cut palette has at most `max_colors` colours.
pub proof fn lemma_median_cut_len(pixels: Seq<Rgb>, max_colors: nat)
    ensures
        median_cut_palette(pixels, max_colors).len() <= max_colors,
{
    if pixels.len() > 0 && max_colors > 0 {
        lemma_cut_boxes_len(pixels, seq![make_box(pixels, all_indices(pixels.len()))], max_colors);
    }
}

} // verus!
