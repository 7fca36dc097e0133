//! Palette selection for the sixel encoder: the distinct colours of a frame,
//! nearest-colour matching and the 512-entry colour lookup table.

use vstd::prelude::*;
use std::collections::HashMap;
use crate::sixel::median::Rgb;

verus! {

broadcast use vstd::std_specs::hash::group_hash_axioms;

/// The colour of pixel `i` in a buffer of `stride` bytes per pixel (RGB first).
pub open spec fn pixel_at(data: Seq<u8>, stride: nat, i: nat) -> Rgb {
    (data[(i * stride) as int], data[(i * stride + 1) as int], data[(i * stride + 2) as int])
}

/// The colours of the first `n` pixels.
pub open spec fn pixels_of(data: Seq<u8>, stride: nat, n: nat) -> Seq<Rgb> {
    Seq::new(n, |i: int| pixel_at(data, stride, i as nat))
}

/// The distinct colours of `px`, in order of first appearance.
pub open spec fn distinct_colors(px: Seq<Rgb>) -> Seq<Rgb>
    decreases px.len(),
{
    if px.len() == 0 {
        seq![]
    } else {
        let p = distinct_colors(px.drop_last());
        if p.contains(px.last()) {
            p
        } else {
            p.push(px.last())
        }
    }
}

/// Position of the first occurrence of `c` in `s`, or 0 when `c` does not occur.
pub open spec fn first_index(s: Seq<Rgb>, c: Rgb) -> nat
    decreases s.len(),
{
    if s.len() == 0 {
        0
    } else if s.drop_last().contains(c) {
        first_index(s.drop_last(), c)
    } else if s.last() == c {
        (s.len() - 1) as nat
    } else {
        0
    }
}

/// Squared Euclidean distance between two colours.
pub open spec fn sq_dist(a: Rgb, b: Rgb) -> int {
    (a.0 - b.0) * (a.0 - b.0) + (a.1 - b.1) * (a.1 - b.1) + (a.2 - b.2) * (a.2 - b.2)
}

/// Position of the palette colour nearest to `c`; the first one on ties, 0 for an
/// empty palette.
pub open spec fn nearest_index(palette: Seq<Rgb>, c: Rgb) -> nat
    decreases palette.len(),
{
    if palette.len() <= 1 {
        0
    } else {
        let j = nearest_index(palette.drop_last(), c);
        if sq_dist(c, palette.last()) < sq_dist(c, palette[j as int]) {
            (palette.len() - 1) as nat
        } else {
            j
        }
    }
}

/// The nearest colour is one of the palette's.
pub proof fn lemma_nearest_index_bound(palette: Seq<Rgb>, c: Rgb)
    requires
        palette.len() >= 1,
    ensures
        nearest_index(palette, c) < palette.len(),
    decreases palette.len(),
{
    if palette.len() > 1 {
        lemma_nearest_index_bound(palette.drop_last(), c);
    }
}

/// The colour picked as nearest to `c` is at least as close to it as every
/// palette colour, measured by the squared distance over all three channels,
/// and strictly closer than every colour before it (ties go to the first).
pub proof fn lemma_nearest_is_closest(palette: Seq<Rgb>, c: Rgb)
    requires
        palette.len() >= 1,
    ensures
        ({
            let q = palette[nearest_index(palette, c) as int];
            &&& forall|j: int| 0 <= j < palette.len() ==> {
                let p = #[trigger] palette[j];
                (c.0 - q.0) * (c.0 - q.0) + (c.1 - q.1) * (c.1 - q.1) + (c.2 - q.2) * (c.2 - q.2)
                    <= (c.0 - p.0) * (c.0 - p.0) + (c.1 - p.1) * (c.1 - p.1) + (c.2 - p.2) * (c.2 - p.2)
            }
            &&& forall|j: int| 0 <= j < nearest_index(palette, c) ==> {
                let p = #[trigger] palette[j];
                (c.0 - q.0) * (c.0 - q.0) + (c.1 - q.1) * (c.1 - q.1) + (c.2 - q.2) * (c.2 - q.2)
                    < (c.0 - p.0) * (c.0 - p.0) + (c.1 - p.1) * (c.1 - p.1) + (c.2 - p.2) * (c.2 - p.2)
            }
        }),
    decreases palette.len(),
{
    lemma_nearest_index_bound(palette, c);
    if palette.len() > 1 {
        let init = palette.drop_last();
        lemma_nearest_is_closest(init, c);
        lemma_nearest_index_bound(init, c);
        let j0 = nearest_index(init, c);
        assert(init[j0 as int] == palette[j0 as int]);
        assert forall|j: int| 0 <= j < palette.len() - 1 implies #[trigger] palette[j] == init[j] by {}
    }
}

/// A colour that occurs in a list is found at a position inside it.
pub proof fn lemma_first_index_bound(s: Seq<Rgb>, c: Rgb)
    requires
        s.contains(c),
    ensures
        first_index(s, c) < s.len(),
        s[first_index(s, c) as int] == c,
    decreases s.len(),
{
    if s.drop_last().contains(c) {
        lemma_first_index_bound(s.drop_last(), c);
    } else {
        let j = choose|j: int| 0 <= j < s.len() && s[j] == c;
        if j < s.len() - 1 {
            assert(s.drop_last()[j] == c);
        }
    }
}

/// The packed 24-bit key of a colour.
pub open spec fn color_key(c: Rgb) -> u32 {
    ((c.0 as u32) << 16u32) | ((c.1 as u32) << 8u32) | (c.2 as u32)
}

/// Distinct colours have distinct keys.
pub proof fn lemma_color_key_injective(a: Rgb, b: Rgb)
    ensures
        color_key(a) == color_key(b) ==> a == b,
{
    let (r1, g1, b1) = a;
    let (r2, g2, b2) = b;
    assert(((r1 as u32) << 16u32) | ((g1 as u32) << 8u32) | (b1 as u32) == ((r2 as u32) << 16u32) | ((g2 as u32) << 8u32) | (b2 as u32)
        ==> r1 == r2 && g1 == g2 && b1 == b2) by (bit_vector);
}

pub fn pack(r: u8, g: u8, b: u8) -> (k: u32)
    ensures
        k == color_key((r, g, b)),
{
    ((r as u32) << 16) | ((g as u32) << 8) | b as u32
}

/// Bytes per pixel of a buffer holding `n` pixels: 4 (RGBA) or 3 (RGB).
pub fn byte_stride(data: &[u8], n: usize) -> (res: usize)
    requires
        data@.len() == n * 4 || data@.len() == n * 3,
    ensures
        res == (if data@.len() == n * 4 { 4usize } else { 3usize }),
{
    let total = data.len();
    if n <= usize::MAX / 4 && total == n * 4 {
        return 4;
    }
    3
}

/// Reading pixel `i` stays inside a buffer of `n` pixels.
pub proof fn lemma_pixel_in_bounds(i: nat, n: nat, stride: nat)
    requires
        i < n,
        stride >= 3,
    ensures
        i * stride + 2 < n * stride,
{
    assert(i * stride + 2 < n * stride) by (nonlinear_arith)
        requires i < n, stride >= 3;
}

/// The distinct-colour list has no repeats, and holds exactly the colours of `px`.
pub proof fn lemma_distinct_colors(px: Seq<Rgb>)
    ensures
        distinct_colors(px).no_duplicates(),
        forall|i: int| 0 <= i < px.len() ==> distinct_colors(px).contains(#[trigger] px[i]),
        distinct_colors(px).len() <= px.len(),
    decreases px.len(),
{
    if px.len() > 0 {
        let q = px.drop_last();
        lemma_distinct_colors(q);
        let p = distinct_colors(q);
        if !p.contains(px.last()) {
            let t = p.push(px.last());
            assert forall|a: int, b: int| 0 <= a < t.len() && 0 <= b < t.len() && a != b implies t[a] != t[b] by {
                if a < p.len() && b < p.len() {
                    assert(t[a] == p[a] && t[b] == p[b]);
                } else if a < p.len() {
                    assert(t[a] == p[a]);
                } else {
                    assert(t[b] == p[b]);
                }
            }
            assert forall|i: int| 0 <= i < px.len() implies t.contains(#[trigger] px[i]) by {
                if i < px.len() - 1 {
                    assert(q[i] == px[i]);
                    let j = choose|j: int| 0 <= j < p.len() && p[j] == q[i];
                    assert(t[j] == px[i]);
                } else {
                    assert(t[p.len() as int] == px[i]);
                }
            }
        } else {
            assert forall|i: int| 0 <= i < px.len() implies p.contains(#[trigger] px[i]) by {
                if i < px.len() - 1 {
                    assert(q[i] == px[i]);
                }
            }
        }
    }
}

/// In a list without repeats, an element's first position is its position.
pub proof fn lemma_first_index_nodup(s: Seq<Rgb>, j: int)
    requires
        s.no_duplicates(),
        0 <= j < s.len(),
    ensures
        first_index(s, s[j]) == j,
    decreases s.len(),
{
    let q = s.drop_last();
    if j < s.len() - 1 {
        assert(q[j] == s[j]);
        assert(q.no_duplicates()) by {
            assert forall|a: int, b: int| 0 <= a < q.len() && 0 <= b < q.len() && a != b implies q[a] != q[b] by {
                assert(q[a] == s[a] && q[b] == s[b]);
            }
        }
        lemma_first_index_nodup(q, j);
    } else {
        assert(!q.contains(s[j])) by {
            if q.contains(s[j]) {
                let k = choose|k: int| 0 <= k < q.len() && q[k] == s[j];
                assert(s[k] == s[j]);
            }
        }
    }
}

/// The distinct colours of the first `n` pixels of `data` (in order of first
/// appearance) and, for each pixel, the position of its colour among them.
pub fn collect_unique_colors(data: &[u8], n: usize, stride: usize) -> (res: (Vec<Rgb>, Vec<u16>))
    requires
        stride == 3 || stride == 4,
        data@.len() == n * stride,
    ensures
        res.0@ == distinct_colors(pixels_of(data@, stride as nat, n as nat)),
        res.1@.len() == n,
        forall|i: int| 0 <= i < n ==> #[trigger] res.1@[i] == first_index(
            res.0@,
            pixels_of(data@, stride as nat, n as nat)[i],
        ) as u16,
{
    let ghost px = pixels_of(data@, stride as nat, n as nat);
    let mut unique_colors: HashMap<u32, usize> = HashMap::new();
    let mut palette: Vec<Rgb> = Vec::new();
    let mut indices: Vec<u16> = Vec::new();
    let total: usize = data.len();
    let mut i: usize = 0;
    proof {
        assert(px.take(0) =~= Seq::<Rgb>::empty());
    }
    while i < n
        invariant
            0 <= i <= n,
            total == data@.len(),
            stride == 3 || stride == 4,
            data@.len() == n * stride,
            px == pixels_of(data@, stride as nat, n as nat),
            palette@ == distinct_colors(px.take(i as int)),
            indices@.len() == i,
            forall|j: int| 0 <= j < i ==> #[trigger] indices@[j] == first_index(palette@, px[j]) as u16,
            forall|k: u32| #[trigger] unique_colors@.contains_key(k) <==> exists|j: int| 0 <= j < palette@.len() && color_key(palette@[j]) == k,
            forall|j: int| 0 <= j < palette@.len() ==> #[trigger] unique_colors@[color_key(palette@[j])] == j,
        decreases n - i,
    {
        proof {
            lemma_pixel_in_bounds(i as nat, n as nat, stride as nat);
            lemma_distinct_colors(px.take(i as int));
        }
        let pi = i * stride;
        let r = data[pi];
        let g = data[pi + 1];
        let b = data[pi + 2];
        let key = pack(r, g, b);
        let ghost c = (r, g, b);
        assert(px[i as int] == c);
        let ghost old_pal = palette@;
        proof {
            assert(px.take(i + 1).drop_last() =~= px.take(i as int));
            assert(px.take(i + 1).last() == c);
        }
        let idx: usize;
        match unique_colors.get(&key) {
            Some(v) => {
                idx = *v;
                proof {
                    let j = choose|j: int| 0 <= j < old_pal.len() && color_key(old_pal[j]) == key;
                    lemma_color_key_injective(old_pal[j], c);
                    assert(old_pal[j] == c);
                    assert(old_pal.contains(c));
                    lemma_first_index_nodup(old_pal, j);
                }
            },
            None => {
                proof {
                    assert(!old_pal.contains(c)) by {
                        if old_pal.contains(c) {
                            let j = choose|j: int| 0 <= j < old_pal.len() && old_pal[j] == c;
                            assert(unique_colors@.contains_key(color_key(old_pal[j])));
                        }
                    }
                }
                idx = palette.len();
                palette.push((r, g, b));
                unique_colors.insert(key, idx);
                proof {
                    let np = palette@;
                    assert(np.drop_last() == old_pal);
                    assert forall|k: u32| #[trigger] unique_colors@.contains_key(k) <==> exists|j: int| 0 <= j < np.len() && color_key(np[j]) == k by {
                        if unique_colors@.contains_key(k) && k != key {
                            let j = choose|j: int| 0 <= j < old_pal.len() && color_key(old_pal[j]) == k;
                            assert(np[j] == old_pal[j]);
                        }
                        if k == key {
                            assert(np[old_pal.len() as int] == c);
                        }
                        if exists|j: int| 0 <= j < np.len() && color_key(np[j]) == k {
                            let j = choose|j: int| 0 <= j < np.len() && color_key(np[j]) == k;
                            if j < old_pal.len() {
                                assert(np[j] == old_pal[j]);
                            }
                        }
                    }
                    assert forall|j: int| 0 <= j < np.len() implies #[trigger] unique_colors@[color_key(np[j])] == j by {
                        if j < old_pal.len() {
                            assert(np[j] == old_pal[j]);
                            lemma_color_key_injective(old_pal[j], c);
                            assert(old_pal[j] != c);
                        }
                    }
                    assert(first_index(np, c) == old_pal.len());
                }
            },
        }
        indices.push(#[verifier::truncate] (idx as u16));
        proof {
            let np = palette@;
            assert forall|j: int| 0 <= j < i + 1 implies #[trigger] indices@[j] == first_index(np, px[j]) as u16 by {
                if j < i {
                    lemma_distinct_colors(px.take(i as int));
                    assert(px.take(i as int)[j] == px[j]);
                    assert(old_pal.contains(px[j]));
                    if np != old_pal {
                        assert(np.drop_last() == old_pal);
                    }
                }
            }
        }
        i = i + 1;
    }
    proof {
        assert(px.take(n as int) =~= px);
    }
    (palette, indices)
}


/// Position of the palette colour nearest to (`r`, `g`, `b`).
pub fn nearest(palette: &Vec<Rgb>, r: u8, g: u8, b: u8) -> (res: usize)
    ensures
        res == nearest_index(palette@, (r, g, b)),
        palette@.len() > 0 ==> res < palette@.len(),
{
    let ghost c: Rgb = (r, g, b);
    let mut best_dist: u32 = u32::MAX;
    let mut best_idx: usize = 0;
    let mut j: usize = 0;
    while j < palette.len()
        invariant
            0 <= j <= palette.len(),
            c == (r, g, b),
            j == 0 ==> best_dist == u32::MAX && best_idx == 0,
            j > 0 ==> best_idx == nearest_index(palette@.take(j as int), c) && best_idx < j
                && best_dist as int == sq_dist(c, palette@[best_idx as int]),
        decreases palette.len() - j,
    {
        let (pr, pg, pb) = palette[j];
        let dr: i32 = r as i32 - pr as i32;
        let dg: i32 = g as i32 - pg as i32;
        let db: i32 = b as i32 - pb as i32;
        assert(dr * dr <= 65025 && dg * dg <= 65025 && db * db <= 65025 && dr * dr >= 0 && dg * dg >= 0 && db * db >= 0)
            by (nonlinear_arith)
            requires -255 <= dr <= 255, -255 <= dg <= 255, -255 <= db <= 255;
        let d: u32 = (dr * dr + dg * dg + db * db) as u32;
        proof {
            assert(palette@.take(j + 1).drop_last() =~= palette@.take(j as int));
            assert(palette@.take(j + 1).last() == palette@[j as int]);
            if j > 0 {
                assert(palette@.take(j + 1)[best_idx as int] == palette@[best_idx as int]);
            }
            assert(d as int == sq_dist(c, palette@[j as int]));
        }
        if d < best_dist {
            best_dist = d;
            best_idx = j;
        }
        j = j + 1;
    }
    proof {
        assert(palette@.take(palette.len() as int) =~= palette@);
    }
    best_idx
}

/// Channel value at the centre of cell `v` of a channel split into eight cells.
pub open spec fn lut_mid(v: nat) -> nat {
    (v * 255 + 3) / 7
}

/// Cell of the lookup table holding a colour: the top three bits of each channel.
pub open spec fn lut_key(c: Rgb) -> nat {
    (c.0 as nat / 32) * 64 + (c.1 as nat / 32) * 8 + c.2 as nat / 32
}

/// The table entry of cell `key`: the palette colour nearest to the cell's centre.
pub open spec fn lut_entry(palette: Seq<Rgb>, key: nat) -> u16 {
    nearest_index(palette, (lut_mid(key / 64) as u8, lut_mid((key / 8) % 8) as u8, lut_mid(key % 8) as u8)) as u16
}

/// 3D colour lookup table: 3 bits per channel, 512 cells, each holding the index of
/// the palette colour nearest to the cell's centre.
pub struct ColorLut {
    table: [u16; 512],
    palette: Vec<Rgb>,
}

impl ColorLut {
    /// The table entries.
    pub closed spec fn entries(&self) -> Seq<u16> {
        self.table@
    }

    /// The table always has 512 cells.
    pub proof fn lemma_entries_len(&self)
        ensures
            self.entries().len() == 512,
    {
    }

    /// The palette the table was last built from.
    pub closed spec fn source(&self) -> Seq<Rgb> {
        self.palette@
    }

    /// A table with every cell 0 and no palette.
    pub fn new() -> (res: Self)
        ensures
            res.entries().len() == 512,
            forall|k: int| 0 <= k < 512 ==> #[trigger] res.entries()[k] == 0,
            res.source() == Seq::<Rgb>::empty(),
    {
        ColorLut { table: [0u16; 512], palette: Vec::new() }
    }

    /// Rebuilds the table for `palette`; with an empty palette the cells are left as they are.
    #[verifier::spinoff_prover]
    #[verifier::rlimit(50)]
    pub fn rebuild(&mut self, palette: &Vec<Rgb>)
        requires
            old(self).entries().len() == 512,
        ensures
            final(self).source() == palette@,
            final(self).entries().len() == 512,
            palette@.len() == 0 ==> final(self).entries() == old(self).entries(),
            palette@.len() > 0 ==> forall|k: int| 0 <= k < 512 ==> #[trigger] final(self).entries()[k] == lut_entry(palette@, k as nat),
    {
        self.palette.clear();
        let mut i: usize = 0;
        while i < palette.len()
            invariant
                0 <= i <= palette.len(),
                self.palette@ == palette@.take(i as int),
                self.table@.len() == 512,
                self.table@ == old(self).table@,
            decreases palette.len() - i,
        {
            self.palette.push(palette[i]);
            assert(self.palette@ =~= palette@.take(i + 1));
            i = i + 1;
        }
        assert(self.palette@ =~= palette@);
        if palette.len() == 0 {
            return;
        }
        let mut r3: u8 = 0;
        while r3 < 8
            invariant
                0 <= r3 <= 8,
                self.palette@ == palette@,
                palette@.len() > 0,
                self.table@.len() == 512,
                forall|k: int| 0 <= k < (r3 as int) * 64 ==> #[trigger] self.table@[k] == lut_entry(palette@, k as nat),
            decreases 8 - r3,
        {
            let r_mid: u32 = (r3 as u32 * 255 + 3) / 7;
            let mut g3: u8 = 0;
            while g3 < 8
                invariant
                    0 <= r3 < 8,
                    0 <= g3 <= 8,
                    self.palette@ == palette@,
                    palette@.len() > 0,
                    r_mid == lut_mid(r3 as nat),
                    self.table@.len() == 512,
                    forall|k: int| 0 <= k < (r3 as int) * 64 + (g3 as int) * 8 ==> #[trigger] self.table@[k] == lut_entry(palette@, k as nat),
                decreases 8 - g3,
            {
                let g_mid: u32 = (g3 as u32 * 255 + 3) / 7;
                let mut b3: u8 = 0;
                while b3 < 8
                    invariant
                        0 <= r3 < 8,
                        0 <= g3 < 8,
                        0 <= b3 <= 8,
                        self.palette@ == palette@,
                        palette@.len() > 0,
                        r_mid == lut_mid(r3 as nat),
                        g_mid == lut_mid(g3 as nat),
                        self.table@.len() == 512,
                        forall|k: int| 0 <= k < (r3 as int) * 64 + (g3 as int) * 8 + (b3 as int) ==> #[trigger] self.table@[k] == lut_entry(palette@, k as nat),
                    decreases 8 - b3,
                {
                    let b_mid: u32 = (b3 as u32 * 255 + 3) / 7;
                    let key: usize = ((r3 as usize) << 6) | ((g3 as usize) << 3) | (b3 as usize);
                    assert(key == (r3 as usize) * 64 + (g3 as usize) * 8 + (b3 as usize)) by (bit_vector)
                        requires
                            r3 < 8, g3 < 8, b3 < 8,
                            key == ((r3 as usize) << 6) | ((g3 as usize) << 3) | (b3 as usize);
                    let best = nearest(&self.palette, r_mid as u8, g_mid as u8, b_mid as u8);
                    proof {
                        let k = key as nat;
                        assert(k / 64 == r3 as nat);
                        assert((k / 8) % 8 == g3 as nat);
                        assert(k % 8 == b3 as nat);
                    }
                    self.table[key] = #[verifier::truncate] (best as u16);
                    b3 = b3 + 1;
                }
                g3 = g3 + 1;
            }
            r3 = r3 + 1;
        }
    }

    /// The palette index stored for the cell of (`r`, `g`, `b`).
    pub fn lookup(&self, r: u8, g: u8, b: u8) -> (res: u16)
        requires
            self.entries().len() == 512,
        ensures
            res == self.entries()[lut_key((r, g, b)) as int],
    {
        let r3 = r >> 5;
        let g3 = g >> 5;
        let b3 = b >> 5;
        assert(r3 == r / 32 && g3 == g / 32 && b3 == b / 32 && r3 < 8 && g3 < 8 && b3 < 8) by (bit_vector)
            requires r3 == r >> 5, g3 == g >> 5, b3 == b >> 5;
        let key: usize = ((r3 as usize) << 6) | ((g3 as usize) << 3) | (b3 as usize);
        assert(key == (r3 as usize) * 64 + (g3 as usize) * 8 + (b3 as usize)) by (bit_vector)
            requires
                r3 < 8, g3 < 8, b3 < 8,
                key == ((r3 as usize) << 6) | ((g3 as usize) << 3) | (b3 as usize);
        self.table[key]
    }
}


/// `first_index` is the position of the first match when there is one, and 0 otherwise.
pub proof fn lemma_first_index_scan(s: Seq<Rgb>, c: Rgb, j: int)
    requires
        0 <= j <= s.len(),
        forall|k: int| 0 <= k < j ==> s[k] != c,
        j < s.len() ==> s[j] == c,
    ensures
        first_index(s, c) == (if j < s.len() { j as nat } else { 0nat }),
    decreases s.len(),
{
    if s.len() > 0 {
        let q = s.drop_last();
        if j < q.len() {
            assert(q[j] == c);
            assert forall|k: int| 0 <= k < j implies q[k] != c by {
                assert(q[k] == s[k]);
            }
            lemma_first_index_scan(q, c, j);
            assert(q.contains(c));
        } else {
            assert(!q.contains(c)) by {
                if q.contains(c) {
                    let k = choose|k: int| 0 <= k < q.len() && q[k] == c;
                    assert(s[k] == c);
                }
            }
            if j == s.len() {
                assert(s[s.len() - 1] != c);
            }
        }
    }
}

/// Position of the first packed colour equal to `key`.
pub fn position_of(packed: &Vec<u32>, key: u32) -> (res: Option<usize>)
    ensures
        match res {
            Some(j) => j < packed@.len() && packed@[j as int] == key && forall|k: int| 0 <= k < j ==> packed@[k] != key,
            None => forall|k: int| 0 <= k < packed@.len() ==> packed@[k] != key,
        },
{
    let mut j: usize = 0;
    while j < packed.len()
        invariant
            0 <= j <= packed.len(),
            forall|k: int| 0 <= k < j ==> packed@[k] != key,
        decreases packed.len() - j,
    {
        if packed[j] == key {
            return Some(j);
        }
        j = j + 1;
    }
    None
}

} // verus!
