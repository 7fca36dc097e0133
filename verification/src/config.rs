//! Command-line settings that carry rules of their own: the `WIDTHxHEIGHT` size
//! syntax and the accepted range of the sixel colour budget.

use vstd::prelude::*;
use vstd::slice::slice_subrange;
use crate::decimal::decimal;
use crate::strings::{all_digits, digits_value, is_digit, parse_u32, parse_u32_chars, str_chars, unsigned_part};
use crate::text::ascii_chars;

verus! {

/// The first position of `c` in `s`: the least index holding `c`.
pub open spec fn is_first_index(s: Seq<char>, c: char, i: int) -> bool {
    &&& 0 <= i < s.len()
    &&& s[i] == c
    &&& forall|j: int| 0 <= j < i ==> s[j] != c
}

/// `s.split_once(c)`: the text before and after the first `c`, if there is one.
pub open spec fn split_once(s: Seq<char>, c: char) -> Option<(Seq<char>, Seq<char>)> {
    if exists|i: int| is_first_index(s, c, i) {
        let i = choose|i: int| is_first_index(s, c, i);
        Some((s.take(i), s.skip(i + 1)))
    } else {
        None
    }
}

/// A size written `WIDTHxHEIGHT`: split at the first `x`, both sides parsed as
/// `u32` numbers.
pub open spec fn size_of_text(s: Seq<char>) -> Option<(u32, u32)> {
    match split_once(s, 'x') {
        Some((w, h)) => match (parse_u32(w), parse_u32(h)) {
            (Some(a), Some(b)) => Some((a, b)),
            _ => None,
        },
        None => None,
    }
}

proof fn lemma_first_index_unique(s: Seq<char>, c: char, i: int, k: int)
    requires
        is_first_index(s, c, i),
        is_first_index(s, c, k),
    ensures
        i == k,
{
    if i < k {
        assert(s[i] != c);
    } else if k < i {
        assert(s[k] != c);
    }
}

fn first_index_of(s: &[char], c: char) -> (res: Option<usize>)
    ensures
        match res {
            Some(i) => is_first_index(s@, c, i as int),
            None => forall|j: int| 0 <= j < s@.len() ==> s@[j] != c,
        },
{
    let mut i: usize = 0;
    while i < s.len()
        invariant
            0 <= i <= s.len(),
            forall|j: int| 0 <= j < i ==> s@[j] != c,
        decreases s.len() - i,
    {
        if s[i] == c {
            return Some(i);
        }
        i = i + 1;
    }
    None
}

/// Parses a size given as `WIDTHxHEIGHT` (for example `80x40`); `None` when there
/// is no `x` or either side is not a `u32` number.
pub fn parse_size(s: &str) -> (res: Option<(u32, u32)>)
    ensures
        res == size_of_text(s@),
{
    let chars = str_chars(s);
    match first_index_of(chars.as_slice(), 'x') {
        None => {
            proof {
                assert(!exists|i: int| is_first_index(s@, 'x', i));
            }
            None
        },
        Some(k) => {
            proof {
                let i = choose|i: int| is_first_index(s@, 'x', i);
                lemma_first_index_unique(s@, 'x', i, k as int);
            }
            let left = slice_subrange(chars.as_slice(), 0, k);
            let right = slice_subrange(chars.as_slice(), k + 1, chars.len());
            assert(left@ =~= s@.take(k as int));
            assert(right@ =~= s@.skip(k + 1));
            match (parse_u32_chars(left), parse_u32_chars(right)) {
                (Some(w), Some(h)) => Some((w, h)),
                _ => None,
            }
        },
    }
}

/// The decimal digits of `n` are digits and read back as `n`.
proof fn lemma_decimal_reads_back(n: nat)
    ensures
        ascii_chars(decimal(n)).len() >= 1,
        forall|i: int| 0 <= i < ascii_chars(decimal(n)).len() ==> is_digit(#[trigger] ascii_chars(decimal(n))[i]),
        digits_value(ascii_chars(decimal(n))) == n,
    decreases n,
{
    let d = ascii_chars(decimal(n));
    if n < 10 {
        assert(d.drop_last() =~= Seq::<char>::empty());
        assert(d.last() == ((48 + n) as u8) as char);
        assert(d.last() as nat == 48 + n);
        assert(digits_value(d) == digits_value(d.drop_last()) * 10 + (d.last() as nat - 48) as nat);
    } else {
        lemma_decimal_reads_back(n / 10);
        let p = ascii_chars(decimal(n / 10));
        let c = ((48 + n % 10) as u8) as char;
        assert(d =~= p.push(c));
        assert(d.drop_last() =~= p);
        assert(d.last() == c);
        assert(c as nat == 48 + n % 10);
        assert(digits_value(d) == digits_value(p) * 10 + (c as nat - 48) as nat);
        assert((n / 10) * 10 + n % 10 == n);
        assert forall|i: int| 0 <= i < d.len() implies is_digit(#[trigger] d[i]) by {
            if i < p.len() {
                assert(d[i] == p[i]);
            }
        }
    }
}

/// A `u32` written in decimal parses back to itself.
proof fn lemma_parse_decimal(n: u32)
    ensures
        parse_u32(ascii_chars(decimal(n as nat))) == Some(n),
        forall|i: int| 0 <= i < ascii_chars(decimal(n as nat)).len() ==> #[trigger] ascii_chars(decimal(n as nat))[i] != 'x',
{
    let d = ascii_chars(decimal(n as nat));
    lemma_decimal_reads_back(n as nat);
    assert(is_digit(d[0]));
    assert(unsigned_part(d) == d);
    assert(all_digits(d));
    assert forall|i: int| 0 <= i < d.len() implies #[trigger] d[i] != 'x' by {
        assert(is_digit(d[i]));
    }
}

/// A size written as `WIDTHxHEIGHT` in decimal reads back as the same size.
pub proof fn lemma_size_round_trip(w: u32, h: u32)
    ensures
        size_of_text(ascii_chars(decimal(w as nat)) + seq!['x'] + ascii_chars(decimal(h as nat))) == Some((w, h)),
{
    let a = ascii_chars(decimal(w as nat));
    let b = ascii_chars(decimal(h as nat));
    let s = a + seq!['x'] + b;
    lemma_parse_decimal(w);
    lemma_parse_decimal(h);
    let k = a.len() as int;
    assert(s[k] == 'x');
    assert forall|j: int| 0 <= j < k implies s[j] != 'x' by {
        assert(s[j] == a[j]);
    }
    assert(is_first_index(s, 'x', k));
    let i = choose|i: int| is_first_index(s, 'x', i);
    lemma_first_index_unique(s, 'x', i, k);
    assert(s.take(k) =~= a);
    assert(s.skip(k + 1) =~= b);
}

/// Whether a sixel colour budget is accepted: 2 to 255 colours.
pub open spec fn colors_in_range(colors: u8) -> bool {
    2 <= colors <= 255
}

/// The colour budget to use: the requested one when it lies in the accepted
/// range, else the default of 255; the flag says whether the request was kept.
pub fn effective_colors(requested: u8) -> (res: (u8, bool))
    ensures
        res.1 == colors_in_range(requested),
        res.0 == (if colors_in_range(requested) { requested } else { 255u8 }),
{
    if 2 <= requested {
        (requested, true)
    } else {
        (255, false)
    }
}

} // verus!
