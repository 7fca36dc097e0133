//! Decimal rendering of unsigned integers as ASCII digits.

use vstd::prelude::*;

verus! {

/// The ASCII decimal digits of `n`, most significant first, with no leading zeros
/// (zero is the single digit `0`).
pub open spec fn decimal(n: nat) -> Seq<u8>
    decreases n,
{
    if n < 10 {
        seq![(48 + n) as u8]
    } else {
        decimal(n / 10).push((48 + n % 10) as u8)
    }
}

/// Every byte of a decimal rendering is an ASCII digit.
pub proof fn lemma_decimal_digits(n: nat)
    ensures
        decimal(n).len() >= 1,
        forall|i: int| 0 <= i < decimal(n).len() ==> 48 <= #[trigger] decimal(n)[i] <= 57,
    decreases n,
{
    if n >= 10 {
        lemma_decimal_digits(n / 10);
    }
}

/// Appends the decimal digits of `n` to `out`.
pub fn push_decimal(n: u32, out: &mut Vec<u8>)
    ensures
        final(out)@ == old(out)@ + decimal(n as nat),
    decreases n,
{
    if n >= 10 {
        push_decimal(n / 10, out);
    }
    let d: u8 = (n % 10) as u8;
    out.push(48u8 + d);
}

/// Appends the decimal digits of `n` to `out`.
pub fn push_decimal_usize(n: usize, out: &mut Vec<u8>)
    ensures
        final(out)@ == old(out)@ + decimal(n as nat),
    decreases n,
{
    if n >= 10 {
        push_decimal_usize(n / 10, out);
    }
    let d: u8 = (n % 10) as u8;
    out.push(48u8 + d);
}

/// The decimal digits of `n` as a fresh byte vector.
pub fn itoa(n: u32) -> (res: Vec<u8>)
    ensures
        res@ == decimal(n as nat),
{
    let mut out: Vec<u8> = Vec::new();
    push_decimal(n, &mut out);
    out
}


/// Decimal renderings are ASCII.
pub proof fn lemma_decimal_ascii(n: nat)
    ensures
        crate::text::is_ascii_bytes(decimal(n)),
{
    lemma_decimal_digits(n);
}

} // verus!
