//! ANSI escape sequences shared by the text-cell encoders.

use vstd::prelude::*;
use crate::decimal::{decimal, push_decimal, lemma_decimal_ascii};
use crate::text::{append_bytes, is_ascii_bytes, lemma_ascii_concat};

verus! {

/// `ESC [ row ; col H`: move the cursor to a 1-based row and column.
pub open spec fn cursor_to(row: nat, col: nat) -> Seq<u8> {
    seq![27u8, 91u8] + decimal(row) + seq![59u8] + decimal(col) + seq![72u8]
}

/// `ESC [ 0 m`: reset all text attributes.
pub open spec fn sgr_reset() -> Seq<u8> {
    seq![27u8, 91u8, 48u8, 109u8]
}

/// `ESC [ <kind> ; 2 ; r ; g ; b m`: a 24-bit colour (kind 38 foreground, 48 background).
pub open spec fn true_color(kind: nat, r: u8, g: u8, b: u8) -> Seq<u8> {
    seq![27u8, 91u8] + decimal(kind) + seq![59u8, 50u8, 59u8] + decimal(r as nat) + seq![59u8] + decimal(g as nat)
        + seq![59u8] + decimal(b as nat) + seq![109u8]
}

/// Appends `cursor_to(row, col)`.
pub fn push_cursor_to(out: &mut Vec<u8>, row: u32, col: u32)
    ensures
        final(out)@ == old(out)@ + cursor_to(row as nat, col as nat),
{
    out.push(27u8);
    out.push(91u8);
    push_decimal(row, out);
    out.push(59u8);
    push_decimal(col, out);
    out.push(72u8);
    assert(out@ =~= old(out)@ + cursor_to(row as nat, col as nat));
}

/// Appends `sgr_reset()`.
pub fn push_sgr_reset(out: &mut Vec<u8>)
    ensures
        final(out)@ == old(out)@ + sgr_reset(),
{
    append_bytes(out, &[27u8, 91u8, 48u8, 109u8]);
}

/// Appends `true_color(kind, r, g, b)`.
pub fn push_true_color(out: &mut Vec<u8>, kind: u32, r: u8, g: u8, b: u8)
    ensures
        final(out)@ == old(out)@ + true_color(kind as nat, r, g, b),
{
    out.push(27u8);
    out.push(91u8);
    push_decimal(kind, out);
    out.push(59u8);
    out.push(50u8);
    out.push(59u8);
    push_decimal(r as u32, out);
    out.push(59u8);
    push_decimal(g as u32, out);
    out.push(59u8);
    push_decimal(b as u32, out);
    out.push(109u8);
    assert(out@ =~= old(out)@ + true_color(kind as nat, r, g, b));
}

/// Cursor movements are ASCII.
pub proof fn lemma_cursor_to_ascii(row: nat, col: nat)
    ensures
        is_ascii_bytes(cursor_to(row, col)),
{
    lemma_decimal_ascii(row);
    lemma_decimal_ascii(col);
    lemma_ascii_concat(seq![27u8, 91u8], decimal(row));
    lemma_ascii_concat(seq![27u8, 91u8] + decimal(row), seq![59u8]);
    lemma_ascii_concat(seq![27u8, 91u8] + decimal(row) + seq![59u8], decimal(col));
    lemma_ascii_concat(seq![27u8, 91u8] + decimal(row) + seq![59u8] + decimal(col), seq![72u8]);
}

/// Colour sequences are ASCII.
pub proof fn lemma_true_color_ascii(kind: nat, r: u8, g: u8, b: u8)
    ensures
        is_ascii_bytes(true_color(kind, r, g, b)),
{
    lemma_decimal_ascii(kind);
    lemma_decimal_ascii(r as nat);
    lemma_decimal_ascii(g as nat);
    lemma_decimal_ascii(b as nat);
    let a1 = seq![27u8, 91u8] + decimal(kind);
    lemma_ascii_concat(seq![27u8, 91u8], decimal(kind));
    lemma_ascii_concat(a1, seq![59u8, 50u8, 59u8]);
    let a2 = a1 + seq![59u8, 50u8, 59u8];
    lemma_ascii_concat(a2, decimal(r as nat));
    let a3 = a2 + decimal(r as nat);
    lemma_ascii_concat(a3, seq![59u8]);
    lemma_ascii_concat(a3 + seq![59u8], decimal(g as nat));
    let a4 = a3 + seq![59u8] + decimal(g as nat);
    lemma_ascii_concat(a4, seq![59u8]);
    lemma_ascii_concat(a4 + seq![59u8], decimal(b as nat));
    lemma_ascii_concat(a4 + seq![59u8] + decimal(b as nat), seq![109u8]);
}

/// The attribute reset is ASCII.
pub proof fn lemma_sgr_reset_ascii()
    ensures
        is_ascii_bytes(sgr_reset()),
{
}

} // verus!
