//! Spreadsheet column naming.
use vstd::prelude::*;
use crate::text::push_char;

verus! {

/// The letter that stands for `k` (0 for `A`, ..., 25 for `Z`).
pub open spec fn letter_of(k: nat) -> char
    recommends
        k < 26,
{
    ((k + 65) as u8) as char
}

/// Spreadsheet letters of the 0-based column `n`: the bijective base-26 numeral.
pub open spec fn column_letters(n: nat) -> Seq<char>
    decreases n,
{
    if n < 26 {
        seq![letter_of(n)]
    } else {
        column_letters((n / 26 - 1) as nat).push(letter_of(n % 26))
    }
}

/// Letters of the 0-based column `zero_based_column` (`0` is `A`, `26` is `AA`).
pub fn get_xl_column_letter(zero_based_column: u16) -> (r: String)
    ensures
        r@ == column_letters(zero_based_column as nat),
    decreases zero_based_column,
{
    let integer: u16 = zero_based_column / 26;
    let remainder: u8 = (zero_based_column % 26) as u8;
    let ch: char = (remainder + 65) as char;
    if integer == 0 {
        let mut s = String::new();
        push_char(&mut s, ch);
        return s;
    }
    let mut s = get_xl_column_letter(integer - 1);
    push_char(&mut s, ch);
    s
}

/// The decimal digit that stands for `k`.
pub open spec fn digit_of(k: nat) -> char
    recommends
        k < 10,
{
    ((k + 48) as u8) as char
}

/// Decimal notation of `n`, without leading zeros.
pub open spec fn decimal_of(n: nat) -> Seq<char>
    decreases n,
{
    if n < 10 {
        seq![digit_of(n)]
    } else {
        decimal_of(n / 10).push(digit_of(n % 10))
    }
}

/// Decimal notation of `n`.
pub fn decimal(n: usize) -> (r: String)
    ensures
        r@ == decimal_of(n as nat),
    decreases n,
{
    let d: u8 = (n % 10) as u8;
    let ch: char = (d + 48) as char;
    let mut s = if n < 10 {
        String::new()
    } else {
        decimal(n / 10)
    };
    push_char(&mut s, ch);
    s
}

} // verus!
