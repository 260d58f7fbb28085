//! Decimal literals: what a run of digits denotes, and how it is decoded.

use vstd::prelude::*;
use crate::parser::lex_model::{is_digit, DIGIT_0, DIGIT_9};

verus! {

/// The number that the decimal digits `digits` write, most significant
/// digit first. Leading zeros change nothing.
pub open spec fn decimal_value(digits: Seq<u8>) -> nat
    decreases digits.len(),
{
    if digits.len() == 0 {
        0
    } else {
        decimal_value(digits.drop_last()) * 10 + (digits.last() - DIGIT_0) as nat
    }
}

/// Whether every byte of `s` is an ASCII decimal digit.
pub open spec fn all_digits(s: Seq<u8>) -> bool {
    forall|i: int| 0 <= i < s.len() ==> is_digit(#[trigger] s[i])
}

/// The value of a numeric literal: that of its digits, where the lexeme is a
/// run of at least one digit and the number fits in 32 bits.
pub open spec fn num_value(lexeme: Seq<u8>) -> Option<u32> {
    if lexeme.len() > 0 && all_digits(lexeme) && decimal_value(lexeme) <= u32::MAX {
        Some(decimal_value(lexeme) as u32)
    } else {
        None
    }
}

/// Appending a digit multiplies the value by ten and adds the digit.
pub proof fn lemma_decimal_value_push(digits: Seq<u8>, i: int)
    requires
        0 <= i < digits.len(),
    ensures
        decimal_value(digits.take(i + 1)) == decimal_value(digits.take(i)) * 10 + (digits[i]
            - DIGIT_0) as nat,
{
    assert(digits.take(i + 1).drop_last() =~= digits.take(i));
}

/// No prefix of a run of digits is worth more than the whole run.
pub proof fn lemma_decimal_value_prefix(digits: Seq<u8>, i: int)
    requires
        0 <= i <= digits.len(),
        all_digits(digits),
    ensures
        decimal_value(digits.take(i)) <= decimal_value(digits),
    decreases digits.len() - i,
{
    if i < digits.len() {
        lemma_decimal_value_push(digits, i);
        lemma_decimal_value_prefix(digits, i + 1);
    } else {
        assert(digits.take(i) =~= digits);
    }
}

/// Decodes a numeric literal; `None` where the lexeme is empty, holds a byte
/// that is no digit, or writes a number beyond 32 bits.
pub fn decode_u32(lexeme: &[u8]) -> (value: Option<u32>)
    ensures
        value == num_value(lexeme@),
{
    if lexeme.len() == 0 {
        return None;
    }
    let mut acc: u32 = 0;
    let mut i: usize = 0;
    while i < lexeme.len()
        invariant
            i <= lexeme@.len(),
            all_digits(lexeme@.take(i as int)),
            acc == decimal_value(lexeme@.take(i as int)),
        decreases lexeme@.len() - i,
    {
        let c = lexeme[i];
        if c < DIGIT_0 || c > DIGIT_9 {
            return None;
        }
        proof {
            lemma_decimal_value_push(lexeme@, i as int);
            assert forall|j: int| 0 <= j < i + 1 implies is_digit(
                #[trigger] lexeme@.take(i + 1)[j],
            ) by {
                if j < i {
                    assert(lexeme@.take(i as int)[j] == lexeme@[j]);
                }
            }
        }
        let digit: u32 = (c - DIGIT_0) as u32;
        let next = match acc.checked_mul(10) {
            Some(tens) => tens.checked_add(digit),
            None => None,
        };
        match next {
            Some(n) => {
                acc = n;
            },
            None => {
                proof {
                    if all_digits(lexeme@) {
                        lemma_decimal_value_prefix(lexeme@, i + 1);
                    }
                }
                return None;
            },
        }
        i += 1;
    }
    proof {
        assert(lexeme@.take(i as int) =~= lexeme@);
    }
    Some(acc)
}

} // verus!
