//! Executable validity checks for the collected number text, proved
//! equal to the model's `is_valid_int` and `is_valid_float`.
use vstd::prelude::*;

use crate::model::{
    digits_in, digits_val, is_digit, is_valid_float, is_valid_int, lemma_find_char_is,
    lemma_one_of_one, lemma_one_of_two, sign_skip,
};

verus! {

/// Whether `c` is a decimal digit.
pub fn is_digit_char(c: char) -> (r: bool)
    ensures
        r == is_digit(c),
{
    '0' <= c && c <= '9'
}

/// Whether the text contains a dot, which selects float over integer
/// parsing.
pub fn has_dot(text: &Vec<char>) -> (r: bool)
    ensures
        r == text@.contains('.'),
{
    let mut k: usize = 0;
    while k < text.len()
        invariant
            k <= text.len(),
            forall|m: int| 0 <= m < k ==> text@[m] != '.',
        decreases text.len() - k,
    {
        if text[k] == '.' {
            return true;
        }
        k += 1;
    }
    false
}

/// Whether every character of `text[from..to)` is a digit.
fn digits_range(text: &Vec<char>, from: usize, to: usize) -> (r: bool)
    requires
        from <= to <= text@.len(),
    ensures
        r == digits_in(text@, from as int, to as int),
{
    let mut k: usize = from;
    while k < to
        invariant
            from <= k <= to,
            digits_in(text@, from as int, k as int),
        decreases to - k,
    {
        if !is_digit_char(text[k]) {
            assert(!digits_in(text@, from as int, to as int)) by {
                assert(!is_digit(text@[k as int]));
            }
            return false;
        }
        k += 1;
    }
    true
}

/// Where the digits of the literal begin: after an explicit sign, if any.
fn sign_skip_at(text: &Vec<char>) -> (b: usize)
    ensures
        b as int == sign_skip(text@),
        b <= text@.len(),
{
    if text.len() > 0 && (text[0] == '+' || text[0] == '-') {
        1
    } else {
        0
    }
}

/// Whether the text parses as a 64-bit signed integer literal.
pub fn check_int(text: &Vec<char>) -> (r: bool)
    ensures
        r == is_valid_int(text@),
{
    let n = text.len();
    let b = sign_skip_at(text);
    if n <= b {
        return false;
    }
    if !digits_range(text, b, n) {
        return false;
    }
    let neg = text[0] == '-';
    let bound: u128 = if neg {
        9223372036854775808
    } else {
        9223372036854775807
    };
    let mut v: u128 = 0;
    let mut big = false;
    let mut k: usize = b;
    while k < n
        invariant
            b <= k <= n,
            n == text@.len(),
            b as int == sign_skip(text@),
            digits_in(text@, b as int, n as int),
            bound == (if text@.len() > 0 && text@[0] == '-' {
                9223372036854775808u128
            } else {
                9223372036854775807u128
            }),
            !big ==> v as nat == digits_val(text@, b as int, k as int) && v <= bound,
            big ==> digits_val(text@, b as int, k as int) > bound,
        decreases n - k,
    {
        let c = text[k];
        assert(is_digit(c));
        let d: u32 = c as u32 - 48;
        proof {
            assert(digits_val(text@, b as int, k + 1int) == digits_val(text@, b as int, k as int)
                * 10 + d);
        }
        if big {
            proof {
                assert(digits_val(text@, b as int, k as int) * 10 >= digits_val(
                    text@,
                    b as int,
                    k as int,
                ));
            }
        } else {
            let cand: u128 = v * 10 + d as u128;
            if cand > bound {
                big = true;
            } else {
                v = cand;
            }
        }
        k += 1;
    }
    !big
}

/// Whether the text parses as a float literal.
pub fn check_float(text: &Vec<char>) -> (r: bool)
    ensures
        r == is_valid_float(text@),
{
    let n = text.len();
    let b = sign_skip_at(text);
    let mut e: usize = b;
    while e < n && !(text[e] == 'e' || text[e] == 'E')
        invariant
            b <= e <= n,
            n == text@.len(),
            forall|m: int| b <= m < e ==> !(text@[m] == 'e' || text@[m] == 'E'),
        decreases n - e,
    {
        e += 1;
    }
    proof {
        assert forall|c: char| seq!['e', 'E'].contains(c) <==> (c == 'e' || c == 'E') by {
            lemma_one_of_two('e', 'E', c);
        }
        lemma_find_char_is(text@, b as int, n as int, seq!['e', 'E'], e as int);
    }
    let mut d: usize = b;
    while d < e && text[d] != '.'
        invariant
            b <= d <= e,
            e <= n,
            n == text@.len(),
            forall|m: int| b <= m < d ==> text@[m] != '.',
        decreases e - d,
    {
        d += 1;
    }
    proof {
        assert forall|c: char| seq!['.'].contains(c) <==> (c == '.') by {
            lemma_one_of_one('.', c);
        }
        lemma_find_char_is(text@, b as int, e as int, seq!['.'], d as int);
    }
    let mant_ok: bool = if d == e {
        e > b && digits_range(text, b, e)
    } else {
        e > b + 1 && digits_range(text, b, d) && digits_range(text, d + 1, e)
    };
    let exp_ok: bool = if e == n {
        true
    } else {
        let xb: usize = if e + 1 < n && (text[e + 1] == '+' || text[e + 1] == '-') {
            e + 2
        } else {
            e + 1
        };
        n > xb && digits_range(text, xb, n)
    };
    mant_ok && exp_ok
}

} // verus!
