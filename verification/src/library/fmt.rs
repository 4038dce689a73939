//! Decimal rendering of machine integers, used for line-tagged
//! diagnostics and for printing numeric results.

use vstd::prelude::*;

verus! {

/// The decimal digits of `n`, most significant first.
pub open spec fn dec_digits(n: nat) -> Seq<char>
    decreases n,
{
    if n < 10 {
        seq![digit_char_of(n)]
    } else {
        dec_digits(n / 10) + seq![digit_char_of(n % 10)]
    }
}

/// The digit character for one value below ten.
pub open spec fn digit_char_of(d: nat) -> char {
    if d == 0 {
        '0'
    } else if d == 1 {
        '1'
    } else if d == 2 {
        '2'
    } else if d == 3 {
        '3'
    } else if d == 4 {
        '4'
    } else if d == 5 {
        '5'
    } else if d == 6 {
        '6'
    } else if d == 7 {
        '7'
    } else if d == 8 {
        '8'
    } else {
        '9'
    }
}

/// The digit character for one value below ten.
fn digit_char(d: u64) -> (c: char)
    requires
        d < 10,
    ensures
        c == digit_char_of(d as nat),
{
    match d {
        0 => '0',
        1 => '1',
        2 => '2',
        3 => '3',
        4 => '4',
        5 => '5',
        6 => '6',
        7 => '7',
        8 => '8',
        _ => '9',
    }
}

/// Relies on String::push: appends the one character to the string.
#[verifier::external_body]
pub(crate) fn push_char(s: &mut String, c: char)
    ensures
        final(s)@ == old(s)@.push(c),
{
    s.push(c);
}

/// The decimal spelling of `n`.
pub fn u64_to_string(n: u64) -> (r: String)
    ensures
        r@ == dec_digits(n as nat),
{
    let mut digits: Vec<char> = Vec::new();
    let mut m: u64 = n;
    while m >= 10
        invariant
            dec_digits(n as nat) == dec_digits(m as nat) + digits@.reverse(),
        decreases m,
    {
        let ghost before = digits@;
        let d = m % 10;
        digits.push(digit_char(d));
        proof {
            assert(digits@.reverse() =~= seq![digit_char_of(d as nat)] + before.reverse());
            assert(dec_digits(m as nat) == dec_digits((m / 10) as nat) + seq![
                digit_char_of((m % 10) as nat),
            ]);
            assert(dec_digits((m / 10) as nat) + (seq![digit_char_of(d as nat)]
                + before.reverse()) =~= (dec_digits((m / 10) as nat) + seq![
                digit_char_of(d as nat),
            ]) + before.reverse());
        }
        m = m / 10;
    }
    let mut r = String::new();
    push_char(&mut r, digit_char(m));
    proof {
        assert(r@ =~= seq![digit_char_of(m as nat)]);
        assert(dec_digits(m as nat) == seq![digit_char_of(m as nat)]);
    }
    let mut i: usize = digits.len();
    while i > 0
        invariant
            0 <= i <= digits@.len(),
            r@ == dec_digits(m as nat) + digits@.reverse().take(digits@.len() - i),
        decreases i,
    {
        i = i - 1;
        let ghost before = r@;
        push_char(&mut r, digits[i]);
        proof {
            assert(digits@.reverse()[digits@.len() - 1 - i] == digits@[i as int]);
            assert(digits@.reverse().take(digits@.len() - i) =~= digits@.reverse().take(
                digits@.len() - i - 1,
            ).push(digits@[i as int]));
            assert(before.push(digits@[i as int]) =~= dec_digits(m as nat)
                + digits@.reverse().take(digits@.len() - i));
        }
    }
    proof {
        assert(digits@.reverse().take(digits@.len() as int) =~= digits@.reverse());
    }
    r
}

} // verus!
