//! Exact rational numbers backing the language's numeric values.
//!
//! A number is a fraction of two machine integers with a positive
//! denominator.  Decimal literals are represented exactly
//! (`3.14` is `314 / 100`); the arithmetic operators reduce their result
//! and report `None` when it cannot be represented.

use vstd::arithmetic::div_mod::lemma_fundamental_div_mod;
use vstd::prelude::*;

verus! {

/// An exact rational number.  `num / den`, with `den >= 1`.
#[derive(Debug, Clone, Copy, PartialEq, Eq, Structural)]
pub struct Rational {
    pub num: i64,
    pub den: i64,
}

/// True of a digit character `'0'..='9'`.
pub open spec fn is_digit_char(c: char) -> bool {
    48 <= c as u32 && c as u32 <= 57
}

/// The numeric value of a digit character.
pub open spec fn digit_val(c: char) -> int {
    c as u32 - 48
}

/// The value of a digit string read in base ten.
pub open spec fn dv(s: Seq<char>) -> int
    decreases s.len(),
{
    if s.len() == 0 {
        0
    } else {
        dv(s.drop_last()) * 10 + digit_val(s.last())
    }
}

/// Ten to the `n`.
pub open spec fn pow10(n: nat) -> int
    decreases n,
{
    if n == 0 {
        1
    } else {
        10 * pow10((n - 1) as nat)
    }
}

/// How many dots a lexeme holds.
pub open spec fn count_dots(s: Seq<char>) -> int
    decreases s.len(),
{
    if s.len() == 0 {
        0
    } else {
        count_dots(s.drop_last()) + if s.last() == '.' {
            1int
        } else {
            0int
        }
    }
}

/// The lexeme with its dots removed: the digits of the mantissa.
pub open spec fn digits_of(s: Seq<char>) -> Seq<char>
    decreases s.len(),
{
    if s.len() == 0 {
        Seq::empty()
    } else if s.last() == '.' {
        digits_of(s.drop_last())
    } else {
        digits_of(s.drop_last()).push(s.last())
    }
}

/// How many characters follow the first dot: the number of fractional
/// digits when the lexeme has at most one dot.
pub open spec fn frac_len(s: Seq<char>) -> int
    decreases s.len(),
{
    if s.len() == 0 {
        0
    } else if count_dots(s) == 0 {
        0
    } else if s.last() == '.' {
        0
    } else {
        frac_len(s.drop_last()) + 1
    }
}

/// A numeric lexeme the lexer may hand over: nonempty, digits and dots
/// only, beginning with a digit.
pub open spec fn numeric_lexeme(s: Seq<char>) -> bool {
    &&& s.len() >= 1
    &&& is_digit_char(s[0])
    &&& forall|i: int| 0 <= i < s.len() ==> is_digit_char(#[trigger] s[i]) || s[i] == '.'
}

/// A numeric lexeme that denotes a representable rational: one dot at
/// most, a mantissa no wider than `i64`, and at most eighteen
/// fractional digits.
pub open spec fn representable_lexeme(s: Seq<char>) -> bool {
    &&& numeric_lexeme(s)
    &&& count_dots(s) <= 1
    &&& dv(digits_of(s)) <= i64::MAX as int
    &&& frac_len(s) <= 18
}

proof fn lemma_dv_nonneg(s: Seq<char>)
    requires
        forall|i: int| 0 <= i < s.len() ==> is_digit_char(#[trigger] s[i]),
    ensures
        dv(s) >= 0,
    decreases s.len(),
{
    if s.len() > 0 {
        lemma_dv_nonneg(s.drop_last());
    }
}

proof fn lemma_digits_of_digits(s: Seq<char>)
    requires
        forall|i: int| 0 <= i < s.len() ==> is_digit_char(#[trigger] s[i]) || s[i] == '.',
    ensures
        forall|i: int|
            0 <= i < digits_of(s).len() ==> is_digit_char(#[trigger] digits_of(s)[i]),
    decreases s.len(),
{
    if s.len() > 0 {
        let t = s.drop_last();
        assert forall|i: int| 0 <= i < t.len() implies is_digit_char(#[trigger] t[i]) || t[i]
            == '.' by {
            assert(t[i] == s[i]);
        }
        lemma_digits_of_digits(t);
        if s.last() == '.' {
            assert(digits_of(s) == digits_of(t));
            assert forall|i: int| 0 <= i < digits_of(s).len() implies is_digit_char(
                digits_of(s)[i],
            ) by {
                assert(is_digit_char(digits_of(t)[i]));
            }
        } else {
            let prev = digits_of(t);
            assert(is_digit_char(s[s.len() - 1]) || s[s.len() - 1] == '.');
            assert forall|i: int| 0 <= i < digits_of(s).len() implies is_digit_char(
                digits_of(s)[i],
            ) by {
                assert(digits_of(s) == prev.push(s.last()));
                if i < prev.len() {
                    assert(prev.push(s.last())[i] == prev[i]);
                } else {
                    assert(prev.push(s.last())[i] == s.last());
                }
            }
        }
    }
}

proof fn lemma_count_dots_nonneg(s: Seq<char>)
    ensures
        count_dots(s) >= 0,
    decreases s.len(),
{
    if s.len() > 0 {
        lemma_count_dots_nonneg(s.drop_last());
    }
}

proof fn lemma_dv_prefix_le(s: Seq<char>, j: int)
    requires
        forall|i: int| 0 <= i < s.len() ==> is_digit_char(#[trigger] s[i]),
        0 <= j <= s.len(),
    ensures
        dv(s.take(j)) <= dv(s),
    decreases s.len() - j,
{
    if j < s.len() {
        lemma_dv_prefix_le(s, j + 1);
        assert(s.take(j + 1).drop_last() =~= s.take(j));
        lemma_dv_nonneg(s.take(j));
        assert(dv(s.take(j + 1)) == dv(s.take(j)) * 10 + digit_val(s.take(j + 1).last()));
        assert(dv(s.take(j)) * 10 >= dv(s.take(j))) by (nonlinear_arith)
            requires
                dv(s.take(j)) >= 0,
        ;
    } else {
        assert(s.take(j) =~= s);
    }
}

proof fn lemma_abs_mul_le(x: int, y: int, bx: int, by: int)
    by (nonlinear_arith)
    requires
        -bx <= x <= bx,
        -by <= y <= by,
        0 <= bx,
        0 <= by,
    ensures
        -(bx * by) <= x * y <= bx * by,
{
}

/// Greatest common divisor by Euclid's algorithm; used only to shrink
/// fractions, so the contract states positivity alone.
fn gcd_u128(a: u128, b: u128) -> (g: u128)
    requires
        a >= 1,
    ensures
        g >= 1,
{
    let mut x: u128 = a;
    let mut y: u128 = b;
    while y != 0
        invariant
            x >= 1,
        decreases y,
    {
        let t = x % y;
        x = y;
        y = t;
    }
    x
}

impl Rational {
    /// The fraction is well formed: the denominator is positive.
    pub open spec fn wf(self) -> bool {
        self.den >= 1
    }

    /// The numerator.
    pub fn numerator(&self) -> (r: i64)
        ensures
            r == self.num,
    {
        self.num
    }

    /// The denominator.
    pub fn denominator(&self) -> (r: i64)
        ensures
            r == self.den,
    {
        self.den
    }

    /// Spec view of the numerator.
    pub open spec fn spec_num(self) -> int {
        self.num as int
    }

    /// Spec view of the denominator.
    pub open spec fn spec_den(self) -> int {
        self.den as int
    }

    /// This fraction and `n / d` denote the same rational.
    pub open spec fn is_frac(self, n: int, d: int) -> bool {
        self.spec_num() * d == n * self.spec_den()
    }

    /// The two fractions denote the same rational.
    pub open spec fn same_value(self, other: Rational) -> bool {
        self.spec_num() * other.spec_den() == other.spec_num() * self.spec_den()
    }

    /// The whole number `n`.
    pub fn from_int(n: i64) -> (r: Rational)
        ensures
            r.wf(),
            r.spec_num() == n,
            r.spec_den() == 1,
    {
        Rational { num: n, den: 1 }
    }

    /// True of the rational zero.
    pub fn is_zero(&self) -> (r: bool)
        ensures
            r == (self.spec_num() == 0),
    {
        self.num == 0
    }

    /// Shrink `n / d` by a common divisor and fit it into an `i64`
    /// fraction of the same value.  `None` only when the value cannot
    /// be fitted; a fraction that already fits is always accepted.
    fn reduce(n: i128, d: i128) -> (r: Option<Rational>)
        requires
            d >= 1,
            n > i128::MIN,
        ensures
            match r {
                Some(q) => q.wf() && q.is_frac(n as int, d as int),
                None => true,
            },
            (-(i64::MAX as i128) <= n <= i64::MAX as i128 && d <= i64::MAX as i128) ==> r.is_some(),
    {
        if n == 0 {
            return Some(Rational { num: 0, den: 1 });
        }
        let neg = n < 0;
        let na: u128 = if neg {
            (-n) as u128
        } else {
            n as u128
        };
        let da: u128 = d as u128;
        let g = gcd_u128(na, da);
        let (qn, qd): (u128, u128) = if na % g == 0 && da % g == 0 && da / g >= 1 {
            (na / g, da / g)
        } else {
            (na, da)
        };
        proof {
            if na % g == 0 && da % g == 0 && da / g >= 1 {
                lemma_fundamental_div_mod(na as int, g as int);
                lemma_fundamental_div_mod(da as int, g as int);
                assert(na as int == (g as int) * (qn as int));
                assert(da as int == (g as int) * (qd as int));
                assert(qn <= na && qd <= da) by (nonlinear_arith)
                    requires
                        g >= 1,
                        na as int == (g as int) * (qn as int),
                        da as int == (g as int) * (qd as int),
                        qn >= 0,
                        qd >= 0,
                        na >= 1,
                        da >= 1,
                ;
                assert((qn as int) * (da as int) == (na as int) * (qd as int))
                    by (nonlinear_arith)
                    requires
                        na as int == (g as int) * (qn as int),
                        da as int == (g as int) * (qd as int),
                ;
            } else {
                assert(qn == na && qd == da);
            }
            assert(qd >= 1);
        }
        if qn <= i64::MAX as u128 && qd <= i64::MAX as u128 {
            let num: i64 = if neg {
                -(qn as i64)
            } else {
                qn as i64
            };
            let den: i64 = qd as i64;
            proof {
                assert(num * d == n * den) by (nonlinear_arith)
                    requires
                        d >= 1,
                        qd >= 1,
                        (qn as int) * (da as int) == (na as int) * (qd as int),
                        da == d,
                        (neg ==> na == -n && num == -(qn as int)),
                        (!neg ==> na == n && num == qn as int),
                        den == qd as int,
                ;
            }
            Some(Rational { num, den })
        } else {
            None
        }
    }

    /// The sum, or `None` when it cannot be represented.
    pub fn checked_add(&self, other: &Rational) -> (r: Option<Rational>)
        requires
            self.wf(),
            other.wf(),
        ensures
            match r {
                Some(q) => q.wf() && q.is_frac(
                    self.spec_num() * other.spec_den() + other.spec_num() * self.spec_den(),
                    self.spec_den() * other.spec_den(),
                ),
                None => true,
            },
            (-(i64::MAX as int) <= self.spec_num() * other.spec_den() + other.spec_num()
                * self.spec_den() <= i64::MAX as int && self.spec_den() * other.spec_den()
                <= i64::MAX as int) ==> r is Some,
    {
        proof {
            lemma_abs_mul_le(self.num as int, other.den as int, 0x8000_0000_0000_0000, 0x7fff_ffff_ffff_ffff);
            lemma_abs_mul_le(other.num as int, self.den as int, 0x8000_0000_0000_0000, 0x7fff_ffff_ffff_ffff);
            lemma_abs_mul_le(self.den as int, other.den as int, 0x7fff_ffff_ffff_ffff, 0x7fff_ffff_ffff_ffff);
        }
        let n: i128 = (self.num as i128) * (other.den as i128) + (other.num as i128) * (self.den as i128);
        let d: i128 = (self.den as i128) * (other.den as i128);
        proof {
            assert(d >= 1) by (nonlinear_arith)
                requires
                    self.den >= 1,
                    other.den >= 1,
                    d == self.den as int * other.den as int,
            ;
        }
        Self::reduce(n, d)
    }

    /// The difference, or `None` when it cannot be represented.
    pub fn checked_sub(&self, other: &Rational) -> (r: Option<Rational>)
        requires
            self.wf(),
            other.wf(),
        ensures
            match r {
                Some(q) => q.wf() && q.is_frac(
                    self.spec_num() * other.spec_den() - other.spec_num() * self.spec_den(),
                    self.spec_den() * other.spec_den(),
                ),
                None => true,
            },
            (-(i64::MAX as int) <= self.spec_num() * other.spec_den() - other.spec_num()
                * self.spec_den() <= i64::MAX as int && self.spec_den() * other.spec_den()
                <= i64::MAX as int) ==> r is Some,
    {
        proof {
            lemma_abs_mul_le(self.num as int, other.den as int, 0x8000_0000_0000_0000, 0x7fff_ffff_ffff_ffff);
            lemma_abs_mul_le(other.num as int, self.den as int, 0x8000_0000_0000_0000, 0x7fff_ffff_ffff_ffff);
            lemma_abs_mul_le(self.den as int, other.den as int, 0x7fff_ffff_ffff_ffff, 0x7fff_ffff_ffff_ffff);
        }
        let n: i128 = (self.num as i128) * (other.den as i128) - (other.num as i128) * (self.den as i128);
        let d: i128 = (self.den as i128) * (other.den as i128);
        proof {
            assert(d >= 1) by (nonlinear_arith)
                requires
                    self.den >= 1,
                    other.den >= 1,
                    d == self.den as int * other.den as int,
            ;
        }
        Self::reduce(n, d)
    }

    /// The product, or `None` when it cannot be represented.
    pub fn checked_mul(&self, other: &Rational) -> (r: Option<Rational>)
        requires
            self.wf(),
            other.wf(),
        ensures
            match r {
                Some(q) => q.wf() && q.is_frac(
                    self.spec_num() * other.spec_num(),
                    self.spec_den() * other.spec_den(),
                ),
                None => true,
            },
            (-(i64::MAX as int) <= self.spec_num() * other.spec_num() <= i64::MAX as int
                && self.spec_den() * other.spec_den() <= i64::MAX as int) ==> r is Some,
    {
        proof {
            lemma_abs_mul_le(self.num as int, other.num as int, 0x8000_0000_0000_0000, 0x8000_0000_0000_0000);
            lemma_abs_mul_le(self.den as int, other.den as int, 0x7fff_ffff_ffff_ffff, 0x7fff_ffff_ffff_ffff);
        }
        let n: i128 = (self.num as i128) * (other.num as i128);
        let d: i128 = (self.den as i128) * (other.den as i128);
        proof {
            assert(d >= 1) by (nonlinear_arith)
                requires
                    self.den >= 1,
                    other.den >= 1,
                    d == self.den as int * other.den as int,
            ;
        }
        Self::reduce(n, d)
    }

    /// The quotient, or `None` when it cannot be represented.  The
    /// divisor must not be zero.
    pub fn checked_div(&self, other: &Rational) -> (r: Option<Rational>)
        requires
            self.wf(),
            other.wf(),
            other.spec_num() != 0,
        ensures
            match r {
                Some(q) => q.wf() && q.spec_num() * (self.spec_den() * other.spec_num()) == (
                self.spec_num() * other.spec_den()) * q.spec_den(),
                None => true,
            },
            (-(i64::MAX as int) <= self.spec_num() * other.spec_den() <= i64::MAX as int && -(
            i64::MAX as int) <= self.spec_den() * other.spec_num() <= i64::MAX as int) ==> r
                is Some,
    {
        proof {
            lemma_abs_mul_le(self.num as int, other.den as int, 0x8000_0000_0000_0000, 0x7fff_ffff_ffff_ffff);
            lemma_abs_mul_le(self.den as int, other.num as int, 0x7fff_ffff_ffff_ffff, 0x8000_0000_0000_0000);
        }
        let mut n: i128 = (self.num as i128) * (other.den as i128);
        let mut d: i128 = (self.den as i128) * (other.num as i128);
        proof {
            assert(self.den as int * other.num as int != 0) by (nonlinear_arith)
                requires
                    self.den >= 1,
                    other.num != 0,
            ;
        }
        if d < 0 {
            n = -n;
            d = -d;
        }
        let r = Self::reduce(n, d);
        proof {
            if let Some(q) = r {
                assert(q.spec_num() * (self.spec_den() * other.spec_num()) == (self.spec_num()
                    * other.spec_den()) * q.spec_den()) by (nonlinear_arith)
                    requires
                        q.spec_num() * (d as int) == (n as int) * q.spec_den(),
                        (n as int == self.spec_num() * other.spec_den() && d as int
                            == self.spec_den() * other.spec_num()) || (n as int == -(
                        self.spec_num() * other.spec_den()) && d as int == -(self.spec_den()
                            * other.spec_num())),
                ;
            }
        }
        r
    }

    /// The negation, or `None` when it cannot be represented.
    pub fn checked_neg(&self) -> (r: Option<Rational>)
        requires
            self.wf(),
        ensures
            match r {
                Some(q) => q.wf() && q.is_frac(-self.spec_num(), self.spec_den()),
                None => true,
            },
            -(i64::MAX as int) <= self.spec_num() <= i64::MAX as int ==> r is Some,
    {
        let n: i128 = -(self.num as i128);
        let d: i128 = self.den as i128;
        Self::reduce(n, d)
    }

    /// The two fractions denote the same rational.
    pub fn eq_value(&self, other: &Rational) -> (r: bool)
        requires
            self.wf(),
            other.wf(),
        ensures
            r == self.same_value(*other),
    {
        proof {
            lemma_abs_mul_le(self.num as int, other.den as int, 0x8000_0000_0000_0000, 0x7fff_ffff_ffff_ffff);
            lemma_abs_mul_le(other.num as int, self.den as int, 0x8000_0000_0000_0000, 0x7fff_ffff_ffff_ffff);
        }
        (self.num as i128) * (other.den as i128) == (other.num as i128) * (self.den as i128)
    }

    /// This rational is strictly below the other.
    pub fn lt_value(&self, other: &Rational) -> (r: bool)
        requires
            self.wf(),
            other.wf(),
        ensures
            r == (self.spec_num() * other.spec_den() < other.spec_num() * self.spec_den()),
    {
        proof {
            lemma_abs_mul_le(self.num as int, other.den as int, 0x8000_0000_0000_0000, 0x7fff_ffff_ffff_ffff);
            lemma_abs_mul_le(other.num as int, self.den as int, 0x8000_0000_0000_0000, 0x7fff_ffff_ffff_ffff);
        }
        (self.num as i128) * (other.den as i128) < (other.num as i128) * (self.den as i128)
    }

    /// This rational is at or below the other.
    pub fn le_value(&self, other: &Rational) -> (r: bool)
        requires
            self.wf(),
            other.wf(),
        ensures
            r == (self.spec_num() * other.spec_den() <= other.spec_num() * self.spec_den()),
    {
        proof {
            lemma_abs_mul_le(self.num as int, other.den as int, 0x8000_0000_0000_0000, 0x7fff_ffff_ffff_ffff);
            lemma_abs_mul_le(other.num as int, self.den as int, 0x8000_0000_0000_0000, 0x7fff_ffff_ffff_ffff);
        }
        (self.num as i128) * (other.den as i128) <= (other.num as i128) * (self.den as i128)
    }

    /// The exact value of a decimal lexeme of digits and at most one
    /// dot: the mantissa over ten to the number of fractional digits.
    /// `None` exactly when the lexeme has a second dot or denotes a
    /// value outside the representable range.
    pub fn from_decimal_chars(s: &Vec<char>) -> (r: Option<Rational>)
        requires
            numeric_lexeme(s@),
        ensures
            r.is_some() <==> representable_lexeme(s@),
            match r {
                Some(q) => q.wf() && q.spec_num() == dv(digits_of(s@)) && q.spec_den() == pow10(
                    frac_len(s@) as nat,
                ),
                None => true,
            },
    {
        let mut acc: i64 = 0;
        let mut seen_dot = false;
        let mut fdigits: usize = 0;
        let mut i: usize = 0;
        proof {
            assert(s@.take(0) =~= Seq::<char>::empty());
        }
        while i < s.len()
            invariant
                numeric_lexeme(s@),
                0 <= i <= s@.len(),
                seen_dot == (count_dots(s@.take(i as int)) == 1),
                count_dots(s@.take(i as int)) <= 1,
                acc == dv(digits_of(s@.take(i as int))),
                acc >= 0,
                fdigits == frac_len(s@.take(i as int)),
                fdigits <= 18,
            decreases s@.len() - i,
        {
            let c = s[i];
            proof {
                assert(s@.take(i + 1).drop_last() =~= s@.take(i as int));
                assert(s@.take(i + 1).last() == s@[i as int]);
                lemma_count_dots_nonneg(s@.take(i as int));
            }
            if c == '.' {
                if seen_dot {
                    proof {
                        lemma_count_dots_prefix_le(s@, i + 1);
                    }
                    return None;
                }
                seen_dot = true;
            } else {
                proof {
                    assert(is_digit_char(s@[i as int]) || s@[i as int] == '.');
                    let prev = digits_of(s@.take(i as int));
                    assert(prev.push(c).drop_last() =~= prev);
                    assert(prev.push(c).last() == c);
                    assert(digits_of(s@.take(i + 1)) == prev.push(c));
                    assert(dv(prev.push(c)) == dv(prev) * 10 + digit_val(c));
                }
                let dig: i64 = ((c as u32) - 48) as i64;
                if acc > (i64::MAX - dig) / 10 {
                    proof {
                        lemma_digits_of_digits(s@);
                        lemma_digits_of_prefix(s@, i + 1);
                        lemma_dv_prefix_le(digits_of(s@), digits_of(s@.take(i + 1)).len() as int);
                        assert(dv(digits_of(s@.take(i + 1))) == acc * 10 + dig);
                        assert(acc * 10 + dig > i64::MAX) by (nonlinear_arith)
                            requires
                                acc > (i64::MAX - dig) / 10,
                                0 <= dig <= 9,
                                acc >= 0,
                        ;
                    }
                    return None;
                }
                proof {
                    assert(acc * 10 + dig <= i64::MAX) by (nonlinear_arith)
                        requires
                            acc <= (i64::MAX - dig) / 10,
                            0 <= dig <= 9,
                            acc >= 0,
                    ;
                    assert(acc * 10 >= 0) by (nonlinear_arith)
                        requires
                            acc >= 0,
                    ;
                }
                acc = acc * 10 + dig;
                if seen_dot {
                    if fdigits == 18 {
                        proof {
                            if count_dots(s@) <= 1 {
                                lemma_frac_len_prefix_le(s@, i + 1);
                            }
                        }
                        return None;
                    }
                    fdigits = fdigits + 1;
                }
            }
            i = i + 1;
        }
        proof {
            assert(s@.take(s@.len() as int) =~= s@);
        }
        let mut den: i64 = 1;
        let mut k: usize = 0;
        while k < fdigits
            invariant
                fdigits <= 18,
                0 <= k <= fdigits,
                den == pow10(k as nat),
                1 <= den,
            decreases fdigits - k,
        {
            proof {
                lemma_pow10_mono(k as nat, 17);
                reveal_with_fuel(pow10, 19);
                assert(pow10(17) == 0x0163_4578_5d8a_0000);
            }
            den = den * 10;
            k = k + 1;
        }
        Some(Rational { num: acc, den })
    }
}

proof fn lemma_pow10_pos(k: nat)
    ensures
        pow10(k) >= 1,
    decreases k,
{
    if k > 0 {
        lemma_pow10_pos((k - 1) as nat);
    }
}

proof fn lemma_pow10_mono(a: nat, b: nat)
    requires
        a <= b,
    ensures
        pow10(a) <= pow10(b),
    decreases b,
{
    if a < b {
        lemma_pow10_mono(a, (b - 1) as nat);
        lemma_pow10_pos((b - 1) as nat);
    }
}

proof fn lemma_count_dots_prefix_le(s: Seq<char>, j: int)
    requires
        0 <= j <= s.len(),
    ensures
        count_dots(s.take(j)) <= count_dots(s),
    decreases s.len() - j,
{
    if j < s.len() {
        lemma_count_dots_prefix_le(s, j + 1);
        assert(s.take(j + 1).drop_last() =~= s.take(j));
    } else {
        assert(s.take(j) =~= s);
    }
}

proof fn lemma_frac_len_prefix_le(s: Seq<char>, j: int)
    requires
        0 <= j <= s.len(),
        count_dots(s) <= 1,
    ensures
        frac_len(s.take(j)) <= frac_len(s),
    decreases s.len() - j,
{
    if j < s.len() {
        lemma_frac_len_prefix_le(s, j + 1);
        assert(s.take(j + 1).drop_last() =~= s.take(j));
        assert(s.take(j + 1).last() == s[j]);
        lemma_count_dots_prefix_le(s, j);
        lemma_count_dots_prefix_le(s, j + 1);
        lemma_count_dots_nonneg(s.take(j));
        lemma_frac_len_nonneg(s.take(j));
        if s[j] == '.' {
            assert(count_dots(s.take(j + 1)) == count_dots(s.take(j)) + 1);
            assert(count_dots(s.take(j)) == 0);
            assert(frac_len(s.take(j)) == 0);
        } else {
            if count_dots(s.take(j + 1)) == 0 {
                assert(count_dots(s.take(j)) == 0);
                assert(frac_len(s.take(j)) == 0);
                lemma_frac_len_nonneg(s.take(j + 1));
            } else {
                assert(frac_len(s.take(j + 1)) == frac_len(s.take(j)) + 1);
            }
        }
    } else {
        assert(s.take(j) =~= s);
    }
}

proof fn lemma_frac_len_nonneg(s: Seq<char>)
    ensures
        frac_len(s) >= 0,
    decreases s.len(),
{
    if s.len() > 0 {
        lemma_frac_len_nonneg(s.drop_last());
    }
}

proof fn lemma_digits_of_prefix(s: Seq<char>, j: int)
    requires
        0 <= j <= s.len(),
    ensures
        digits_of(s.take(j)).len() <= digits_of(s).len(),
        digits_of(s).take(digits_of(s.take(j)).len() as int) =~= digits_of(s.take(j)),
    decreases s.len() - j,
{
    if j < s.len() {
        lemma_digits_of_prefix(s, j + 1);
        assert(s.take(j + 1).drop_last() =~= s.take(j));
        if s.take(j + 1).last() == '.' {
        } else {
            assert(digits_of(s.take(j + 1)) == digits_of(s.take(j)).push(s[j]));
            assert(digits_of(s.take(j + 1)).take(digits_of(s.take(j)).len() as int) =~= digits_of(
                s.take(j),
            ));
        }
    } else {
        assert(s.take(j) =~= s);
        assert(digits_of(s).take(digits_of(s).len() as int) =~= digits_of(s));
    }
}

} // verus!
