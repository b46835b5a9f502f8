//! Numbers of the language: exact rationals kept in lowest terms, with a
//! 64-bit numerator and a positive 64-bit denominator.

use vstd::prelude::*;
use crate::text::{digit_char, nat_digits, push_char, push_digits};

verus! {

/// Greatest common divisor by Euclid's algorithm.
pub open spec fn gcd(a: nat, b: nat) -> nat
    decreases b,
{
    if b == 0 {
        a
    } else {
        gcd(b, a % b)
    }
}

pub open spec fn abs(x: int) -> int {
    if x < 0 {
        -x
    } else {
        x
    }
}

/// Ten to the power `k`.
pub open spec fn pow10(k: nat) -> nat
    decreases k,
{
    if k == 0 {
        1
    } else {
        10 * pow10((k - 1) as nat)
    }
}

/// The value of a run of decimal digits.
pub open spec fn digits_value(ds: Seq<char>) -> nat
    decreases ds.len(),
{
    if ds.len() == 0 {
        0
    } else {
        (digits_value(ds.drop_last()) * 10 + (ds.last() as int - '0' as int)) as nat
    }
}

pub open spec fn is_digit(c: char) -> bool {
    '0' <= c && c <= '9'
}

pub open spec fn all_digits(ds: Seq<char>) -> bool {
    forall|i: int| 0 <= i < ds.len() ==> is_digit(#[trigger] ds[i])
}

/// The number of fractional digits printed for a value that is not integral.
pub const FRACTION_DIGITS: u32 = 16;

/// The largest count of digits accepted in a number literal.
pub const MAX_LITERAL_DIGITS: usize = 18;

proof fn lemma_gcd_bounds(a: nat, b: nat)
    requires
        b > 0,
    ensures
        1 <= gcd(a, b) <= b,
    decreases b,
{
    if a % b == 0 {
        assert(gcd(b, 0) == b);
    } else {
        lemma_gcd_bounds(b, a % b);
    }
}

proof fn lemma_mul_bound(x: int, y: int)
    requires
        -0x8000_0000_0000_0000 <= x <= 0x8000_0000_0000_0000,
        -0x8000_0000_0000_0000 <= y <= 0x8000_0000_0000_0000,
    ensures
        -0x4000_0000_0000_0000_0000_0000_0000_0000 <= x * y <= 0x4000_0000_0000_0000_0000_0000_0000_0000,
{
    assert(-0x4000_0000_0000_0000_0000_0000_0000_0000 <= x * y <= 0x4000_0000_0000_0000_0000_0000_0000_0000)
        by (nonlinear_arith)
        requires
            -0x8000_0000_0000_0000 <= x <= 0x8000_0000_0000_0000,
            -0x8000_0000_0000_0000 <= y <= 0x8000_0000_0000_0000,
    ;
}

proof fn lemma_mul_below(x: int, y: int)
    requires
        -0x8000_0000_0000_0000 <= x <= 0x8000_0000_0000_0000,
        1 <= y < 0x8000_0000_0000_0000,
    ensures
        -0x4000_0000_0000_0000_0000_0000_0000_0000 < x * y < 0x4000_0000_0000_0000_0000_0000_0000_0000,
{
    assert(-0x4000_0000_0000_0000_0000_0000_0000_0000 < x * y < 0x4000_0000_0000_0000_0000_0000_0000_0000)
        by (nonlinear_arith)
        requires
            -0x8000_0000_0000_0000 <= x <= 0x8000_0000_0000_0000,
            1 <= y < 0x8000_0000_0000_0000,
    ;
}

proof fn lemma_pow10_positive(k: nat)
    ensures
        pow10(k) >= 1,
    decreases k,
{
    if k > 0 {
        lemma_pow10_positive((k - 1) as nat);
    }
}

proof fn lemma_digits_value_bound(ds: Seq<char>)
    requires
        all_digits(ds),
    ensures
        digits_value(ds) < pow10(ds.len()),
    decreases ds.len(),
{
    if ds.len() > 0 {
        let init = ds.drop_last();
        assert(all_digits(init)) by {
            assert forall|i: int| 0 <= i < init.len() implies is_digit(#[trigger] init[i]) by {
                assert(init[i] == ds[i]);
            }
        }
        lemma_digits_value_bound(init);
        assert(is_digit(ds[ds.len() - 1]));
    }
}

fn gcd_u128(a: u128, b: u128) -> (r: u128)
    ensures
        r == gcd(a as nat, b as nat),
    decreases b,
{
    if b == 0 {
        a
    } else {
        gcd_u128(b, a % b)
    }
}

/// A number of the language: the rational `num / den`.
#[derive(Clone, Copy, Debug, PartialEq, Eq, Structural)]
pub struct Number {
    num: i64,
    den: i64,
}

/// `n / d` reduced by the greatest common divisor of `|n|` and `d`; `None`
/// where the reduced numerator or denominator does not fit 64 bits.
pub closed spec fn normalize(n: int, d: int) -> Option<Number> {
    let g = gcd(abs(n) as nat, d as nat) as int;
    let m = abs(n) / g;
    let e = d / g;
    if m <= i64::MAX && e <= i64::MAX {
        Some(Number { num: (if n < 0 { -m } else { m }) as i64, den: e as i64 })
    } else {
        None
    }
}

/// The numerator of `n / d` in lowest terms.
pub open spec fn reduced_numer(n: int, d: int) -> int {
    let g = gcd(abs(n) as nat, d as nat) as int;
    if n < 0 {
        -(abs(n) / g)
    } else {
        abs(n) / g
    }
}

/// The denominator of `n / d` in lowest terms.
pub open spec fn reduced_denom(n: int, d: int) -> int {
    d / (gcd(abs(n) as nat, d as nat) as int)
}

/// `normalize` gives the reduced numerator and denominator, where both fit
/// 64 bits.
pub proof fn lemma_normalize(n: int, d: int)
    requires
        d >= 1,
    ensures
        normalize(n, d) is Some <==> (abs(reduced_numer(n, d)) <= i64::MAX && reduced_denom(n, d)
            <= i64::MAX),
        normalize(n, d) matches Some(x) ==> x.numer() == reduced_numer(n, d) && x.denom()
            == reduced_denom(n, d),
{
    lemma_gcd_bounds(abs(n) as nat, d as nat);
    let g = gcd(abs(n) as nat, d as nat) as int;
    assert(abs(n) / g >= 0) by (nonlinear_arith)
        requires
            g >= 1,
            abs(n) >= 0,
    ;
}

fn normalize_exec(n: i128, d: i128) -> (r: Option<Number>)
    requires
        d >= 1,
        n > i128::MIN,
    ensures
        r == normalize(n as int, d as int),
{
    let mag: u128 = if n < 0 {
        (-n) as u128
    } else {
        n as u128
    };
    let g = gcd_u128(mag, d as u128);
    proof {
        lemma_gcd_bounds(mag as nat, d as nat);
        assert((d as int) / (g as int) >= 1) by (nonlinear_arith)
            requires
                1 <= g <= d,
        ;
    }
    let m = mag / g;
    let e = (d as u128) / g;
    if m <= i64::MAX as u128 && e <= i64::MAX as u128 {
        let num: i64 = if n < 0 {
            -(m as i64)
        } else {
            m as i64
        };
        Some(Number { num, den: e as i64 })
    } else {
        None
    }
}

/// The digits after the point of `r / d` (with `r < d`), `k` of them at most,
/// stopping once the remainder is zero.
pub open spec fn fraction_digits(r: nat, d: nat, k: nat) -> Seq<char>
    decreases k,
{
    if k == 0 || r == 0 || d == 0 {
        Seq::empty()
    } else {
        seq![digit_char(((r * 10) / d) as int)] + fraction_digits((r * 10) % d, d, (k - 1) as nat)
    }
}

/// `s` without its trailing zeros.
pub open spec fn strip_zeros(s: Seq<char>) -> Seq<char>
    decreases s.len(),
{
    if s.len() > 0 && s.last() == '0' {
        strip_zeros(s.drop_last())
    } else {
        s
    }
}

impl Number {
    #[verifier::type_invariant]
    spec fn wf(self) -> bool {
        self.den >= 1
    }

    /// The numerator.
    pub closed spec fn numer(self) -> int {
        self.num as int
    }

    /// The denominator, at least one.
    pub closed spec fn denom(self) -> int {
        self.den as int
    }

    pub open spec fn spec_add(self, o: Number) -> Option<Number> {
        normalize(self.numer() * o.denom() + o.numer() * self.denom(), self.denom() * o.denom())
    }

    pub open spec fn spec_sub(self, o: Number) -> Option<Number> {
        normalize(self.numer() * o.denom() - o.numer() * self.denom(), self.denom() * o.denom())
    }

    pub open spec fn spec_mul(self, o: Number) -> Option<Number> {
        normalize(self.numer() * o.numer(), self.denom() * o.denom())
    }

    /// The quotient; `None` for a zero divisor or where the result does not fit.
    pub open spec fn spec_div(self, o: Number) -> Option<Number> {
        if o.numer() == 0 {
            None
        } else if o.numer() < 0 {
            normalize(-(self.numer() * o.denom()), self.denom() * (-o.numer()))
        } else {
            normalize(self.numer() * o.denom(), self.denom() * o.numer())
        }
    }

    pub open spec fn spec_neg(self) -> Option<Number> {
        normalize(-self.numer(), self.denom())
    }

    /// The two numbers denote the same rational.
    pub open spec fn same_value(self, o: Number) -> bool {
        self.numer() * o.denom() == o.numer() * self.denom()
    }

    pub open spec fn spec_lt(self, o: Number) -> bool {
        self.numer() * o.denom() < o.numer() * self.denom()
    }

    pub open spec fn is_zero_spec(self) -> bool {
        self.numer() == 0
    }

    /// The value of a number literal with integral digits `int_part` and
    /// fractional digits `frac_part`; `None` for more than the accepted
    /// count of digits.
    pub open spec fn spec_from_decimal(int_part: Seq<char>, frac_part: Seq<char>) -> Option<
        Number,
    > {
        if int_part.len() + frac_part.len() <= MAX_LITERAL_DIGITS {
            normalize(digits_value(int_part + frac_part) as int, pow10(frac_part.len()) as int)
        } else {
            None
        }
    }

    /// How a value prints: the integral part, then, where the value is not
    /// integral, a point and at most sixteen fractional digits with the
    /// trailing zeros dropped.
    pub open spec fn display(self) -> Seq<char> {
        let sign = if self.numer() < 0 {
            seq!['-']
        } else {
            Seq::empty()
        };
        let whole = nat_digits((abs(self.numer()) / self.denom()) as nat);
        let frac = strip_zeros(
            fraction_digits(
                (abs(self.numer()) % self.denom()) as nat,
                self.denom() as nat,
                FRACTION_DIGITS as nat,
            ),
        );
        if frac.len() == 0 {
            sign + whole
        } else {
            sign + whole + seq!['.'] + frac
        }
    }

    /// How a number literal prints: as `display`, with `.0` after an
    /// integral value.
    pub open spec fn literal_display(self) -> Seq<char> {
        if self.denom() == 1 {
            self.display() + seq!['.', '0']
        } else {
            self.display()
        }
    }

    /// The integer `i`.
    pub fn from_int(i: i64) -> (r: Number)
        ensures
            r.numer() == i,
            r.denom() == 1,
    {
        Number { num: i, den: 1 }
    }

    /// The rational `n / d`, in lowest terms; `None` where `d` is not
    /// positive or the result does not fit.
    pub fn ratio(n: i64, d: i64) -> (r: Option<Number>)
        ensures
            d < 1 ==> r is None,
            d >= 1 ==> r == normalize(n as int, d as int),
            d >= 1 ==> (r is Some <==> (abs(reduced_numer(n as int, d as int)) <= i64::MAX
                && reduced_denom(n as int, d as int) <= i64::MAX)),
            r matches Some(x) ==> x.numer() == reduced_numer(n as int, d as int) && x.denom()
                == reduced_denom(n as int, d as int),
    {
        if d >= 1 {
            proof {
                lemma_normalize(n as int, d as int);
            }
        }
        if d < 1 {
            None
        } else {
            normalize_exec(n as i128, d as i128)
        }
    }

    pub fn is_zero(&self) -> (r: bool)
        ensures
            r == self.is_zero_spec(),
    {
        self.num == 0
    }

    pub fn add(&self, o: &Number) -> (r: Option<Number>)
        ensures
            r == self.spec_add(*o),
    {
        proof {
            use_type_invariant(self);
            use_type_invariant(o);
            lemma_mul_below(self.numer(), o.denom());
            lemma_mul_below(o.numer(), self.denom());
            assert(self.denom() * o.denom() >= 1) by (nonlinear_arith)
                requires
                    self.denom() >= 1,
                    o.denom() >= 1,
            ;
            lemma_mul_bound(self.denom(), o.denom());
        }
        let x = (self.num as i128) * (o.den as i128) + (o.num as i128) * (self.den as i128);
        let d = (self.den as i128) * (o.den as i128);
        normalize_exec(x, d)
    }

    pub fn sub(&self, o: &Number) -> (r: Option<Number>)
        ensures
            r == self.spec_sub(*o),
    {
        proof {
            use_type_invariant(self);
            use_type_invariant(o);
            lemma_mul_below(self.numer(), o.denom());
            lemma_mul_below(o.numer(), self.denom());
            assert(self.denom() * o.denom() >= 1) by (nonlinear_arith)
                requires
                    self.denom() >= 1,
                    o.denom() >= 1,
            ;
            lemma_mul_bound(self.denom(), o.denom());
        }
        let x = (self.num as i128) * (o.den as i128) - (o.num as i128) * (self.den as i128);
        let d = (self.den as i128) * (o.den as i128);
        normalize_exec(x, d)
    }

    pub fn mul(&self, o: &Number) -> (r: Option<Number>)
        ensures
            r == self.spec_mul(*o),
    {
        proof {
            use_type_invariant(self);
            use_type_invariant(o);
            lemma_mul_bound(self.numer(), o.numer());
            assert(self.denom() * o.denom() >= 1) by (nonlinear_arith)
                requires
                    self.denom() >= 1,
                    o.denom() >= 1,
            ;
            lemma_mul_bound(self.denom(), o.denom());
        }
        let x = (self.num as i128) * (o.num as i128);
        let d = (self.den as i128) * (o.den as i128);
        normalize_exec(x, d)
    }

    pub fn div(&self, o: &Number) -> (r: Option<Number>)
        ensures
            r == self.spec_div(*o),
    {
        proof {
            use_type_invariant(self);
            use_type_invariant(o);
            lemma_mul_bound(self.numer(), o.denom());
            lemma_mul_bound(self.denom(), o.numer());
            lemma_mul_bound(self.denom(), -o.numer());
        }
        if o.num == 0 {
            None
        } else if o.num < 0 {
            proof {
                assert(self.denom() * (-o.numer()) >= 1) by (nonlinear_arith)
                    requires
                        self.denom() >= 1,
                        -o.numer() >= 1,
                ;
            }
            let x = -((self.num as i128) * (o.den as i128));
            let d = (self.den as i128) * (-(o.num as i128));
            normalize_exec(x, d)
        } else {
            proof {
                assert(self.denom() * o.numer() >= 1) by (nonlinear_arith)
                    requires
                        self.denom() >= 1,
                        o.numer() >= 1,
                ;
            }
            let x = (self.num as i128) * (o.den as i128);
            let d = (self.den as i128) * (o.num as i128);
            normalize_exec(x, d)
        }
    }

    pub fn neg(&self) -> (r: Option<Number>)
        ensures
            r == self.spec_neg(),
    {
        proof {
            use_type_invariant(self);
        }
        normalize_exec(-(self.num as i128), self.den as i128)
    }

    pub fn equals(&self, o: &Number) -> (r: bool)
        ensures
            r == self.same_value(*o),
    {
        proof {
            use_type_invariant(self);
            use_type_invariant(o);
            lemma_mul_bound(self.numer(), o.denom());
            lemma_mul_bound(o.numer(), self.denom());
        }
        (self.num as i128) * (o.den as i128) == (o.num as i128) * (self.den as i128)
    }

    pub fn less(&self, o: &Number) -> (r: bool)
        ensures
            r == self.spec_lt(*o),
    {
        proof {
            use_type_invariant(self);
            use_type_invariant(o);
            lemma_mul_bound(self.numer(), o.denom());
            lemma_mul_bound(o.numer(), self.denom());
        }
        (self.num as i128) * (o.den as i128) < (o.num as i128) * (self.den as i128)
    }

    /// The value of a number literal; see `spec_from_decimal`.
    pub fn from_decimal(int_part: &Vec<char>, frac_part: &Vec<char>) -> (r: Option<Number>)
        requires
            all_digits(int_part@),
            all_digits(frac_part@),
        ensures
            r == Number::spec_from_decimal(int_part@, frac_part@),
    {
        if int_part.len() > MAX_LITERAL_DIGITS || frac_part.len() > MAX_LITERAL_DIGITS
            - int_part.len() {
            return None;
        }
        proof {
            lemma_pow10_mono(0, 18);
        }
        let ghost all = int_part@ + frac_part@;
        let mut v: u128 = 0;
        let mut scale: u128 = 1;
        let mut i: usize = 0;
        while i < int_part.len() + frac_part.len()
            invariant
                int_part@.len() + frac_part@.len() <= MAX_LITERAL_DIGITS,
                all == int_part@ + frac_part@,
                all_digits(int_part@),
                all_digits(frac_part@),
                0 <= i <= all.len(),
                v == digits_value(all.take(i as int)),
                v < pow10(i as nat),
                i <= int_part.len() ==> scale == 1,
                i > int_part.len() ==> scale == pow10((i - int_part.len()) as nat),
                scale <= pow10(i as nat),
                pow10(i as nat) <= pow10(18),
            decreases all.len() - i,
        {
            let c = if i < int_part.len() {
                int_part[i]
            } else {
                frac_part[i - int_part.len()]
            };
            assert(c == all[i as int]);
            assert(is_digit(c));
            proof {
                assert(all.take(i as int + 1).drop_last() =~= all.take(i as int));
                lemma_pow10_18();
                lemma_pow10_mono(i as nat + 1, 18);
                lemma_digits_value_bound(all.take(i as int));
                if i >= int_part.len() {
                    lemma_pow10_mono((i - int_part.len()) as nat, i as nat);
                }
            }
            v = v * 10 + ((c as u32) - ('0' as u32)) as u128;
            if i >= int_part.len() {
                scale = scale * 10;
            }
            i = i + 1;
        }
        proof {
            lemma_pow10_18();
            lemma_pow10_positive((i - int_part.len()) as nat);
            assert(all.take(all.len() as int) =~= all);
            if frac_part.len() == 0 {
                assert(pow10(0) == 1);
            }
        }
        normalize_exec(v as i128, scale as i128)
    }

    /// Appends how this value prints to `out`.
    pub fn push_display(&self, out: &mut String)
        ensures
            final(out)@ == old(out)@ + self.display(),
    {
        proof {
            use_type_invariant(self);
        }
        let mag: u128 = if self.num < 0 {
            (-(self.num as i128)) as u128
        } else {
            self.num as u128
        };
        let den = self.den as u128;
        if self.num < 0 {
            push_char(out, '-');
        }
        push_digits(out, mag / den);
        let mut frac: Vec<char> = Vec::new();
        proof {
            lemma_mod_bound(mag, den);
        }
        push_fraction(&mut frac, mag % den, den, FRACTION_DIGITS);
        let n = stripped_len(&frac);
        if n > 0 {
            push_char(out, '.');
        }
        let ghost prefix = out@;
        let mut i: usize = 0;
        while i < n
            invariant
                0 <= i <= n <= frac@.len(),
                out@ == prefix + frac@.take(i as int),
            decreases n - i,
        {
            push_char(out, frac[i]);
            proof {
                assert(frac@.take(i as int + 1) =~= frac@.take(i as int).push(frac@[i as int]));
            }
            i = i + 1;
        }
        proof {
            let whole = nat_digits((abs(self.numer()) / self.denom()) as nat);
            assert(mag as int == abs(self.numer()));
            if n > 0 {
                assert(out@ =~= old(out)@ + self.display());
            } else {
                assert(frac@.take(0) =~= Seq::<char>::empty());
                assert(out@ =~= old(out)@ + self.display());
            }
        }
    }

    /// Appends how this value prints as a number literal to `out`.
    pub fn push_literal_display(&self, out: &mut String)
        ensures
            final(out)@ == old(out)@ + self.literal_display(),
    {
        self.push_display(out);
        if self.den == 1 {
            push_char(out, '.');
            push_char(out, '0');
            assert(final(out)@ =~= old(out)@ + self.literal_display());
        }
    }
}

proof fn lemma_mod_bound(a: u128, b: u128)
    requires
        b >= 1,
    ensures
        a % b < b,
{
}

proof fn lemma_pow10_mono(a: nat, b: nat)
    requires
        a <= b,
    ensures
        pow10(a) <= pow10(b),
    decreases b,
{
    if a < b {
        lemma_pow10_mono(a, (b - 1) as nat);
    }
}

proof fn lemma_pow10_18()
    ensures
        pow10(18) == 1_000_000_000_000_000_000,
{
    reveal_with_fuel(pow10, 19);
}

fn push_fraction(out: &mut Vec<char>, r: u128, d: u128, k: u32)
    requires
        r < d,
        d <= i64::MAX,
    ensures
        final(out)@ == old(out)@ + fraction_digits(r as nat, d as nat, k as nat),
    decreases k,
{
    if k == 0 || r == 0 {
        assert(old(out)@ + Seq::<char>::empty() =~= old(out)@);
    } else {
        let q = (r * 10) / d;
        assert((r as int * 10) / (d as int) < 10) by (nonlinear_arith)
            requires
                0 <= r < d,
        ;
        let rest = (r * 10) % d;
        out.push((('0' as u8) + (q as u8)) as char);
        push_fraction(out, rest, d, k - 1);
        assert(old(out)@ + fraction_digits(r as nat, d as nat, k as nat) =~= old(out)@.push(
            digit_char(q as int),
        ) + fraction_digits(rest as nat, d as nat, (k - 1) as nat));
    }
}

/// The length of `v` once its trailing zeros are dropped.
fn stripped_len(v: &Vec<char>) -> (n: usize)
    ensures
        n <= v@.len(),
        v@.take(n as int) == strip_zeros(v@),
        n > 0 ==> strip_zeros(v@).len() > 0,
{
    let mut n = v.len();
    assert(v@.take(n as int) =~= v@);
    while n > 0 && v[n - 1] == '0'
        invariant
            n <= v@.len(),
            strip_zeros(v@.take(n as int)) == strip_zeros(v@),
        decreases n,
    {
        assert(v@.take(n as int).drop_last() =~= v@.take(n as int - 1));
        n = n - 1;
    }
    n
}

} // verus!
