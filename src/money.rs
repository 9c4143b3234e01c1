//! Decimal quantities of money, held as a mantissa and a scale. The library
//! decides whether an exact sum or difference stays within the range of
//! decimals; within it, `rust_decimal` computes the result, exactly where it
//! fits in 96 bits and rounded to fewer digits otherwise.

use core::cmp::Ordering;
use rust_decimal::Decimal;
use vstd::arithmetic::div_mod::{lemma_fundamental_div_mod, lemma_mod_bound};
use vstd::prelude::*;

verus! {

/// The largest magnitude a mantissa may have: 2^96 - 1.
pub const MAX_MANTISSA: i128 = 79228162514264337593543950335;

/// The most digits a value may carry after the decimal point.
pub const MAX_SCALE: u32 = 28;

/// 10 to the power `n`.
pub open spec fn pow10(n: nat) -> int
    decreases n,
{
    if n == 0 {
        1
    } else {
        10 * pow10((n - 1) as nat)
    }
}

/// The (mantissa, scale) pair that `rust_decimal` gives for a sum within the
/// range that it has to round to fewer digits.
pub uninterp spec fn decimal_rounded_sum(a: (i128, u32), b: (i128, u32)) -> (i128, u32);

/// The (mantissa, scale) pair that `rust_decimal` gives for a difference within
/// the range that it has to round to fewer digits.
pub uninterp spec fn decimal_rounded_difference(a: (i128, u32), b: (i128, u32)) -> (i128, u32);

/// The decimal number `mantissa / 10^scale`.
#[derive(Clone, Copy, Debug)]
pub struct Money {
    pub mantissa: i128,
    pub scale: u32,
}

impl View for Money {
    type V = (i128, u32);

    open spec fn view(&self) -> (i128, u32) {
        (self.mantissa, self.scale)
    }
}

impl Money {
    /// The mantissa has at most 96 bits and the scale is at most 28.
    pub open spec fn wf(self) -> bool {
        -MAX_MANTISSA <= self.mantissa <= MAX_MANTISSA && self.scale <= MAX_SCALE
    }

    /// The value, counted in units of 10^-28.
    pub open spec fn units(self) -> int {
        self.mantissa * pow10((MAX_SCALE - self.scale) as nat)
    }

    /// The mantissa that the value takes at scale `s`, which is at least its own.
    pub open spec fn aligned(self, s: u32) -> int {
        self.mantissa * pow10((s - self.scale) as nat)
    }

    /// A mantissa of at most 96 bits.
    pub open spec fn in_range(x: int) -> bool {
        -MAX_MANTISSA <= x <= MAX_MANTISSA
    }

    /// A value of `u` units lies within the range of decimals: at most
    /// `MAX_MANTISSA` whole units either way.
    pub open spec fn in_range_units(u: int) -> bool {
        -MAX_MANTISSA * pow10(28) <= u <= MAX_MANTISSA * pow10(28)
    }

    /// The larger of the two scales.
    pub open spec fn common_scale(a: Money, b: Money) -> u32 {
        if a.scale >= b.scale {
            a.scale
        } else {
            b.scale
        }
    }

    /// Both operands and their sum fit in 96 bits at the larger of the two scales.
    pub open spec fn sum_fits(a: Money, b: Money) -> bool {
        let s = Money::common_scale(a, b);
        Money::in_range(a.aligned(s)) && Money::in_range(b.aligned(s)) && Money::in_range(
            a.aligned(s) + b.aligned(s),
        )
    }

    /// Both operands and their difference fit in 96 bits at the larger of the two scales.
    pub open spec fn difference_fits(a: Money, b: Money) -> bool {
        let s = Money::common_scale(a, b);
        Money::in_range(a.aligned(s)) && Money::in_range(b.aligned(s)) && Money::in_range(
            a.aligned(s) - b.aligned(s),
        )
    }

    /// The sum, at the larger of the two scales.
    pub open spec fn exact_sum(a: Money, b: Money) -> Money {
        let s = Money::common_scale(a, b);
        Money { mantissa: (a.aligned(s) + b.aligned(s)) as i128, scale: s }
    }

    /// The difference, at the larger of the two scales.
    pub open spec fn exact_difference(a: Money, b: Money) -> Money {
        let s = Money::common_scale(a, b);
        Money { mantissa: (a.aligned(s) - b.aligned(s)) as i128, scale: s }
    }

    /// The value with the opposite sign, at the same scale.
    pub open spec fn negated(self) -> Money {
        Money { mantissa: (-self.mantissa) as i128, scale: self.scale }
    }

    /// The additions whose result can be held exactly: a zero operand, or a sum
    /// that fits at the larger scale.
    pub open spec fn add_is_exact(a: Money, b: Money) -> bool {
        a.mantissa == 0 || b.mantissa == 0 || Money::sum_fits(a, b)
    }

    /// The subtractions whose result can be held exactly: a zero operand, or a
    /// difference that fits at the larger scale.
    pub open spec fn sub_is_exact(a: Money, b: Money) -> bool {
        a.mantissa == 0 || b.mantissa == 0 || Money::difference_fits(a, b)
    }

    /// The value `mantissa / 10^scale`.
    pub fn new(mantissa: i128, scale: u32) -> (r: Money)
        requires
            -MAX_MANTISSA <= mantissa <= MAX_MANTISSA,
            scale <= MAX_SCALE,
        ensures
            r.mantissa == mantissa,
            r.scale == scale,
            r.wf(),
    {
        Money { mantissa, scale }
    }

    /// Whether the mantissa has at most 96 bits and the scale is at most 28.
    pub fn is_valid(&self) -> (r: bool)
        ensures
            r == self.wf(),
    {
        -MAX_MANTISSA <= self.mantissa && self.mantissa <= MAX_MANTISSA && self.scale <= MAX_SCALE
    }

    /// Zero, at scale 0.
    pub fn zero() -> (r: Money)
        ensures
            r.mantissa == 0,
            r.scale == 0,
            r.wf(),
            r.units() == 0,
    {
        Money { mantissa: 0, scale: 0 }
    }

    /// The largest value there is: 2^96 - 1 at scale 0.
    pub fn max_value() -> (r: Money)
        ensures
            r.mantissa == MAX_MANTISSA,
            r.scale == 0,
            r.wf(),
    {
        Money { mantissa: MAX_MANTISSA, scale: 0 }
    }

    /// The mantissa.
    pub fn mantissa(&self) -> (r: i128)
        ensures
            r == self.mantissa,
    {
        self.mantissa
    }

    /// The scale: how many of the mantissa's digits stand after the point.
    pub fn scale(&self) -> (r: u32)
        ensures
            r == self.scale,
    {
        self.scale
    }

    /// The sum; `None` where the exact sum leaves the range of decimals.
    /// Within the range it is exact where it fits in 96 bits at the larger
    /// scale, and otherwise rounded to fewer digits as `rust_decimal` does.
    pub fn checked_add(self, other: Money) -> (r: Option<Money>)
        requires
            self.wf(),
            other.wf(),
        ensures
            r == Money::add_result(self, other),
            r matches Some(x) ==> x.wf(),
    {
        if Money::sum_in_range(self, other) {
            Some(decimal_add(self, other))
        } else {
            None
        }
    }

    /// The difference; `None` where the exact difference leaves the range of
    /// decimals. Within the range it is exact where it fits in 96 bits at the
    /// larger scale, and otherwise rounded as `rust_decimal` does.
    pub fn checked_sub(self, other: Money) -> (r: Option<Money>)
        requires
            self.wf(),
            other.wf(),
        ensures
            r == Money::sub_result(self, other),
            r matches Some(x) ==> x.wf(),
    {
        let negated = Money { mantissa: -other.mantissa, scale: other.scale };
        proof {
            lemma_negated_units(other);
        }
        if Money::sum_in_range(self, negated) {
            Some(decimal_sub(self, other))
        } else {
            None
        }
    }

    /// Whether the exact sum of `a` and `b` lies within the range of decimals.
    fn sum_in_range(a: Money, b: Money) -> (r: bool)
        requires
            a.wf(),
            b.wf(),
        ensures
            r == Money::in_range_units(a.units() + b.units()),
    {
        proof {
            lemma_units_sign(a);
            lemma_units_sign(b);
            lemma_units_bounded(a);
            lemma_units_bounded(b);
        }
        if a.mantissa >= 0 && b.mantissa >= 0 {
            Money::nonneg_sum_within(a, b)
        } else if a.mantissa <= 0 && b.mantissa <= 0 {
            let na = Money { mantissa: -a.mantissa, scale: a.scale };
            let nb = Money { mantissa: -b.mantissa, scale: b.scale };
            proof {
                lemma_negated_units(a);
                lemma_negated_units(b);
            }
            Money::nonneg_sum_within(na, nb)
        } else {
            true
        }
    }

    /// Whether the sum of two values that are not negative stays within the
    /// largest decimal. Each value is split into its whole part and its
    /// fraction, counted in units of 10^-28, so that nothing overflows.
    fn nonneg_sum_within(a: Money, b: Money) -> (r: bool)
        requires
            a.wf(),
            b.wf(),
            a.mantissa >= 0,
            b.mantissa >= 0,
        ensures
            r == (a.units() + b.units() <= MAX_MANTISSA * pow10(28)),
    {
        let (qa, fa) = Money::split(a);
        let (qb, fb) = Money::split(b);
        let one = pow10_exec(MAX_SCALE);
        proof {
            lemma_pow10_28();
        }
        let q = qa + qb - MAX_MANTISSA;
        let f = fa + fb;
        proof {
            let p = pow10(28);
            assert(q == -1 ==> q * p == -p) by (nonlinear_arith);
            assert(q == 0 ==> q * p == 0) by (nonlinear_arith);
            assert(a.units() + b.units() - MAX_MANTISSA * p == q * p + f) by (nonlinear_arith)
                requires
                    a.units() == qa * p + fa,
                    b.units() == qb * p + fb,
                    q == qa + qb - MAX_MANTISSA,
                    f == fa + fb,
            ;
            assert(q >= 1 ==> q * p >= p) by (nonlinear_arith)
                requires
                    p > 0,
            ;
            assert(q <= -2 ==> q * p <= -2 * p) by (nonlinear_arith)
                requires
                    p > 0,
            ;
        }
        if q >= 1 {
            false
        } else if q <= -2 {
            true
        } else if q == 0 {
            f == 0
        } else {
            f <= one
        }
    }

    /// The whole part of a value that is not negative, and its fraction in
    /// units of 10^-28.
    fn split(m: Money) -> (r: (i128, i128))
        requires
            m.wf(),
            m.mantissa >= 0,
        ensures
            m.units() == r.0 * pow10(28) + r.1,
            0 <= r.0 <= MAX_MANTISSA,
            0 <= r.1 < pow10(28),
    {
        let p = pow10_exec(m.scale);
        let rest = pow10_exec(MAX_SCALE - m.scale);
        proof {
            lemma_pow10_positive(m.scale as nat);
            lemma_pow10_positive((MAX_SCALE - m.scale) as nat);
            lemma_pow10_add(m.scale as nat, (MAX_SCALE - m.scale) as nat);
            reveal_with_fuel(pow10, 29);
            assert(pow10(28) == 10000000000000000000000000000);
        }
        let whole = ((m.mantissa as u128) / (p as u128)) as i128;
        let frac = ((m.mantissa as u128) % (p as u128)) as i128;
        proof {
            let x = m.mantissa as int;
            let pi = p as int;
            let ri = rest as int;
            lemma_fundamental_div_mod(x, pi);
            lemma_mod_bound(x, pi);
            assert(whole == x / pi);
            assert(frac == x % pi);
            assert(0 <= whole <= x) by (nonlinear_arith)
                requires
                    x == pi * whole + frac,
                    0 <= frac < pi,
                    x >= 0,
                    pi >= 1,
            ;
            assert(frac * ri < pi * ri) by (nonlinear_arith)
                requires
                    0 <= frac < pi,
                    ri > 0,
            ;
            assert(m.units() == whole * (pi * ri) + frac * ri) by (nonlinear_arith)
                requires
                    x == pi * whole + frac,
                    m.units() == x * ri,
            ;
        }
        (whole, frac * rest)
    }

    /// The exact sum: a zero operand gives the other one back; otherwise the
    /// sum at the larger of the two scales.
    pub open spec fn exact_add(a: Money, b: Money) -> Money {
        if a.mantissa == 0 {
            b
        } else if b.mantissa == 0 {
            a
        } else {
            Money::exact_sum(a, b)
        }
    }

    /// The exact difference: zero minus `b` is `b` negated; `a` minus zero is
    /// `a`; otherwise the difference at the larger of the two scales.
    pub open spec fn exact_sub(a: Money, b: Money) -> Money {
        if a.mantissa == 0 {
            b.negated()
        } else if b.mantissa == 0 {
            a
        } else {
            Money::exact_difference(a, b)
        }
    }

    /// The sum within the range: exact where it can be held exactly, else
    /// what `rust_decimal` rounds it to.
    pub open spec fn add_value(a: Money, b: Money) -> Money {
        if Money::add_is_exact(a, b) {
            Money::exact_add(a, b)
        } else {
            Money::from_view(decimal_rounded_sum(a@, b@))
        }
    }

    /// The difference within the range: exact where it can be held exactly,
    /// else what `rust_decimal` rounds it to.
    pub open spec fn sub_value(a: Money, b: Money) -> Money {
        if Money::sub_is_exact(a, b) {
            Money::exact_sub(a, b)
        } else {
            Money::from_view(decimal_rounded_difference(a@, b@))
        }
    }

    /// The sum, or `None` where the exact sum leaves the range.
    pub open spec fn add_result(a: Money, b: Money) -> Option<Money> {
        if Money::in_range_units(a.units() + b.units()) {
            Some(Money::add_value(a, b))
        } else {
            None
        }
    }

    /// The difference, or `None` where the exact difference leaves the range.
    pub open spec fn sub_result(a: Money, b: Money) -> Option<Money> {
        if Money::in_range_units(a.units() - b.units()) {
            Some(Money::sub_value(a, b))
        } else {
            None
        }
    }

    /// The money whose (mantissa, scale) pair is `p`.
    pub open spec fn from_view(p: (i128, u32)) -> Money {
        Money { mantissa: p.0, scale: p.1 }
    }

    /// Whether the value is below that of `other`.
    pub fn less_than(&self, other: &Money) -> (r: bool)
        requires
            self.wf(),
            other.wf(),
        ensures
            r == (self.units() < other.units()),
    {
        match decimal_cmp(*self, *other) {
            Ordering::Less => true,
            _ => false,
        }
    }

    /// Whether the two values are equal; `1.0` equals `1`.
    pub fn same_value(&self, other: &Money) -> (r: bool)
        requires
            self.wf(),
            other.wf(),
        ensures
            r == (self.units() == other.units()),
    {
        match decimal_cmp(*self, *other) {
            Ordering::Equal => true,
            _ => false,
        }
    }
}

/// 10 to the power `n`, for `n` up to 28.
fn pow10_exec(n: u32) -> (r: i128)
    requires
        n <= MAX_SCALE,
    ensures
        r == pow10(n as nat),
{
    proof {
        reveal_with_fuel(pow10, 29);
        assert(pow10(28) == 10000000000000000000000000000);
    }
    let mut r: i128 = 1;
    let mut i: u32 = 0;
    while i < n
        invariant
            i <= n <= MAX_SCALE,
            r == pow10(i as nat),
            pow10(28) == 10000000000000000000000000000,
        decreases n - i,
    {
        proof {
            lemma_pow10_monotone((i + 1) as nat, 28);
            assert(pow10((i + 1) as nat) == 10 * pow10(i as nat));
            lemma_pow10_positive(i as nat);
            assert(10 * r <= 10000000000000000000000000000);
        }
        r = r * 10;
        i = i + 1;
    }
    r
}

/// Relies on `rust_decimal::Decimal::from_i128_with_scale`, which takes any valid
/// pair, and on `Add for Decimal`: a zero left operand gives back the right one
/// and a zero right operand the left one; a sum whose operands and result fit in
/// 96 bits at the larger scale is exact, at that scale; any other sum is rounded
/// to fewer digits. It panics only where the sum leaves the range, which the
/// caller excludes.
#[verifier::external_body]
fn decimal_add(a: Money, b: Money) -> (r: Money)
    requires
        a.wf(),
        b.wf(),
        Money::in_range_units(a.units() + b.units()),
    ensures
        r == Money::add_value(a, b),
        !Money::add_is_exact(a, b) ==> r@ == decimal_rounded_sum(a@, b@),
        r.wf(),
{
    let d = Decimal::from_i128_with_scale(a.mantissa, a.scale) + Decimal::from_i128_with_scale(
        b.mantissa,
        b.scale,
    );
    Money { mantissa: d.mantissa(), scale: d.scale() }
}

/// Relies on `rust_decimal::Decimal::from_i128_with_scale`, which takes any valid
/// pair, and on `Sub for Decimal`: zero minus `b` is `b` with its sign flipped;
/// `a` minus zero is `a`; a difference whose operands and result fit in 96 bits at
/// the larger scale is exact, at that scale; any other difference is rounded to
/// fewer digits. It panics only where the difference leaves the range, which the
/// caller excludes.
#[verifier::external_body]
fn decimal_sub(a: Money, b: Money) -> (r: Money)
    requires
        a.wf(),
        b.wf(),
        Money::in_range_units(a.units() - b.units()),
    ensures
        r == Money::sub_value(a, b),
        !Money::sub_is_exact(a, b) ==> r@ == decimal_rounded_difference(a@, b@),
        r.wf(),
{
    let d = Decimal::from_i128_with_scale(a.mantissa, a.scale) - Decimal::from_i128_with_scale(
        b.mantissa,
        b.scale,
    );
    Money { mantissa: d.mantissa(), scale: d.scale() }
}

/// Relies on `Ord for rust_decimal::Decimal`: it compares the values exactly,
/// whatever their scales.
#[verifier::external_body]
fn decimal_cmp(a: Money, b: Money) -> (r: Ordering)
    requires
        a.wf(),
        b.wf(),
    ensures
        (r == Ordering::Less) == (a.units() < b.units()),
        (r == Ordering::Equal) == (a.units() == b.units()),
        (r == Ordering::Greater) == (a.units() > b.units()),
{
    Decimal::from_i128_with_scale(a.mantissa, a.scale).cmp(
        &Decimal::from_i128_with_scale(b.mantissa, b.scale),
    )
}

/// Powers of ten are positive.
pub proof fn lemma_pow10_positive(n: nat)
    ensures
        pow10(n) > 0,
    decreases n,
{
    if n > 0 {
        lemma_pow10_positive((n - 1) as nat);
    }
}

/// Ten to the 28th, written out.
pub proof fn lemma_pow10_28()
    ensures
        pow10(28) == 10000000000000000000000000000,
{
    reveal_with_fuel(pow10, 29);
}

/// Powers of ten grow with the exponent.
pub proof fn lemma_pow10_monotone(x: nat, y: nat)
    requires
        x <= y,
    ensures
        pow10(x) <= pow10(y),
    decreases y,
{
    if y > x {
        lemma_pow10_monotone(x, (y - 1) as nat);
        lemma_pow10_positive((y - 1) as nat);
    }
}

/// A value is positive, zero or negative exactly as its mantissa is.
pub proof fn lemma_units_sign(m: Money)
    ensures
        (m.units() > 0) == (m.mantissa > 0),
        (m.units() == 0) == (m.mantissa == 0),
        (m.units() < 0) == (m.mantissa < 0),
{
    let p = pow10((MAX_SCALE - m.scale) as nat);
    lemma_pow10_positive((MAX_SCALE - m.scale) as nat);
    assert(m.units() == m.mantissa * p);
    if m.mantissa > 0 {
        assert(m.mantissa * p > 0) by (nonlinear_arith)
            requires
                m.mantissa > 0,
                p > 0,
        ;
    } else if m.mantissa < 0 {
        assert(m.mantissa * p < 0) by (nonlinear_arith)
            requires
                m.mantissa < 0,
                p > 0,
        ;
    }
}

/// Powers of ten multiply by adding exponents.
pub proof fn lemma_pow10_add(x: nat, y: nat)
    ensures
        pow10(x + y) == pow10(x) * pow10(y),
    decreases y,
{
    if y > 0 {
        lemma_pow10_add(x, (y - 1) as nat);
        let p = pow10(x);
        let q = pow10((y - 1) as nat);
        assert(pow10(x + y) == 10 * pow10((x + y - 1) as nat));
        assert(10 * (p * q) == p * (10 * q)) by (nonlinear_arith);
    }
}

/// A valid value counted in units is its mantissa at any larger scale `s`, times 10^(28 - s).
pub proof fn lemma_aligned_units(m: Money, s: u32)
    requires
        m.wf(),
        m.scale <= s <= MAX_SCALE,
    ensures
        m.units() == m.aligned(s) * pow10((MAX_SCALE - s) as nat),
{
    let x = pow10((s - m.scale) as nat);
    let y = pow10((MAX_SCALE - s) as nat);
    lemma_pow10_add((s - m.scale) as nat, (MAX_SCALE - s) as nat);
    assert(((s - m.scale) as nat) + ((MAX_SCALE - s) as nat) == (MAX_SCALE - m.scale) as nat);
    assert(m.mantissa * (x * y) == (m.mantissa * x) * y) by (nonlinear_arith);
}

/// An addition that can be held exactly adds the values, and gives a valid result.
pub proof fn lemma_add_exact(a: Money, b: Money)
    requires
        a.wf(),
        b.wf(),
        Money::add_is_exact(a, b),
    ensures
        Money::exact_add(a, b).units() == a.units() + b.units(),
        Money::exact_add(a, b).wf(),
        Money::in_range_units(a.units() + b.units()),
        Money::add_result(a, b) == Some(Money::exact_add(a, b)),
{
    lemma_units_sign(a);
    lemma_units_sign(b);
    if a.mantissa != 0 && b.mantissa != 0 {
        let s = Money::common_scale(a, b);
        let p = pow10((MAX_SCALE - s) as nat);
        lemma_aligned_units(a, s);
        lemma_aligned_units(b, s);
        let x = a.aligned(s);
        let y = b.aligned(s);
        assert((x + y) * p == x * p + y * p) by (nonlinear_arith);
    }
    lemma_units_bounded(Money::exact_add(a, b));
}

/// A subtraction that can be held exactly subtracts the values, and gives a valid result.
pub proof fn lemma_sub_exact(a: Money, b: Money)
    requires
        a.wf(),
        b.wf(),
        Money::sub_is_exact(a, b),
    ensures
        Money::exact_sub(a, b).units() == a.units() - b.units(),
        Money::exact_sub(a, b).wf(),
        Money::in_range_units(a.units() - b.units()),
        Money::sub_result(a, b) == Some(Money::exact_sub(a, b)),
{
    lemma_units_sign(a);
    lemma_units_sign(b);
    if a.mantissa == 0 {
        let p = pow10((MAX_SCALE - b.scale) as nat);
        assert((-b.mantissa) * p == -(b.mantissa * p)) by (nonlinear_arith);
    } else if b.mantissa != 0 {
        let s = Money::common_scale(a, b);
        let p = pow10((MAX_SCALE - s) as nat);
        lemma_aligned_units(a, s);
        lemma_aligned_units(b, s);
        let x = a.aligned(s);
        let y = b.aligned(s);
        assert((x - y) * p == x * p - y * p) by (nonlinear_arith);
    }
    lemma_units_bounded(Money::exact_sub(a, b));
}

/// A valid value lies within the range: at most `MAX_MANTISSA` whole units
/// either way.
pub proof fn lemma_units_bounded(m: Money)
    requires
        m.wf(),
    ensures
        -MAX_MANTISSA * pow10(28) <= m.units() <= MAX_MANTISSA * pow10(28),
{
    let p = pow10((MAX_SCALE - m.scale) as nat);
    let q = pow10(28);
    lemma_pow10_monotone((MAX_SCALE - m.scale) as nat, 28);
    lemma_pow10_positive((MAX_SCALE - m.scale) as nat);
    let x = m.mantissa as int;
    assert(-MAX_MANTISSA * q <= x * p <= MAX_MANTISSA * q) by (nonlinear_arith)
        requires
            -MAX_MANTISSA <= x <= MAX_MANTISSA,
            0 < p <= q,
    ;
}

/// Negating the mantissa negates the value.
pub proof fn lemma_negated_units(m: Money)
    requires
        m.wf(),
    ensures
        (Money { mantissa: (-m.mantissa) as i128, scale: m.scale }).units() == -m.units(),
{
    let p = pow10((MAX_SCALE - m.scale) as nat);
    assert((-m.mantissa) * p == -(m.mantissa * p)) by (nonlinear_arith);
}

/// A sum or difference beyond the range has no exact result.
pub proof fn lemma_beyond_range_not_exact(a: Money, b: Money)
    requires
        a.wf(),
        b.wf(),
    ensures
        !Money::in_range_units(a.units() + b.units()) ==> !Money::add_is_exact(a, b),
        !Money::in_range_units(a.units() - b.units()) ==> !Money::sub_is_exact(a, b),
{
    if Money::add_is_exact(a, b) {
        lemma_add_exact(a, b);
        lemma_units_bounded(Money::exact_add(a, b));
    }
    if Money::sub_is_exact(a, b) {
        lemma_sub_exact(a, b);
        lemma_units_bounded(Money::exact_sub(a, b));
    }
}

impl PartialEq for Money {
    /// Equal values are equal whatever their scales: `1.0 == 1`.
    fn eq(&self, other: &Money) -> (r: bool) {
        if self.is_valid() && other.is_valid() {
            self.same_value(other)
        } else {
            self.mantissa == other.mantissa && self.scale == other.scale
        }
    }
}

impl vstd::std_specs::cmp::PartialEqSpecImpl for Money {
    open spec fn obeys_eq_spec() -> bool {
        true
    }

    open spec fn eq_spec(&self, other: &Money) -> bool {
        if self.wf() && other.wf() {
            self.units() == other.units()
        } else {
            self@ == other@
        }
    }
}

} // verus!
