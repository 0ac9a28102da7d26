//! Fixed-point decimal amounts.
//!
//! Every price, quantity and balance in the game is a decimal number of the
//! form `mantissa / 10^scale`, with a mantissa below 2^96 in magnitude and a
//! scale of at most 28.  The arithmetic itself is carried out by the
//! `rust_decimal` crate; this module holds the plain representation, its
//! mathematical model and the trusted wrappers around the crate's operators.
//!
//! The model of a value is its number of units of 10^-28 (`units`), so that
//! comparing and adding amounts of different scales is plain integer
//! arithmetic in specifications.
use vstd::prelude::*;

verus! {

/// Largest mantissa magnitude that a decimal can hold: 2^96 - 1.
pub const MANTISSA_LIMIT: i128 = 79228162514264337593543950335;

/// Largest number of fractional digits.
pub const MAX_SCALE: u32 = 28;

/// 2^95: amounts whose combined magnitude stays below this bound can be added,
/// subtracted or multiplied without leaving the representable range.
pub open spec fn safe_magnitude() -> int {
    39614081257132168796771975168
}

pub open spec fn pow10(n: nat) -> int
    decreases n,
{
    if n == 0 {
        1
    } else {
        10 * pow10((n - 1) as nat)
    }
}

/// 10^28: the number of units in one whole.
pub open spec fn one_whole() -> int {
    pow10(28)
}

pub open spec fn abs(x: int) -> int {
    if x < 0 {
        -x
    } else {
        x
    }
}

pub open spec fn max_nat(a: nat, b: nat) -> nat {
    if a >= b {
        a
    } else {
        b
    }
}

/// A decimal number `mantissa / 10^scale`.
#[derive(Clone, Copy, Debug)]
pub struct Decimal {
    pub mantissa: i128,
    pub scale: u32,
}

impl View for Decimal {
    type V = (int, int);

    open spec fn view(&self) -> (int, int) {
        (self.mantissa as int, self.scale as int)
    }
}

/// The value of a decimal in units of 10^-28.
pub open spec fn units(d: Decimal) -> int {
    d.mantissa * pow10((28 - d.scale) as nat)
}

/// Whether `d` is a decimal that the underlying representation can hold.
pub open spec fn wf(d: Decimal) -> bool {
    &&& -MANTISSA_LIMIT <= d.mantissa <= MANTISSA_LIMIT
    &&& d.scale <= 28
}

/// The magnitude of `d` is at most `bound` (a whole number).
pub open spec fn within(d: Decimal, bound: int) -> bool {
    abs(units(d)) <= bound * one_whole()
}

/// A sum or difference whose exact value is `u` units, computed from `a` and
/// `b`, fits the representation at the larger of the two scales without
/// rounding.
pub open spec fn aligned_fits(a: Decimal, b: Decimal, u: int) -> bool {
    let k = pow10((28 - max_nat(a.scale as nat, b.scale as nat)) as nat);
    &&& abs(units(a)) <= MANTISSA_LIMIT * k
    &&& abs(units(b)) <= MANTISSA_LIMIT * k
    &&& abs(u) <= MANTISSA_LIMIT * k
}

/// Whether the product of `a` and `b` fits the representation exactly.
pub open spec fn product_fits(a: Decimal, b: Decimal) -> bool {
    &&& abs(a.mantissa * b.mantissa) <= MANTISSA_LIMIT
    &&& a.scale + b.scale <= 28
}

/// Name for what `rust_decimal` returns for `a + b`, as (mantissa, scale).
pub uninterp spec fn decimal_sum(a: (int, int), b: (int, int)) -> (int, int);

/// Name for what `rust_decimal` returns for `a - b`, as (mantissa, scale).
pub uninterp spec fn decimal_difference(a: (int, int), b: (int, int)) -> (int, int);

/// Name for what `rust_decimal` returns for `a * b`, as (mantissa, scale).
pub uninterp spec fn decimal_product(a: (int, int), b: (int, int)) -> (int, int);

/// Name for what `rust_decimal` returns for `a / b`, as (mantissa, scale).
pub uninterp spec fn decimal_quotient(a: (int, int), b: (int, int)) -> (int, int);

/// The digits of `n`, none for zero, with zeros in front up to `width`
/// digits.
pub open spec fn padded_digits(n: nat, width: nat) -> Seq<char> {
    let d = if n == 0 {
        Seq::<char>::empty()
    } else {
        crate::text::nat_text(n)
    };
    if d.len() < width {
        Seq::new((width - d.len()) as nat, |i: int| '0') + d
    } else {
        d
    }
}

/// The text that `rust_decimal` displays for the decimal (mantissa, scale):
/// a `-` for a negative mantissa, then the digits of its magnitude (at least
/// `scale` of them) with a point before the last `scale` digits, and a `0`
/// where no digit stands before the point.
pub open spec fn decimal_text(a: (int, int)) -> Seq<char> {
    let m = a.0;
    let s = if a.1 < 0 {
        0
    } else {
        a.1
    };
    let d = padded_digits(abs(m) as nat, s as nat);
    let whole = d.take(d.len() - s);
    let shown = if whole.len() == 0 {
        seq!['0']
    } else {
        whole
    };
    let body = if s == 0 {
        shown
    } else {
        shown + seq!['.'] + d.skip(d.len() - s)
    };
    if m < 0 {
        seq!['-'] + body
    } else {
        body
    }
}

/// The decimal that `a + b` gives: exact where the exact sum fits the
/// representation, otherwise the rounded value the library computes.
pub open spec fn add_spec(a: Decimal, b: Decimal) -> Decimal {
    if a.mantissa == 0 {
        b
    } else if b.mantissa == 0 {
        a
    } else if aligned_fits(a, b, units(a) + units(b)) {
        let s = max_nat(a.scale as nat, b.scale as nat);
        Decimal {
            mantissa: ((units(a) + units(b)) / pow10((28 - s) as nat)) as i128,
            scale: s as u32,
        }
    } else {
        let r = decimal_sum(a@, b@);
        Decimal { mantissa: r.0 as i128, scale: r.1 as u32 }
    }
}

/// The decimal that `a - b` gives.
pub open spec fn sub_spec(a: Decimal, b: Decimal) -> Decimal {
    if a.mantissa == 0 {
        Decimal { mantissa: (-b.mantissa) as i128, scale: b.scale }
    } else if b.mantissa == 0 {
        a
    } else if aligned_fits(a, b, units(a) - units(b)) {
        let s = max_nat(a.scale as nat, b.scale as nat);
        Decimal {
            mantissa: ((units(a) - units(b)) / pow10((28 - s) as nat)) as i128,
            scale: s as u32,
        }
    } else {
        let r = decimal_difference(a@, b@);
        Decimal { mantissa: r.0 as i128, scale: r.1 as u32 }
    }
}

/// The decimal that `a * b` gives.
pub open spec fn mul_spec(a: Decimal, b: Decimal) -> Decimal {
    if a.mantissa == 0 || b.mantissa == 0 {
        Decimal { mantissa: 0, scale: 0 }
    } else if product_fits(a, b) {
        Decimal { mantissa: (a.mantissa * b.mantissa) as i128, scale: (a.scale + b.scale) as u32 }
    } else {
        let r = decimal_product(a@, b@);
        Decimal { mantissa: r.0 as i128, scale: r.1 as u32 }
    }
}

/// The decimal that `a / b` gives.
pub open spec fn div_spec(a: Decimal, b: Decimal) -> Decimal {
    let r = decimal_quotient(a@, b@);
    Decimal { mantissa: r.0 as i128, scale: r.1 as u32 }
}

/// `a + b` and `a - b` cannot overflow when the operands' magnitudes add up
/// to at most 2^95.
pub open spec fn sum_safe(a: Decimal, b: Decimal) -> bool {
    abs(units(a)) + abs(units(b)) <= safe_magnitude() * one_whole()
}

/// `a * b` cannot overflow when the exact product is at most 2^95.
pub open spec fn product_safe(a: Decimal, b: Decimal) -> bool {
    abs(units(a) * units(b)) <= safe_magnitude() * one_whole() * one_whole()
}

/// `a / b` cannot fail when `b` is non-zero and the exact quotient is at most 2^95.
pub open spec fn quotient_safe(a: Decimal, b: Decimal) -> bool {
    &&& b.mantissa != 0
    &&& abs(units(a)) <= safe_magnitude() * abs(units(b))
}

/// `rust_decimal`'s `+` on two decimals.  Trusted: it returns the named sum;
/// when either operand is zero it returns the other operand unchanged; when
/// both are non-zero and the operands aligned to the larger scale, and their
/// exact sum, have mantissas below 2^96, it returns that exact sum at that
/// scale; in every case the result is within one whole of the exact sum.
/// It overflows only beyond 2^96, which `requires` rules out.
#[verifier::external_body]
fn decimal_add(a: Decimal, b: Decimal) -> (r: Decimal)
    requires
        wf(a),
        wf(b),
        sum_safe(a, b),
    ensures
        wf(r),
        r@ == decimal_sum(a@, b@),
        a.mantissa == 0 ==> r == b,
        a.mantissa != 0 && b.mantissa == 0 ==> r == a,
        a.mantissa != 0 && b.mantissa != 0 && aligned_fits(a, b, units(a) + units(b)) ==> {
            &&& r.scale as nat == max_nat(a.scale as nat, b.scale as nat)
            &&& units(r) == units(a) + units(b)
        },
        abs(units(r) - (units(a) + units(b))) <= one_whole(),
{
    let x = rust_decimal::Decimal::from_i128_with_scale(a.mantissa, a.scale);
    let y = rust_decimal::Decimal::from_i128_with_scale(b.mantissa, b.scale);
    let z = x + y;
    Decimal { mantissa: z.mantissa(), scale: z.scale() }
}

/// `rust_decimal`'s `-` on two decimals.  Trusted: it returns the named
/// difference; `0 - b` is `b` negated at `b`'s scale and `a - 0` is `a`; when
/// both are non-zero and the aligned operands and exact difference have
/// mantissas below 2^96, it returns the exact difference at the larger scale;
/// in every case the result is within one whole of the exact difference.
#[verifier::external_body]
fn decimal_sub(a: Decimal, b: Decimal) -> (r: Decimal)
    requires
        wf(a),
        wf(b),
        sum_safe(a, b),
    ensures
        wf(r),
        r@ == decimal_difference(a@, b@),
        a.mantissa == 0 ==> r == (Decimal { mantissa: (-b.mantissa) as i128, scale: b.scale }),
        a.mantissa != 0 && b.mantissa == 0 ==> r == a,
        a.mantissa != 0 && b.mantissa != 0 && aligned_fits(a, b, units(a) - units(b)) ==> {
            &&& r.scale as nat == max_nat(a.scale as nat, b.scale as nat)
            &&& units(r) == units(a) - units(b)
        },
        abs(units(r) - (units(a) - units(b))) <= one_whole(),
{
    let x = rust_decimal::Decimal::from_i128_with_scale(a.mantissa, a.scale);
    let y = rust_decimal::Decimal::from_i128_with_scale(b.mantissa, b.scale);
    let z = x - y;
    Decimal { mantissa: z.mantissa(), scale: z.scale() }
}

/// `rust_decimal`'s `*` on two decimals.  Trusted: it returns the named
/// product; a zero operand gives zero at scale 0; when the product of the
/// mantissas is below 2^96 and the scales add up to at most 28 it returns
/// exactly that mantissa at the summed scale; in every case the result is
/// within one whole of the exact product, and within one unit of the last
/// place (10^-28) plus a 10^-27 part of the exact product: the product is
/// rounded to the nearest value at the largest scale, at most 28, whose
/// mantissa fits in 96 bits.
#[verifier::external_body]
fn decimal_mul(a: Decimal, b: Decimal) -> (r: Decimal)
    requires
        wf(a),
        wf(b),
        product_safe(a, b),
    ensures
        wf(r),
        r@ == decimal_product(a@, b@),
        a.mantissa == 0 || b.mantissa == 0 ==> r == (Decimal { mantissa: 0, scale: 0 }),
        a.mantissa != 0 && b.mantissa != 0 && product_fits(a, b) ==> r == (Decimal {
            mantissa: (a.mantissa * b.mantissa) as i128,
            scale: (a.scale + b.scale) as u32,
        }),
        abs(units(r) * one_whole() - units(a) * units(b)) <= one_whole() * one_whole(),
        1000000000000000000000000000 * abs(units(r) * one_whole() - units(a) * units(b))
            <= 1000000000000000000000000000 * one_whole() + abs(units(a) * units(b)),
{
    let x = rust_decimal::Decimal::from_i128_with_scale(a.mantissa, a.scale);
    let y = rust_decimal::Decimal::from_i128_with_scale(b.mantissa, b.scale);
    let z = x * y;
    Decimal { mantissa: z.mantissa(), scale: z.scale() }
}

/// `rust_decimal`'s `/` on two decimals.  Trusted: it returns the named
/// quotient, a decimal within one whole of the exact quotient.  Division by
/// zero and quotients beyond 2^96 panic, which `requires` rules out.
#[verifier::external_body]
fn decimal_div(a: Decimal, b: Decimal) -> (r: Decimal)
    requires
        wf(a),
        wf(b),
        quotient_safe(a, b),
    ensures
        wf(r),
        r@ == decimal_quotient(a@, b@),
        abs(units(r) * units(b) - units(a) * one_whole()) <= abs(units(b)) * one_whole(),
{
    let x = rust_decimal::Decimal::from_i128_with_scale(a.mantissa, a.scale);
    let y = rust_decimal::Decimal::from_i128_with_scale(b.mantissa, b.scale);
    let z = x / y;
    Decimal { mantissa: z.mantissa(), scale: z.scale() }
}

/// The outcome of comparing two amounts.
#[derive(Clone, Copy, Debug, PartialEq, Eq, Structural)]
pub enum Comparison {
    Less,
    Equal,
    Greater,
}

/// `rust_decimal`'s total order (`Ord::cmp`), which compares numeric values:
/// trusted to answer by the values' units.
#[verifier::external_body]
fn compare_decimals(a: Decimal, b: Decimal) -> (r: Comparison)
    requires
        wf(a),
        wf(b),
    ensures
        r == Comparison::Less <==> units(a) < units(b),
        r == Comparison::Equal <==> units(a) == units(b),
        r == Comparison::Greater <==> units(a) > units(b),
{
    let x = rust_decimal::Decimal::from_i128_with_scale(a.mantissa, a.scale);
    let y = rust_decimal::Decimal::from_i128_with_scale(b.mantissa, b.scale);
    match x.cmp(&y) {
        std::cmp::Ordering::Less => Comparison::Less,
        std::cmp::Ordering::Equal => Comparison::Equal,
        std::cmp::Ordering::Greater => Comparison::Greater,
    }
}

/// `rust_decimal`'s `Display` (through `to_string`): trusted to produce
/// `decimal_text` of the decimal: sign, digits and a point placed by the
/// scale, with no digit trimmed.
#[verifier::external_body]
fn decimal_to_string(a: Decimal) -> (r: String)
    requires
        wf(a),
    ensures
        r@ == decimal_text(a@),
{
    rust_decimal::Decimal::from_i128_with_scale(a.mantissa, a.scale).to_string()
}

impl Decimal {
    /// `mantissa / 10^scale`.
    pub fn new(mantissa: i128, scale: u32) -> (r: Decimal)
        requires
            -MANTISSA_LIMIT <= mantissa <= MANTISSA_LIMIT,
            scale <= 28,
        ensures
            r.mantissa == mantissa,
            r.scale == scale,
            wf(r),
    {
        Decimal { mantissa, scale }
    }

    /// Zero at scale 0.
    pub fn zero() -> (r: Decimal)
        ensures
            r.mantissa == 0,
            r.scale == 0,
            wf(r),
    {
        Decimal { mantissa: 0, scale: 0 }
    }

    /// The whole number `n` (scale 0), as `Decimal::from(i32)` gives it.
    pub fn from_i32(n: i32) -> (r: Decimal)
        ensures
            r.mantissa == n,
            r.scale == 0,
            wf(r),
    {
        Decimal { mantissa: n as i128, scale: 0 }
    }

    /// Whether the decimal is within the representable range.
    pub fn is_valid(&self) -> (r: bool)
        ensures
            r == wf(*self),
    {
        -MANTISSA_LIMIT <= self.mantissa && self.mantissa <= MANTISSA_LIMIT && self.scale <= MAX_SCALE
    }

    pub fn is_zero(&self) -> (r: bool)
        ensures
            r == (self.mantissa == 0),
    {
        self.mantissa == 0
    }

    /// The negation: same scale, mantissa with the opposite sign.
    pub fn neg(&self) -> (r: Decimal)
        requires
            wf(*self),
        ensures
            r.mantissa == -self.mantissa,
            r.scale == self.scale,
            wf(r),
    {
        Decimal { mantissa: -self.mantissa, scale: self.scale }
    }

    pub fn add(&self, other: &Decimal) -> (r: Decimal)
        requires
            wf(*self),
            wf(*other),
            sum_safe(*self, *other),
        ensures
            r == add_spec(*self, *other),
            wf(r),
            abs(units(r) - (units(*self) + units(*other))) <= one_whole(),
            aligned_fits(*self, *other, units(*self) + units(*other)) ==> {
                &&& units(r) == units(*self) + units(*other)
                &&& r.scale as nat <= max_nat(self.scale as nat, other.scale as nat)
            },
    {
        let r = decimal_add(*self, *other);
        proof {
            lemma_pow10_positive((28 - max_nat(self.scale as nat, other.scale as nat)) as nat);
            lemma_units_scale(r);
            lemma_units_of_zero(*self);
            lemma_units_of_zero(*other);
        }
        r
    }

    pub fn sub(&self, other: &Decimal) -> (r: Decimal)
        requires
            wf(*self),
            wf(*other),
            sum_safe(*self, *other),
        ensures
            r == sub_spec(*self, *other),
            wf(r),
            abs(units(r) - (units(*self) - units(*other))) <= one_whole(),
            aligned_fits(*self, *other, units(*self) - units(*other)) ==> {
                &&& units(r) == units(*self) - units(*other)
                &&& r.scale as nat <= max_nat(self.scale as nat, other.scale as nat)
            },
    {
        let r = decimal_sub(*self, *other);
        proof {
            lemma_pow10_positive((28 - max_nat(self.scale as nat, other.scale as nat)) as nat);
            lemma_units_scale(r);
            lemma_units_of_zero(*self);
            lemma_units_of_zero(*other);
            lemma_units_negate(*other);
        }
        r
    }

    pub fn mul(&self, other: &Decimal) -> (r: Decimal)
        requires
            wf(*self),
            wf(*other),
            product_safe(*self, *other),
        ensures
            r == mul_spec(*self, *other),
            wf(r),
            abs(units(r) * one_whole() - units(*self) * units(*other)) <= one_whole()
                * one_whole(),
            1000000000000000000000000000 * abs(units(r) * one_whole() - units(*self) * units(
                *other,
            )) <= 1000000000000000000000000000 * one_whole() + abs(units(*self) * units(*other)),
    {
        decimal_mul(*self, *other)
    }

    pub fn div(&self, other: &Decimal) -> (r: Decimal)
        requires
            wf(*self),
            wf(*other),
            quotient_safe(*self, *other),
        ensures
            r == div_spec(*self, *other),
            wf(r),
    {
        decimal_div(*self, *other)
    }

    /// Compares the numeric values.
    pub fn compare(&self, other: &Decimal) -> (r: Comparison)
        requires
            wf(*self),
            wf(*other),
        ensures
            r == Comparison::Less <==> units(*self) < units(*other),
            r == Comparison::Equal <==> units(*self) == units(*other),
            r == Comparison::Greater <==> units(*self) > units(*other),
    {
        compare_decimals(*self, *other)
    }

    pub fn lt(&self, other: &Decimal) -> (r: bool)
        requires
            wf(*self),
            wf(*other),
        ensures
            r == (units(*self) < units(*other)),
    {
        match compare_decimals(*self, *other) {
            Comparison::Less => true,
            _ => false,
        }
    }

    pub fn le(&self, other: &Decimal) -> (r: bool)
        requires
            wf(*self),
            wf(*other),
        ensures
            r == (units(*self) <= units(*other)),
    {
        match compare_decimals(*self, *other) {
            Comparison::Greater => false,
            _ => true,
        }
    }

    /// `self.min(other)`: the first operand unless the second is strictly
    /// smaller (as `Ord::min` chooses).
    pub fn min(&self, other: &Decimal) -> (r: Decimal)
        requires
            wf(*self),
            wf(*other),
        ensures
            r == (if units(*other) < units(*self) {
                *other
            } else {
                *self
            }),
    {
        match compare_decimals(*self, *other) {
            Comparison::Greater => *other,
            _ => *self,
        }
    }

    /// The decimal's text, as `to_string` gives it.
    pub fn to_text(&self) -> (r: String)
        requires
            wf(*self),
        ensures
            r@ == decimal_text(self@),
    {
        decimal_to_string(*self)
    }
}

/// Equality of decimals is equality of numeric values (`1.0 == 1.00`).
impl PartialEq for Decimal {
    fn eq(&self, other: &Decimal) -> (r: bool) {
        if self.is_valid() && other.is_valid() {
            match compare_decimals(*self, *other) {
                Comparison::Equal => true,
                _ => false,
            }
        } else {
            self.mantissa == other.mantissa && self.scale == other.scale
        }
    }
}

impl vstd::std_specs::cmp::PartialEqSpecImpl for Decimal {
    open spec fn obeys_eq_spec() -> bool {
        true
    }

    open spec fn eq_spec(&self, other: &Decimal) -> bool {
        if wf(*self) && wf(*other) {
            units(*self) == units(*other)
        } else {
            self.mantissa == other.mantissa && self.scale == other.scale
        }
    }
}

pub proof fn lemma_pow10_positive(n: nat)
    ensures
        pow10(n) >= 1,
    decreases n,
{
    if n > 0 {
        lemma_pow10_positive((n - 1) as nat);
    }
}

pub proof fn lemma_pow10_adds(a: nat, b: nat)
    ensures
        pow10(a + b) == pow10(a) * pow10(b),
    decreases a,
{
    if a > 0 {
        lemma_pow10_adds((a - 1) as nat, b);
        assert(pow10(a + b) == 10 * pow10((a - 1 + b) as nat));
        assert(10 * (pow10((a - 1) as nat) * pow10(b)) == (10 * pow10((a - 1) as nat)) * pow10(b))
            by (nonlinear_arith);
    }
}

/// The powers of ten that the amount limits are written with.
pub proof fn lemma_pow10_values()
    ensures
        pow10(1) == 10,
        pow10(18) == 1000000000000000000,
        pow10(27) == 1000000000000000000000000000,
        one_whole() == 10000000000000000000000000000,
{
    reveal_with_fuel(pow10, 29);
}

pub proof fn lemma_pow10_monotone(a: nat, b: nat)
    requires
        a <= b,
    ensures
        pow10(a) <= pow10(b),
    decreases b,
{
    if a < b {
        lemma_pow10_monotone(a, (b - 1) as nat);
        lemma_pow10_positive((b - 1) as nat);
    }
}

/// A representable decimal is less than 2^96 in magnitude.
pub proof fn lemma_units_bound(d: Decimal)
    requires
        wf(d),
    ensures
        abs(units(d)) <= MANTISSA_LIMIT * one_whole(),
        abs(units(d)) <= 2 * safe_magnitude() * one_whole(),
{
    let k = pow10((28 - d.scale) as nat);
    lemma_pow10_monotone((28 - d.scale) as nat, 28);
    lemma_pow10_positive((28 - d.scale) as nat);
    lemma_pow10_positive(28);
    assert(MANTISSA_LIMIT * one_whole() <= 2 * safe_magnitude() * one_whole()) by (nonlinear_arith)
        requires
            one_whole() >= 1,
            safe_magnitude() == 39614081257132168796771975168,
    ;
    assert(abs(d.mantissa * k) <= MANTISSA_LIMIT * one_whole()) by (nonlinear_arith)
        requires
            -MANTISSA_LIMIT <= d.mantissa <= MANTISSA_LIMIT,
            1 <= k <= one_whole(),
    ;
}

/// `a` written at a scale `s` at least its own: its units are a multiple of
/// 10^(28 - s).
pub proof fn lemma_units_divisible(a: Decimal, s: nat)
    requires
        a.scale <= s <= 28,
    ensures
        units(a) == (a.mantissa * pow10((s - a.scale) as nat)) * pow10((28 - s) as nat),
{
    lemma_pow10_adds((s - a.scale) as nat, (28 - s) as nat);
    assert(((s - a.scale) as nat + (28 - s) as nat) == (28 - a.scale) as nat);
    let x = pow10((s - a.scale) as nat);
    let y = pow10((28 - s) as nat);
    assert(a.mantissa * (x * y) == (a.mantissa * x) * y) by (nonlinear_arith);
}

/// An exact sum has the units of the two operands together.
pub proof fn lemma_add_exact(a: Decimal, b: Decimal)
    requires
        wf(a),
        wf(b),
        aligned_fits(a, b, units(a) + units(b)),
    ensures
        units(add_spec(a, b)) == units(a) + units(b),
        add_spec(a, b).scale as nat <= max_nat(a.scale as nat, b.scale as nat),
        wf(add_spec(a, b)),
{
    lemma_units_of_zero(a);
    lemma_units_of_zero(b);
    if a.mantissa != 0 && b.mantissa != 0 {
        let s = max_nat(a.scale as nat, b.scale as nat);
        let k = pow10((28 - s) as nat);
        lemma_pow10_positive((28 - s) as nat);
        lemma_units_divisible(a, s);
        lemma_units_divisible(b, s);
        let x = a.mantissa * pow10((s - a.scale) as nat);
        let y = b.mantissa * pow10((s - b.scale) as nat);
        assert(x * k + y * k == (x + y) * k) by (nonlinear_arith);
        assert(((x + y) * k) / k == x + y) by (nonlinear_arith)
            requires
                k >= 1,
        ;
        assert(-MANTISSA_LIMIT <= x + y <= MANTISSA_LIMIT) by (nonlinear_arith)
            requires
                k >= 1,
                -(MANTISSA_LIMIT * k) <= (x + y) * k <= MANTISSA_LIMIT * k,
        ;
        assert(units(add_spec(a, b)) == ((units(a) + units(b)) / k) * k);
    }
}

/// An exact difference has the units of the first operand less the second.
pub proof fn lemma_sub_exact(a: Decimal, b: Decimal)
    requires
        wf(a),
        wf(b),
        aligned_fits(a, b, units(a) - units(b)),
    ensures
        units(sub_spec(a, b)) == units(a) - units(b),
        sub_spec(a, b).scale as nat <= max_nat(a.scale as nat, b.scale as nat),
        wf(sub_spec(a, b)),
{
    lemma_units_of_zero(a);
    lemma_units_of_zero(b);
    lemma_units_negate(b);
    if a.mantissa != 0 && b.mantissa != 0 {
        let s = max_nat(a.scale as nat, b.scale as nat);
        let k = pow10((28 - s) as nat);
        lemma_pow10_positive((28 - s) as nat);
        lemma_units_divisible(a, s);
        lemma_units_divisible(b, s);
        let x = a.mantissa * pow10((s - a.scale) as nat);
        let y = b.mantissa * pow10((s - b.scale) as nat);
        assert(x * k - y * k == (x - y) * k) by (nonlinear_arith);
        assert(((x - y) * k) / k == x - y) by (nonlinear_arith)
            requires
                k >= 1,
        ;
        assert(-MANTISSA_LIMIT <= x - y <= MANTISSA_LIMIT) by (nonlinear_arith)
            requires
                k >= 1,
                -(MANTISSA_LIMIT * k) <= (x - y) * k <= MANTISSA_LIMIT * k,
        ;
        assert(units(sub_spec(a, b)) == ((units(a) - units(b)) / k) * k);
    }
}

/// An exact product has the product of the operands' units, over 10^28.
pub proof fn lemma_mul_exact(a: Decimal, b: Decimal)
    requires
        wf(a),
        wf(b),
        product_fits(a, b),
    ensures
        units(mul_spec(a, b)) * one_whole() == units(a) * units(b),
{
    if a.mantissa != 0 && b.mantissa != 0 {
        let sa = a.scale as nat;
        let sb = b.scale as nat;
        let r = (28 - sa - sb) as nat;
        lemma_pow10_adds(r, 28);
        lemma_pow10_adds((28 - sa) as nat, (28 - sb) as nat);
        assert(r + 28 == (28 - sa) as nat + (28 - sb) as nat);
        let x = pow10((28 - sa) as nat);
        let y = pow10((28 - sb) as nat);
        let z = pow10(r);
        assert((a.mantissa * b.mantissa) * z * one_whole() == (a.mantissa * x) * (b.mantissa * y))
            by (nonlinear_arith)
            requires
                z * one_whole() == x * y,
        ;
    } else {
        assert(units(a) * units(b) == 0) by (nonlinear_arith)
            requires
                a.mantissa == 0 || b.mantissa == 0,
                units(a) == a.mantissa * pow10((28 - a.scale) as nat),
                units(b) == b.mantissa * pow10((28 - b.scale) as nat),
        ;
    }
}

/// A decimal has zero units exactly when its mantissa is zero.
pub proof fn lemma_units_of_zero(d: Decimal)
    requires
        d.scale <= 28,
    ensures
        (units(d) == 0) == (d.mantissa == 0),
{
    let k = pow10((28 - d.scale) as nat);
    lemma_pow10_positive((28 - d.scale) as nat);
    assert((d.mantissa * k == 0) == (d.mantissa == 0)) by (nonlinear_arith)
        requires
            k >= 1,
    ;
}

/// Negating the mantissa negates the units.
pub proof fn lemma_units_negate(d: Decimal)
    requires
        wf(d),
    ensures
        units(Decimal { mantissa: (-d.mantissa) as i128, scale: d.scale }) == -units(d),
{
    let k = pow10((28 - d.scale) as nat);
    assert((-d.mantissa) * k == -(d.mantissa * k)) by (nonlinear_arith);
}

/// The mantissa of a decimal is its units divided by 10^(28 - scale).
pub proof fn lemma_units_scale(d: Decimal)
    requires
        d.scale <= 28,
    ensures
        units(d) / pow10((28 - d.scale) as nat) == d.mantissa,
        pow10((28 - d.scale) as nat) >= 1,
{
    let k = pow10((28 - d.scale) as nat);
    lemma_pow10_positive((28 - d.scale) as nat);
    assert((d.mantissa * k) / k == d.mantissa) by (nonlinear_arith)
        requires
            k >= 1,
    ;
}

// ── Sums of sequences of decimals ──────────────────────────────────────────
/// The exact sum of the values of `ds`, in units.
pub open spec fn total_units(ds: Seq<Decimal>) -> int
    decreases ds.len(),
{
    if ds.len() == 0 {
        0
    } else {
        total_units(ds.drop_last()) + units(ds.last())
    }
}

/// The sum of the magnitudes of the values of `ds`, in units.
pub open spec fn total_magnitude(ds: Seq<Decimal>) -> int
    decreases ds.len(),
{
    if ds.len() == 0 {
        0
    } else {
        total_magnitude(ds.drop_last()) + abs(units(ds.last()))
    }
}

/// The largest scale among `ds` (0 for none).
pub open spec fn max_scale(ds: Seq<Decimal>) -> nat
    decreases ds.len(),
{
    if ds.len() == 0 {
        0
    } else {
        max_nat(max_scale(ds.drop_last()), ds.last().scale as nat)
    }
}

/// Adding up `ds` cannot round: every value is representable, and their
/// magnitudes together fit a mantissa at the largest of their scales.
pub open spec fn sum_exact(ds: Seq<Decimal>) -> bool {
    &&& forall|i: int| 0 <= i < ds.len() ==> wf(#[trigger] ds[i])
    &&& total_magnitude(ds) <= MANTISSA_LIMIT * pow10((28 - max_scale(ds)) as nat)
}

/// `ds` added up in order, from zero, with the decimal sum.
pub open spec fn running_sum(ds: Seq<Decimal>) -> Decimal
    decreases ds.len(),
{
    if ds.len() == 0 {
        Decimal { mantissa: 0, scale: 0 }
    } else {
        add_spec(running_sum(ds.drop_last()), ds.last())
    }
}

pub proof fn lemma_total_bounds(ds: Seq<Decimal>)
    ensures
        abs(total_units(ds)) <= total_magnitude(ds),
        total_magnitude(ds) >= 0,
        forall|i: int| 0 <= i < ds.len() ==> abs(units(#[trigger] ds[i])) <= total_magnitude(ds),
        forall|i: int| 0 <= i < ds.len() ==> (#[trigger] ds[i]).scale <= max_scale(ds),
    decreases ds.len(),
{
    if ds.len() > 0 {
        lemma_total_bounds(ds.drop_last());
        assert forall|i: int| 0 <= i < ds.len() implies abs(units(#[trigger] ds[i]))
            <= total_magnitude(ds) && ds[i].scale <= max_scale(ds) by {
            if i < ds.len() - 1 {
                assert(ds[i] == ds.drop_last()[i]);
            }
        }
    }
}

/// Adding up a sequence that cannot round gives its exact sum, a
/// representable decimal at no more than the largest scale.
pub proof fn lemma_running_sum_exact(ds: Seq<Decimal>)
    requires
        sum_exact(ds),
    ensures
        units(running_sum(ds)) == total_units(ds),
        wf(running_sum(ds)),
        running_sum(ds).scale <= max_scale(ds),
    decreases ds.len(),
{
    if ds.len() > 0 {
        let p = ds.drop_last();
        let q = ds.last();
        lemma_total_bounds(ds);
        lemma_total_bounds(p);
        assert(max_scale(p) <= max_scale(ds));
        assert(max_scale(ds) <= 28) by {
            assert(ds[ds.len() - 1] == q);
            assert(wf(q));
            if max_scale(ds) > 28 {
                lemma_max_scale_bound(ds);
            }
        }
        lemma_pow10_monotone((28 - max_scale(ds)) as nat, (28 - max_scale(p)) as nat);
        assert forall|i: int| 0 <= i < p.len() implies wf(#[trigger] p[i]) by {
            assert(p[i] == ds[i]);
        }
        lemma_running_sum_exact(p);
        let a = running_sum(p);
        assert(wf(q)) by {
            assert(ds[ds.len() - 1] == q);
        }
        let k = pow10((28 - max_nat(a.scale as nat, q.scale as nat)) as nat);
        lemma_pow10_monotone((28 - max_scale(ds)) as nat, (28 - max_nat(a.scale as nat, q.scale as nat)) as nat);
        assert(MANTISSA_LIMIT * pow10((28 - max_scale(ds)) as nat) <= MANTISSA_LIMIT * k) by (nonlinear_arith)
            requires
                pow10((28 - max_scale(ds)) as nat) <= k,
        ;
        assert(abs(units(q)) <= total_magnitude(ds)) by {
            assert(ds[ds.len() - 1] == q);
        }
        lemma_add_exact(a, q);
    }
}

/// The largest scale of representable decimals is at most 28.
pub proof fn lemma_max_scale_bound(ds: Seq<Decimal>)
    requires
        forall|i: int| 0 <= i < ds.len() ==> wf(#[trigger] ds[i]),
    ensures
        max_scale(ds) <= 28,
    decreases ds.len(),
{
    if ds.len() > 0 {
        assert forall|i: int| 0 <= i < ds.drop_last().len() implies wf(#[trigger] ds.drop_last()[i]) by {
            assert(ds.drop_last()[i] == ds[i]);
        }
        lemma_max_scale_bound(ds.drop_last());
        assert(wf(ds[ds.len() - 1]));
    }
}

} // verus!
