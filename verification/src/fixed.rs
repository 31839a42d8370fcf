//! Q16.16 fixed-point arithmetic.
//!
//! An [`Fx`] is an `i32` holding a value scaled by 2^16. Every operation is specified
//! over mathematical integers: multiplication and division round half away from zero
//! and then truncate toward zero, and every result saturates at the `i32` range rather
//! than wrapping.
use vstd::prelude::*;

verus! {

/// Fractional bits.
pub const FRAC_BITS: u32 = 16;

/// 1.0 in fixed point.
pub const ONE: i32 = 65536;

/// Half of one unit of 2^-16, the rounding addend.
pub const HALF: i64 = 32768;

/// 2^16 as a divisor.
pub const SCALE: i64 = 65536;

/// Absolute value of an integer.
pub open spec fn abs_int(v: int) -> int {
    if v < 0 { -v } else { v }
}

/// Division truncating toward zero, the rule of Rust's integer `/`.
pub open spec fn tdiv(a: int, b: int) -> int {
    if b == 0 {
        0
    } else {
        let q = abs_int(a) / abs_int(b);
        if (a >= 0) == (b > 0) { q } else { -q }
    }
}

/// Clamp an integer into the `i32` range.
pub open spec fn sat(v: int) -> i32 {
    if v > i32::MAX {
        i32::MAX
    } else if v < i32::MIN {
        i32::MIN
    } else {
        v as i32
    }
}

/// Shift `v` half a divisor away from zero, so that a truncating division rounds
/// half away from zero.
pub open spec fn away(v: int, half: int) -> int {
    if v >= 0 { v + half } else { v - half }
}

/// The specified product of two raw fixed-point values.
pub open spec fn mul_spec(a: int, b: int) -> i32 {
    sat(tdiv(away(a * b, HALF as int), SCALE as int))
}

/// The specified quotient of two raw fixed-point values.
pub open spec fn div_spec(a: int, b: int) -> i32 {
    if b == 0 {
        if a >= 0 { i32::MAX } else { i32::MIN }
    } else {
        let num = a * SCALE;
        let half = abs_int(b) / 2;
        let adjusted = if (num >= 0) == (b >= 0) { num + half } else { num - half };
        sat(tdiv(adjusted, b))
    }
}

/// A Q16.16 fixed-point number. Equality is equality of the bit patterns.
#[derive(Debug, Clone, Copy, PartialEq, Eq, Structural, PartialOrd, Ord, Hash, Default)]
pub struct Fx(pub i32);

/// Clamp an `i64` into the `i32` range.
pub fn saturate(v: i64) -> (r: i32)
    ensures
        r == sat(v as int),
{
    if v > i32::MAX as i64 {
        i32::MAX
    } else if v < i32::MIN as i64 {
        i32::MIN
    } else {
        v as i32
    }
}

/// Truncating division of a signed value by a positive one, computed on magnitudes.
fn tdiv_pos(a: i64, b: i64) -> (r: i64)
    requires
        b > 0,
        a > i64::MIN,
    ensures
        r == tdiv(a as int, b as int),
{
    if a >= 0 {
        a / b
    } else {
        let m = -a;
        -(m / b)
    }
}

impl Fx {
    /// 0.0.
    pub fn zero() -> (r: Fx)
        ensures
            r.0 == 0,
    {
        Fx(0)
    }

    /// 1.0.
    pub fn one() -> (r: Fx)
        ensures
            r.0 == ONE,
    {
        Fx(ONE)
    }

    /// The most negative value.
    pub fn min_value() -> (r: Fx)
        ensures
            r.0 == i32::MIN,
    {
        Fx(i32::MIN)
    }

    /// The most positive value.
    pub fn max_value() -> (r: Fx)
        ensures
            r.0 == i32::MAX,
    {
        Fx(i32::MAX)
    }

    /// Construct from a raw fixed-point integer.
    pub fn from_bits(bits: i32) -> (r: Fx)
        ensures
            r.0 == bits,
    {
        Fx(bits)
    }

    /// The raw fixed-point integer.
    pub fn to_bits(self) -> (r: i32)
        ensures
            r == self.0,
    {
        self.0
    }

    /// Construct from a whole number.
    pub fn from_int(v: i16) -> (r: Fx)
        ensures
            r.0 == v * 65536,
    {
        Fx((v as i32) * 65536)
    }

    /// Saturating add.
    pub fn add(self, rhs: Fx) -> (r: Fx)
        ensures
            r.0 == sat(self.0 + rhs.0),
    {
        Fx(saturate(self.0 as i64 + rhs.0 as i64))
    }

    /// Saturating subtract.
    pub fn sub(self, rhs: Fx) -> (r: Fx)
        ensures
            r.0 == sat(self.0 - rhs.0),
    {
        Fx(saturate(self.0 as i64 - rhs.0 as i64))
    }

    /// Multiply, rounding half away from zero, saturating.
    pub fn mul(self, rhs: Fx) -> (r: Fx)
        ensures
            r.0 == mul_spec(self.0 as int, rhs.0 as int),
    {
        let a = self.0 as i64;
        let b = rhs.0 as i64;
        assert(-0x4000_0000_0000_0000 <= a * b <= 0x4000_0000_0000_0000) by (nonlinear_arith)
            requires
                -0x8000_0000 <= a <= 0x7fff_ffff,
                -0x8000_0000 <= b <= 0x7fff_ffff,
        ;
        let product = a * b;
        let rounded = if product >= 0 { product + HALF } else { product - HALF };
        Fx(saturate(tdiv_pos(rounded, SCALE)))
    }

    /// Divide, rounding half away from zero. Division by zero saturates by sign.
    pub fn div(self, rhs: Fx) -> (r: Fx)
        ensures
            r.0 == div_spec(self.0 as int, rhs.0 as int),
    {
        if rhs.0 == 0 {
            return if self.0 >= 0 { Fx(i32::MAX) } else { Fx(i32::MIN) };
        }
        let numerator = (self.0 as i64) * SCALE;
        let b = rhs.0 as i64;
        let mag: i64 = if b < 0 { -b } else { b };
        let half = mag / 2;
        let adjusted = if (numerator >= 0) == (b >= 0) { numerator + half } else { numerator - half };
        let q = tdiv_pos(adjusted, mag);
        let signed_q = if b < 0 { -q } else { q };
        assert(signed_q == tdiv(adjusted as int, b as int));
        Fx(saturate(signed_q))
    }

    /// max(0, x).
    pub fn relu(self) -> (r: Fx)
        ensures
            r.0 == if self.0 > 0 { self.0 } else { 0 },
    {
        if self.0 > 0 { self } else { Fx(0) }
    }

    /// Saturating negation.
    pub fn neg(self) -> (r: Fx)
        ensures
            r.0 == sat(-self.0),
    {
        Fx(saturate(-(self.0 as i64)))
    }

    /// Saturating absolute value.
    pub fn abs(self) -> (r: Fx)
        ensures
            r.0 == sat(abs_int(self.0 as int)),
    {
        let v = self.0 as i64;
        Fx(saturate(if v < 0 { -v } else { v }))
    }

    /// The smaller of two values; the receiver on a tie.
    pub fn min(self, rhs: Fx) -> (r: Fx)
        ensures
            r == (if self.0 <= rhs.0 { self } else { rhs }),
    {
        if self.0 <= rhs.0 { self } else { rhs }
    }

    /// The larger of two values; the receiver on a tie.
    pub fn max(self, rhs: Fx) -> (r: Fx)
        ensures
            r == (if self.0 >= rhs.0 { self } else { rhs }),
    {
        if self.0 >= rhs.0 { self } else { rhs }
    }

    /// `self.max(lo).min(hi)`.
    pub fn clamp(self, lo: Fx, hi: Fx) -> (r: Fx)
        ensures
            r == ({
                let m = if self.0 >= lo.0 { self } else { lo };
                if m.0 <= hi.0 { m } else { hi }
            }),
    {
        self.max(lo).min(hi)
    }
}

// The operators are the methods, so there is one multiply in the crate and never two.
impl core::ops::Add for Fx {
    type Output = Fx;

    fn add(self, rhs: Fx) -> (r: Fx) {
        Fx::add(self, rhs)
    }
}

impl vstd::std_specs::ops::AddSpecImpl for Fx {
    open spec fn obeys_add_spec() -> bool {
        true
    }

    open spec fn add_req(self, rhs: Fx) -> bool {
        true
    }

    open spec fn add_spec(self, rhs: Fx) -> Fx {
        Fx(sat(self.0 + rhs.0))
    }
}

impl core::ops::Sub for Fx {
    type Output = Fx;

    fn sub(self, rhs: Fx) -> (r: Fx) {
        Fx::sub(self, rhs)
    }
}

impl vstd::std_specs::ops::SubSpecImpl for Fx {
    open spec fn obeys_sub_spec() -> bool {
        true
    }

    open spec fn sub_req(self, rhs: Fx) -> bool {
        true
    }

    open spec fn sub_spec(self, rhs: Fx) -> Fx {
        Fx(sat(self.0 - rhs.0))
    }
}

impl core::ops::Mul for Fx {
    type Output = Fx;

    fn mul(self, rhs: Fx) -> (r: Fx) {
        Fx::mul(self, rhs)
    }
}

impl vstd::std_specs::ops::MulSpecImpl for Fx {
    open spec fn obeys_mul_spec() -> bool {
        true
    }

    open spec fn mul_req(self, rhs: Fx) -> bool {
        true
    }

    open spec fn mul_spec(self, rhs: Fx) -> Fx {
        Fx(mul_spec(self.0 as int, rhs.0 as int))
    }
}

impl core::ops::Div for Fx {
    type Output = Fx;

    fn div(self, rhs: Fx) -> (r: Fx) {
        Fx::div(self, rhs)
    }
}

impl vstd::std_specs::ops::DivSpecImpl for Fx {
    open spec fn obeys_div_spec() -> bool {
        true
    }

    open spec fn div_req(self, rhs: Fx) -> bool {
        true
    }

    open spec fn div_spec(self, rhs: Fx) -> Fx {
        Fx(div_spec(self.0 as int, rhs.0 as int))
    }
}

impl core::ops::Neg for Fx {
    type Output = Fx;

    fn neg(self) -> (r: Fx) {
        Fx::neg(self)
    }
}

impl vstd::std_specs::ops::NegSpecImpl for Fx {
    open spec fn obeys_neg_spec() -> bool {
        true
    }

    open spec fn neg_req(self) -> bool {
        true
    }

    open spec fn neg_spec(self) -> Fx {
        Fx(sat(-self.0))
    }
}

/// Sum of raw values, left to right.
pub open spec fn sum_bits(v: Seq<Fx>) -> int
    decreases v.len(),
{
    if v.len() == 0 {
        0
    } else {
        sum_bits(v.drop_last()) + v.last().0
    }
}

/// Sum of raw products of paired values, left to right.
pub open spec fn dot_sum(a: Seq<Fx>, b: Seq<Fx>) -> int
    decreases a.len(),
{
    if a.len() == 0 {
        0
    } else {
        dot_sum(a.drop_last(), b.drop_last()) + a.last().0 * b.last().0
    }
}

/// The specified mean: the exact sum, rounded half away from zero, saturated.
pub open spec fn mean_spec(v: Seq<Fx>) -> i32 {
    if v.len() == 0 {
        0
    } else {
        let n = v.len() as int;
        sat(tdiv(away(sum_bits(v), n / 2), n))
    }
}

/// The specified dot product: the exact sum of products, rounded once, saturated.
pub open spec fn dot_spec(a: Seq<Fx>, b: Seq<Fx>) -> i32 {
    sat(tdiv(away(dot_sum(a, b), HALF as int), SCALE as int))
}

/// Truncating division of a signed 128-bit value by a positive one.
fn tdiv_pos_wide(a: i128, b: i128) -> (r: i128)
    requires
        b > 0,
        a > i128::MIN,
    ensures
        r == tdiv(a as int, b as int),
{
    if a >= 0 {
        a / b
    } else {
        let m = -a;
        -(m / b)
    }
}

/// Clamp an `i128` into the `i32` range.
fn saturate_wide(v: i128) -> (r: i32)
    ensures
        r == sat(v as int),
{
    if v > i32::MAX as i128 {
        i32::MAX
    } else if v < i32::MIN as i128 {
        i32::MIN
    } else {
        v as i32
    }
}

/// Mean of a slice, summed left to right in a widened accumulator, so no intermediate
/// value saturates.
pub fn mean(values: &[Fx]) -> (r: Fx)
    ensures
        r.0 == mean_spec(values@),
{
    if values.len() == 0 {
        return Fx(0);
    }
    let mut acc: i128 = 0;
    let mut i: usize = 0;
    while i < values.len()
        invariant
            0 <= i <= values@.len(),
            acc == sum_bits(values@.take(i as int)),
            -0x8000_0000 * i <= acc <= 0x7fff_ffff * i,
        decreases values@.len() - i,
    {
        assert(values@.take(i as int + 1).drop_last() =~= values@.take(i as int));
        acc = acc + values[i].0 as i128;
        i = i + 1;
    }
    assert(values@.take(values@.len() as int) =~= values@);
    let n = values.len() as i128;
    let rounded = if acc >= 0 { acc + n / 2 } else { acc - n / 2 };
    Fx(saturate_wide(tdiv_pos_wide(rounded, n)))
}

/// Dot product, accumulated at full precision in a fixed order and rounded once.
pub fn dot(a: &[Fx], b: &[Fx]) -> (r: Fx)
    requires
        a@.len() == b@.len(),
    ensures
        r.0 == dot_spec(a@, b@),
{
    let mut acc: i128 = 0;
    let mut i: usize = 0;
    while i < a.len()
        invariant
            0 <= i <= a@.len(),
            a@.len() == b@.len(),
            acc == dot_sum(a@.take(i as int), b@.take(i as int)),
            -0x4000_0000_0000_0000 * i <= acc <= 0x4000_0000_0000_0000 * i,
        decreases a@.len() - i,
    {
        assert(a@.take(i as int + 1).drop_last() =~= a@.take(i as int));
        assert(b@.take(i as int + 1).drop_last() =~= b@.take(i as int));
        let x = a[i].0 as i128;
        let y = b[i].0 as i128;
        assert(-0x4000_0000_0000_0000 <= x * y <= 0x4000_0000_0000_0000) by (nonlinear_arith)
            requires
                -0x8000_0000 <= x <= 0x7fff_ffff,
                -0x8000_0000 <= y <= 0x7fff_ffff,
        ;
        acc = acc + x * y;
        i = i + 1;
    }
    assert(a@.take(a@.len() as int) =~= a@);
    assert(b@.take(b@.len() as int) =~= b@);
    let rounded = if acc >= 0 { acc + HALF as i128 } else { acc - HALF as i128 };
    Fx(saturate_wide(tdiv_pos_wide(rounded, SCALE as i128)))
}

proof fn lemma_sum_bits_remove(w: Seq<Fx>, k: int)
    requires
        0 <= k < w.len(),
    ensures
        sum_bits(w) == sum_bits(w.remove(k)) + w[k].0,
    decreases w.len(),
{
    if k == w.len() - 1 {
        assert(w.remove(k) =~= w.drop_last());
    } else {
        lemma_sum_bits_remove(w.drop_last(), k);
        assert(w.remove(k).drop_last() =~= w.drop_last().remove(k));
        assert(w.remove(k).last() == w.last());
    }
}

/// Sums of the same values, however ordered, agree.
proof fn lemma_sum_bits_permutation(v: Seq<Fx>, w: Seq<Fx>)
    requires
        v.to_multiset() == w.to_multiset(),
    ensures
        sum_bits(v) == sum_bits(w),
    decreases v.len(),
{
    broadcast use vstd::seq_lib::group_seq_properties, vstd::multiset::group_multiset_axioms;
    v.to_multiset_ensures();
    w.to_multiset_ensures();
    if v.len() == 0 {
        assert(w.len() == 0);
    } else {
        let x = v.last();
        let d = v.drop_last();
        d.to_multiset_ensures();
        assert(d.push(x) =~= v);
        assert(v.to_multiset() =~= d.to_multiset().insert(x));
        assert(v.to_multiset().count(x) > 0);
        assert(w.contains(x));
        let k = choose|k: int| 0 <= k < w.len() && w[k] == x;
        assert(w.remove(k).to_multiset() =~= w.to_multiset().remove(x));
        assert(d.to_multiset() =~= v.to_multiset().remove(x));
        lemma_sum_bits_permutation(d, w.remove(k));
        lemma_sum_bits_remove(w, k);
    }
}

/// The mean's rounding, in Euclidean terms: the quotient, plus one when the remainder
/// rounds up, which for a negative sum happens only strictly past half-way.
pub proof fn round_div_form(x: int, n: int)
    requires
        n > 0,
    ensures
        tdiv(away(x, n / 2), n) == x / n + (if x >= 0 {
            if x % n + n / 2 >= n { 1int } else { 0int }
        } else {
            if x % n > n / 2 { 1int } else { 0int }
        }),
{
    let h = n / 2;
    let q = x / n;
    let r = x % n;
    vstd::arithmetic::div_mod::lemma_fundamental_div_mod(x, n);
    assert(x == q * n + r) by (nonlinear_arith)
        requires x == n * q + r;
    assert(0 <= r < n);
    assert(0 <= h < n);
    if x >= 0 {
        let e: int = if r + h >= n { 1 } else { 0 };
        let rr = r + h - e * n;
        assert(x + h == (q + e) * n + rr) by (nonlinear_arith)
            requires x == q * n + r, rr == r + h - e * n;
        vstd::arithmetic::div_mod::lemma_fundamental_div_mod_converse(x + h, n, q + e, rr);
        assert(away(x, h) == x + h);
        assert(tdiv(x + h, n) == (x + h) / n);
    } else {
        let e: int = if h >= r { 1 } else { 0 };
        let rr = n - r + h - e * n;
        assert(h - x == (-q - 1 + e) * n + rr) by (nonlinear_arith)
            requires x == q * n + r, rr == n - r + h - e * n;
        vstd::arithmetic::div_mod::lemma_fundamental_div_mod_converse(h - x, n, -q - 1 + e, rr);
        assert(away(x, h) == x - h);
        assert(abs_int(x - h) == h - x);
        assert(tdiv(x - h, n) == -((h - x) / n));
    }
}

/// Rounding a sum divided by `n` commutes with adding `c` to each of the `n` values,
/// unless the shift carries an exactly half-way mean across zero (which only an even `n`
/// allows): rounding half away from zero is not shift-invariant there.
pub proof fn rounded_mean_shifts(s: int, n: int, c: int)
    requires
        n > 0,
        n % 2 == 1 || s % n != n / 2 || (s >= 0) == (s + n * c >= 0),
    ensures
        tdiv(away(s + n * c, n / 2), n) == tdiv(away(s, n / 2), n) + c,
{
    round_div_form(s, n);
    round_div_form(s + n * c, n);
    vstd::arithmetic::div_mod::lemma_hoist_over_denominator(s, c, n as nat);
    vstd::arithmetic::div_mod::lemma_mod_multiples_vanish(c, s, n);
    assert(n * c + s == s + c * n) by (nonlinear_arith);
    assert(s + n * c == s + c * n) by (nonlinear_arith);
    let h = n / 2;
    let r = s % n;
    assert((s + n * c) % n == r);
    assert((s + n * c) / n == s / n + c);
    if n % 2 == 1 {
        assert(n == 2 * h + 1);
    } else {
        assert(n == 2 * h);
    }
}

/// The mean does not depend on the order the values arrive in: any rearrangement of
/// the same values gives the same result, because the accumulator is wide enough that no
/// partial sum saturates.
pub proof fn mean_ignores_order(v: Seq<Fx>, w: Seq<Fx>)
    requires
        v.to_multiset() == w.to_multiset(),
    ensures
        mean_spec(v) == mean_spec(w),
{
    broadcast use vstd::seq_lib::group_seq_properties;
    v.to_multiset_ensures();
    w.to_multiset_ensures();
    lemma_sum_bits_permutation(v, w);
}

proof fn lemma_tdiv_neg(a: int, b: int)
    requires
        b > 0,
    ensures
        tdiv(-a, b) == -tdiv(a, b),
{
}

/// Multiplication is symmetric under sign: negating one factor negates the product,
/// whenever the negated factor is representable and the product does not saturate.
pub proof fn mul_negation_symmetric(a: i32, b: i32)
    requires
        a != i32::MIN,
        i32::MIN < tdiv(away(a * b, HALF as int), SCALE as int) <= i32::MAX,
    ensures
        sat(-mul_spec(a as int, b as int)) == mul_spec(sat(-a) as int, b as int),
{
    assert((-a) * b == -(a * b)) by (nonlinear_arith);
    let p = a * b;
    if p > 0 {
        assert(away(-p, HALF as int) == -away(p, HALF as int));
    } else if p < 0 {
        assert(away(-p, HALF as int) == -away(p, HALF as int));
    }
    lemma_tdiv_neg(away(p, HALF as int), SCALE as int);
}

/// Negating both factors leaves the product unchanged, whenever both negations are
/// representable.
pub proof fn mul_double_negation(a: i32, b: i32)
    requires
        a != i32::MIN,
        b != i32::MIN,
    ensures
        mul_spec(a as int, b as int) == mul_spec(sat(-a) as int, sat(-b) as int),
{
    assert((-a) * (-b) == a * b) by (nonlinear_arith);
}

} // verus!
