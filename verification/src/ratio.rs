//! Split ratios: binary32 numbers held by their bit pattern.
//!
//! A ratio says what share of a split's extent goes to its first child. It is
//! stored and transmitted as an IEEE 754 binary32 number, so every rule about
//! ratios is stated here over that format: what a bit pattern denotes, how
//! many whole cells a ratio takes out of an extent, and when two ratios add up
//! to one.

use vstd::arithmetic::div_mod::*;
use vstd::arithmetic::mul::*;
use vstd::arithmetic::power2::*;
use vstd::prelude::*;

verus! {

/// A binary32 number, held by its bit pattern.
#[derive(Clone, Copy, Debug)]
pub struct Ratio {
    pub bits: u32,
}

/// The bit pattern of one half.
pub const HALF_BITS: u32 = 0x3F00_0000;

impl Ratio {
    /// One half: what each side of a fresh split gets.
    pub open spec fn spec_half() -> Ratio {
        Ratio { bits: HALF_BITS }
    }

    /// One half: what each side of a fresh split gets.
    #[verifier::when_used_as_spec(spec_half)]
    pub fn half() -> (ratio: Ratio)
        ensures
            ratio == Ratio::spec_half(),
    {
        Ratio { bits: HALF_BITS }
    }

    /// Whether the sign bit is set.
    pub open spec fn negative(self) -> bool {
        self.bits >= 0x8000_0000
    }

    /// The biased exponent.
    pub open spec fn exponent_field(self) -> int {
        (self.bits as int / 0x80_0000) % 256
    }

    /// The 23 stored bits of the significand.
    pub open spec fn fraction(self) -> int {
        self.bits as int % 0x80_0000
    }

    pub open spec fn is_nan(self) -> bool {
        self.exponent_field() == 255 && self.fraction() != 0
    }

    pub open spec fn is_infinite(self) -> bool {
        self.exponent_field() == 255 && self.fraction() == 0
    }

    pub open spec fn is_finite(self) -> bool {
        self.exponent_field() != 255
    }

    /// The significand of a finite number, as an integer.
    pub open spec fn significand(self) -> int {
        if self.exponent_field() == 0 {
            self.fraction()
        } else {
            self.fraction() + 0x80_0000
        }
    }

    /// The power of two that the significand is scaled by, counted from the
    /// least one that the format has: a finite number's magnitude is
    /// `significand * 2^(steps - 149)`.
    pub open spec fn steps(self) -> int {
        if self.exponent_field() == 0 {
            0
        } else {
            self.exponent_field() - 1
        }
    }

    /// Whether the number lies between nought and one.
    pub open spec fn is_proper(self) -> bool {
        self.is_finite() && 0 <= self.units() <= pow2(149) && !self.negative()
    }

    /// A finite number as a whole multiple of `2^-149`, the format's least
    /// positive number.
    pub open spec fn units(self) -> int {
        if self.negative() {
            -(self.significand() * pow2(self.steps() as nat))
        } else {
            self.significand() * pow2(self.steps() as nat)
        }
    }
}

impl PartialEq for Ratio {
    fn eq(&self, other: &Ratio) -> (equal: bool) {
        let field: u32 = (self.bits / 0x80_0000) % 256;
        let fraction: u32 = self.bits % 0x80_0000;
        let other_field: u32 = (other.bits / 0x80_0000) % 256;
        let other_fraction: u32 = other.bits % 0x80_0000;
        let numbers: bool = !(field == 255 && fraction != 0) && !(other_field == 255
            && other_fraction != 0);
        numbers && (self.bits == other.bits || (self.bits % 0x8000_0000 == 0 && other.bits
            % 0x8000_0000 == 0))
    }
}

impl vstd::std_specs::cmp::PartialEqSpecImpl for Ratio {
    open spec fn obeys_eq_spec() -> bool {
        true
    }

    /// Equal as numbers: nothing equals what is not a number, and the two
    /// zeros are equal.
    open spec fn eq_spec(&self, other: &Ratio) -> bool {
        &&& !self.is_nan()
        &&& !other.is_nan()
        &&& self.bits == other.bits || (self.bits % 0x8000_0000 == 0 && other.bits % 0x8000_0000
            == 0)
    }
}

/// How many low bits `n` has beyond the 24 that a binary32 significand holds.
pub open spec fn excess_bits(n: nat) -> nat
    decreases n,
{
    if n < 0x100_0000 {
        0
    } else {
        1 + excess_bits(n / 2)
    }
}

/// The multiple of `unit` nearest to `n`; of two equally near, the even one.
pub open spec fn nearest_multiple(n: nat, unit: nat) -> nat {
    let below = n / unit;
    let rest = n % unit;
    if 2 * rest > unit || (2 * rest == unit && below % 2 == 1) {
        (below + 1) * unit
    } else {
        below * unit
    }
}

/// `n` rounded to a 24-bit significand, as binary32 arithmetic rounds.
pub open spec fn rounded(n: nat) -> nat {
    nearest_multiple(n, pow2(excess_bits(n)))
}

/// The whole cells that `ratio` takes out of `extent`: the binary32 product of
/// the two, rounded down and brought into the range of a 16-bit count. No
/// cells where the ratio is negative or the product is not a number.
pub open spec fn share_of(extent: nat, ratio: Ratio) -> nat {
    if ratio.is_nan() || ratio.negative() {
        0
    } else if ratio.is_infinite() {
        if extent == 0 {
            0
        } else {
            0xFFFF
        }
    } else {
        let product = rounded((extent * ratio.significand()) as nat);
        let cells = if ratio.steps() >= 149 {
            (product * pow2((ratio.steps() - 149) as nat)) as nat
        } else {
            product / pow2((149 - ratio.steps()) as nat)
        };
        if cells > 0xFFFF {
            0xFFFF
        } else {
            cells
        }
    }
}

/// `2^exponent` as a machine integer.
fn power_of_two(exponent: u32) -> (power: u128)
    requires
        exponent < 127,
    ensures
        power == pow2(exponent as nat),
        power < 0x8000_0000_0000_0000_0000_0000_0000_0000,
{
    let mut power: u128 = 1;
    let mut done: u32 = 0;
    proof {
        lemma2_to64();
        lemma_pow2_127();
    }
    while done < exponent
        invariant
            done <= exponent < 127,
            power == pow2(done as nat),
            pow2(127) == 0x8000_0000_0000_0000_0000_0000_0000_0000,
        decreases exponent - done,
    {
        proof {
            lemma_pow2_unfold((done + 1) as nat);
            lemma_pow2_strictly_increases((done + 1) as nat, 127);
        }
        power = power * 2;
        done = done + 1;
    }
    proof {
        lemma_pow2_strictly_increases(exponent as nat, 127);
    }
    power
}

proof fn lemma_pow2_127()
    ensures
        pow2(127) == 0x8000_0000_0000_0000_0000_0000_0000_0000,
{
    lemma2_to64();
    lemma2_to64_rest();
    lemma_pow2_adds(63, 64);
    assert(pow2(63) == 0x8000_0000_0000_0000);
    assert(0x8000_0000_0000_0000 * 0x1_0000_0000_0000_0000
        == 0x8000_0000_0000_0000_0000_0000_0000_0000) by (nonlinear_arith);
}

/// Rounds to a 24-bit significand.
fn round_to_significand(n: u64) -> (m: u64)
    requires
        n < 0x100_0000_0000,
    ensures
        m == rounded(n as nat),
        m < 0x200_0000_0000,
{
    let mut below: u64 = n;
    let mut unit: u64 = 1;
    let ghost mut k: nat = 0;
    proof {
        lemma2_to64();
    }
    while below >= 0x100_0000
        invariant
            unit == pow2(k),
            unit >= 1,
            below == n as nat / pow2(k),
            k + excess_bits(below as nat) == excess_bits(n as nat),
            below * unit <= n < 0x100_0000_0000,
            below >= 0x100_0000 || k == 0 || below >= 0x80_0000,
        decreases below,
    {
        proof {
            lemma_pow2_unfold(k + 1);
            lemma_div_denominator(n as int, pow2(k) as int, 2);
            assert(pow2(k + 1) == pow2(k) * 2);
            assert(unit <= 0x1_0000) by (nonlinear_arith)
                requires
                    below * unit < 0x100_0000_0000,
                    below >= 0x100_0000,
            ;
            assert((below / 2) * (unit * 2) <= below * unit) by (nonlinear_arith)
                requires
                    unit >= 0,
                    below >= 0,
            ;
            k = k + 1;
        }
        below = below / 2;
        unit = unit * 2;
    }
    let whole: u64 = below * unit;
    let rest: u64 = n - whole;
    proof {
        assert(excess_bits(n as nat) == k);
        lemma_fundamental_div_mod(n as int, unit as int);
        assert(whole == unit * below) by (nonlinear_arith)
            requires
                whole == below * unit,
        ;
        assert(rest == n % unit);
        assert(rest < unit);
        assert(unit <= 0x2_0000) by (nonlinear_arith)
            requires
                below * unit < 0x100_0000_0000,
                unit >= 1,
                unit == 1 || below >= 0x80_0000,
        ;
        assert((below + 1) * unit == whole + unit) by (nonlinear_arith)
            requires
                whole == below * unit,
        ;
    }
    if 2 * rest > unit || (2 * rest == unit && below % 2 == 1) {
        whole + unit
    } else {
        whole
    }
}

/// The whole cells that `ratio` takes out of `extent`; what is left over goes
/// to the other side of the split.
pub fn split_extent(extent: u16, ratio: Ratio) -> (cells: u16)
    ensures
        cells == share_of(extent as nat, ratio),
{
    let field: u32 = (ratio.bits / 0x80_0000) % 256;
    let fraction: u32 = ratio.bits % 0x80_0000;
    if ratio.bits >= 0x8000_0000 || (field == 255 && fraction != 0) {
        return 0;
    }
    if field == 255 {
        return if extent == 0 { 0 } else { 0xFFFF };
    }
    let significand: u64 = if field == 0 { fraction as u64 } else { fraction as u64 + 0x80_0000 };
    let steps: u32 = if field == 0 { 0 } else { field - 1 };
    assert(extent * significand <= 0xFFFF * 0xFF_FFFF) by (nonlinear_arith)
        requires
            extent <= 0xFFFF,
            significand <= 0xFF_FFFF,
    ;
    let product: u64 = round_to_significand(extent as u64 * significand);
    if steps >= 149 {
        if product == 0 {
            assert(0 * pow2((steps - 149) as nat) == 0) by (nonlinear_arith);
            return 0;
        }
        let scale: u32 = steps - 149;
        if scale >= 16 {
            proof {
                lemma2_to64();
                if scale > 16 {
                    lemma_pow2_strictly_increases(16, scale as nat);
                }
                lemma_mul_inequality(1, product as int, pow2(scale as nat) as int);
            }
            return 0xFFFF;
        }
        let power: u128 = power_of_two(scale);
        proof {
            lemma2_to64();
            lemma_pow2_strictly_increases(scale as nat, 16);
            lemma_mul_upper_bound(product as int, 0x200_0000_0000, power as int, 0x1_0000);
        }
        let cells: u128 = product as u128 * power;
        if cells > 0xFFFF { 0xFFFF } else { cells as u16 }
    } else {
        let scale: u32 = 149 - steps;
        if scale >= 64 {
            proof {
                lemma2_to64();
                if scale > 64 {
                    lemma_pow2_strictly_increases(64, scale as nat);
                }
                lemma_basic_div(product as int, pow2(scale as nat) as int);
            }
            return 0;
        }
        let power: u128 = power_of_two(scale);
        proof {
            lemma_pow2_pos(scale as nat);
            lemma_div_is_ordered_by_denominator(product as int, 1, power as int);
        }
        let cells: u128 = product as u128 / power;
        if cells > 0xFFFF { 0xFFFF } else { cells as u16 }
    }
}

proof fn lemma_excess_bits_bound(n: nat, k: nat)
    requires
        n < pow2(24 + k),
    ensures
        excess_bits(n) <= k,
    decreases k,
{
    lemma2_to64();
    if n >= 0x100_0000 {
        assert(pow2(24) == 0x100_0000);
        assert(k > 0);
        lemma_pow2_unfold(24 + k);
        lemma_excess_bits_bound(n / 2, (k - 1) as nat);
    }
}

proof fn lemma_nearest_multiple_bound(n: nat, unit: nat, limit: nat)
    requires
        unit > 0,
        n <= limit * unit,
    ensures
        nearest_multiple(n, unit) <= limit * unit,
{
    let below = n / unit;
    let rest = n % unit;
    lemma_fundamental_div_mod(n as int, unit as int);
    assert(below <= limit && (rest > 0 ==> below < limit)) by (nonlinear_arith)
        requires
            n == unit * below + rest,
            n <= limit * unit,
            unit > 0,
            0 <= rest < unit,
    ;
    lemma_mul_inequality(below as int, limit as int, unit as int);
    if rest > 0 {
        lemma_mul_inequality((below + 1) as int, limit as int, unit as int);
    }
}

proof fn lemma_nearest_multiple_exact(count: nat, unit: nat)
    requires
        unit > 0,
    ensures
        nearest_multiple(count * unit, unit) == count * unit,
{
    lemma_div_by_multiple(count as int, unit as int);
    lemma_mod_multiples_basic(count as int, unit as int);
}

proof fn lemma_pow2_149_splits(k: nat)
    requires
        k <= 149,
    ensures
        pow2(149) == pow2((149 - k) as nat) * pow2(k),
{
    lemma_pow2_adds((149 - k) as nat, k);
}

/// Taking half of an extent is halving it, rounded down: the odd cell is left
/// to the other side.
pub proof fn lemma_half_takes_half(extent: nat)
    requires
        extent <= 0xFFFF,
    ensures
        share_of(extent, Ratio::spec_half()) == extent / 2,
{
    let half = Ratio::spec_half();
    assert(half.exponent_field() == 126 && half.fraction() == 0);
    lemma2_to64();
    let n: nat = (extent * 0x80_0000) as nat;
    lemma2_to64_rest();
    lemma_excess_bits_bound(n, 15);
    let k = excess_bits(n);
    lemma_pow2_pos(k);
    lemma_pow2_adds((23 - k) as nat, k);
    let rest = pow2((23 - k) as nat);
    assert(n == (extent * rest) * pow2(k)) by (nonlinear_arith)
        requires
            n == extent * 0x80_0000,
            rest * pow2(k) == 0x80_0000,
    ;
    lemma_nearest_multiple_exact(extent * rest, pow2(k));
    assert(rounded(n) == n);
    assert(n / 0x100_0000 == extent / 2);
}

/// A ratio between nought and one never takes more than there is.
pub proof fn lemma_proper_ratio_takes_at_most_all(extent: nat, ratio: Ratio)
    requires
        extent <= 0xFFFF,
        ratio.is_proper(),
    ensures
        share_of(extent, ratio) <= extent,
{
    let significand = ratio.significand() as nat;
    let steps = ratio.steps() as nat;
    lemma2_to64();
    // A number of at most one is scaled by at most 2^126 steps.
    if steps > 126 {
        assert(significand >= 0x80_0000);
        lemma_pow2_strictly_increases(126, steps);
        lemma_pow2_149_splits(126);
        assert(significand * pow2(steps) > 0x80_0000 * pow2(126)) by (nonlinear_arith)
            requires
                significand >= 0x80_0000,
                pow2(steps) > pow2(126),
                pow2(126) >= 0,
        ;
        assert(false);
    }
    let gap: nat = (149 - steps) as nat;
    lemma_pow2_149_splits(steps);
    lemma_pow2_pos(steps);
    lemma_pow2_pos(gap);
    assert(significand <= pow2(gap)) by (nonlinear_arith)
        requires
            significand * pow2(steps) <= pow2(gap) * pow2(steps),
            pow2(steps) > 0,
    ;
    let n: nat = (extent * significand) as nat;
    assert(n <= 0xFFFF * 0xFF_FFFF) by (nonlinear_arith)
        requires
            n == extent * significand,
            0 <= extent <= 0xFFFF,
            0 <= significand <= 0xFF_FFFF,
    ;
    assert(n <= extent * pow2(gap)) by (nonlinear_arith)
        requires
            n == extent * significand,
            significand <= pow2(gap),
            extent >= 0,
    ;
    lemma2_to64_rest();
    lemma_excess_bits_bound(n, 16);
    let k = excess_bits(n);
    lemma_pow2_pos(k);
    lemma_pow2_adds((gap - k) as nat, k);
    let rest = pow2((gap - k) as nat);
    assert((extent * rest) * pow2(k) == extent * pow2(gap)) by (nonlinear_arith)
        requires
            rest * pow2(k) == pow2(gap),
    ;
    lemma_nearest_multiple_bound(n, pow2(k), extent * rest);
    lemma_div_is_ordered(rounded(n) as int, (extent * pow2(gap)) as int, pow2(gap) as int);
    lemma_div_by_multiple(extent as int, pow2(gap) as int);
}

/// The least exact sum, in multiples of `2^-149`, that binary32 arithmetic
/// puts no more than 0.01 below one: half a rounding step under
/// `1 - 167772 * 2^-24`, a tie that goes to that even neighbour.
pub open spec fn least_sum() -> int {
    (0x200_0000 - 335545) * pow2(124)
}

/// The greatest exact sum, in multiples of `2^-149`, that binary32 arithmetic
/// puts no more than 0.01 above one: half a rounding step over
/// `1 + 83886 * 2^-23`, a tie that goes to that even neighbour.
pub open spec fn greatest_sum() -> int {
    (0x100_0000int + 167773) * pow2(125)
}

/// Whether the two ratios add up to one, give or take 0.01, as binary32
/// arithmetic finds it. The test looks for a difference greater than 0.01, and
/// a sum that is not a number has no such difference.
pub open spec fn complementary(first: Ratio, second: Ratio) -> bool {
    if first.is_nan() || second.is_nan() {
        true
    } else if first.is_infinite() && second.is_infinite() {
        first.negative() != second.negative()
    } else if first.is_infinite() || second.is_infinite() {
        false
    } else {
        least_sum() <= first.units() + second.units() <= greatest_sum()
    }
}

proof fn lemma_pow2_100()
    ensures
        pow2(100) == 0x10_0000_0000_0000_0000_0000_0000,
{
    lemma2_to64();
    lemma2_to64_rest();
    lemma_pow2_adds(36, 64);
    assert(0x10_0000_0000 * 0x1_0000_0000_0000_0000 == 0x10_0000_0000_0000_0000_0000_0000)
        by (nonlinear_arith);
}

/// A finite number taken apart.
#[derive(Clone, Copy)]
struct Parts {
    negative: bool,
    significand: u32,
    steps: u32,
}

impl Parts {
    spec fn magnitude(self) -> int {
        self.significand * pow2(self.steps as nat)
    }

    spec fn units(self) -> int {
        if self.negative {
            -self.magnitude()
        } else {
            self.magnitude()
        }
    }

    spec fn valid(self) -> bool {
        &&& self.significand < 0x100_0000
        &&& self.steps < 254
        &&& self.steps > 0 ==> self.significand >= 0x80_0000
    }

    fn of(ratio: Ratio) -> (parts: Parts)
        requires
            ratio.is_finite(),
        ensures
            parts.valid(),
            parts.units() == ratio.units(),
    {
        let field: u32 = (ratio.bits / 0x80_0000) % 256;
        let fraction: u32 = ratio.bits % 0x80_0000;
        Parts {
            negative: ratio.bits >= 0x8000_0000,
            significand: if field == 0 { fraction } else { fraction + 0x80_0000 },
            steps: if field == 0 { 0 } else { field - 1 },
        }
    }

    /// The number as a multiple of `2^base`.
    fn over(&self, base: u32) -> (count: i128)
        requires
            self.valid(),
            base <= self.steps < base + 100,
        ensures
            count * pow2(base as nat) == self.units(),
            -0x1000_0000_0000_0000_0000_0000_0000_0000 < count
                < 0x1000_0000_0000_0000_0000_0000_0000_0000,
    {
        let power: u128 = power_of_two(self.steps - base);
        let ghost unit = pow2(base as nat);
        proof {
            lemma_pow2_adds((self.steps - base) as nat, base as nat);
            lemma_pow2_100();
            lemma_pow2_strictly_increases((self.steps - base) as nat, 100);
            lemma_mul_upper_bound(
                self.significand as int,
                0xFF_FFFF,
                power as int,
                0x10_0000_0000_0000_0000_0000_0000,
            );
        }
        let count: i128 = (self.significand as u128 * power) as i128;
        proof {
            assert(count * unit == self.significand * (power * unit)) by (nonlinear_arith)
                requires
                    count == self.significand * power,
            ;
            assert((-count) * unit == -(count * unit)) by (nonlinear_arith);
        }
        if self.negative { -count } else { count }
    }
}

proof fn lemma_magnitude_below(parts: Parts, exponent: nat)
    requires
        parts.valid(),
        24 + parts.steps <= exponent,
    ensures
        0 <= parts.magnitude() < pow2(exponent),
{
    let steps = parts.steps as nat;
    lemma2_to64();
    lemma_pow2_pos(steps);
    lemma_pow2_adds(24, steps);
    assert(0 <= parts.significand * pow2(steps) < 0x100_0000 * pow2(steps)) by (nonlinear_arith)
        requires
            parts.significand < 0x100_0000,
            pow2(steps) > 0,
    ;
    if 24 + steps < exponent {
        lemma_pow2_strictly_increases(24 + steps, exponent);
    }
}

proof fn lemma_magnitude_at_least(parts: Parts, exponent: nat)
    requires
        parts.valid(),
        parts.steps > 0,
        exponent <= 23 + parts.steps,
    ensures
        pow2(exponent) <= parts.magnitude(),
{
    let steps = parts.steps as nat;
    lemma2_to64();
    lemma_pow2_pos(steps);
    lemma_pow2_adds(23, steps);
    lemma_mul_inequality(0x80_0000, parts.significand as int, pow2(steps) as int);
    if exponent < 23 + steps {
        lemma_pow2_strictly_increases(exponent, 23 + steps);
    }
}

/// The bounds on the sum, over a smaller unit.
proof fn lemma_bounds_over(base: nat)
    requires
        base <= 124,
    ensures
        least_sum() == ((0x200_0000 - 335545) * pow2((124 - base) as nat)) * pow2(base),
        greatest_sum() == ((0x200_0000 + 335546) * pow2((124 - base) as nat)) * pow2(base),
{
    let rest = pow2((124 - base) as nat);
    lemma_pow2_adds((124 - base) as nat, base);
    lemma_pow2_unfold(125);
    assert(((0x200_0000 - 335545) * rest) * pow2(base) == (0x200_0000 - 335545) * (rest * pow2(
        base,
    ))) by (nonlinear_arith);
    assert(((0x200_0000 + 335546) * rest) * pow2(base) == (0x200_0000 + 335546) * (rest * pow2(
        base,
    ))) by (nonlinear_arith);
}

proof fn lemma_order_over(a: int, b: int, unit: int)
    requires
        unit > 0,
    ensures
        a <= b <==> a * unit <= b * unit,
{
    if a <= b {
        lemma_mul_inequality(a, b, unit);
    } else {
        lemma_mul_strict_inequality(b, a, unit);
    }
}

proof fn lemma_order_with_small_rest(a: int, b: int, rest: int, unit: int)
    requires
        -unit < rest < unit,
    ensures
        a * unit <= b * unit + rest <==> (a < b || (a == b && rest >= 0)),
        b * unit + rest <= a * unit <==> (b < a || (a == b && rest <= 0)),
{
    if a < b {
        assert((a + 1) * unit == a * unit + unit) by (nonlinear_arith);
        lemma_mul_inequality(a + 1, b, unit);
    } else if b < a {
        assert((b + 1) * unit == b * unit + unit) by (nonlinear_arith);
        lemma_mul_inequality(b + 1, a, unit);
    }
}

/// A multiple of a finite number's unit.
spec fn units_over(parts: Parts, base: nat) -> int {
    let count = parts.significand * pow2((parts.steps - base) as nat);
    if parts.negative {
        -count
    } else {
        count
    }
}

proof fn lemma_units_over(parts: Parts, base: nat)
    requires
        base <= parts.steps,
    ensures
        parts.units() == units_over(parts, base) * pow2(base),
{
    let power = pow2((parts.steps - base) as nat);
    lemma_pow2_adds((parts.steps - base) as nat, base);
    assert((parts.significand * power) * pow2(base) == parts.significand * (power * pow2(base)))
        by (nonlinear_arith);
    assert((-(parts.significand * power)) * pow2(base) == -((parts.significand * power) * pow2(
        base,
    ))) by (nonlinear_arith);
}

/// A sum with a large part is far from one.
proof fn lemma_sum_of_far_parts(large: Parts, small: Parts)
    requires
        large.valid(),
        small.valid(),
        small.steps <= large.steps,
        large.steps >= 152,
    ensures
        !(least_sum() <= large.units() + small.units() <= greatest_sum()),
{
    lemma2_to64();
    lemma_bounds_over(124);
    lemma_pow2_pos(124);
    lemma_pow2_adds(26, 124);
    let top = pow2(150) as int;
    assert(0 < least_sum() && greatest_sum() < top) by (nonlinear_arith)
        requires
            least_sum() == ((0x200_0000 - 335545) * pow2(0)) * pow2(124),
            greatest_sum() == ((0x200_0000 + 335546) * pow2(0)) * pow2(124),
            pow2(0) == 1,
            pow2(124) > 0,
            top == 0x400_0000 * pow2(124),
    ;
    if small.steps >= 150 {
        lemma_units_over(large, 150);
        lemma_units_over(small, 150);
        let count = units_over(large, 150) + units_over(small, 150);
        assert(large.units() + small.units() == count * top) by (nonlinear_arith)
            requires
                large.units() == units_over(large, 150) * top,
                small.units() == units_over(small, 150) * top,
                count == units_over(large, 150) + units_over(small, 150),
        ;
        lemma_order_over(count, 0, top);
        lemma_order_over(1, count, top);
    } else {
        lemma_magnitude_below(small, 174);
        lemma_magnitude_at_least(large, 175);
        lemma_pow2_unfold(175);
        lemma_pow2_strictly_increases(150, 174);
    }
}

/// The sum of `large` and `small` against the bounds, where `small` is scaled
/// by no more than `large`.
fn sum_is_one(large: Parts, small: Parts) -> (yes: bool)
    requires
        large.valid(),
        small.valid(),
        small.steps <= large.steps,
    ensures
        yes == (least_sum() <= large.units() + small.units() <= greatest_sum()),
{
    proof {
        lemma_bounds_over(124);
        lemma2_to64();
        lemma_pow2_pos(124);
        lemma_pow2_adds(24, 124);
        lemma_pow2_adds(26, 124);
        assert(least_sum() == (0x200_0000 - 335545) * pow2(124) && greatest_sum() == (0x200_0000
            + 335546) * pow2(124)) by (nonlinear_arith)
            requires
                least_sum() == ((0x200_0000 - 335545) * pow2(0)) * pow2(124),
                greatest_sum() == ((0x200_0000 + 335546) * pow2(0)) * pow2(124),
                pow2(0) == 1,
        ;
    }
    if large.steps >= 152 {
        proof {
            lemma_sum_of_far_parts(large, small);
        }
        return false;
    }
    if small.steps >= 52 {
        let a: i128 = large.over(52);
        let b: i128 = small.over(52);
        let sum: i128 = a + b;
        let power: i128 = 0x100_0000_0000_0000_0000;
        proof {
            lemma_bounds_over(52);
            lemma_pow2_adds(8, 64);
            lemma_pow2_pos(52);
            let unit = pow2(52) as int;
            assert(pow2(72) == power);
            assert(least_sum() == ((0x200_0000 - 335545) * power) * unit);
            assert(greatest_sum() == ((0x200_0000 + 335546) * power) * unit);
            assert(sum * unit == large.units() + small.units()) by (nonlinear_arith)
                requires
                    sum == a + b,
                    a * unit == large.units(),
                    b * unit == small.units(),
            ;
            lemma_order_over((0x200_0000 - 335545) * power, sum as int, unit);
            lemma_order_over(sum as int, (0x200_0000 + 335546) * power, unit);
        }
        return (0x200_0000 - 335545) * power <= sum && sum <= (0x200_0000 + 335546) * power;
    }
    proof {
        lemma_magnitude_below(small, 76);
        lemma_pow2_strictly_increases(76, 124);
    }
    if large.steps < 124 {
        proof {
            lemma_magnitude_below(large, 148);
            assert(large.units() + small.units() < 0x100_0001 * pow2(124));
            assert(least_sum() > 0x100_0001 * pow2(124)) by (nonlinear_arith)
                requires
                    least_sum() == (0x200_0000 - 335545) * pow2(124),
                    pow2(124) > 0,
            ;
        }
        return false;
    }
    let count: i128 = large.over(124);
    let nothing: bool = small.significand == 0;
    proof {
        lemma_order_with_small_rest(0x200_0000 - 335545, count as int, small.units(), pow2(
            124,
        ) as int);
        lemma_order_with_small_rest(0x200_0000int + 335546, count as int, small.units(), pow2(
            124,
        ) as int);
        lemma_sign_of(small);
        assert(large.units() == count * pow2(124));
    }
    (0x200_0000 - 335545 < count || (count == 0x200_0000 - 335545 && (nothing || !small.negative)))
        && (count < 0x200_0000 + 335546 || (count == 0x200_0000 + 335546 && (nothing
        || small.negative)))
}

proof fn lemma_sign_of(parts: Parts)
    requires
        parts.valid(),
    ensures
        parts.units() >= 0 <==> (parts.significand == 0 || !parts.negative),
        parts.units() <= 0 <==> (parts.significand == 0 || parts.negative),
{
    lemma_pow2_pos(parts.steps as nat);
    assert(parts.significand == 0 ==> parts.magnitude() == 0) by (nonlinear_arith)
        requires
            parts.magnitude() == parts.significand * pow2(parts.steps as nat),
    ;
    assert(parts.significand > 0 ==> parts.magnitude() > 0) by (nonlinear_arith)
        requires
            parts.magnitude() == parts.significand * pow2(parts.steps as nat),
            pow2(parts.steps as nat) > 0,
    ;
}

/// Whether the two ratios add up to one, give or take 0.01.
pub fn sums_to_one(first: Ratio, second: Ratio) -> (yes: bool)
    ensures
        yes == complementary(first, second),
{
    let first_field: u32 = (first.bits / 0x80_0000) % 256;
    let first_fraction: u32 = first.bits % 0x80_0000;
    let second_field: u32 = (second.bits / 0x80_0000) % 256;
    let second_fraction: u32 = second.bits % 0x80_0000;
    if (first_field == 255 && first_fraction != 0) || (second_field == 255 && second_fraction != 0) {
        return true;
    }
    if first_field == 255 || second_field == 255 {
        return first_field == second_field && (first.bits >= 0x8000_0000) != (second.bits
            >= 0x8000_0000);
    }
    let first_parts: Parts = Parts::of(first);
    let second_parts: Parts = Parts::of(second);
    if second_parts.steps <= first_parts.steps {
        sum_is_one(first_parts, second_parts)
    } else {
        sum_is_one(second_parts, first_parts)
    }
}

/// Two halves make one.
pub proof fn lemma_halves_are_complementary()
    ensures
        complementary(Ratio::spec_half(), Ratio::spec_half()),
{
    let half = Ratio::spec_half();
    assert(half.exponent_field() == 126 && half.fraction() == 0);
    lemma2_to64();
    lemma_pow2_pos(124);
    lemma_pow2_unfold(125);
    lemma_bounds_over(124);
}

proof fn lemma_excess_is_needed(n: nat)
    requires
        excess_bits(n) > 0,
    ensures
        n >= 0x80_0000 * pow2(excess_bits(n)),
    decreases n,
{
    let k = excess_bits(n);
    lemma2_to64();
    lemma_pow2_unfold(k);
    if n / 2 >= 0x100_0000 {
        lemma_excess_is_needed(n / 2);
    } else {
        assert(excess_bits(n / 2) == 0);
        assert(pow2(1) == 2);
    }
}

proof fn lemma_rounding(n: nat, floor: nat)
    requires
        floor <= n,
    ensures
        ({
            let unit = pow2(excess_bits(n));
            &&& floor % unit == 0 ==> floor <= rounded(n)
            &&& n - unit < rounded(n)
            &&& rounded(n) * 0x100_0000 <= n * 0x100_0001
        }),
{
    let k = excess_bits(n);
    let unit = pow2(k);
    lemma_pow2_pos(k);
    lemma2_to64();
    let below = n / unit;
    let rest = n % unit;
    lemma_fundamental_div_mod(n as int, unit as int);
    assert((below + 1) * unit == below * unit + unit) by (nonlinear_arith);
    assert(unit * below == below * unit) by (nonlinear_arith);
    if floor % unit == 0 {
        lemma_fundamental_div_mod(floor as int, unit as int);
        let count = floor / unit;
        assert(count <= below) by {
            lemma_div_is_ordered(floor as int, n as int, unit as int);
        }
        lemma_mul_inequality(count as int, below as int, unit as int);
        assert(unit * count == count * unit) by (nonlinear_arith);
    }
    if k > 0 {
        lemma_excess_is_needed(n);
        assert(2 * rounded(n) <= 2 * n + unit);
    } else {
        assert(unit == 1);
    }
}

/// What a finite ratio that is not negative takes out of an extent is the
/// product of the two, rounded down to whole cells: never fewer than that,
/// except where the product passes the greatest count, and never more than one
/// rounding of the product, by one part in 2^24, can account for.
pub proof fn lemma_share_is_the_product(extent: nat, ratio: Ratio, cells: nat)
    requires
        extent <= 0xFFFF,
        ratio.is_finite(),
        !ratio.negative(),
    ensures
        share_of(extent, ratio) <= 0xFFFF,
        cells <= 0xFFFF && cells * pow2(149) <= extent * ratio.units() ==> cells <= share_of(
            extent,
            ratio,
        ),
        (share_of(extent, ratio) * pow2(149)) * 0x100_0000 <= (extent * ratio.units())
            * 0x100_0001,
{
    let significand = ratio.significand() as nat;
    let steps = ratio.steps() as nat;
    let n = extent * significand;
    let scale = pow2(steps);
    let share = share_of(extent, ratio);
    lemma_pow2_pos(steps);
    lemma2_to64();
    let exact = n * scale;
    assert(extent * ratio.units() == exact) by (nonlinear_arith)
        requires
            exact == (extent * significand) * scale,
            ratio.units() == significand * scale,
    ;
    lemma_rounding(n, n);
    let k = excess_bits(n);
    let unit = pow2(k);
    lemma_pow2_pos(k);
    if steps >= 149 {
        assert(significand >= 0x80_0000);
        let more = pow2((steps - 149) as nat);
        lemma_pow2_adds((steps - 149) as nat, 149);
        lemma_pow2_pos((steps - 149) as nat);
        lemma_pow2_pos(149);
        if extent == 0 {
            assert(n == 0) by (nonlinear_arith)
                requires
                    n == extent * significand,
                    extent == 0,
            ;
            assert(exact == 0) by (nonlinear_arith)
                requires
                    exact == n * scale,
                    n == 0,
            ;
            assert(rounded(n) == 0);
            assert(share == 0) by (nonlinear_arith)
                requires
                    rounded(n) == 0,
                    share == if rounded(n) * more > 0xFFFF {
                        0xFFFFnat
                    } else {
                        (rounded(n) * more) as nat
                    },
            ;
            assert(cells * pow2(149) <= 0 ==> cells == 0) by (nonlinear_arith)
                requires
                    pow2(149) > 0,
            ;
        } else {
            assert(n >= 0x80_0000) by (nonlinear_arith)
                requires
                    n == extent * significand,
                    extent >= 1,
                    significand >= 0x80_0000,
            ;
            assert(rounded(n) >= 0x80_0000) by {
                if k > 0 {
                    lemma_excess_is_needed(n);
                } else {
                    assert(rounded(n) == n);
                }
                if k > 0 {
                    assert(0x80_0000 * unit - unit >= 0x80_0000 - 1) by (nonlinear_arith)
                        requires
                            unit >= 1,
                    ;
                }
            }
            assert(rounded(n) * more >= 0x80_0000) by (nonlinear_arith)
                requires
                    rounded(n) >= 0x80_0000,
                    more >= 1,
            ;
            assert(share == 0xFFFF);
            assert(exact >= 0x80_0000 * pow2(149)) by (nonlinear_arith)
                requires
                    exact == n * scale,
                    n >= 0x80_0000,
                    scale == more * pow2(149),
                    more >= 1,
                    pow2(149) > 0,
            ;
        }
    } else {
        let gap = (149 - steps) as nat;
        let step = pow2(gap);
        lemma_pow2_pos(gap);
        lemma_pow2_149_splits(steps);
        let found = rounded(n) / step;
        lemma_fundamental_div_mod(rounded(n) as int, step as int);
        assert(found * step <= rounded(n)) by (nonlinear_arith)
            requires
                rounded(n) == step * found + rounded(n) % step,
                0 <= rounded(n) % step,
        ;
        assert(share <= found);
        assert((share * step) * scale <= rounded(n) * scale) by (nonlinear_arith)
            requires
                share <= found,
                found * step <= rounded(n),
                step > 0,
                scale > 0,
        ;
        assert((share * step) * scale == share * pow2(149)) by (nonlinear_arith)
            requires
                pow2(149) == step * scale,
        ;
        assert((rounded(n) * scale) * 0x100_0000 <= exact * 0x100_0001) by (nonlinear_arith)
            requires
                rounded(n) * 0x100_0000 <= n * 0x100_0001,
                exact == n * scale,
                scale > 0,
        ;
        if cells <= 0xFFFF && cells * pow2(149) <= exact {
            assert(cells * step <= n) by (nonlinear_arith)
                requires
                    cells * pow2(149) <= exact,
                    pow2(149) == step * scale,
                    exact == n * scale,
                    scale > 0,
            ;
            let floor = cells * step;
            if k <= gap {
                let rest = pow2((gap - k) as nat);
                lemma_pow2_adds((gap - k) as nat, k);
                assert(floor == (cells * rest) * unit) by (nonlinear_arith)
                    requires
                        floor == cells * step,
                        step == rest * unit,
                ;
                lemma_mod_multiples_basic((cells * rest) as int, unit as int);
                lemma_rounding(n, floor);
                lemma_div_is_ordered(floor as int, rounded(n) as int, step as int);
                lemma_div_by_multiple(cells as int, step as int);
            } else {
                lemma_excess_is_needed(n);
                lemma_pow2_strictly_increases(gap, k);
                assert(rounded(n) >= 0xFFFF * step) by (nonlinear_arith)
                    requires
                        rounded(n) > n - unit,
                        n >= 0x80_0000 * unit,
                        unit > step,
                        step > 0,
                ;
                lemma_div_is_ordered((0xFFFF * step) as int, rounded(n) as int, step as int);
                lemma_div_by_multiple(0xFFFF, step as int);
            }
        }
    }
}

/// Two finite ratios add up to one where their exact sum is off by no more than
/// a hundredth, and where they do it is off by no more than that and a
/// rounding, which is less than a part in a hundred thousand.
pub proof fn lemma_sums_within_a_hundredth(first: Ratio, second: Ratio)
    requires
        first.is_finite(),
        second.is_finite(),
    ensures
        ({
            let one = pow2(149) as int;
            let off = first.units() + second.units() - one;
            &&& -one <= 100 * off <= one ==> complementary(first, second)
            &&& complementary(first, second) ==> -(1000 * one) <= 99_999 * off <= 1000 * one
        }),
{
    lemma2_to64();
    lemma_pow2_adds(25, 124);
    lemma_pow2_unfold(125);
    lemma_pow2_pos(124);
}

/// It does not matter which of two ratios comes first.
pub proof fn lemma_sums_either_way(first: Ratio, second: Ratio)
    ensures
        complementary(first, second) == complementary(second, first),
{
}

/// A ratio that is no finite number goes with what makes the sum no number, and
/// with nothing else.
pub proof fn lemma_sums_that_are_not_finite(first: Ratio, second: Ratio)
    requires
        !first.is_finite(),
    ensures
        first.is_nan() || second.is_nan() ==> complementary(first, second),
        first.is_infinite() && second.is_finite() ==> !complementary(first, second),
        first.is_infinite() && second.is_infinite() ==> (complementary(first, second) <==> (
        first.bits >= 0x8000_0000) != (second.bits >= 0x8000_0000)),
{
}

/// A negative ratio and one that is not a number take nothing, and an infinite
/// one takes everything that can be counted out of an extent that is not empty.
pub proof fn lemma_share_of_what_is_no_share(extent: nat, ratio: Ratio)
    ensures
        ratio.bits >= 0x8000_0000 ==> share_of(extent, ratio) == 0,
        ratio.is_nan() ==> share_of(extent, ratio) == 0,
        ratio.bits == 0x7F80_0000 ==> share_of(extent, ratio) == if extent == 0 {
            0nat
        } else {
            65535nat
        },
{
}

/// The bit pattern of a power of two from one down is read as that power.
pub proof fn lemma_powers_of_two(ratio: Ratio, halvings: nat)
    requires
        halvings <= 126,
        ratio.bits == (127 - halvings) * 0x80_0000,
    ensures
        ratio.is_finite(),
        !ratio.negative(),
        ratio.is_proper(),
        ratio.units() * pow2(halvings) == pow2(149),
{
    lemma2_to64();
    assert(ratio.exponent_field() == 127 - halvings && ratio.fraction() == 0) by (nonlinear_arith)
        requires
            halvings <= 126,
            ratio.bits == (127 - halvings) * 0x80_0000,
            ratio.exponent_field() == (ratio.bits as int / 0x80_0000) % 256,
            ratio.fraction() == ratio.bits as int % 0x80_0000,
    ;
    let steps = (126 - halvings) as nat;
    assert(ratio.significand() == 0x80_0000);
    assert(ratio.steps() == steps);
    lemma_pow2_adds(steps, halvings);
    lemma_pow2_adds(23, 126);
    lemma_pow2_pos(halvings);
    lemma_pow2_pos(steps);
    assert(0x80_0000 * pow2(steps) * pow2(halvings) == 0x80_0000 * (pow2(steps) * pow2(halvings)))
        by (nonlinear_arith);
    assert(ratio.units() * pow2(halvings) == pow2(149));
    assert(ratio.units() <= ratio.units() * pow2(halvings)) by (nonlinear_arith)
        requires
            ratio.units() >= 0,
            pow2(halvings) >= 1,
    ;
}

/// Rounding keeps 24 bits: it gives a multiple of a power of two that `n` has no fewer
/// than 2^23 and fewer than 2^24 of, or `n` itself where that is one. It is the nearest
/// one, and of two that are equally near the even one. The result is the power's exponent
/// and the multiple.
pub proof fn lemma_rounding_is_to_nearest_even(n: nat) -> (kept: (nat, nat))
    ensures
        ({
            let unit = pow2(kept.0) as int;
            let off = kept.1 * unit - n;
            &&& rounded(n) == kept.1 * unit
            &&& n < 0x100_0000 * unit
            &&& kept.0 > 0 ==> n >= 0x80_0000 * unit
            &&& -unit <= 2 * off <= unit
            &&& 2 * off == unit || 2 * off == -unit ==> kept.1 % 2 == 0
        }),
{
    let k = excess_bits(n);
    let unit = pow2(k);
    lemma_pow2_pos(k);
    lemma2_to64();
    lemma_excess_is_enough(n);
    if k > 0 {
        lemma_excess_is_needed(n);
    }
    let below = n / unit;
    let rest = n % unit;
    lemma_fundamental_div_mod(n as int, unit as int);
    assert((below + 1) * unit == below * unit + unit) by (nonlinear_arith);
    assert(unit * below == below * unit) by (nonlinear_arith);
    if 2 * rest > unit || (2 * rest == unit && below % 2 == 1) {
        (k, below + 1)
    } else {
        (k, below)
    }
}

proof fn lemma_excess_is_enough(n: nat)
    ensures
        n < 0x100_0000 * pow2(excess_bits(n)),
    decreases n,
{
    lemma2_to64();
    if n >= 0x100_0000 {
        lemma_excess_is_enough(n / 2);
        lemma_pow2_unfold(excess_bits(n));
    }
}

/// From nought on, each bit pattern stands for the next number up: by one of the least
/// numbers while the exponent is no more than one, and by twice as much for every one that
/// it is more. The sign bit turns the number round.
pub proof fn lemma_neighbouring_numbers(ratio: Ratio, next: Ratio, turned: Ratio)
    requires
        next.bits == ratio.bits + 1,
        next.bits < 0x7F80_0000,
        turned.bits == ratio.bits + 0x8000_0000,
    ensures
        ratio.bits == 0 ==> ratio.units() == 0,
        ({
            let field = ratio.bits as int / 0x80_0000;
            next.units() - ratio.units() == pow2(
                if field <= 1 {
                    0
                } else {
                    (field - 1) as nat
                },
            )
        }),
        turned.units() == -ratio.units(),
{
    let field = ratio.bits as int / 0x80_0000;
    let fraction = ratio.bits as int % 0x80_0000;
    assert(0 <= field < 255);
    assert(ratio.exponent_field() == field && ratio.fraction() == fraction);
    assert(turned.bits as int / 0x80_0000 == field + 256);
    assert(turned.exponent_field() == field && turned.fraction() == fraction);
    assert(!ratio.negative() && !next.negative() && turned.negative());
    let steps = ratio.steps() as nat;
    let scale = pow2(steps);
    assert(turned.steps() == steps && turned.significand() == ratio.significand());
    if ratio.bits == 0 {
        assert(ratio.significand() * scale == 0) by (nonlinear_arith)
            requires
                ratio.significand() == 0,
        ;
    }
    if fraction == 0x7F_FFFF {
        assert(next.bits as int / 0x80_0000 == field + 1);
        assert(next.exponent_field() == field + 1 && next.fraction() == 0);
        assert(next.significand() == 0x80_0000 && next.steps() == field);
        if field > 0 {
            assert(field == steps + 1);
            lemma_pow2_unfold(steps + 1);
            assert(ratio.significand() == 0xFF_FFFF);
            assert(0x80_0000 * (2 * scale) - 0xFF_FFFF * scale == scale) by (nonlinear_arith);
        } else {
            lemma2_to64();
            assert(ratio.significand() == 0x7F_FFFF && scale == 1);
        }
    } else {
        assert(next.bits as int / 0x80_0000 == field);
        assert(next.exponent_field() == field && next.fraction() == fraction + 1);
        assert(next.significand() == ratio.significand() + 1 && next.steps() == steps);
        assert((ratio.significand() + 1) * scale - ratio.significand() * scale == scale)
            by (nonlinear_arith);
    }
}

/// What a finite ratio that is not negative takes is the rounded product of its
/// significand and the extent, scaled by the ratio's power of two and cut down to whole
/// cells, or the greatest count where that is less.
pub proof fn lemma_share_is_the_rounded_product_cut_down(extent: nat, ratio: Ratio)
    requires
        extent <= 0xFFFF,
        ratio.is_finite(),
        !ratio.negative(),
    ensures
        ({
            let share = share_of(extent, ratio);
            let product = rounded((extent * ratio.significand()) as nat) * pow2(
                ratio.steps() as nat,
            );
            &&& share * pow2(149) <= product
            &&& share < 0xFFFF ==> product < (share + 1) * pow2(149)
        }),
{
    let share = share_of(extent, ratio);
    let steps = ratio.steps() as nat;
    let scale = pow2(steps);
    let product = rounded((extent * ratio.significand()) as nat);
    lemma_pow2_pos(steps);
    lemma_pow2_pos(149);
    if steps >= 149 {
        let more = pow2((steps - 149) as nat);
        lemma_pow2_adds((steps - 149) as nat, 149);
        assert(product * scale == (product * more) * pow2(149)) by (nonlinear_arith)
            requires
                scale == more * pow2(149),
        ;
        let cells = product * more;
        assert(share <= cells);
        lemma_mul_inequality(share as int, cells as int, pow2(149) as int);
        if share < 0xFFFF {
            assert(share == cells);
            lemma_mul_strict_inequality(cells as int, cells as int + 1, pow2(149) as int);
        }
    } else {
        let gap = (149 - steps) as nat;
        let step = pow2(gap);
        lemma_pow2_pos(gap);
        lemma_pow2_149_splits(steps);
        let cells = product / step;
        let rest = product % step;
        lemma_fundamental_div_mod(product as int, step as int);
        assert(share <= cells);
        assert(share * (step * scale) <= product * scale) by (nonlinear_arith)
            requires
                share <= cells,
                product == step * cells + rest,
                rest >= 0,
                step > 0,
                scale > 0,
        ;
        if share < 0xFFFF {
            assert(share == cells);
            assert(product * scale < (share + 1) * (step * scale)) by (nonlinear_arith)
                requires
                    share == cells,
                    product == step * cells + rest,
                    rest < step,
                    scale > 0,
            ;
        }
    }
}

} // verus!
