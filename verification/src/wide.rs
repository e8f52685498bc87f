//! Numbers of up to 256 bits, as far as exact square roots of sums of two
//! squares of 128-bit numbers need them.

use vstd::prelude::*;

verus! {

/// Two to the power of 64: the radix in which a 128-bit factor is split.
pub const HALF_RADIX: u128 = 0x1_0000_0000_0000_0000;

/// Two to the power of 128: the weight of the high word of a [`Wide`].
pub open spec fn radix() -> nat {
    0x1_0000_0000_0000_0000_0000_0000_0000_0000nat
}

/// `r` is the integer square root of `n`: the largest number whose square
/// does not exceed `n`.
pub open spec fn is_floor_sqrt(r: nat, n: nat) -> bool {
    r * r <= n < (r + 1) * (r + 1)
}

/// The integer square root of `n`.
pub open spec fn floor_sqrt(n: nat) -> nat {
    choose|r: nat| is_floor_sqrt(r, n)
}

/// Every number has an integer square root.
proof fn lemma_floor_sqrt_exists(n: nat)
    ensures
        exists|r: nat| is_floor_sqrt(r, n),
    decreases n,
{
    if n == 0 {
        assert(is_floor_sqrt(0, n)) by (nonlinear_arith)
            requires
                n == 0,
        ;
    } else {
        let m = (n - 1) as nat;
        lemma_floor_sqrt_exists(m);
        let r = choose|r: nat| is_floor_sqrt(r, m);
        if n < (r + 1) * (r + 1) {
            assert(is_floor_sqrt(r, n));
        } else {
            assert((r + 2) * (r + 2) > (r + 1) * (r + 1)) by (nonlinear_arith);
            assert(is_floor_sqrt(r + 1, n));
        }
    }
}

/// `floor_sqrt(n)` squared is at most `n`, and the next square is larger.
pub proof fn lemma_floor_sqrt(n: nat)
    ensures
        is_floor_sqrt(floor_sqrt(n), n),
{
    lemma_floor_sqrt_exists(n);
}

/// A number that brackets `n` between its square and the next square is
/// `floor_sqrt(n)`.
pub proof fn lemma_floor_sqrt_unique(r: nat, n: nat)
    requires
        is_floor_sqrt(r, n),
    ensures
        r == floor_sqrt(n),
{
    lemma_floor_sqrt(n);
    let s = floor_sqrt(n);
    if r < s {
        assert((r + 1) * (r + 1) <= s * s) by (nonlinear_arith)
            requires
                r + 1 <= s,
        ;
    } else if s < r {
        assert((s + 1) * (s + 1) <= r * r) by (nonlinear_arith)
            requires
                s + 1 <= r,
        ;
    }
}

/// An unsigned number of 256 bits, held as two words of 128 bits.
#[derive(Debug, Clone, Copy)]
pub struct Wide {
    pub hi: u128,
    pub lo: u128,
}

impl Wide {
    /// The number that the two words stand for.
    pub open spec fn value(self) -> nat {
        self.hi as nat * radix() + self.lo as nat
    }

    /// The full product of two 128-bit numbers.
    pub fn product(a: u128, b: u128) -> (w: Wide)
        ensures
            w.value() == (a as nat) * (b as nat),
    {
        let a1: u128 = a / HALF_RADIX;
        let a0: u128 = a % HALF_RADIX;
        let b1: u128 = b / HALF_RADIX;
        let b0: u128 = b % HALF_RADIX;
        proof {
            lemma_half_product_fits(a0, b0);
            lemma_half_product_fits(a0, b1);
            lemma_half_product_fits(a1, b0);
            lemma_half_product_fits(a1, b1);
        }
        let p00: u128 = a0 * b0;
        let p01: u128 = a0 * b1;
        let p10: u128 = a1 * b0;
        let p11: u128 = a1 * b1;
        let t: u128 = p00 / HALF_RADIX + p01 % HALF_RADIX + p10 % HALF_RADIX;
        let lo: u128 = (t % HALF_RADIX) * HALF_RADIX + p00 % HALF_RADIX;
        let hi: u128 = p11 + p01 / HALF_RADIX + p10 / HALF_RADIX + t / HALF_RADIX;
        proof {
            lemma_split_product(a1 as int, a0 as int, b1 as int, b0 as int, HALF_RADIX as int);
        }
        Wide { hi, lo }
    }

    /// The sum of two wide numbers, where it fits in 256 bits.
    pub fn sum(self, other: Wide) -> (w: Wide)
        requires
            self.value() + other.value() < radix() * radix(),
        ensures
            w.value() == self.value() + other.value(),
    {
        let fits: bool = self.lo <= u128::MAX - other.lo;
        let lo: u128 = if fits {
            self.lo + other.lo
        } else {
            self.lo - (u128::MAX - other.lo) - 1
        };
        let carry: u128 = if fits { 0 } else { 1 };
        proof {
            let h = self.hi as int + other.hi as int + carry as int;
            assert(h * radix() + lo == self.value() + other.value());
            assert(h < radix()) by (nonlinear_arith)
                requires
                    h * radix() + lo < radix() * radix(),
                    lo >= 0,
                    radix() > 0,
            ;
        }
        Wide { hi: self.hi + other.hi + carry, lo }
    }

    /// Whether `self` is at most `other`.
    pub fn at_most(&self, other: &Wide) -> (b: bool)
        ensures
            b == (self.value() <= other.value()),
    {
        proof {
            if self.hi < other.hi {
                lemma_words_order(self.hi as int, other.hi as int, self.lo as int, other.lo as int);
            } else if other.hi < self.hi {
                lemma_words_order(other.hi as int, self.hi as int, other.lo as int, self.lo as int);
            }
        }
        self.hi < other.hi || (self.hi == other.hi && self.lo <= other.lo)
    }
}

/// The product of two numbers below two to the 64 fits in 128 bits.
proof fn lemma_half_product_fits(x: u128, y: u128)
    requires
        x < HALF_RADIX,
        y < HALF_RADIX,
    ensures
        x * y <= (HALF_RADIX - 1) * (HALF_RADIX - 1),
        x * y <= u128::MAX,
{
    assert(x * y <= (HALF_RADIX - 1) * (HALF_RADIX - 1)) by (nonlinear_arith)
        requires
            0 <= x <= HALF_RADIX - 1,
            0 <= y <= HALF_RADIX - 1,
    ;
}

/// The product of two numbers split at the radix `k`.
proof fn lemma_split_product(a1: int, a0: int, b1: int, b0: int, k: int)
    ensures
        (a1 * k + a0) * (b1 * k + b0) == (a1 * b1) * (k * k) + (a0 * b1 + a1 * b0) * k + a0 * b0,
{
    let x = a1 * k;
    let y = b1 * k;
    assert((x + a0) * (y + b0) == x * y + x * b0 + a0 * y + a0 * b0) by (nonlinear_arith);
    assert(x * y == (a1 * b1) * (k * k)) by (nonlinear_arith)
        requires
            x == a1 * k,
            y == b1 * k,
    ;
    assert(x * b0 == (a1 * b0) * k) by (nonlinear_arith)
        requires
            x == a1 * k,
    ;
    assert(a0 * y == (a0 * b1) * k) by (nonlinear_arith)
        requires
            y == b1 * k,
    ;
    assert((a0 * b1 + a1 * b0) * k == (a0 * b1) * k + (a1 * b0) * k) by (nonlinear_arith);
}

/// A larger high word decides the order of two wide numbers.
proof fn lemma_words_order(h1: int, h2: int, l1: int, l2: int)
    requires
        0 <= l1 < radix(),
        0 <= l2 < radix(),
        h1 < h2,
    ensures
        h1 * radix() + l1 < h2 * radix() + l2,
{
    assert(h1 * radix() + radix() <= h2 * radix()) by (nonlinear_arith)
        requires
            h1 + 1 <= h2,
            radix() > 0,
    ;
}

/// The integer square root of `a * a + b * b`.
pub fn hypot_floor(a: u128, b: u128) -> (r: u128)
    requires
        a + b < u128::MAX,
    ensures
        r == floor_sqrt((a as nat) * (a as nat) + (b as nat) * (b as nat)),
{
    let ghost n: nat = (a as nat) * (a as nat) + (b as nat) * (b as nat);
    proof {
        assert(n < (a + b + 1) * (a + b + 1)) by (nonlinear_arith)
            requires
                n == a * a + b * b,
                a >= 0,
                b >= 0,
        ;
        assert((a + b + 1) * (a + b + 1) <= radix() * radix()) by (nonlinear_arith)
            requires
                0 <= a + b + 1 <= radix(),
        ;
    }
    let target: Wide = Wide::product(a, a).sum(Wide::product(b, b));
    let mut low: u128 = if a >= b { a } else { b };
    let mut high: u128 = a + b + 1;
    proof {
        assert(low * low <= n) by (nonlinear_arith)
            requires
                n == a * a + b * b,
                low == a || low == b,
        ;
    }
    while high - low > 1
        invariant
            low < high,
            low * low <= n,
            n < high * high,
            target.value() == n,
        decreases high - low,
    {
        let mid: u128 = low + (high - low) / 2;
        let square: Wide = Wide::product(mid, mid);
        if square.at_most(&target) {
            low = mid;
        } else {
            high = mid;
        }
    }
    proof {
        assert(is_floor_sqrt(low as nat, n));
        lemma_floor_sqrt_unique(low as nat, n);
    }
    low
}

} // verus!
