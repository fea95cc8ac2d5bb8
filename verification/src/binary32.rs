//! Gigabyte and parameter counts as IEEE 754 binary32 numbers.
//!
//! Every size estimate, budget and score of the library is a binary32 number,
//! rounded to nearest with ties to even after each operation. The arithmetic
//! is carried out here on bit patterns, so that a pick or a ranking is the same
//! on every machine and can be reasoned about to the last bit.
use vstd::prelude::*;
use vstd::arithmetic::power2::*;
use vstd::arithmetic::div_mod::*;
use vstd::arithmetic::mul::*;
use crate::chars;
use crate::text;

verus! {

/// What a binary32 bit pattern stands for. A finite number is `mag` units of
/// 2^-149, the spacing of the smallest numbers of the format; `neg` is its sign.
pub enum Num {
    Nan,
    Infinite { neg: bool },
    Finite { neg: bool, mag: nat },
}

/// The spacing, in units, of the binary32 numbers around `n` units is two to
/// this power: the numbers have 24 significant bits.
pub open spec fn spacing(n: nat) -> nat
    decreases n,
{
    if n < 0x100_0000 {
        0
    } else {
        1 + spacing(n / 2)
    }
}

/// The integer nearest to `num / den`, the even one of two equally near.
pub open spec fn nearest(num: nat, den: nat) -> nat {
    let q = num / den;
    let r = num % den;
    if 2 * r < den || (2 * r == den && q % 2 == 0) {
        q
    } else {
        q + 1
    }
}

/// `num / den` units, rounded to 24 significant bits.
pub open spec fn round_units(num: nat, den: nat) -> nat {
    let step = pow2(spacing(num / den));
    nearest(num, den * step) * step
}

/// The number that represents `num / den` units with the given sign.
pub open spec fn rounded(neg: bool, num: nat, den: nat) -> Num {
    let mag = round_units(num, den);
    if mag >= pow2(277) {
        Num::Infinite { neg }
    } else {
        Num::Finite { neg, mag }
    }
}

/// The number that a bit pattern encodes.
pub open spec fn decoded(bits: u32) -> Num {
    let neg = bits >= 0x8000_0000;
    let exponent = (bits / 0x80_0000) % 256;
    let fraction = bits % 0x80_0000;
    if exponent == 255 {
        if fraction == 0 {
            Num::Infinite { neg }
        } else {
            Num::Nan
        }
    } else if exponent == 0 {
        Num::Finite { neg, mag: fraction as nat }
    } else {
        Num::Finite { neg, mag: (0x80_0000 + fraction) as nat * pow2((exponent - 1) as nat) }
    }
}

impl Num {
    /// The signed number of units of a finite number.
    pub open spec fn units(self) -> int {
        match self {
            Num::Finite { neg, mag } => if neg { -(mag as int) } else { mag as int },
            _ => 0,
        }
    }

    pub open spec fn negated(self) -> Num {
        match self {
            Num::Nan => Num::Nan,
            Num::Infinite { neg } => Num::Infinite { neg: !neg },
            Num::Finite { neg, mag } => Num::Finite { neg: !neg, mag },
        }
    }

    pub open spec fn plus(self, other: Num) -> Num {
        match (self, other) {
            (Num::Nan, _) | (_, Num::Nan) => Num::Nan,
            (Num::Infinite { neg: a }, Num::Infinite { neg: b }) => if a == b {
                self
            } else {
                Num::Nan
            },
            (Num::Infinite { .. }, _) => self,
            (_, Num::Infinite { .. }) => other,
            (Num::Finite { neg: a, .. }, Num::Finite { neg: b, .. }) => {
                let sum = self.units() + other.units();
                if sum == 0 {
                    Num::Finite { neg: a && b, mag: 0 }
                } else if sum < 0 {
                    rounded(true, (-sum) as nat, 1)
                } else {
                    rounded(false, sum as nat, 1)
                }
            },
        }
    }

    pub open spec fn minus(self, other: Num) -> Num {
        self.plus(other.negated())
    }

    pub open spec fn times(self, other: Num) -> Num {
        match (self, other) {
            (Num::Nan, _) | (_, Num::Nan) => Num::Nan,
            (Num::Infinite { neg: a }, Num::Infinite { neg: b }) => Num::Infinite { neg: a != b },
            (Num::Infinite { neg: a }, Num::Finite { neg: b, mag }) => if mag == 0 {
                Num::Nan
            } else {
                Num::Infinite { neg: a != b }
            },
            (Num::Finite { neg: a, mag }, Num::Infinite { neg: b }) => if mag == 0 {
                Num::Nan
            } else {
                Num::Infinite { neg: a != b }
            },
            (Num::Finite { neg: a, mag: x }, Num::Finite { neg: b, mag: y }) => rounded(
                a != b,
                x * y,
                pow2(149),
            ),
        }
    }

    pub open spec fn over(self, other: Num) -> Num {
        match (self, other) {
            (Num::Nan, _) | (_, Num::Nan) => Num::Nan,
            (Num::Infinite { .. }, Num::Infinite { .. }) => Num::Nan,
            (Num::Infinite { neg: a }, Num::Finite { neg: b, .. }) => Num::Infinite { neg: a != b },
            (Num::Finite { neg: a, .. }, Num::Infinite { neg: b }) => Num::Finite {
                neg: a != b,
                mag: 0,
            },
            (Num::Finite { neg: a, mag: x }, Num::Finite { neg: b, mag: y }) => if y == 0 {
                if x == 0 {
                    Num::Nan
                } else {
                    Num::Infinite { neg: a != b }
                }
            } else {
                rounded(a != b, x * pow2(149), y)
            },
        }
    }

    /// `self < other`; never true of NaN.
    pub open spec fn lt(self, other: Num) -> bool {
        match (self, other) {
            (Num::Nan, _) | (_, Num::Nan) => false,
            (Num::Infinite { neg: a }, Num::Infinite { neg: b }) => a && !b,
            (Num::Infinite { neg: a }, _) => a,
            (_, Num::Infinite { neg: b }) => !b,
            _ => self.units() < other.units(),
        }
    }

    /// `self <= other`; never true of NaN.
    pub open spec fn le(self, other: Num) -> bool {
        match (self, other) {
            (Num::Nan, _) | (_, Num::Nan) => false,
            _ => !other.lt(self),
        }
    }
}

impl Num {
    /// The nearest integer, halves away from zero.
    pub open spec fn whole(self) -> Num {
        match self {
            Num::Finite { neg, mag } => Num::Finite {
                neg,
                mag: ((2 * mag + pow2(149)) / pow2(150)) * pow2(149),
            },
            _ => self,
        }
    }

    /// The number without its sign.
    pub open spec fn magnitude(self) -> Num {
        match self {
            Num::Nan => Num::Nan,
            Num::Infinite { .. } => Num::Infinite { neg: false },
            Num::Finite { mag, .. } => Num::Finite { neg: false, mag },
        }
    }

    /// In decimal notation without a fraction, rounded with ties to even.
    pub open spec fn fixed0(self) -> Seq<char> {
        match self {
            Num::Nan => "NaN"@,
            Num::Infinite { neg } => sign(neg) + "inf"@,
            Num::Finite { neg, mag } => sign(neg) + chars::decimal(nearest(mag, pow2(149))),
        }
    }

    /// In decimal notation with one place, rounded with ties to even.
    pub open spec fn fixed1(self) -> Seq<char> {
        match self {
            Num::Nan => "NaN"@,
            Num::Infinite { neg } => sign(neg) + "inf"@,
            Num::Finite { neg, mag } => {
                let tenths = nearest(mag * 10, pow2(149));
                sign(neg) + chars::decimal(tenths / 10) + "."@ + chars::decimal(tenths % 10)
            },
        }
    }
}

pub open spec fn sign(neg: bool) -> Seq<char> {
    if neg {
        "-"@
    } else {
        ""@
    }
}

/// The binary32 number nearest to `n / d`.
pub open spec fn ratio(n: nat, d: nat) -> Num {
    rounded(false, n * pow2(149), d)
}

// ---------------------------------------------------------------------------
// Rounding
// ---------------------------------------------------------------------------

proof fn lemma_quotient_below(a: nat, b: nat, c: nat)
    requires
        b > 0,
        a < c * b,
    ensures
        a / b < c,
{
    lemma_fundamental_div_mod(a as int, b as int);
    let q = a / b;
    assert(q < c) by (nonlinear_arith)
        requires
            a == b * q + a % b,
            0 <= a % b,
            a < c * b,
            b > 0,
    ;
}

proof fn lemma_quotient_at_least(a: nat, b: nat, c: nat)
    requires
        b > 0,
        a >= c * b,
    ensures
        a / b >= c,
{
    lemma_fundamental_div_mod(a as int, b as int);
    let q = a / b;
    assert(q >= c) by (nonlinear_arith)
        requires
            a == b * q + a % b,
            a % b < b,
            a >= c * b,
            b > 0,
    ;
}

proof fn lemma_pow2_values()
    ensures
        pow2(0) == 1,
        pow2(1) == 2,
        pow2(23) == 0x80_0000,
        pow2(24) == 0x100_0000,
        pow2(26) == 0x400_0000,
        pow2(32) == 0x1_0000_0000,
{
    lemma2_to64();
}

/// `spacing` is the exponent that leaves 24 significant bits.
proof fn lemma_spacing(n: nat, k: nat)
    requires
        n < pow2(24 + k),
        k > 0 ==> n >= pow2((23 + k) as nat),
    ensures
        spacing(n) == k,
    decreases k,
{
    lemma_pow2_values();
    if k > 0 {
        if k > 1 {
            lemma_pow2_strictly_increases(24, (23 + k) as nat);
        }
        assert(n >= 0x100_0000);
        lemma_pow2_unfold((24 + k) as nat);
        lemma_pow2_unfold((23 + k) as nat);
        lemma_spacing(n / 2, (k - 1) as nat);
    }
}

proof fn lemma_nearest_is(num: nat, den: nat, q: nat, r: nat)
    requires
        den > 0,
        num == den * q + r,
        r < den,
    ensures
        num / den == q,
        num % den == r,
{
    lemma_mul_is_commutative(den as int, q as int);
    lemma_fundamental_div_mod_converse(num as int, den as int, q as int, r as int);
}

/// A common factor of both terms does not change the nearest integer.
proof fn lemma_nearest_scaled(num: nat, den: nat, c: nat)
    requires
        den > 0,
        c > 0,
    ensures
        (num * c) / (den * c) == num / den,
        nearest(num * c, den * c) == nearest(num, den),
{
    let q = num / den;
    let r = num % den;
    lemma_fundamental_div_mod(num as int, den as int);
    assert(num * c == (den * c) * q + r * c) by (nonlinear_arith)
        requires
            num == den * q + r,
    ;
    assert(r * c < den * c) by (nonlinear_arith)
        requires
            r < den,
            c > 0,
    ;
    assert(den * c > 0) by (nonlinear_arith)
        requires
            den > 0,
            c > 0,
    ;
    lemma_nearest_is(num * c, den * c, q, r * c);
    assert(2 * (r * c) < den * c <==> 2 * r < den) by (nonlinear_arith)
        requires
            c > 0,
    ;
    assert(2 * (r * c) == den * c <==> 2 * r == den) by (nonlinear_arith)
        requires
            c > 0,
    ;
}

/// A common factor of both terms does not change the rounded number.
proof fn lemma_rounded_scaled(neg: bool, num: nat, den: nat, c: nat)
    requires
        den > 0,
        c > 0,
    ensures
        rounded(neg, num * c, den * c) == rounded(neg, num, den),
{
    lemma_nearest_scaled(num, den, c);
    let step = pow2(spacing(num / den));
    lemma_pow2_pos(spacing(num / den));
    assert(den * step > 0) by (nonlinear_arith)
        requires
            den > 0,
            step > 0,
    ;
    lemma_nearest_scaled(num, den * step, c);
    assert((den * c) * step == (den * step) * c) by (nonlinear_arith);
}

/// Dropping the low bits of `p`, where the exact quotient is `n / d` and `p`
/// is its integer part.
proof fn lemma_nearest_of_quotient(p: nat, n: nat, d: nat, h: nat, half: nat)
    requires
        d > 0,
        h == 2 * half,
        half > 0,
        p * d <= n,
        n < (p + 1) * d,
    ensures
        nearest(n, d * h) == {
            let m = p / h;
            let rem = p % h;
            if rem > half || (rem == half && (n != p * d || m % 2 == 1)) {
                m + 1
            } else {
                m
            }
        },
{
    let m = p / h;
    let rem = p % h;
    let tail = (n - p * d) as nat;
    lemma_fundamental_div_mod(p as int, h as int);
    assert(tail < d) by (nonlinear_arith)
        requires
            tail == n - p * d,
            n < (p + 1) * d,
    ;
    assert(n == (d * h) * m + (rem * d + tail)) by (nonlinear_arith)
        requires
            p == h * m + rem,
            tail == n - p * d,
    ;
    let r = rem * d + tail;
    assert(r < d * h) by (nonlinear_arith)
        requires
            rem < h,
            tail < d,
            r == rem * d + tail,
    ;
    assert(d * h > 0) by (nonlinear_arith)
        requires
            d > 0,
            h > 0,
    ;
    lemma_nearest_is(n, d * h, m, r);
    if rem > half {
        assert(2 * r > d * h) by (nonlinear_arith)
            requires
                rem >= half + 1,
                h == 2 * half,
                r == rem * d + tail,
                tail >= 0,
                d > 0,
        ;
    } else if rem < half {
        assert(2 * r < d * h) by (nonlinear_arith)
            requires
                rem + 1 <= half,
                h == 2 * half,
                r == rem * d + tail,
                tail < d,
        ;
    } else {
        assert(2 * r == d * h + 2 * tail) by (nonlinear_arith)
            requires
                rem == half,
                h == 2 * half,
                r == rem * d + tail,
        ;
    }
}

proof fn lemma_scaled_below(n: nat, d: nat, q: nat, a: nat, b: nat, e: nat, c: nat)
    requires
        n < q * d,
        q <= a,
        a * b <= e * c,
        b > 0,
    ensures
        n * b < e * (d * c),
{
    lemma_mul_inequality(q as int, a as int, d as int);
    lemma_mul_strict_inequality(n as int, (a * d) as int, b as int);
    lemma_mul_inequality((a * b) as int, (e * c) as int, d as int);
    lemma_mul_is_associative(a as int, d as int, b as int);
    lemma_mul_is_associative(a as int, b as int, d as int);
    lemma_mul_is_commutative(d as int, b as int);
    lemma_mul_is_associative(e as int, c as int, d as int);
    lemma_mul_is_commutative(d as int, c as int);
}

proof fn lemma_scaled_above(n: nat, d: nat, q: nat, a: nat, b: nat, e: nat, c: nat)
    requires
        n >= q * d,
        q >= a,
        a * b == e * c,
    ensures
        n * b >= e * (d * c),
{
    lemma_mul_inequality(a as int, q as int, d as int);
    lemma_mul_inequality((a * d) as int, n as int, b as int);
    lemma_mul_is_associative(a as int, d as int, b as int);
    lemma_mul_is_associative(a as int, b as int, d as int);
    lemma_mul_is_commutative(d as int, b as int);
    lemma_mul_is_associative(e as int, c as int, d as int);
    lemma_mul_is_commutative(d as int, c as int);
}

/// The exponent that `pack` computes from the bit length of `p` is the spacing
/// at the exact value `n * 2^i / (d * 2^j)`.
proof fn lemma_pack_spacing(p: nat, n: nat, d: nat, i: nat, j: nat, l: nat, k: nat)
    requires
        d > 0,
        l > 0,
        pow2((l - 1) as nat) <= p < pow2(l),
        p * d <= n,
        n < (p + 1) * d,
        l + i <= 24 + k + j,
        k > 0 ==> l + i == 24 + k + j,
    ensures
        d * pow2(j) > 0,
        spacing((n * pow2(i)) / (d * pow2(j))) == k,
{
    lemma_pow2_pos(i);
    lemma_pow2_pos(j);
    let den = d * pow2(j);
    assert(den > 0) by (nonlinear_arith)
        requires
            d > 0,
            pow2(j) > 0,
            den == d * pow2(j),
    ;
    let num = n * pow2(i);
    let up = pow2(24 + k);
    lemma_pow2_adds(l, i);
    lemma_pow2_adds(24 + k, j);
    if l + i < 24 + k + j {
        lemma_pow2_strictly_increases(l + i, 24 + k + j);
    }
    let a = pow2(l);
    let b = pow2(i);
    let c = pow2(j);
    lemma_scaled_below(n, d, p + 1, a, b, up, c);
    lemma_quotient_below(num, den, up);
    if k > 0 {
        let low = pow2((23 + k) as nat);
        let a1 = pow2((l - 1) as nat);
        lemma_pow2_adds((l - 1) as nat, i);
        lemma_pow2_adds((23 + k) as nat, j);
        lemma_scaled_above(n, d, p, a1, b, low, c);
        lemma_quotient_at_least(num, den, low);
    }
    lemma_spacing(num / den, k);
}

/// Where no bit is dropped, the value is a multiple of the spacing.
proof fn lemma_pack_exact(p: nat, d: nat, i: nat, j: nat, k: nat, up: nat)
    requires
        d > 0,
        i == j + k + up,
    ensures
        nearest((p * d) * pow2(i), (d * pow2(j)) * pow2(k)) == p * pow2(up),
{
    lemma_pow2_pos(j);
    lemma_pow2_pos(k);
    lemma_pow2_adds(j, k);
    lemma_pow2_adds(j + k, up);
    let jk = pow2(j + k);
    lemma_pow2_pos(j + k);
    let u = pow2(up);
    assert((d * pow2(j)) * pow2(k) == d * jk) by (nonlinear_arith)
        requires
            jk == pow2(j) * pow2(k),
    ;
    assert((p * d) * (jk * u) == (d * jk) * (p * u)) by (nonlinear_arith);
    assert(d * jk > 0) by (nonlinear_arith)
        requires
            d > 0,
            jk > 0,
    ;
    lemma_nearest_is((p * d) * pow2(i), d * jk, p * u, 0);
}

/// Where `drop` low bits are dropped, the nearest integer is that of `n / (d * 2^drop)`.
proof fn lemma_pack_dropped(n: nat, d: nat, i: nat, j: nat, k: nat, drop: nat)
    requires
        d > 0,
        j + k == i + drop,
    ensures
        nearest(n * pow2(i), (d * pow2(j)) * pow2(k)) == nearest(n, d * pow2(drop)),
{
    lemma_pow2_adds(j, k);
    lemma_pow2_adds(drop, i);
    lemma_pow2_pos(i);
    lemma_pow2_pos(drop);
    let h = pow2(drop);
    assert((d * pow2(j)) * pow2(k) == (d * h) * pow2(i)) by (nonlinear_arith)
        requires
            pow2(j) * pow2(k) == h * pow2(i),
    ;
    assert(d * h > 0) by (nonlinear_arith)
        requires
            d > 0,
            h > 0,
    ;
    lemma_nearest_scaled(n, d * h, pow2(i));
}

/// Two to the power `e`.
fn two_to(e: u32) -> (r: u128)
    requires
        e <= 126,
    ensures
        r == pow2(e as nat),
{
    let mut r: u128 = 1;
    let mut k: u32 = 0;
    proof {
        lemma_pow2_values();
    }
    while k < e
        invariant
            k <= e <= 126,
            r == pow2(k as nat),
        decreases e - k,
    {
        proof {
            lemma_pow2_unfold((k + 1) as nat);
            lemma_pow2_bound(k as nat);
        }
        r = r * 2;
        k = k + 1;
    }
    r
}

proof fn lemma_pow2_bound(k: nat)
    requires
        k <= 126,
    ensures
        pow2(k) <= 0x4000_0000_0000_0000_0000_0000_0000_0000,
{
    lemma2_to64();
    lemma2_to64_rest();
    lemma_pow2_adds(63, 63);
    assert(pow2(126) == 0x8000_0000_0000_0000 * 0x8000_0000_0000_0000);
    if k < 126 {
        lemma_pow2_strictly_increases(k, 126);
    }
}

/// The number of significant bits of `p`.
fn bit_length(p: u128) -> (l: u32)
    requires
        0 < p < pow2(126),
    ensures
        1 <= l <= 126,
        pow2((l - 1) as nat) <= p < pow2(l as nat),
{
    let mut l: u32 = 1;
    let mut top: u128 = 2;
    proof {
        lemma_pow2_values();
        lemma_pow2_bound(126);
    }
    while top <= p
        invariant
            1 <= l <= 126,
            0 < p < pow2(126),
            pow2(126) <= 0x4000_0000_0000_0000_0000_0000_0000_0000,
            top == pow2(l as nat),
            pow2((l - 1) as nat) <= p,
        decreases 126 - l,
    {
        proof {
            lemma_pow2_unfold((l + 1) as nat);
        }
        top = top * 2;
        l = l + 1;
    }
    l
}

/// A binary32 number, held as its bit pattern.
#[derive(Clone, Copy, Debug)]
pub struct Binary32 {
    bits: u32,
}

impl View for Binary32 {
    type V = Num;

    closed spec fn view(&self) -> Num {
        decoded(self.bits)
    }
}

impl Binary32 {
    /// The number with the given bit pattern.
    pub fn from_bits(bits: u32) -> (r: Binary32)
        ensures
            r@ == decoded(bits),
            r.spec_bits() == bits,
    {
        Binary32 { bits }
    }

    pub closed spec fn spec_bits(self) -> u32 {
        self.bits
    }

    /// The bit pattern of the number.
    pub fn to_bits(self) -> (bits: u32)
        ensures
            bits == self.spec_bits(),
            decoded(bits) == self@,
    {
        self.bits
    }

    /// `mant * 2^k` units, which is a binary32 number or too large for one.
    fn encode(neg: bool, mant: u32, k: u32) -> (r: Binary32)
        requires
            mant <= 0x100_0000,
            k <= 2000,
            k > 0 ==> mant >= 0x80_0000,
        ensures
            r@ == (if mant as nat * pow2(k as nat) >= pow2(277) {
                Num::Infinite { neg }
            } else {
                Num::Finite { neg, mag: mant as nat * pow2(k as nat) }
            }),
    {
        let sign: u32 = if neg {
            0x8000_0000
        } else {
            0
        };
        let ghost value = mant as nat * pow2(k as nat);
        proof {
            lemma_pow2_values();
            lemma_pow2_unfold((k + 1) as nat);
            lemma_pow2_pos(k as nat);
            assert(0x80_0000 * pow2((k + 1) as nat) == 0x100_0000 * pow2(k as nat)) by (nonlinear_arith)
                requires
                    pow2((k + 1) as nat) == 2 * pow2(k as nat),
            ;
        }
        let m: u32 = if mant == 0x100_0000 {
            0x80_0000
        } else {
            mant
        };
        let x: u32 = if mant == 0x100_0000 {
            k + 1
        } else {
            k
        };
        assert(value == m as nat * pow2(x as nat));
        if m < 0x80_0000 {
            proof {
                lemma_pow2_strictly_increases(24, 277);
            }
            let bits: u32 = sign + m;
            assert((bits / 0x80_0000) % 256 == 0 && bits % 0x80_0000 == m);
            assert(value == m) by {
                assert(x == 0);
                lemma_mul_basics(m as int);
            }
            Binary32 { bits }
        } else if x >= 254 {
            proof {
                lemma_pow2_adds(23, 254);
                if x > 254 {
                    lemma_pow2_strictly_increases(254, x as nat);
                }
                assert(m as nat * pow2(x as nat) >= pow2(23) * pow2(254)) by (nonlinear_arith)
                    requires
                        m as nat >= pow2(23),
                        pow2(x as nat) >= pow2(254),
                ;
            }
            let bits: u32 = sign + 0x7F80_0000;
            assert((bits / 0x80_0000) % 256 == 255 && bits % 0x80_0000 == 0);
            Binary32 { bits }
        } else {
            proof {
                lemma_pow2_adds(24, 253);
                if x < 253 {
                    lemma_pow2_strictly_increases(x as nat, 253);
                }
                lemma_pow2_pos(253);
                assert((m as nat) * pow2(x as nat) < pow2(24) * pow2(253)) by (nonlinear_arith)
                    requires
                        (m as nat) < pow2(24),
                        pow2(x as nat) <= pow2(253),
                        pow2(253) > 0,
                ;
            }
            let bits: u32 = sign + (x + 1) * 0x80_0000 + (m - 0x80_0000);
            assert((bits / 0x80_0000) % 256 == x + 1 && bits % 0x80_0000 == m - 0x80_0000);
            assert(((bits / 0x80_0000) % 256 - 1) as nat == x as nat);
            assert((0x80_0000 + bits % 0x80_0000) as nat == m as nat);
            Binary32 { bits }
        }
    }

    /// The number nearest to `n * 2^i / (d * 2^j)` units, where `p` is the
    /// integer part of `n / d` and `sticky` says whether a fraction is left.
    fn pack(
        neg: bool,
        p: u128,
        s: i32,
        sticky: bool,
        Ghost(n): Ghost<nat>,
        Ghost(d): Ghost<nat>,
        Ghost(i): Ghost<nat>,
        Ghost(j): Ghost<nat>,
    ) -> (r: Binary32)
        requires
            0 < p < pow2(126),
            -1000 <= s <= 1000,
            s == i - j,
            d > 0,
            p * d <= n,
            n < (p + 1) * d,
            sticky <==> n != p * d,
            sticky ==> p >= pow2(26),
        ensures
            r@ == rounded(neg, n * pow2(i), d * pow2(j)),
    {
        let l: u32 = bit_length(p);
        let top: i32 = l as i32 + s;
        let k: i32 = if top > 24 {
            top - 24
        } else {
            0
        };
        let drop: i32 = k - s;
        proof {
            lemma_pack_spacing(p as nat, n, d, i, j, l as nat, k as nat);
            lemma_pow2_values();
            if sticky && l <= 26 {
                if l < 26 {
                    lemma_pow2_strictly_increases(l as nat, 26);
                }
            }
        }
        if drop <= 0 {
            let up: u32 = (-drop) as u32;
            proof {
                lemma_pack_exact(p as nat, d, i, j, k as nat, up as nat);
                // p * 2^up has l + up <= 24 bits
                lemma_pow2_adds(l as nat, up as nat);
                lemma_pow2_adds((l - 1) as nat, up as nat);
                if l + up < 24 {
                    lemma_pow2_strictly_increases((l + up) as nat, 24);
                }
                lemma_pow2_pos(up as nat);
                assert(p * pow2(up as nat) < pow2(l as nat) * pow2(up as nat)) by (nonlinear_arith)
                    requires
                        p < pow2(l as nat),
                        pow2(up as nat) > 0,
                ;
                assert(p * pow2(up as nat) >= pow2((l - 1) as nat) * pow2(up as nat))
                    by (nonlinear_arith)
                    requires
                        p >= pow2((l - 1) as nat),
                        pow2(up as nat) > 0,
                ;
            }
            let m: u128 = p * two_to(up);
            Self::encode(neg, m as u32, k as u32)
        } else if drop > 126 {
            proof {
                lemma_pack_dropped(n, d, i, j, k as nat, drop as nat);
                let h = pow2(drop as nat);
                let half = pow2((drop - 1) as nat);
                lemma_pow2_unfold(drop as nat);
                if drop > 127 {
                    lemma_pow2_strictly_increases(126, (drop - 1) as nat);
                }
                lemma_pow2_pos((drop - 1) as nat);
                lemma_nearest_of_quotient(p as nat, n, d, h, half);
                lemma_nearest_is(p as nat, h, 0, p as nat);
            }
            Self::encode(neg, 0, k as u32)
        } else {
            let h: u128 = two_to(drop as u32);
            let half: u128 = two_to((drop - 1) as u32);
            proof {
                lemma_pack_dropped(n, d, i, j, k as nat, drop as nat);
                lemma_pow2_unfold(drop as nat);
                lemma_pow2_pos((drop - 1) as nat);
                lemma_nearest_of_quotient(p as nat, n, d, h as nat, half as nat);
                lemma_pow2_adds(24, drop as nat);
                if l < 24 + drop {
                    lemma_pow2_strictly_increases(l as nat, (24 + drop) as nat);
                }
                lemma_quotient_below(p as nat, h as nat, pow2(24));
                if k > 0 {
                    lemma_pow2_adds(23, drop as nat);
                    lemma_quotient_at_least(p as nat, h as nat, pow2(23));
                }
            }
            let m: u128 = p / h;
            let rem: u128 = p % h;
            let up: bool = rem > half || (rem == half && (sticky || m % 2 == 1));
            let mant: u128 = if up {
                m + 1
            } else {
                m
            };
            Self::encode(neg, mant as u32, k as u32)
        }
    }

    /// Sign, significand and exponent of the number, or what it is instead.
    fn parts(self) -> (r: Parts)
        ensures
            r.wf(),
            r@ == self@,
    {
        let neg: bool = self.bits >= 0x8000_0000;
        let exponent: u32 = (self.bits / 0x80_0000) % 256;
        let fraction: u32 = self.bits % 0x80_0000;
        proof {
            lemma_pow2_values();
            lemma_mul_basics(fraction as int);
        }
        if exponent == 255 {
            if fraction == 0 {
                Parts::Infinite { neg }
            } else {
                Parts::Nan
            }
        } else if exponent == 0 {
            Parts::Finite { neg, m: fraction, x: 0 }
        } else {
            Parts::Finite { neg, m: 0x80_0000 + fraction, x: exponent - 1 }
        }
    }

    fn infinite(neg: bool) -> (r: Binary32)
        ensures
            r@ == (Num::Infinite { neg }),
    {
        if neg {
            Binary32 { bits: 0xFF80_0000 }
        } else {
            Binary32 { bits: 0x7F80_0000 }
        }
    }

    fn zero(neg: bool) -> (r: Binary32)
        ensures
            r@ == (Num::Finite { neg, mag: 0 }),
    {
        if neg {
            Binary32 { bits: 0x8000_0000 }
        } else {
            Binary32 { bits: 0 }
        }
    }

    fn nan() -> (r: Binary32)
        ensures
            r@ == Num::Nan,
    {
        Binary32 { bits: 0x7FC0_0000 }
    }

    /// The binary32 number nearest to `n / d`.
    pub fn ratio(n: u64, d: u32) -> (r: Binary32)
        requires
            d > 0,
        ensures
            r@ == ratio(n as nat, d as nat),
    {
        if n == 0 {
            proof {
                lemma_mul_basics(pow2(149) as int);
                lemma_rounded_zero(false, d as nat);
            }
            return Self::zero(false);
        }
        proof {
            lemma2_to64();
            lemma2_to64_rest();
            lemma_pow2_adds(64, 60);
            lemma_pow2_strictly_increases(124, 126);
            lemma_pow2_bound(126);
            assert(n as nat * pow2(60) < pow2(64) * pow2(60)) by (nonlinear_arith)
                requires
                    (n as nat) < pow2(64),
                    pow2(60) > 0,
            ;
        }
        let wide: u128 = n as u128 * two_to(60);
        let p: u128 = wide / (d as u128);
        let rem: u128 = wide % (d as u128);
        proof {
            lemma_integer_part(wide as nat, d as nat);
            // wide >= 2^60 > 2^28 * d
            lemma_pow2_adds(28, 32);
            assert(wide >= pow2(60)) by (nonlinear_arith)
                requires
                    wide == n as nat * pow2(60),
                    n >= 1,
            ;
            assert(pow2(28) * d as nat <= pow2(60)) by (nonlinear_arith)
                requires
                    (d as nat) < pow2(32),
                    pow2(60) == pow2(28) * pow2(32),
            ;
            lemma_quotient_at_least(wide as nat, d as nat, pow2(28));
            lemma_pow2_adds(60, 89);
            lemma_mul_is_associative(n as int, pow2(60) as int, pow2(89) as int);
            lemma_mul_basics(d as int);
        }
        Self::pack(
            false,
            p,
            89,
            rem != 0,
            Ghost(wide as nat),
            Ghost(d as nat),
            Ghost(89),
            Ghost(0),
        )
    }

    pub fn times(self, other: Binary32) -> (r: Binary32)
        ensures
            r@ == self@.times(other@),
    {
        match (self.parts(), other.parts()) {
            (Parts::Nan, _) => Self::nan(),
            (_, Parts::Nan) => Self::nan(),
            (Parts::Infinite { neg: a }, Parts::Infinite { neg: b }) => Self::infinite(a != b),
            (Parts::Infinite { neg: a }, Parts::Finite { neg: b, m, x }) => {
                proof {
                    lemma_scaled_zero(m as nat, x as nat);
                }
                if m == 0 {
                    Self::nan()
                } else {
                    Self::infinite(a != b)
                }
            },
            (Parts::Finite { neg: a, m, x }, Parts::Infinite { neg: b }) => {
                proof {
                    lemma_scaled_zero(m as nat, x as nat);
                }
                if m == 0 {
                    Self::nan()
                } else {
                    Self::infinite(a != b)
                }
            },
            (Parts::Finite { neg: a, m: ma, x: xa }, Parts::Finite { neg: b, m: mb, x: xb }) => {
                assert(ma as int * mb as int <= 0x100_0000 * 0x100_0000) by (nonlinear_arith)
                    requires
                        ma < 0x100_0000,
                        mb < 0x100_0000,
                ;
                let p: u128 = (ma as u64 * mb as u64) as u128;
                proof {
                    lemma_product(ma as nat, xa as nat, mb as nat, xb as nat);
                    lemma_pow2_values();
                    lemma_pow2_adds(24, 24);
                    lemma_pow2_strictly_increases(48, 126);
                    assert((ma as nat) * (mb as nat) < pow2(24) * pow2(24)) by (nonlinear_arith)
                        requires
                            (ma as nat) < pow2(24),
                            (mb as nat) < pow2(24),
                    ;
                    lemma_mul_basics(pow2(149) as int);
                    lemma_mul_basics(pow2((xa + xb) as nat) as int);
                }
                if p == 0 {
                    proof {
                        lemma_pow2_pos(149);
                        lemma_rounded_zero(a != b, pow2(149));
                    }
                    Self::zero(a != b)
                } else {
                    Self::pack(
                        a != b,
                        p,
                        xa as i32 + xb as i32 - 149,
                        false,
                        Ghost(p as nat),
                        Ghost(1),
                        Ghost((xa + xb) as nat),
                        Ghost(149),
                    )
                }
            },
        }
    }

    pub fn over(self, other: Binary32) -> (r: Binary32)
        ensures
            r@ == self@.over(other@),
    {
        match (self.parts(), other.parts()) {
            (Parts::Nan, _) => Self::nan(),
            (_, Parts::Nan) => Self::nan(),
            (Parts::Infinite { .. }, Parts::Infinite { .. }) => Self::nan(),
            (Parts::Infinite { neg: a }, Parts::Finite { neg: b, .. }) => Self::infinite(a != b),
            (Parts::Finite { neg: a, .. }, Parts::Infinite { neg: b }) => Self::zero(a != b),
            (Parts::Finite { neg: a, m: ma, x: xa }, Parts::Finite { neg: b, m: mb, x: xb }) => {
                proof {
                    lemma_scaled_zero(ma as nat, xa as nat);
                    lemma_scaled_zero(mb as nat, xb as nat);
                }
                if mb == 0 {
                    if ma == 0 {
                        Self::nan()
                    } else {
                        Self::infinite(a != b)
                    }
                } else if ma == 0 {
                    proof {
                        lemma_mul_basics(pow2(149) as int);
                        lemma_rounded_zero(a != b, mb as nat * pow2(xb as nat));
                    }
                    Self::zero(a != b)
                } else {
                    proof {
                        lemma_pow2_values();
                        lemma_pow2_adds(24, 100);
                        lemma_pow2_strictly_increases(124, 126);
                        lemma_pow2_bound(126);
                        lemma_pow2_pos(100);
                        assert(ma as nat * pow2(100) < pow2(24) * pow2(100)) by (nonlinear_arith)
                            requires
                                (ma as nat) < pow2(24),
                                pow2(100) > 0,
                        ;
                    }
                    let wide: u128 = ma as u128 * two_to(100);
                    let p: u128 = wide / (mb as u128);
                    let rem: u128 = wide % (mb as u128);
                    proof {
                        lemma_integer_part(wide as nat, mb as nat);
                        lemma_pow2_adds(76, 24);
                        lemma_pow2_strictly_increases(26, 76);
                        assert(wide >= pow2(100)) by (nonlinear_arith)
                            requires
                                wide == ma as nat * pow2(100),
                                ma >= 1,
                        ;
                        assert(pow2(76) * mb as nat <= pow2(100)) by (nonlinear_arith)
                            requires
                                (mb as nat) < pow2(24),
                                pow2(100) == pow2(76) * pow2(24),
                        ;
                        lemma_quotient_at_least(wide as nat, mb as nat, pow2(76));
                        // ma * 2^100 * 2^(xa + 49) == ma * 2^xa * 2^149
                        let i = (xa + 49) as nat;
                        lemma_pow2_adds(100, i);
                        lemma_pow2_adds(xa as nat, 149);
                        lemma_mul_is_associative(ma as int, pow2(100) as int, pow2(i) as int);
                        lemma_mul_is_associative(
                            ma as int,
                            pow2(xa as nat) as int,
                            pow2(149) as int,
                        );
                    }
                    Self::pack(
                        a != b,
                        p,
                        xa as i32 + 49 - xb as i32,
                        rem != 0,
                        Ghost(wide as nat),
                        Ghost(mb as nat),
                        Ghost((xa + 49) as nat),
                        Ghost(xb as nat),
                    )
                }
            },
        }
    }

    /// The sum of two finite numbers, the exponent of the first not the smaller.
    fn plus_finite(na: bool, ma: u32, xa: u32, nb: bool, mb: u32, xb: u32) -> (r: Binary32)
        requires
            (Parts::Finite { neg: na, m: ma, x: xa }).wf(),
            (Parts::Finite { neg: nb, m: mb, x: xb }).wf(),
            xa >= xb,
        ensures
            r@ == (Parts::Finite { neg: na, m: ma, x: xa })@.plus(
                (Parts::Finite { neg: nb, m: mb, x: xb })@,
            ),
    {
        let diff: u32 = xa - xb;
        let ghost sa = ma as nat * pow2(xa as nat);
        let ghost sb = mb as nat * pow2(xb as nat);
        let ghost u = pow2(xb as nat);
        proof {
            lemma_pow2_values();
            lemma_pow2_pos(xb as nat);
            lemma_pow2_pos(diff as nat);
            lemma_pow2_adds(diff as nat, xb as nat);
            lemma_mul_is_associative(ma as int, pow2(diff as nat) as int, u as int);
        }
        if diff <= 100 {
            proof {
                lemma_pow2_adds(24, 100);
                lemma_pow2_strictly_increases(124, 126);
                lemma_pow2_unfold(125);
                lemma_pow2_unfold(126);
                lemma_pow2_bound(126);
                if diff < 100 {
                    lemma_pow2_strictly_increases(diff as nat, 100);
                }
                lemma_pow2_pos(100);
                assert(ma as nat * pow2(diff as nat) < pow2(24) * pow2(100)) by (nonlinear_arith)
                    requires
                        (ma as nat) < pow2(24),
                        pow2(diff as nat) <= pow2(100),
                        pow2(100) > 0,
                ;
                lemma_pow2_strictly_increases(24, 124);
            }
            let big: u128 = ma as u128 * two_to(diff);
            let small: u128 = mb as u128;
            let p: u128;
            let neg: bool;
            if na == nb {
                p = big + small;
                neg = na;
            } else if big >= small {
                p = big - small;
                neg = na;
            } else {
                p = small - big;
                neg = nb;
            }
            proof {
                lemma_mul_is_distributive_add_other_way(u as int, big as int, small as int);
                lemma_mul_is_distributive_sub_other_way(u as int, big as int, small as int);
                lemma_mul_is_distributive_sub_other_way(u as int, small as int, big as int);
                lemma_scaled_zero(p as nat, xb as nat);
                lemma_mul_basics(p as int);
            }
            if p == 0 {
                Self::zero(na && nb)
            } else {
                Self::pack(
                    neg,
                    p,
                    xb as i32,
                    false,
                    Ghost(p as nat),
                    Ghost(1),
                    Ghost(xb as nat),
                    Ghost(0),
                )
            }
        } else if mb == 0 {
            proof {
                lemma_scaled_zero(ma as nat, xa as nat);
                lemma_scaled_zero(mb as nat, xb as nat);
                lemma_pow2_strictly_increases(24, 126);
                lemma_mul_basics(ma as int);
            }
            Self::pack(
                na,
                ma as u128,
                xa as i32,
                false,
                Ghost(ma as nat),
                Ghost(1),
                Ghost(xa as nat),
                Ghost(0),
            )
        } else {
            let ghost gap = pow2((diff - 60) as nat);
            let ghost lead = ma as nat * pow2(diff as nat);
            proof {
                lemma_pow2_adds(24, 60);
                lemma_pow2_adds(23, 60);
                lemma_pow2_strictly_increases(84, 126);
                lemma_pow2_strictly_increases(26, 83);
                lemma_pow2_bound(126);
                lemma_pow2_pos(60);
                assert(ma as nat * pow2(60) < pow2(24) * pow2(60)) by (nonlinear_arith)
                    requires
                        (ma as nat) < pow2(24),
                        pow2(60) > 0,
                ;
                assert(ma as nat * pow2(60) >= pow2(23) * pow2(60)) by (nonlinear_arith)
                    requires
                        ma as nat >= pow2(23),
                ;
                lemma_pow2_pos((diff - 60) as nat);
                lemma_pow2_strictly_increases(24, (diff - 60) as nat);
                lemma_pow2_adds(60, (diff - 60) as nat);
                lemma_mul_is_associative(ma as int, pow2(60) as int, gap as int);
            }
            let lead_bits: u128 = ma as u128 * two_to(60);
            let p: u128 = if na == nb {
                lead_bits
            } else {
                lead_bits - 1
            };
            let ghost n: nat = if na == nb {
                lead + mb as nat
            } else {
                (lead - mb) as nat
            };
            proof {
                assert(lead == lead_bits * gap);
                lemma_mul_is_distributive_add_other_way(gap as int, lead_bits as int, 1);
                lemma_mul_is_distributive_sub_other_way(gap as int, lead_bits as int, 1);
                lemma_mul_basics(gap as int);
                assert(lead >= gap) by (nonlinear_arith)
                    requires
                        lead == lead_bits * gap,
                        lead_bits >= 1,
                ;
                // the sum is n * 2^xb units
                lemma_mul_is_distributive_add_other_way(u as int, lead as int, mb as int);
                lemma_mul_is_distributive_sub_other_way(u as int, lead as int, mb as int);
                lemma_scaled_zero(n, xb as nat);
                // n * 2^(xa - 60) / 2^(diff - 60) units
                lemma_pow2_adds(xb as nat, (diff - 60) as nat);
                lemma_mul_is_associative(n as int, u as int, gap as int);
                lemma_rounded_scaled(na, n * u, 1, gap);
            }
            Self::pack(
                na,
                p,
                xa as i32 - 60,
                true,
                Ghost(n),
                Ghost(gap),
                Ghost((xa - 60) as nat),
                Ghost(0),
            )
        }
    }

    pub fn plus(self, other: Binary32) -> (r: Binary32)
        ensures
            r@ == self@.plus(other@),
    {
        match (self.parts(), other.parts()) {
            (Parts::Nan, _) => Self::nan(),
            (_, Parts::Nan) => Self::nan(),
            (Parts::Infinite { neg: a }, Parts::Infinite { neg: b }) => if a == b {
                Self::infinite(a)
            } else {
                Self::nan()
            },
            (Parts::Infinite { neg: a }, Parts::Finite { .. }) => Self::infinite(a),
            (Parts::Finite { .. }, Parts::Infinite { neg: b }) => Self::infinite(b),
            (Parts::Finite { neg: a, m: ma, x: xa }, Parts::Finite { neg: b, m: mb, x: xb }) => {
                if xa >= xb {
                    Self::plus_finite(a, ma, xa, b, mb, xb)
                } else {
                    Self::plus_finite(b, mb, xb, a, ma, xa)
                }
            },
        }
    }

    fn negated(self) -> (r: Binary32)
        ensures
            r@ == self@.negated(),
    {
        let bits: u32 = if self.bits >= 0x8000_0000 {
            self.bits - 0x8000_0000
        } else {
            self.bits + 0x8000_0000
        };
        assert((bits / 0x80_0000) % 256 == (self.bits / 0x80_0000) % 256);
        assert(bits % 0x80_0000 == self.bits % 0x80_0000);
        Binary32 { bits }
    }

    pub fn minus(self, other: Binary32) -> (r: Binary32)
        ensures
            r@ == self@.minus(other@),
    {
        self.plus(other.negated())
    }

    pub fn lt(self, other: Binary32) -> (r: bool)
        ensures
            r == self@.lt(other@),
    {
        match (self.parts(), other.parts()) {
            (Parts::Nan, _) => false,
            (_, Parts::Nan) => false,
            (Parts::Infinite { neg: a }, Parts::Infinite { neg: b }) => a && !b,
            (Parts::Infinite { neg: a }, Parts::Finite { .. }) => a,
            (Parts::Finite { .. }, Parts::Infinite { neg: b }) => !b,
            (Parts::Finite { neg: a, m: ma, x: xa }, Parts::Finite { neg: b, m: mb, x: xb }) => {
                proof {
                    lemma_scaled_zero(ma as nat, xa as nat);
                    lemma_scaled_zero(mb as nat, xb as nat);
                    lemma_scaled_order(ma as nat, xa as nat, mb as nat, xb as nat);
                    lemma_scaled_order(mb as nat, xb as nat, ma as nat, xa as nat);
                }
                if a == b {
                    if a {
                        xb < xa || (xb == xa && mb < ma)
                    } else {
                        xa < xb || (xa == xb && ma < mb)
                    }
                } else {
                    a && (ma != 0 || mb != 0)
                }
            },
        }
    }

    pub fn le(self, other: Binary32) -> (r: bool)
        ensures
            r == self@.le(other@),
    {
        match (self.parts(), other.parts()) {
            (Parts::Nan, _) => false,
            (_, Parts::Nan) => false,
            _ => !other.lt(self),
        }
    }
}

/// A number taken apart: a finite one is `m * 2^x` units.
enum Parts {
    Nan,
    Infinite { neg: bool },
    Finite { neg: bool, m: u32, x: u32 },
}

impl View for Parts {
    type V = Num;

    closed spec fn view(&self) -> Num {
        match self {
            Parts::Nan => Num::Nan,
            Parts::Infinite { neg } => Num::Infinite { neg: *neg },
            Parts::Finite { neg, m, x } => Num::Finite {
                neg: *neg,
                mag: *m as nat * pow2(*x as nat),
            },
        }
    }
}

impl Parts {
    spec fn wf(self) -> bool {
        self matches Parts::Finite { neg, m, x } ==> {
            &&& m < 0x100_0000
            &&& x <= 253
            &&& x > 0 ==> m >= 0x80_0000
        }
    }
}

proof fn lemma_rounded_zero(neg: bool, den: nat)
    requires
        den > 0,
    ensures
        rounded(neg, 0, den) == (Num::Finite { neg, mag: 0 }),
{
    lemma_nearest_is(0, den, 0, 0);
    lemma_pow2_values();
    assert(spacing(0) == 0);
    lemma_mul_basics(den as int);
    lemma_pow2_pos(277);
}

proof fn lemma_scaled_zero(m: nat, x: nat)
    ensures
        m * pow2(x) == 0 <==> m == 0,
{
    lemma_pow2_pos(x);
    lemma_mul_nonzero(m as int, pow2(x) as int);
}

proof fn lemma_integer_part(n: nat, d: nat)
    requires
        d > 0,
    ensures
        (n / d) * d <= n,
        n < (n / d + 1) * d,
        n % d != 0 <==> n != (n / d) * d,
{
    lemma_fundamental_div_mod(n as int, d as int);
    lemma_mul_is_commutative(d as int, (n / d) as int);
    lemma_mul_is_distributive_add_other_way(d as int, (n / d) as int, 1);
    lemma_mul_basics(d as int);
}

proof fn lemma_product(ma: nat, xa: nat, mb: nat, xb: nat)
    ensures
        (ma * pow2(xa)) * (mb * pow2(xb)) == (ma * mb) * pow2(xa + xb),
{
    lemma_pow2_adds(xa, xb);
    let a = pow2(xa);
    let b = pow2(xb);
    assert((ma * a) * (mb * b) == (ma * mb) * (a * b)) by (nonlinear_arith);
}

/// Normalised significands order as their exponents do, and equal exponents
/// as the significands.
proof fn lemma_scaled_order(ma: nat, xa: nat, mb: nat, xb: nat)
    requires
        ma < 0x100_0000,
        mb < 0x100_0000,
        xb > 0 ==> mb >= 0x80_0000,
    ensures
        xa < xb ==> ma * pow2(xa) < mb * pow2(xb),
        xa == xb && ma < mb ==> ma * pow2(xa) < mb * pow2(xb),
{
    lemma_pow2_pos(xa);
    if xa < xb {
        lemma_pow2_unfold(xb);
        if xa + 1 < xb {
            lemma_pow2_strictly_increases((xa + 1) as nat, xb);
        }
        lemma_pow2_unfold((xa + 1) as nat);
        let a = pow2(xa);
        let b = pow2(xb);
        assert(ma * a < mb * b) by (nonlinear_arith)
            requires
                ma < 0x100_0000,
                mb >= 0x80_0000,
                b >= 2 * a,
                a > 0,
        ;
    } else if xa == xb && ma < mb {
        lemma_mul_strict_inequality(ma as int, mb as int, pow2(xa) as int);
    }
}


// ---------------------------------------------------------------------------
// Bounds of rounded results
// ---------------------------------------------------------------------------

/// `mag` units have at most 24 significant bits.
pub open spec fn exact(mag: nat) -> bool {
    exists|m: nat, k: nat| m <= 0x100_0000 && mag == #[trigger] (m * pow2(k))
}

proof fn lemma_spacing_bounds(n: nat)
    ensures
        n < pow2(24 + spacing(n)),
        spacing(n) > 0 ==> n >= pow2((23 + spacing(n)) as nat),
    decreases n,
{
    lemma_pow2_values();
    if n >= 0x100_0000 {
        lemma_spacing_bounds(n / 2);
        let s = spacing(n / 2);
        lemma_pow2_unfold((24 + s + 1) as nat);
        lemma_pow2_unfold((23 + s + 1) as nat);
        if s == 0 {
            assert(n >= pow2(24));
        }
    }
}

proof fn lemma_nearest_at_most(num: nat, den: nat, t: nat)
    requires
        den > 0,
        num <= t * den,
    ensures
        nearest(num, den) <= t,
{
    if num == t * den {
        lemma_mul_is_commutative(t as int, den as int);
        lemma_nearest_is(num, den, t, 0);
    } else {
        lemma_quotient_below(num, den, t);
    }
}

proof fn lemma_nearest_at_least(num: nat, den: nat, t: nat)
    requires
        den > 0,
        num >= t * den,
    ensures
        nearest(num, den) >= t,
{
    lemma_quotient_at_least(num, den, t);
}

/// `m` times two to the `k`, as a multiple of two to the `s`.
proof fn lemma_regroup(m: nat, k: nat, s: nat, den: nat)
    requires
        s <= k,
    ensures
        m * pow2(k) == (m * pow2((k - s) as nat)) * pow2(s),
        m * pow2(k) * den == (m * pow2((k - s) as nat)) * (den * pow2(s)),
{
    let a = pow2((k - s) as nat);
    let b = pow2(s);
    lemma_pow2_adds((k - s) as nat, s);
    assert(m * (a * b) == (m * a) * b) by (nonlinear_arith);
    assert(m * (a * b) * den == (m * a) * (den * b)) by (nonlinear_arith);
}

proof fn lemma_step_pos(den: nat, s: nat)
    requires
        den > 0,
    ensures
        den * pow2(s) > 0,
{
    lemma_pow2_pos(s);
    let b = pow2(s);
    assert(den * b > 0) by (nonlinear_arith)
        requires
            den > 0,
            b > 0,
    ;
}

/// What is at most a number with 24 significant bits does not round to more.
proof fn lemma_round_at_most(num: nat, den: nat, m: nat, k: nat)
    requires
        den > 0,
        m <= 0x100_0000,
        num <= m * pow2(k) * den,
    ensures
        round_units(num, den) <= m * pow2(k),
{
    let f = num / den;
    let s = spacing(f);
    let r = m * pow2(k);
    lemma_spacing_bounds(f);
    lemma_step_pos(den, s);
    lemma_pow2_values();
    if s <= k {
        let t = m * pow2((k - s) as nat);
        lemma_regroup(m, k, s, den);
        lemma_nearest_at_most(num, den * pow2(s), t);
        lemma_mul_inequality(
            nearest(num, den * pow2(s)) as int,
            t as int,
            pow2(s) as int,
        );
    } else {
        // Then `num / den` is exactly two to the `24 + k`.
        assert(f <= r) by {
            if num == r * den {
                lemma_mul_is_commutative(r as int, den as int);
                lemma_nearest_is(num, den, r, 0);
            } else {
                lemma_quotient_below(num, den, r);
            }
        }
        lemma_pow2_adds(24, k);
        lemma_mul_inequality(m as int, 0x100_0000, pow2(k) as int);
        if s > k + 1 {
            lemma_pow2_strictly_increases(24 + k, (23 + s) as nat);
        }
        assert(s == k + 1);
        assert(r == pow2(24 + k));
        lemma_pow2_adds(23, s);
        assert(r == 0x80_0000 * pow2(s));
        let t: nat = 0x80_0000;
        assert(r * den == t * (den * pow2(s))) by {
            let b = pow2(s);
            assert((t * b) * den == t * (den * b)) by (nonlinear_arith);
        }
        lemma_nearest_at_most(num, den * pow2(s), t);
        lemma_mul_inequality(
            nearest(num, den * pow2(s)) as int,
            t as int,
            pow2(s) as int,
        );
    }
}

/// What is at least a number with 24 significant bits does not round to less.
proof fn lemma_round_at_least(num: nat, den: nat, m: nat, k: nat)
    requires
        den > 0,
        m <= 0x100_0000,
        num >= m * pow2(k) * den,
    ensures
        round_units(num, den) >= m * pow2(k),
{
    let f = num / den;
    let s = spacing(f);
    lemma_spacing_bounds(f);
    lemma_step_pos(den, s);
    lemma_pow2_values();
    if s <= k {
        let t = m * pow2((k - s) as nat);
        lemma_regroup(m, k, s, den);
        lemma_nearest_at_least(num, den * pow2(s), t);
        lemma_mul_inequality(
            t as int,
            nearest(num, den * pow2(s)) as int,
            pow2(s) as int,
        );
    } else {
        let t: nat = 0x80_0000;
        lemma_pow2_adds(23, s);
        lemma_fundamental_div_mod(num as int, den as int);
        assert(num >= t * (den * pow2(s))) by {
            let b = pow2(s);
            let z = num % den;
            assert(num >= t * (den * b)) by (nonlinear_arith)
                requires
                    num == den * f + z,
                    f >= t * b,
                    z >= 0,
                    den > 0,
            ;
        }
        lemma_nearest_at_least(num, den * pow2(s), t);
        lemma_mul_inequality(
            t as int,
            nearest(num, den * pow2(s)) as int,
            pow2(s) as int,
        );
        lemma_pow2_adds(24, k);
        lemma_mul_inequality(m as int, 0x100_0000, pow2(k) as int);
        if s > k + 1 {
            lemma_pow2_strictly_increases(24 + k, (23 + s) as nat);
        }
    }
}

proof fn lemma_round_exact(num: nat, den: nat)
    requires
        den > 0,
    ensures
        exact(round_units(num, den)),
{
    let f = num / den;
    let s = spacing(f);
    lemma_spacing_bounds(f);
    lemma_step_pos(den, s);
    lemma_pow2_values();
    lemma_pow2_adds(24, s);
    let t: nat = 0x100_0000;
    lemma_fundamental_div_mod(num as int, den as int);
    assert(num <= t * (den * pow2(s))) by {
        let b = pow2(s);
        let z = num % den;
        assert(num <= t * (den * b)) by (nonlinear_arith)
            requires
                num == den * f + z,
                f + 1 <= t * b,
                z <= den,
                den > 0,
        ;
    }
    lemma_nearest_at_most(num, den * pow2(s), t);
    let m = nearest(num, den * pow2(s));
    assert(m <= 0x100_0000 && round_units(num, den) == m * pow2(s));
}

/// A number from zero to two to the `i`.
pub open spec fn up_to_pow2(n: Num, i: nat) -> bool {
    n matches Num::Finite { neg, mag } && !neg && mag <= pow2(149 + i)
}

/// A rounded number, infinite or with 24 significant bits, that is not negative.
pub open spec fn nonnegative(n: Num) -> bool {
    match n {
        Num::Nan => false,
        Num::Infinite { neg } => !neg,
        Num::Finite { neg, mag } => (!neg || mag == 0) && exact(mag) && mag < pow2(277),
    }
}

pub proof fn lemma_le_transitive(a: Num, b: Num, c: Num)
    requires
        a.le(b),
        b.le(c),
    ensures
        a.le(c),
{
}

/// `n / d`, if it lies between two numbers of 64ths, does so after rounding.
pub proof fn lemma_ratio_between(n: nat, d: nat, lo: nat, hi: nat)
    requires
        d > 0,
        lo * d <= 64 * n <= hi * d,
        hi <= 0x1000,
    ensures
        ratio(n, d) is Finite,
        !ratio(n, d)->Finite_neg,
        lo * pow2(143) <= ratio(n, d)->Finite_mag <= hi * pow2(143),
        pow2(149) == 64 * pow2(143),
{
    lemma_pow2_adds(6, 143);
    lemma2_to64();
    let u = pow2(143);
    let num = n * pow2(149);
    assert(num == 64 * n * u) by (nonlinear_arith)
        requires
            num == n * (64 * u),
    ;
    assert(lo * u * d <= num <= hi * u * d) by (nonlinear_arith)
        requires
            num == 64 * n * u,
            lo * d <= 64 * n <= hi * d,
            u >= 0,
    ;
    if lo > 0x1000 {
        assert(lo * d > hi * d) by (nonlinear_arith)
            requires
                lo > hi,
                d > 0,
        ;
    }
    lemma_round_at_most(num, d, hi, 143);
    lemma_round_at_least(num, d, lo, 143);
    lemma_mul_inequality(hi as int, 0x1000, u as int);
    lemma_pow2_adds(12, 143);
    lemma_pow2_strictly_increases(155, 277);
}

/// A ratio in other terms.
pub proof fn lemma_ratio_scaled(n: nat, d: nat, c: nat)
    requires
        d > 0,
        c > 0,
    ensures
        ratio(c * n, c * d) == ratio(n, d),
{
    let u = pow2(149);
    assert((c * n) * u == (n * u) * c) by (nonlinear_arith);
    assert(c * d == d * c) by (nonlinear_arith);
    lemma_rounded_scaled(false, n * u, d, c);
}

/// The numbers of 32 bits are not infinite.
pub proof fn lemma_u32_finite(n: nat)
    requires
        n <= u32::MAX,
    ensures
        ratio(n, 1) is Finite,
        !ratio(n, 1)->Finite_neg,
        ratio(n, 1)->Finite_mag <= pow2(181),
        ratio(n, 1).times(ratio(3, 100000)) is Finite,
{
    lemma_pow2_values();
    lemma_pow2_adds(32, 149);
    lemma_mul_inequality(n as int, pow2(32) as int, pow2(149) as int);
    lemma_round_at_most(n * pow2(149), 1, 1, 181);
    lemma_pow2_strictly_increases(181, 277);
    lemma_ratio_between(3, 100000, 0, 1);
    let x = ratio(n, 1)->Finite_mag;
    let y = ratio(3, 100000)->Finite_mag;
    let u = pow2(143);
    lemma_pow2_adds(6, 143);
    lemma2_to64();
    lemma_pow2_pos(143);
    let p = pow2(181);
    assert(x * y <= p * (64 * u)) by (nonlinear_arith)
        requires
            x <= p,
            y <= u,
            u > 0,
    ;
    lemma_round_at_most(x * y, pow2(149), 1, 181);
}

/// The integers up to 2^24 are binary32 numbers.
pub proof fn lemma_whole(n: nat)
    requires
        n <= 0x100_0000,
    ensures
        ratio(n, 1) == (Num::Finite { neg: false, mag: n * pow2(149) }),
{
    lemma_round_at_most(n * pow2(149), 1, n, 149);
    lemma_round_at_least(n * pow2(149), 1, n, 149);
    lemma_pow2_values();
    lemma_pow2_adds(24, 149);
    lemma_mul_inequality(n as int, 0x100_0000, pow2(149) as int);
    lemma_pow2_strictly_increases(173, 277);
}

proof fn lemma_rounded_up_to(num: nat, den: nat, i: nat)
    requires
        den > 0,
        num <= pow2(149 + i) * den,
        i <= 100,
    ensures
        up_to_pow2(rounded(false, num, den), i),
{
    lemma_round_at_most(num, den, 1, 149 + i);
    lemma_pow2_strictly_increases(149 + i, 277);
}

/// A number from `lo` to `hi` 64ths.
pub open spec fn in_64ths(n: Num, lo: nat, hi: nat) -> bool {
    n matches Num::Finite { neg, mag } && !neg && lo * pow2(143) <= mag <= hi * pow2(143)
}

pub proof fn lemma_in_64ths_wider(n: Num, lo: nat, hi: nat, lower: nat, higher: nat)
    requires
        lower <= lo,
        hi <= higher,
    ensures
        in_64ths(n, lo, hi) ==> in_64ths(n, lower, higher),
{
    lemma_mul_inequality(lower as int, lo as int, pow2(143) as int);
    lemma_mul_inequality(hi as int, higher as int, pow2(143) as int);
}

/// One and four, in units.
pub proof fn lemma_four()
    ensures
        pow2(148) == 32 * pow2(143),
        pow2(149) == 64 * pow2(143),
        pow2(151) == 256 * pow2(143),
{
    lemma2_to64();
    lemma_pow2_adds(5, 143);
    lemma_pow2_adds(6, 143);
    lemma_pow2_adds(8, 143);
}

proof fn lemma_64ths_finite(hi: nat)
    requires
        hi <= 0x1000,
    ensures
        hi * pow2(143) < pow2(277),
{
    lemma2_to64();
    lemma_mul_inequality(hi as int, 0x1000, pow2(143) as int);
    lemma_pow2_adds(12, 143);
    lemma_pow2_strictly_increases(155, 277);
}

pub proof fn lemma_times_in(
    a: Num,
    b: Num,
    la: nat,
    ha: nat,
    lb: nat,
    hb: nat,
    lo: nat,
    hi: nat,
)
    requires
        64 * lo <= la * lb,
        ha * hb <= 64 * hi,
        lo <= 0x1000,
        hi <= 0x1000,
    ensures
        in_64ths(a, la, ha) && in_64ths(b, lb, hb) ==> in_64ths(a.times(b), lo, hi),
{
    if in_64ths(a, la, ha) && in_64ths(b, lb, hb) {
        let x = a->Finite_mag;
        let y = b->Finite_mag;
        let u = pow2(143);
        lemma_pow2_pos(143);
        lemma_pow2_pos(149);
        lemma_four();
        assert(lo * u * (64 * u) <= x * y) by (nonlinear_arith)
            requires
                la * u <= x,
                lb * u <= y,
                64 * lo <= la * lb,
                u > 0,
        ;
        assert(x * y <= hi * u * (64 * u)) by (nonlinear_arith)
            requires
                x <= ha * u,
                y <= hb * u,
                ha * hb <= 64 * hi,
                u > 0,
        ;
        lemma_round_at_least(x * y, pow2(149), lo, 143);
        lemma_round_at_most(x * y, pow2(149), hi, 143);
        lemma_64ths_finite(hi);
    }
}

pub proof fn lemma_plus_in(a: Num, b: Num, la: nat, ha: nat, lb: nat, hb: nat)
    requires
        la + lb <= 0x1000,
        ha + hb <= 0x1000,
    ensures
        in_64ths(a, la, ha) && in_64ths(b, lb, hb) ==> in_64ths(a.plus(b), la + lb, ha + hb),
{
    if in_64ths(a, la, ha) && in_64ths(b, lb, hb) {
        let sum = a->Finite_mag + b->Finite_mag;
        let u = pow2(143);
        assert((la + lb) * u <= sum <= (ha + hb) * u) by (nonlinear_arith)
            requires
                la * u + lb * u <= sum <= ha * u + hb * u,
        ;
        if sum > 0 {
            lemma_round_at_least(sum, 1, la + lb, 143);
            lemma_round_at_most(sum, 1, ha + hb, 143);
            lemma_64ths_finite(ha + hb);
        }
    }
}

proof fn lemma_nearest_monotone(a: nat, b: nat, den: nat)
    requires
        den > 0,
        a <= b,
    ensures
        nearest(a, den) <= nearest(b, den),
{
    lemma_fundamental_div_mod(a as int, den as int);
    lemma_fundamental_div_mod(b as int, den as int);
    lemma_mul_is_commutative(a as int / den as int, den as int);
    lemma_quotient_at_least(b, den, a / den);
}

/// A smaller number does not round to more.
proof fn lemma_round_monotone(a: nat, b: nat)
    requires
        a <= b,
    ensures
        round_units(a, 1) <= round_units(b, 1),
{
    let i = spacing(a);
    let j = spacing(b);
    lemma_spacing_bounds(a);
    lemma_spacing_bounds(b);
    if i == j {
        lemma_pow2_pos(i);
        lemma_nearest_monotone(a, b, pow2(i));
        lemma_mul_inequality(
            nearest(a, pow2(i)) as int,
            nearest(b, pow2(i)) as int,
            pow2(i) as int,
        );
    } else if i > j {
        if i > j + 1 {
            lemma_pow2_strictly_increases(24 + j, (23 + i) as nat);
        }
    } else {
        if j > i + 1 {
            lemma_pow2_strictly_increases(24 + i, (23 + j) as nat);
        }
        lemma_round_at_most(a, 1, 1, (23 + j) as nat);
        lemma_round_at_least(b, 1, 1, (23 + j) as nat);
    }
}

/// A share of a whole is at most one.
pub proof fn lemma_share_up_to(n: nat, d: nat)
    requires
        n <= d,
        0 < d <= u64::MAX,
    ensures
        up_to_pow2(ratio(n, 1).over(ratio(d, 1)), 0),
{
    let u = pow2(149);
    lemma_pow2_pos(149);
    lemma2_to64();
    lemma_pow2_adds(64, 149);
    lemma_mul_inequality(n as int, d as int, u as int);
    lemma_mul_inequality(d as int, pow2(64) as int, u as int);
    lemma_mul_inequality(1, d as int, u as int);
    lemma_round_monotone(n * u, d * u);
    lemma_round_at_most(d * u, 1, 1, 213);
    lemma_round_at_least(d * u, 1, 1, 149);
    lemma_pow2_strictly_increases(213, 277);
    let x = round_units(n * u, 1);
    let y = round_units(d * u, 1);
    lemma_mul_inequality(x as int, y as int, u as int);
    lemma_mul_is_commutative(y as int, u as int);
    lemma_rounded_up_to(x * u, y, 0);
}

/// Results are infinite, NaN, or have 24 significant bits.
pub proof fn lemma_plus_exact(a: Num, b: Num)
    ensures
        a.plus(b) matches Num::Finite { neg, mag } ==> exact(mag) && mag < pow2(277),
{
    lemma_pow2_pos(277);
    let sum = a.units() + b.units();
    if sum == 0 {
        assert(0nat == 0nat * pow2(0)) by (nonlinear_arith);
        assert(exact(0));
    } else if sum < 0 {
        lemma_round_exact((-sum) as nat, 1);
    } else {
        lemma_round_exact(sum as nat, 1);
    }
}

pub proof fn lemma_times_exact(a: Num, b: Num)
    ensures
        a.times(b) matches Num::Finite { neg, mag } ==> exact(mag) && mag < pow2(277),
{
    lemma_pow2_pos(149);
    if a is Finite && b is Finite {
        lemma_round_exact(a->Finite_mag * b->Finite_mag, pow2(149));
    }
}

pub proof fn lemma_ratio_exact(n: nat, d: nat)
    requires
        d > 0,
    ensures
        ratio(n, d) matches Num::Finite { neg, mag } ==> exact(mag) && mag < pow2(277),
{
    lemma_round_exact(n * pow2(149), d);
}

/// A factor of at most one does not make a number larger.
pub proof fn lemma_times_shrinks(a: Num, b: Num)
    requires
        nonnegative(a),
        up_to_pow2(b, 0),
        b->Finite_mag > 0,
    ensures
        a.times(b).le(a),
{
    if let Num::Finite { neg, mag } = a {
        let (m, k) = choose|m: nat, k: nat|
            m <= 0x100_0000 && mag == #[trigger] (m * pow2(k));
        let y = b->Finite_mag;
        let u = pow2(149);
        lemma_pow2_pos(149);
        assert(mag * y <= mag * u) by (nonlinear_arith)
            requires
                y <= u,
        ;
        lemma_round_at_most(mag * y, u, m, k);
        if mag == 0 {
            lemma_mul_basics_1(y as int);
            lemma_rounded_zero(neg, u);
        }
    }
}

/// A factor of at least one does not make a number smaller.
pub proof fn lemma_times_grows(a: Num, b: Num)
    requires
        nonnegative(a),
        b matches Num::Finite { neg, mag } && !neg && mag >= pow2(149),
    ensures
        a.le(a.times(b)),
{
    lemma_pow2_pos(149);
    if let Num::Finite { neg, mag } = a {
        let (m, k) = choose|m: nat, k: nat|
            m <= 0x100_0000 && mag == #[trigger] (m * pow2(k));
        let y = b->Finite_mag;
        let u = pow2(149);
        assert(mag * y >= mag * u) by (nonlinear_arith)
            requires
                y >= u,
        ;
        lemma_round_at_least(mag * y, u, m, k);
        if mag == 0 {
            lemma_mul_basics_1(y as int);
            lemma_rounded_zero(neg, u);
        }
    }
}

/// A number from two to the `i` units up.
pub open spec fn at_least_units(n: Num, i: nat) -> bool {
    n matches Num::Finite { neg, mag } && !neg && mag >= pow2(i)
}

/// Rounding changes a number by at most one part in 2^23, unless it is among the
/// very smallest.
proof fn lemma_round_close(num: nat, den: nat)
    requires
        den > 0,
        num >= 0x100_0000 * den,
    ensures
        round_units(num, den) * den * 0x80_0000 <= num * 0x80_0001,
        round_units(num, den) * den * 0x80_0000 >= num * 0x7f_ffff,
{
    let f = num / den;
    let s = spacing(f);
    let step = pow2(s);
    let wide = den * step;
    lemma_quotient_at_least(num, den, 0x100_0000);
    lemma_spacing_bounds(f);
    lemma_step_pos(den, s);
    lemma_pow2_values();
    lemma_pow2_adds(23, s);
    lemma_fundamental_div_mod(num as int, den as int);
    lemma_fundamental_div_mod(num as int, wide as int);
    assert(0x80_0000 * wide <= num) by (nonlinear_arith)
        requires
            wide == den * step,
            f >= 0x80_0000 * step,
            num == den * f + num % den,
            num % den >= 0,
            den > 0,
    ;
    let n = nearest(num, wide);
    let q = num / wide;
    assert(n * step * den == n * wide) by (nonlinear_arith)
        requires
            wide == den * step,
    ;
    assert(num - wide <= n * wide <= num + wide) by (nonlinear_arith)
        requires
            num == wide * q + num % wide,
            0 <= num % wide < wide,
            q <= n <= q + 1,
    ;
}

/// A product with at least 70 64ths is at least 69 64ths of the number, unless
/// that is among the very smallest.
pub proof fn lemma_times_grows_strictly(a: Num, b: Num)
    requires
        at_least_units(a, 24),
        b matches Num::Finite { neg, mag } && !neg && 64 * mag >= 70 * pow2(149),
        a.times(b) is Finite,
    ensures
        !a.times(b)->Finite_neg,
        64 * a.times(b)->Finite_mag >= 69 * a->Finite_mag,
        a.lt(a.times(b)),
{
    let x = a->Finite_mag;
    let y = b->Finite_mag;
    let u = pow2(149);
    let r = round_units(x * y, u);
    lemma_pow2_values();
    lemma_pow2_pos(149);
    assert(x * y >= 0x100_0000 * u) by (nonlinear_arith)
        requires
            x >= 0x100_0000,
            64 * y >= 70 * u,
            u > 0,
    ;
    lemma_round_close(x * y, u);
    assert(64 * r >= 69 * x) by (nonlinear_arith)
        requires
            r * u * 0x80_0000 >= x * y * 0x7f_ffff,
            64 * y >= 70 * u,
            x >= 0,
            u > 0,
    ;
}

/// Of two numbers, the one that is larger by two 64ths has the larger product
/// with a number from a half up.
pub proof fn lemma_times_keeps_order(a: Num, b: Num, c: Num)
    requires
        at_least_units(a, 25),
        b matches Num::Finite { neg, mag } && !neg && 64 * mag >= 66 * a->Finite_mag,
        at_least_units(c, 148),
        a.times(c) is Finite,
        b.times(c) is Finite,
    ensures
        a.times(c).lt(b.times(c)),
{
    let x = a->Finite_mag;
    let y = b->Finite_mag;
    let z = c->Finite_mag;
    let u = pow2(149);
    lemma_pow2_values();
    lemma_pow2_unfold(149);
    lemma_pow2_unfold(25);
    lemma_pow2_pos(148);
    assert(x * z >= 0x100_0000 * u && y * z >= x * z) by (nonlinear_arith)
        requires
            x >= 0x200_0000,
            y >= x,
            2 * z >= u,
            u > 0,
    ;
    lemma_round_close(x * z, u);
    lemma_round_close(y * z, u);
    let lower = round_units(x * z, u);
    let upper = round_units(y * z, u);
    let p = x * z;
    let q = y * z;
    assert(64 * q >= 66 * p) by (nonlinear_arith)
        requires
            64 * y >= 66 * x,
            p == x * z,
            q == y * z,
            z >= 0,
    ;
    assert(lower * u < upper * u);
    assert(lower < upper) by (nonlinear_arith)
        requires
            lower * u < upper * u,
            u > 0,
    ;
}

/// One number is larger than another by at least `k` parts in 2^20.
pub open spec fn larger_by(a: Num, b: Num, k: nat) -> bool {
    &&& a matches Num::Finite { neg, mag } && !neg
    &&& b matches Num::Finite { neg, mag } && !neg
    &&& b->Finite_mag * 0x10_0000 >= a->Finite_mag * (0x10_0000 + k)
}

/// What is larger by `k` parts is still larger by one part less after a product with
/// the same number, from an eighth up.
pub proof fn lemma_times_keeps_gap(a: Num, b: Num, c: Num, k: nat)
    requires
        at_least_units(a, 27),
        larger_by(a, b, k),
        1 <= k <= 0x10_0000,
        at_least_units(c, 146),
        a.times(c) is Finite,
        b.times(c) is Finite,
    ensures
        larger_by(a.times(c), b.times(c), (k - 1) as nat),
{
    let x = a->Finite_mag;
    let y = b->Finite_mag;
    let z = c->Finite_mag;
    let u = pow2(149);
    lemma_pow2_values();
    lemma_pow2_adds(3, 146);
    lemma_pow2_adds(3, 24);
    lemma2_to64();
    lemma_pow2_pos(146);
    assert(y >= x) by (nonlinear_arith)
        requires
            y * 0x10_0000 >= x * (0x10_0000 + k),
            x >= 0,
            k >= 0,
    ;
    assert(x * z >= 0x100_0000 * u && y * z >= x * z) by (nonlinear_arith)
        requires
            x >= 8 * 0x100_0000,
            y >= x,
            8 * z >= u,
            u > 0,
    ;
    lemma_round_close(x * z, u);
    lemma_round_close(y * z, u);
    let lower = round_units(x * z, u);
    let upper = round_units(y * z, u);
    let p = x * z;
    let q = y * z;
    assert(q * 0x10_0000 >= p * (0x10_0000 + k)) by (nonlinear_arith)
        requires
            y * 0x10_0000 >= x * (0x10_0000 + k),
            p == x * z,
            q == y * z,
            z >= 0,
    ;
    let l = lower * u;
    let h = upper * u;
    assert(h * 0x10_0000 >= l * (0x10_0000 + k - 1)) by (nonlinear_arith)
        requires
            q * 0x10_0000 >= p * (0x10_0000 + k),
            l * 0x80_0000 <= p * 0x80_0001,
            h * 0x80_0000 >= q * 0x7f_ffff,
            p >= 0,
            1 <= k <= 0x10_0000,
    ;
    assert(upper * 0x10_0000 >= lower * (0x10_0000 + k - 1)) by (nonlinear_arith)
        requires
            h * 0x10_0000 >= l * (0x10_0000 + k - 1),
            l == lower * u,
            h == upper * u,
            u > 0,
    ;
}

/// What is larger by some parts is larger.
pub proof fn lemma_gap_is_order(a: Num, b: Num, k: nat)
    requires
        larger_by(a, b, k),
        k > 0,
        at_least_units(a, 27),
    ensures
        a.lt(b),
{
    lemma_pow2_pos(27);
    let x = a->Finite_mag;
    let y = b->Finite_mag;
    assert(x < y) by (nonlinear_arith)
        requires
            y * 0x10_0000 >= x * (0x10_0000 + k),
            x > 0,
            k > 0,
    ;
}

/// An eighth of one in units.
pub proof fn lemma_eighths()
    ensures
        pow2(146) == 8 * pow2(143),
        pow2(146) <= pow2(148),
{
    lemma_pow2_adds(3, 143);
    lemma_pow2_strictly_increases(146, 148);
    lemma2_to64();
}

pub proof fn lemma_times_commutes(a: Num, b: Num)
    requires
        a is Finite,
        b is Finite,
    ensures
        a.times(b) == b.times(a),
{
    lemma_mul_is_commutative(a->Finite_mag as int, b->Finite_mag as int);
}

/// A half, and half of the share of `n` in `d`.
pub open spec fn weight(n: nat, d: nat) -> Num {
    let half = ratio(5, 10);
    half.plus(half.times(ratio(n, 1).over(ratio(d, 1))))
}

/// The weight of a share is close to half of one and the share.
#[verifier::spinoff_prover]
proof fn lemma_weight(n: nat, d: nat)
    requires
        n <= d,
        0 < d <= 0x1000,
    ensures
        weight(n, d) is Finite,
        !weight(n, d)->Finite_neg,
        pow2(148) <= weight(n, d)->Finite_mag <= pow2(149),
        2 * d * weight(n, d)->Finite_mag * 0x10_0000 <= pow2(149) * (d + n) * 0x10_0001,
        2 * d * weight(n, d)->Finite_mag * 0x10_0000 >= pow2(149) * (d + n) * 0xf_ffff,
{
    let u = pow2(149);
    let v = pow2(148);
    let half = ratio(5, 10);
    lemma_pow2_unfold(149);
    lemma_pow2_values();
    lemma_pow2_pos(148);
    lemma_whole(n);
    lemma_whole(d);
    lemma_ratio_between(5, 10, 32, 32);
    lemma_pow2_adds(5, 143);
    lemma_pow2_adds(6, 143);
    lemma2_to64();
    assert(half->Finite_mag == v);
    let share = ratio(n, 1).over(ratio(d, 1));
    lemma_share_up_to(n, d);
    lemma_pow2_strictly_increases(26, 148);
    lemma_pow2_strictly_increases(149, 277);
    let c = share->Finite_mag;
    let h = half.times(share)->Finite_mag;
    lemma_times_in(half, share, 32, 32, 0, 64, 0, 32);
    lemma_plus_in(half, half.times(share), 32, 32, 0, 32);
    let w = weight(n, d)->Finite_mag;
    lemma_pow2_adds(12, 26);
    lemma_pow2_adds(2, 24);
    lemma_pow2_strictly_increases(38, 148);
    if n == 0 {
        assert(0 * u * u == 0) by (nonlinear_arith);
        lemma_mul_basics_1(u as int);
        lemma_rounded_zero(false, d * u);
        assert(c == 0);
        assert(v * c == 0) by (nonlinear_arith)
            requires
                c == 0,
        ;
        lemma_rounded_zero(false, u);
        assert(half.times(share) == rounded(false, v * c, u));
        assert(h == 0);
        lemma_round_at_most(v, 1, 1, 148);
        lemma_round_at_least(v, 1, 1, 148);
        assert(w == v);
        assert(2 * d * v == u * d) by (nonlinear_arith)
            requires
                u == 2 * v,
        ;
        let t = u * d;
        assert(2 * d * w * 0x10_0000 == t * 0x10_0000);
        assert(u * (d + 0) == t) by (nonlinear_arith)
            requires
                t == u * d,
        ;
        assert(t >= 0) by (nonlinear_arith)
            requires
                t == u * d,
                u >= 0,
                d >= 0,
        ;
    } else {
        let num = n * u * u;
        let den = d * u;
        assert(num >= 0x100_0000 * 4 * den && den > 0) by (nonlinear_arith)
            requires
                num == n * u * u,
                den == d * u,
                n >= 1,
                u >= 0x1000 * 4 * 0x100_0000,
                0 < d <= 0x1000,
        ;
        assert(num >= 0x100_0000 * den) by (nonlinear_arith)
            requires
                num >= 0x100_0000 * 4 * den,
                den > 0,
        ;
        lemma_round_close(num, den);
        assert(c == round_units(num, den));
        assert(c * d * 0x80_0000 <= n * u * 0x80_0001 && c * d * 0x80_0000 >= n * u * 0x7f_ffff)
            by (nonlinear_arith)
            requires
                c * den * 0x80_0000 <= num * 0x80_0001,
                c * den * 0x80_0000 >= num * 0x7f_ffff,
                num == n * u * u,
                den == d * u,
                u > 0,
        ;
        assert(c >= 0x200_0000) by (nonlinear_arith)
            requires
                c * d * 0x80_0000 >= n * u * 0x7f_ffff,
                n >= 1,
                u >= 0x1000 * 4 * 0x100_0000,
                0 < d <= 0x1000,
        ;
        assert(v * c >= 0x100_0000 * u) by (nonlinear_arith)
            requires
                c >= 0x200_0000,
                u == 2 * v,
                v > 0,
        ;
        lemma_round_close(v * c, u);
        assert(2 * h * 0x80_0000 <= c * 0x80_0001 && 2 * h * 0x80_0000 >= c * 0x7f_ffff)
            by (nonlinear_arith)
            requires
                h * u * 0x80_0000 <= v * c * 0x80_0001,
                h * u * 0x80_0000 >= v * c * 0x7f_ffff,
                u == 2 * v,
                v > 0,
        ;
        lemma_round_close(v + h, 1);
        let t = n * u;
        let cd = c * d;
        let hd = 2 * h * d;
        assert(hd * 0x80_0000 <= cd * 0x80_0001 && hd * 0x80_0000 >= cd * 0x7f_ffff)
            by (nonlinear_arith)
            requires
                2 * h * 0x80_0000 <= c * 0x80_0001,
                2 * h * 0x80_0000 >= c * 0x7f_ffff,
                cd == c * d,
                hd == 2 * h * d,
        ;
        let s = u * d;
        let wd = 2 * d * w;
        assert(wd * 0x80_0000 <= (s + hd) * 0x80_0001 && wd * 0x80_0000 >= (s + hd) * 0x7f_ffff)
            by (nonlinear_arith)
            requires
                w * 1 * 0x80_0000 <= (v + h) * 0x80_0001,
                w * 1 * 0x80_0000 >= (v + h) * 0x7f_ffff,
                u == 2 * v,
                s == u * d,
                hd == 2 * h * d,
                wd == 2 * d * w,
        ;
        assert(s >= 0 && t >= 0) by (nonlinear_arith)
            requires
                s == u * d,
                t == n * u,
                u >= 0,
                d >= 0,
                n >= 0,
        ;
        assert(wd * 0x10_0000 <= (s + t) * 0x10_0001 && wd * 0x10_0000 >= (s + t) * 0xf_ffff);
        assert(u * (d + n) == s + t) by (nonlinear_arith)
            requires
                s == u * d,
                t == n * u,
        ;
    }
}

/// The larger share of a whole of up to 4096 parts has the larger weight.
pub proof fn lemma_weight_grows(n: nat, m: nat, d: nat)
    requires
        n < m <= d,
        0 < d <= 0x1000,
    ensures
        larger_by(weight(n, d), weight(m, d), 100),
        at_least_units(weight(n, d), 148),
        up_to_pow2(weight(n, d), 0),
        up_to_pow2(weight(m, d), 0),
{
    let u = pow2(149);
    lemma_weight(n, d);
    lemma_weight(m, d);
    lemma_pow2_pos(149);
    let x = weight(n, d)->Finite_mag;
    let y = weight(m, d)->Finite_mag;
    let lo = u * (d + n);
    let hi = u * (d + m);
    assert(hi * 0x2000 >= lo * 0x2001) by (nonlinear_arith)
        requires
            lo == u * (d + n),
            hi == u * (d + m),
            n < m <= d,
            d <= 0x1000,
            u > 0,
    ;
    let xd = 2 * d * x;
    let yd = 2 * d * y;
    assert(lo >= 0) by (nonlinear_arith)
        requires
            lo == u * (d + n),
            u > 0,
    ;
    assert(yd * 0x10_0000 >= xd * (0x10_0000 + 100)) by (nonlinear_arith)
        requires
            hi * 0x2000 >= lo * 0x2001,
            xd * 0x10_0000 <= lo * 0x10_0001,
            yd * 0x10_0000 >= hi * 0xf_ffff,
            lo >= 0,
    ;
    assert(y * 0x10_0000 >= x * (0x10_0000 + 100)) by (nonlinear_arith)
        requires
            yd * 0x10_0000 >= xd * (0x10_0000 + 100),
            xd == 2 * d * x,
            yd == 2 * d * y,
            d > 0,
    ;
}

/// The weight of the whole is one.
pub proof fn lemma_weight_whole(d: nat)
    requires
        0 < d <= u64::MAX,
    ensures
        weight(d, d) == ratio(1, 1),
{
    let u = pow2(149);
    let half = ratio(5, 10);
    lemma_pow2_unfold(149);
    lemma_pow2_pos(148);
    lemma_share_up_to(d, d);
    let x = ratio(d, 1)->Finite_mag;
    lemma2_to64();
    lemma_pow2_adds(64, 149);
    lemma_mul_inequality(d as int, pow2(64) as int, u as int);
    lemma_mul_inequality(1, d as int, u as int);
    lemma_round_at_most(d * u, 1, 1, 213);
    lemma_round_at_least(d * u, 1, 1, 149);
    lemma_pow2_strictly_increases(213, 277);
    lemma_pow2_strictly_increases(149, 277);
    lemma_mul_is_commutative(x as int, u as int);
    lemma_round_at_most(x * u, x, 1, 149);
    lemma_round_at_least(x * u, x, 1, 149);
    let share = ratio(d, 1).over(ratio(d, 1));
    assert(share->Finite_mag == u);
    lemma_ratio_between(5, 10, 32, 32);
    lemma_pow2_adds(5, 143);
    lemma_pow2_strictly_increases(148, 277);
    let v = pow2(148);
    lemma_round_at_most(v * u, u, 1, 148);
    lemma_round_at_least(v * u, u, 1, 148);
    assert(half.times(share)->Finite_mag == v);
    lemma_round_at_most(u, 1, 1, 149);
    lemma_round_at_least(u, 1, 1, 149);
    lemma_whole(1);
}

/// A product with one is the number.
pub proof fn lemma_times_one(a: Num)
    requires
        nonnegative(a),
        a is Finite,
    ensures
        a.times(ratio(1, 1)) == a,
{
    lemma_whole(1);
    lemma_pow2_pos(149);
    let mag = a->Finite_mag;
    let (m, k) = choose|m: nat, k: nat| m <= 0x100_0000 && mag == #[trigger] (m * pow2(k));
    lemma_round_at_most(mag * pow2(149), pow2(149), m, k);
    lemma_round_at_least(mag * pow2(149), pow2(149), m, k);
}

// ---------------------------------------------------------------------------
// Whole numbers and decimal notation
// ---------------------------------------------------------------------------

/// The nearest integer to `m * 2^x / 2^149`, for `x` below 149.
proof fn lemma_nearest_shifted(m: nat, x: nat)
    requires
        x < 149,
    ensures
        nearest(m * pow2(x), pow2(149)) == nearest(m, pow2((149 - x) as nat)),
{
    lemma_pow2_adds((149 - x) as nat, x);
    lemma_pow2_pos(x);
    lemma_pow2_pos((149 - x) as nat);
    lemma_nearest_scaled(m, pow2((149 - x) as nat), pow2(x));
}

/// For `x` of 149 and more, `m * 2^x` units are an integer.
proof fn lemma_integer_scaled(m: nat, x: nat)
    requires
        x >= 149,
    ensures
        m * pow2(x) == (m * pow2((x - 149) as nat)) * pow2(149),
        nearest(m * pow2(x), pow2(149)) == m * pow2((x - 149) as nat),
{
    lemma_pow2_adds((x - 149) as nat, 149);
    let a = pow2((x - 149) as nat);
    let b = pow2(149);
    assert(m * (a * b) == (m * a) * b) by (nonlinear_arith);
    lemma_pow2_pos(149);
    lemma_mul_is_commutative((m * a) as int, b as int);
    lemma_nearest_is((m * a) * b, b, m * a, 0);
}

/// What is far less than the denominator rounds to nothing.
proof fn lemma_nearest_tiny(n: nat, s: nat)
    requires
        n < 0x1000_0000,
        s >= 30,
    ensures
        nearest(n, pow2(s)) == 0,
{
    lemma2_to64();
    if s > 30 {
        lemma_pow2_strictly_increases(30, s);
    }
    lemma_mul_basics(pow2(s) as int);
    lemma_nearest_is(n, pow2(s), 0, n);
}

/// The nearest integer to `n / 2^s`, ties to even.
fn nearest_shifted(n: u64, s: u32) -> (r: u64)
    requires
        n < 0x1000_0000,
        1 <= s,
    ensures
        r == nearest(n as nat, pow2(s as nat)),
{
    if s >= 30 {
        proof {
            lemma_nearest_tiny(n as nat, s as nat);
        }
        return 0;
    }
    proof {
        lemma2_to64();
        lemma_pow2_strictly_increases(s as nat, 30);
        lemma_pow2_pos(s as nat);
    }
    let den: u64 = two_to(s) as u64;
    let q: u64 = n / den;
    let r: u64 = n % den;
    proof {
        lemma_div_is_ordered_by_denominator(n as int, 1, den as int);
    }
    if 2 * r < den || (2 * r == den && q % 2 == 0) {
        q
    } else {
        q + 1
    }
}

/// `m * 2^k`, for a significand and an exponent of up to 104.
fn shifted(m: u32, k: u32) -> (r: u128)
    requires
        m < 0x100_0000,
        k <= 104,
    ensures
        r == m as nat * pow2(k as nat),
{
    proof {
        lemma2_to64();
        lemma2_to64_rest();
        lemma_pow2_adds(64, 64);
        lemma_pow2_adds(24, 104);
        assert(pow2(128) == 0x1_0000_0000_0000_0000 * 0x1_0000_0000_0000_0000);
        if k < 104 {
            lemma_pow2_strictly_increases(k as nat, 104);
        }
        lemma_pow2_bound(k as nat);
        lemma_pow2_pos(104);
        let p = pow2(k as nat);
        let q = pow2(104);
        assert(m as nat * p < 0x100_0000 * q) by (nonlinear_arith)
            requires
                (m as nat) < 0x100_0000,
                p <= q,
                q > 0,
        ;
    }
    m as u128 * two_to(k)
}

fn sign_text(neg: bool) -> (r: &'static str)
    ensures
        r@ == sign(neg),
{
    if neg {
        "-"
    } else {
        ""
    }
}

proof fn lemma_whole_shifted(m: nat, x: nat)
    requires
        x < 149,
    ensures
        (2 * (m * pow2(x)) + pow2(149)) / pow2(150) == (2 * m + pow2((149 - x) as nat)) / pow2(
            (150 - x) as nat,
        ),
{
    let a = pow2((149 - x) as nat);
    let b = pow2((150 - x) as nat);
    let u = pow2(x);
    lemma_pow2_adds((149 - x) as nat, x);
    lemma_pow2_adds((150 - x) as nat, x);
    lemma_pow2_pos(x);
    lemma_pow2_pos((150 - x) as nat);
    assert(2 * (m * u) + a * u == (2 * m + a) * u) by (nonlinear_arith);
    lemma_nearest_scaled(2 * m + a, b, u);
}

impl Binary32 {
    /// The nearest integer, halves away from zero.
    pub fn round(self) -> (r: Binary32)
        ensures
            r@ == self@.whole(),
    {
        match self.parts() {
            Parts::Nan => self,
            Parts::Infinite { neg } => self,
            Parts::Finite { neg, m, x } => {
                if x >= 149 {
                    proof {
                        lemma_integer_scaled(m as nat, x as nat);
                        let t = m as nat * pow2((x - 149) as nat);
                        let u = pow2(149);
                        lemma_pow2_unfold(150);
                        lemma_pow2_pos(149);
                        assert(2 * (t * u) + u == (2 * u) * t + u) by (nonlinear_arith);
                        lemma_nearest_is(2 * (t * u) + u, 2 * u, t, u);
                    }
                    return self;
                }
                let s: u32 = 149 - x;
                proof {
                    lemma_whole_shifted(m as nat, x as nat);
                    lemma2_to64();
                    lemma_pow2_unfold((s + 1) as nat);
                    lemma_pow2_pos(s as nat);
                }
                let t: u64 = if s >= 30 {
                    proof {
                        if s > 30 {
                            lemma_pow2_strictly_increases(30, s as nat);
                        }
                        lemma_mul_basics(pow2((s + 1) as nat) as int);
                        lemma_nearest_is(
                            2 * m as nat + pow2(s as nat),
                            pow2((s + 1) as nat),
                            0,
                            2 * m as nat + pow2(s as nat),
                        );
                    }
                    0
                } else {
                    proof {
                        lemma_pow2_strictly_increases(s as nat, 30);
                        lemma_pow2_bound(s as nat);
                    }
                    let half: u64 = two_to(s) as u64;
                    (2 * m as u64 + half) / (2 * half)
                };
                proof {
                    lemma_quotient_below(
                        2 * m as nat + pow2(s as nat),
                        pow2((s + 1) as nat),
                        0x100_0001,
                    );
                    lemma_whole(t as nat);
                }
                let r: Binary32 = Self::ratio(t, 1);
                if neg {
                    r.negated()
                } else {
                    r
                }
            },
        }
    }

    /// The number without its sign.
    pub fn abs(self) -> (r: Binary32)
        ensures
            r@ == self@.magnitude(),
    {
        let bits: u32 = if self.bits >= 0x8000_0000 {
            self.bits - 0x8000_0000
        } else {
            self.bits
        };
        Binary32 { bits }
    }

    /// In decimal notation without a fraction, rounded with ties to even.
    pub fn fixed0(self) -> (r: String)
        ensures
            r@ == self@.fixed0(),
    {
        match self.parts() {
            Parts::Nan => "NaN".to_owned(),
            Parts::Infinite { neg } => text::cat2(sign_text(neg), "inf"),
            Parts::Finite { neg, m, x } => {
                let n: u128 = if x >= 149 {
                    proof {
                        lemma_integer_scaled(m as nat, x as nat);
                    }
                    shifted(m, x - 149)
                } else {
                    proof {
                        lemma_nearest_shifted(m as nat, x as nat);
                    }
                    nearest_shifted(m as u64, 149 - x) as u128
                };
                let digits: String = text::decimal(n);
                text::cat2(sign_text(neg), &digits)
            },
        }
    }

    /// In decimal notation with one place, rounded with ties to even.
    pub fn fixed1(self) -> (r: String)
        ensures
            r@ == self@.fixed1(),
    {
        match self.parts() {
            Parts::Nan => "NaN".to_owned(),
            Parts::Infinite { neg } => text::cat2(sign_text(neg), "inf"),
            Parts::Finite { neg, m, x } => {
                let whole: u128;
                let place: u128;
                proof {
                    let u = pow2(x as nat);
                    assert((m as nat * u) * 10 == (m as nat * 10) * u) by (nonlinear_arith);
                }
                if x >= 149 {
                    whole = shifted(m, x - 149);
                    place = 0;
                    proof {
                        lemma_integer_scaled(m as nat * 10, x as nat);
                        let v = pow2((x - 149) as nat);
                        assert((m as nat * 10) * v == (m as nat * v) * 10) by (nonlinear_arith);
                    }
                } else {
                    proof {
                        lemma_nearest_shifted(m as nat * 10, x as nat);
                    }
                    let tenths: u64 = nearest_shifted(m as u64 * 10, 149 - x);
                    whole = (tenths / 10) as u128;
                    place = (tenths % 10) as u128;
                }
                let a: String = text::decimal(whole);
                let b: String = text::decimal(place);
                text::cat4(sign_text(neg), &a, ".", &b)
            },
        }
    }
}

// ---------------------------------------------------------------------------
// Laws
// ---------------------------------------------------------------------------

/// The nearest integer to a quotient is at most a half away, and even where two are as near.
pub proof fn law_nearest(num: nat, den: nat)
    requires
        den > 0,
    ensures
        2 * (nearest(num, den) * den - num) <= den,
        2 * (num - nearest(num, den) * den) <= den,
        2 * (nearest(num, den) * den - num) == den || 2 * (num - nearest(num, den) * den) == den
            ==> nearest(num, den) % 2 == 0,
{
    let q = num / den;
    let r = num % den;
    lemma_fundamental_div_mod(num as int, den as int);
    lemma_mul_is_commutative(q as int, den as int);
    assert((q + 1) * den == q * den + den) by (nonlinear_arith);
}

/// Rounding keeps 24 significant bits: the result is a multiple of the spacing at the
/// number, and at most half of that away from it.
pub proof fn law_rounding(num: nat, den: nat)
    requires
        den > 0,
    ensures
        ({
            let step = pow2(spacing(num / den));
            let r = round_units(num, den);
            &&& exact(r)
            &&& 2 * (r * den - num) <= den * step
            &&& 2 * (num - r * den) <= den * step
            &&& num / den < 0x100_0000 ==> step == 1
            &&& num / den >= 0x100_0000 ==> 0x80_0000 * step <= num / den < 0x100_0000 * step
        }),
{
    let f = num / den;
    let s = spacing(f);
    let step = pow2(s);
    lemma_step_pos(den, s);
    law_nearest(num, den * step);
    let n = nearest(num, den * step);
    assert(n * step * den == n * (den * step)) by (nonlinear_arith);
    lemma_round_exact(num, den);
    lemma_spacing_bounds(f);
    lemma_pow2_values();
    lemma_pow2_adds(24, s);
    lemma_pow2_adds(23, s);
    lemma2_to64();
}

/// To the nearest whole number, and away from zero where two are as near.
pub proof fn law_whole(neg: bool, mag: nat)
    ensures
        ({
            let u = pow2(149);
            let w = (Num::Finite { neg, mag }).whole()->Finite_mag;
            &&& w % u == 0
            &&& 2 * (w - mag) <= u
            &&& 2 * (mag - w) < u
            &&& (Num::Finite { neg, mag }).whole()->Finite_neg == neg
        }),
{
    let u = pow2(149);
    lemma_pow2_pos(149);
    lemma_pow2_unfold(150);
    let q = (2 * mag + u) / (2 * u);
    lemma_fundamental_div_mod((2 * mag + u) as int, (2 * u) as int);
    let r = (2 * mag + u) % (2 * u);
    assert(2 * (q * u) == 2 * mag + u - r) by (nonlinear_arith)
        requires
            2 * mag + u == (2 * u) * q + r,
    ;
    vstd::arithmetic::div_mod::lemma_mod_multiples_basic(q as int, u as int);
}

/// Two numbers that are not NaN are in one of three relations, and the order goes on.
pub proof fn law_order_of_numbers(a: Num, b: Num, c: Num)
    requires
        !(a is Nan),
        !(b is Nan),
    ensures
        a.le(b) || b.lt(a),
        !(a.lt(b) && b.lt(a)),
        !a.lt(a),
        a.le(b) <==> !b.lt(a),
        a.lt(b) && b.lt(c) ==> a.lt(c),
        a.lt(b) ==> a.negated().lt(b.negated()) == false && b.negated().lt(a.negated()),
        !a.lt(Num::Nan) && !Num::Nan.lt(a) && !a.le(Num::Nan) && !Num::Nan.le(a),
{
}

/// Sums and products do not depend on the order of their parts, a difference is a sum with
/// the opposite, and products and quotients have the sign of their parts.
pub proof fn law_arithmetic(a: Num, b: Num)
    ensures
        a.plus(b) == b.plus(a),
        a.times(b) == b.times(a),
        a.minus(b) == a.plus(b.negated()),
        a.times(b.negated()) == a.times(b).negated(),
        a.negated().negated() == a,
        a is Finite ==> a.magnitude().units() == (if a.units() < 0 {
            -a.units()
        } else {
            a.units()
        }),
{
    if a is Finite && b is Finite {
        lemma_mul_is_commutative(a->Finite_mag as int, b->Finite_mag as int);
    }
}

} // verus!
