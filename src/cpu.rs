//! CPU usage arrives as an IEEE-754 single, carried as its bit pattern. Its
//! label shows it as a whole percentage, rounded to the nearest whole number
//! with a tie going to the even one, as `{:.0}` writes a single.

use vstd::prelude::*;
use vstd::arithmetic::power2::{
    lemma2_to64,
    lemma_pow2_adds,
    lemma_pow2_pos,
    lemma_pow2_strictly_increases,
    lemma_pow2_unfold,
    pow2,
};
use vstd::string::*;

use crate::metrics::{lemma_round_half_even_is_nearest, round_half_even, MetricsSnapshot};
use vstd::math::abs;
use crate::text::decimal_text;
use crate::text::decimal;

verus! {

/// The sign bit.
pub open spec fn is_negative(bits: u32) -> bool {
    bits >= 0x8000_0000
}

/// The biased exponent field (8 bits).
pub open spec fn exponent_field(bits: u32) -> nat {
    ((bits / 0x80_0000) % 256) as nat
}

/// The fraction field (23 bits).
pub open spec fn fraction_field(bits: u32) -> nat {
    (bits % 0x80_0000) as nat
}

/// The significand: the fraction with the hidden leading one of a normal number.
pub open spec fn significand(bits: u32) -> nat {
    if exponent_field(bits) == 0 {
        fraction_field(bits)
    } else {
        fraction_field(bits) + 0x80_0000
    }
}

/// The power of two that scales the significand, plus 149: the magnitude of
/// a finite value is `significand * 2^(scale - 149)`.
pub open spec fn scale(bits: u32) -> nat {
    if exponent_field(bits) == 0 {
        0
    } else {
        (exponent_field(bits) - 1) as nat
    }
}

/// The magnitude of a finite single rounded to a whole number, a tie going
/// to the even one.
pub open spec fn rounded_magnitude(bits: u32) -> nat {
    let m = significand(bits);
    if scale(bits) >= 149 {
        m * pow2((scale(bits) - 149) as nat)
    } else {
        round_half_even(m, pow2((149 - scale(bits)) as nat))
    }
}

/// The magnitude of a finite single is at most the whole number `n`.
pub open spec fn magnitude_at_most(bits: u32, n: nat) -> bool {
    if scale(bits) >= 149 {
        significand(bits) * pow2((scale(bits) - 149) as nat) <= n
    } else {
        significand(bits) <= n * pow2((149 - scale(bits)) as nat)
    }
}

/// A single written with no decimals: `NaN`, `inf`, `-inf`, or the rounded
/// magnitude in decimal, after a `-` when the sign bit is set.
pub open spec fn whole_text(bits: u32) -> Seq<char> {
    if exponent_field(bits) == 255 {
        if fraction_field(bits) != 0 {
            seq!['N', 'a', 'N']
        } else if is_negative(bits) {
            seq!['-', 'i', 'n', 'f']
        } else {
            seq!['i', 'n', 'f']
        }
    } else if is_negative(bits) {
        seq!['-'] + decimal(rounded_magnitude(bits))
    } else {
        decimal(rounded_magnitude(bits))
    }
}

/// The CPU label: `C: {usage:.0}%`.
pub open spec fn cpu_label_of(bits: u32) -> Seq<char> {
    seq!['C', ':', ' '] + whole_text(bits) + seq!['%']
}

/// The magnitude of a finite single, rounded to a whole number, ties to even.
pub fn rounded_whole(bits: u32) -> (r: u128)
    requires
        exponent_field(bits) != 255,
    ensures
        r == rounded_magnitude(bits),
{
    let exp: u32 = (bits / 0x80_0000) % 256;
    let frac: u32 = bits % 0x80_0000;
    let m: u128 = if exp == 0 { frac as u128 } else { frac as u128 + 0x80_0000 };
    let s: u32 = if exp == 0 { 0 } else { exp - 1 };
    assert(m == significand(bits) && s == scale(bits));
    assert(m < 0x100_0000);
    proof {
        lemma2_to64();
    }
    if s >= 149 {
        let k: u32 = s - 149;
        assert(k <= 104);
        let mut v: u128 = m;
        let mut i: u32 = 0;
        proof {
            lemma_pow2_adds(64, 64);
            lemma_pow2_adds(24, 104);
        }
        assert(pow2(24) * pow2(104) == 0x1_0000_0000_0000_0000_0000_0000_0000_0000);
        while i < k
            invariant
                i <= k <= 104,
                m < 0x100_0000,
                pow2(24) == 0x100_0000,
                pow2(24) * pow2(104) == 0x1_0000_0000_0000_0000_0000_0000_0000_0000,
                v == m * pow2(i as nat),
            decreases k - i,
        {
            proof {
                lemma_pow2_unfold((i + 1) as nat);
                if i + 1 < 104 {
                    lemma_pow2_strictly_increases((i + 1) as nat, 104);
                }
                lemma_pow2_pos((i + 1) as nat);
                let p = pow2((i + 1) as nat);
                assert(m * p < pow2(24) * pow2(104)) by (nonlinear_arith)
                    requires
                        m < pow2(24),
                        0 < p <= pow2(104),
                ;
                assert(v * 2 == m * p) by (nonlinear_arith)
                    requires
                        v == m * pow2(i as nat),
                        p == 2 * pow2(i as nat),
                ;
            }
            v = v * 2;
            i = i + 1;
        }
        v
    } else {
        let shift: u32 = 149 - s;
        if shift > 25 {
            proof {
                lemma_pow2_strictly_increases(25, shift as nat);
                let d = pow2(shift as nat);
                let mm = m as nat;
                assert(mm / d == 0 && mm % d == mm) by (nonlinear_arith)
                    requires
                        mm < 0x100_0000,
                        d > 0x200_0000,
                ;
            }
            0
        } else {
            let mut d: u128 = 1;
            let mut i: u32 = 0;
            while i < shift
                invariant
                    i <= shift <= 25,
                    d == pow2(i as nat),
                    d <= 0x200_0000,
                    pow2(25) == 0x200_0000,
                decreases shift - i,
            {
                proof {
                    lemma_pow2_unfold((i + 1) as nat);
                    if i + 1 < 25 {
                        lemma_pow2_strictly_increases((i + 1) as nat, 25);
                    }
                }
                d = d * 2;
                i = i + 1;
            }
            let q = m / d;
            let rem = m % d;
            if 2 * rem > d || (2 * rem == d && q % 2 == 1) {
                q + 1
            } else {
                q
            }
        }
    }
}

/// A single written with no decimals.
pub fn whole_text_of(bits: u32) -> (r: String)
    ensures
        r@ == whole_text(bits),
{
    let exp: u32 = (bits / 0x80_0000) % 256;
    if exp == 255 {
        proof {
            reveal_strlit("NaN");
            reveal_strlit("-inf");
            reveal_strlit("inf");
        }
        if bits % 0x80_0000 != 0 {
            String::from_str("NaN")
        } else if bits >= 0x8000_0000 {
            String::from_str("-inf")
        } else {
            String::from_str("inf")
        }
    } else {
        let digits = decimal_text(rounded_whole(bits));
        if bits >= 0x8000_0000 {
            proof {
                reveal_strlit("-");
            }
            let mut r = String::from_str("-");
            r.append(digits.as_str());
            r
        } else {
            digits
        }
    }
}

/// The CPU label for a usage given as the bit pattern of a single: `C: 48%`.
pub fn cpu_label(bits: u32) -> (r: String)
    ensures
        r@ == cpu_label_of(bits),
{
    proof {
        reveal_strlit("C: ");
        reveal_strlit("%");
    }
    let mut r = String::from_str("C: ");
    let body = whole_text_of(bits);
    r.append(body.as_str());
    r.append("%");
    assert(r@ =~= cpu_label_of(bits));
    r
}

/// The CPU figure is the whole number nearest to the usage, a tie going to
/// the even one: for a finite single below `2^23` (scale under 149), with
/// `d = 2^(149 - scale)` so that the magnitude is `significand / d`, no whole
/// `k` is closer, the distance is at most a half, and an equally close `k`
/// means the figure is even.
pub proof fn lemma_cpu_rounding_is_nearest(bits: u32, k: int)
    requires
        exponent_field(bits) != 255,
        scale(bits) < 149,
    ensures
        ({
            let d = pow2((149 - scale(bits)) as nat) as int;
            let m = significand(bits) as int;
            let c = rounded_magnitude(bits) as int;
            &&& 2 * abs(c * d - m) <= d
            &&& abs(c * d - m) <= abs(k * d - m)
            &&& (abs(c * d - m) == abs(k * d - m) && k != c ==> c % 2 == 0)
        }),
{
    lemma_pow2_pos((149 - scale(bits)) as nat);
    lemma_round_half_even_is_nearest(significand(bits), pow2((149 - scale(bits)) as nat), k);
}

/// A usage between 0 and 100 percent shows as `C: k%` with a whole `k` from
/// 0 to 100, within a half of the usage.
pub proof fn lemma_cpu_label_in_percent_range(bits: u32)
    requires
        exponent_field(bits) != 255,
        !is_negative(bits),
        magnitude_at_most(bits, 100),
    ensures
        rounded_magnitude(bits) <= 100,
        cpu_label_of(bits) == seq!['C', ':', ' '] + decimal(rounded_magnitude(bits)) + seq!['%'],
{
    lemma2_to64();
    if scale(bits) >= 149 {
        let e = (scale(bits) - 149) as nat;
        lemma_pow2_pos(e);
        assert(significand(bits) >= 0x80_0000);
        assert(significand(bits) * pow2(e) >= significand(bits)) by (nonlinear_arith)
            requires
                pow2(e) > 0,
        ;
    } else {
        let d = pow2((149 - scale(bits)) as nat);
        let m = significand(bits);
        let c = rounded_magnitude(bits);
        lemma_pow2_pos((149 - scale(bits)) as nat);
        lemma_cpu_rounding_is_nearest(bits, 100);
        assert(2 * ((c as int) * (d as int) - (m as int)) <= d);
        assert(c <= 100) by (nonlinear_arith)
            requires
                d > 0,
                m <= 100 * d,
                2 * ((c as int) * (d as int) - (m as int)) <= d,
        ;
    }
}

impl MetricsSnapshot {
    /// The CPU label of this snapshot.
    pub fn cpu_text(&self) -> (r: String)
        ensures
            r@ == cpu_label_of(self.cpu_usage_bits),
    {
        cpu_label(self.cpu_usage_bits)
    }
}

} // verus!
