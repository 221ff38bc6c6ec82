//! Exact numeric readings: a value is `mantissa * 2^exponent`, which holds
//! every integer, fixed-point and finite single-precision value that the
//! management controller reports, without rounding.
use vstd::prelude::*;
use vstd::arithmetic::power2::{
    lemma2_to64, lemma_pow2_pos, lemma_pow2_strictly_increases, lemma_pow2_unfold,
    pow2,
};
use crate::power::div_toward_zero;

verus! {

/// The value `mantissa * 2^exponent`.
#[derive(Clone, Copy, Debug, PartialEq, Eq, Structural)]
pub struct Reading {
    pub mantissa: i64,
    pub exponent: i32,
}

/// Largest magnitude of a mantissa.
pub const MANTISSA_LIMIT: i64 = 0x1_0000_0000;

impl Reading {
    /// The range of mantissas and exponents that decoded values fall in.
    pub open spec fn wf(self) -> bool {
        &&& -MANTISSA_LIMIT <= self.mantissa <= MANTISSA_LIMIT
        &&& -149 <= self.exponent <= 104
    }
}

/// Whether the value of `r` exceeds the integer `c`.
pub open spec fn exceeds(r: Reading, c: int) -> bool {
    if r.exponent >= 0 {
        r.mantissa * pow2(r.exponent as nat) > c
    } else {
        r.mantissa > c * pow2((-r.exponent) as nat)
    }
}

/// Whether the value of `r` is below the integer `c`.
pub open spec fn is_below(r: Reading, c: int) -> bool {
    if r.exponent >= 0 {
        r.mantissa * pow2(r.exponent as nat) < c
    } else {
        r.mantissa < c * pow2((-r.exponent) as nat)
    }
}

/// The value of `r` times 1000, rounded toward zero.
pub open spec fn millis_spec(r: Reading) -> int {
    if r.exponent >= 0 {
        r.mantissa * 1000 * pow2(r.exponent as nat)
    } else {
        div_toward_zero(r.mantissa * 1000, pow2((-r.exponent) as nat) as int)
    }
}

/// The value of a single-precision IEEE-754 bit pattern, or `None` for an
/// infinity or a NaN.
pub open spec fn f32_reading(bits: u32) -> Option<Reading> {
    let biased = (bits / 0x80_0000) % 256;
    let frac = bits % 0x80_0000;
    if biased == 255 {
        None
    } else {
        let mag: int = if biased == 0 {
            frac as int
        } else {
            frac + 0x80_0000
        };
        let e: int = if biased == 0 {
            -149
        } else {
            biased - 150
        };
        Some(
            Reading {
                mantissa: (if bits >= 0x8000_0000 {
                    -mag
                } else {
                    mag
                }) as i64,
                exponent: e as i32,
            },
        )
    }
}

/// `2^k` for `k < 64`.
fn pow2_u64(k: u32) -> (r: u64)
    requires
        k < 64,
    ensures
        r == pow2(k as nat),
{
    proof {
        lemma2_to64();
    }
    let mut r: u64 = 1;
    let mut i: u32 = 0;
    while i < k
        invariant
            i <= k < 64,
            r == pow2(i as nat),
            pow2(64) == 0x1_0000_0000_0000_0000,
        decreases k - i,
    {
        proof {
            lemma_pow2_unfold((i + 1) as nat);
            lemma_pow2_strictly_increases((i + 1) as nat, 64);
        }
        r = r * 2;
        i += 1;
    }
    r
}

/// Decodes a single-precision bit pattern exactly.
pub fn reading_from_f32_bits(bits: u32) -> (r: Option<Reading>)
    ensures
        r == f32_reading(bits),
        r matches Some(x) ==> x.wf(),
{
    let biased = (bits / 0x80_0000) % 256;
    let frac = bits % 0x80_0000;
    if biased == 255 {
        return None;
    }
    let mag: i64 = if biased == 0 {
        frac as i64
    } else {
        frac as i64 + 0x80_0000
    };
    let e: i32 = if biased == 0 {
        -149
    } else {
        biased as i32 - 150
    };
    let m: i64 = if bits >= 0x8000_0000 {
        -mag
    } else {
        mag
    };
    Some(Reading { mantissa: m, exponent: e })
}

proof fn lemma_large_magnitude(m: int, k: nat, lim: nat)
    requires
        m != 0,
        k >= lim,
    ensures
        m > 0 ==> m * pow2(k) >= pow2(lim),
        m < 0 ==> m * pow2(k) <= -pow2(lim),
{
    if k > lim {
        lemma_pow2_strictly_increases(lim, k);
    }
    lemma_pow2_pos(k);
    let p = pow2(k) as int;
    assert(m > 0 ==> m * p >= p) by (nonlinear_arith)
        requires
            p > 0,
    ;
    assert(m < 0 ==> m * p <= -p) by (nonlinear_arith)
        requires
            p > 0,
    ;
}

/// Whether the value exceeds `c`.
pub fn reading_exceeds(r: Reading, c: i32) -> (b: bool)
    requires
        r.wf(),
    ensures
        b == exceeds(r, c as int),
{
    proof {
        lemma2_to64();
    }
    let m = r.mantissa as i128;
    let cc = c as i128;
    if r.exponent >= 0 {
        let e = r.exponent as u32;
        if m == 0 {
            assert(0 * pow2(e as nat) == 0);
            return 0 > cc;
        }
        if e >= 32 {
            proof {
                lemma_large_magnitude(m as int, e as nat, 32);
            }
            return m > 0;
        }
        proof {
            lemma_pow2_strictly_increases(e as nat, 32);
        }
        let p = pow2_u64(e) as i128;
        proof {
            assert(-0x1_0000_0000 * 0x1_0000_0000 <= m * p <= 0x1_0000_0000 * 0x1_0000_0000)
                by (nonlinear_arith)
                requires
                    -0x1_0000_0000 <= m <= 0x1_0000_0000,
                    0 < p <= 0x1_0000_0000,
            ;
        }
        m * p > cc
    } else {
        let k = (0 - r.exponent) as u32;
        if cc == 0 {
            assert(0 * pow2(k as nat) == 0);
            return m > 0;
        }
        if k >= 33 {
            proof {
                lemma_large_magnitude(cc as int, k as nat, 33);
                lemma_pow2_unfold(33);
            }
            return cc < 0;
        }
        proof {
            lemma_pow2_strictly_increases(k as nat, 33);
        }
        let p = pow2_u64(k) as i128;
        proof {
            assert(-0x8000_0000 * 0x2_0000_0000 <= cc * p <= 0x8000_0000 * 0x2_0000_0000)
                by (nonlinear_arith)
                requires
                    -0x8000_0000 <= cc <= 0x8000_0000,
                    0 < p <= 0x2_0000_0000,
            ;
        }
        m > cc * p
    }
}

/// Whether the value is below `c`.
pub fn reading_below(r: Reading, c: i32) -> (b: bool)
    requires
        r.wf(),
    ensures
        b == is_below(r, c as int),
{
    proof {
        lemma2_to64();
    }
    let m = r.mantissa as i128;
    let cc = c as i128;
    if r.exponent >= 0 {
        let e = r.exponent as u32;
        if m == 0 {
            assert(0 * pow2(e as nat) == 0);
            return 0 < cc;
        }
        if e >= 32 {
            proof {
                lemma_large_magnitude(m as int, e as nat, 32);
            }
            return m < 0;
        }
        proof {
            lemma_pow2_strictly_increases(e as nat, 32);
        }
        let p = pow2_u64(e) as i128;
        proof {
            assert(-0x1_0000_0000 * 0x1_0000_0000 <= m * p <= 0x1_0000_0000 * 0x1_0000_0000)
                by (nonlinear_arith)
                requires
                    -0x1_0000_0000 <= m <= 0x1_0000_0000,
                    0 < p <= 0x1_0000_0000,
            ;
        }
        m * p < cc
    } else {
        let k = (0 - r.exponent) as u32;
        if cc == 0 {
            assert(0 * pow2(k as nat) == 0);
            return m < 0;
        }
        if k >= 33 {
            proof {
                lemma_large_magnitude(cc as int, k as nat, 33);
                lemma_pow2_unfold(33);
            }
            return cc > 0;
        }
        proof {
            lemma_pow2_strictly_increases(k as nat, 33);
        }
        let p = pow2_u64(k) as i128;
        proof {
            assert(-0x8000_0000 * 0x2_0000_0000 <= cc * p <= 0x8000_0000 * 0x2_0000_0000)
                by (nonlinear_arith)
                requires
                    -0x8000_0000 <= cc <= 0x8000_0000,
                    0 < p <= 0x2_0000_0000,
            ;
        }
        m < cc * p
    }
}

/// The value of a reading that lies strictly between -50 and 150, times
/// 1000, rounded toward zero.
pub fn reading_millis(r: Reading) -> (v: i64)
    requires
        r.wf(),
        exceeds(r, -50),
        is_below(r, 150),
    ensures
        v == millis_spec(r),
        -50_000 <= v <= 150_000,
{
    proof {
        lemma2_to64();
    }
    let m = r.mantissa as i128;
    if r.exponent >= 0 {
        let e = r.exponent as u32;
        if m == 0 {
            assert(r.mantissa * 1000 * pow2(e as nat) == 0) by (nonlinear_arith)
                requires
                    r.mantissa == 0,
            ;
            return 0;
        }
        if e >= 32 {
            proof {
                lemma_large_magnitude(m as int, e as nat, 32);
            }
            assert(false);
            return 0;
        }
        proof {
            lemma_pow2_strictly_increases(e as nat, 32);
        }
        let p = pow2_u64(e) as i128;
        proof {
            assert(m * 1000 * p == 1000 * (m * p)) by (nonlinear_arith);
        }
        (m * 1000 * p) as i64
    } else {
        let k = (0 - r.exponent) as u32;
        let a = m * 1000;
        if k >= 64 {
            proof {
                if k > 64 {
                    lemma_pow2_strictly_increases(64, k as nat);
                }
                let p = pow2(k as nat) as int;
                assert(-0x1_0000_0000 * 1000 <= a <= 0x1_0000_0000 * 1000);
                if a >= 0 {
                    assert(a as int / p == 0) by (nonlinear_arith)
                        requires
                            0 <= a < p,
                    ;
                } else {
                    assert((-a) as int / p == 0) by (nonlinear_arith)
                        requires
                            0 < -a < p,
                    ;
                }
            }
            return 0;
        }
        let p = pow2_u64(k) as i128;
        proof {
            lemma_pow2_pos(k as nat);
            assert(-50 * p < m < 150 * p);
            assert(-50_000 * p < a < 150_000 * p) by (nonlinear_arith)
                requires
                    -50 * p < m < 150 * p,
                    a == m * 1000,
            ;
        }
        if a >= 0 {
            let q = (a as u128) / (p as u128);
            proof {
                assert(q <= 150_000) by (nonlinear_arith)
                    requires
                        q as int == a as int / p as int,
                        0 <= a < 150_000 * p,
                        p > 0,
                ;
            }
            q as i64
        } else {
            let q = ((-a) as u128) / (p as u128);
            proof {
                assert(q <= 50_000) by (nonlinear_arith)
                    requires
                        q as int == (-a) as int / p as int,
                        0 < -a < 50_000 * p,
                        p > 0,
                ;
            }
            -(q as i64)
        }
    }
}

} // verus!
