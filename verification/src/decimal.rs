//! Exact decimal numbers: a mantissa scaled by a power of ten.
//!
//! A `Decimal` stands for the rational number `mantissa / 10^scale`.
//! Arithmetic is exact: an operation either returns the precise result or
//! reports that the result has no representation within the bounds.

use vstd::prelude::*;

use crate::strutil::{chars_to_string, nat_chars, nat_chars_exec, zero_pad};

verus! {

/// Largest mantissa magnitude: 10^18.
pub const MAX_MANTISSA: i128 = 1_000_000_000_000_000_000;

/// Largest scale: mantissa / 10^18 is the finest representable granularity.
pub const MAX_SCALE: u32 = 18;

/// A number `mantissa / 10^scale`, exact.
#[derive(Debug, Clone, Copy, PartialEq, Eq, Structural)]
pub struct Decimal {
    pub mantissa: i128,
    pub scale: u32,
}

/// 10^n.
pub open spec fn pow10(n: nat) -> int
    decreases n,
{
    if n == 0 {
        1
    } else {
        10 * pow10((n - 1) as nat)
    }
}

pub proof fn lemma_pow10_pos(n: nat)
    ensures
        pow10(n) >= 1,
    decreases n,
{
    if n > 0 {
        lemma_pow10_pos((n - 1) as nat);
    }
}

pub proof fn lemma_pow10_adds(a: nat, b: nat)
    ensures
        pow10(a + b) == pow10(a) * pow10(b),
    decreases a,
{
    if a == 0 {
    } else {
        lemma_pow10_adds((a - 1) as nat, b);
        assert(pow10(a + b) == 10 * pow10((a + b - 1) as nat));
        assert(10 * (pow10((a - 1) as nat) * pow10(b)) == (10 * pow10((a - 1) as nat)) * pow10(b))
            by (nonlinear_arith);
    }
}

pub proof fn lemma_pow10_37_bound()
    ensures
        pow10(37) < i128::MAX,
{
    reveal_with_fuel(pow10, 38);
}

pub proof fn lemma_pow10_mono(a: nat, b: nat)
    requires
        a <= b,
    ensures
        pow10(a) <= pow10(b),
    decreases b,
{
    if a < b {
        lemma_pow10_mono(a, (b - 1) as nat);
        lemma_pow10_pos((b - 1) as nat);
    }
}

impl Decimal {
    /// The bounds every `Decimal` in use satisfies.
    pub open spec fn wf(self) -> bool {
        &&& -MAX_MANTISSA <= self.mantissa <= MAX_MANTISSA
        &&& self.scale <= MAX_SCALE
    }

    /// `self` and `other` stand for the same rational number.
    pub open spec fn same_value(self, other: Decimal) -> bool {
        self.mantissa * pow10(other.scale as nat) == other.mantissa * pow10(self.scale as nat)
    }

    /// `self` stands for a strictly smaller rational than `other`.
    pub open spec fn below(self, other: Decimal) -> bool {
        self.mantissa * pow10(other.scale as nat) < other.mantissa * pow10(self.scale as nat)
    }

    /// Builds a decimal after checking the bounds.
    pub fn new(mantissa: i128, scale: u32) -> (r: Option<Decimal>)
        ensures
            r matches Some(d) ==> d == (Decimal { mantissa, scale }) && d.wf(),
            r is None <==> !(Decimal { mantissa, scale }).wf(),
    {
        if -MAX_MANTISSA <= mantissa && mantissa <= MAX_MANTISSA && scale <= MAX_SCALE {
            Some(Decimal { mantissa, scale })
        } else {
            None
        }
    }
}

/// What removing every removable trailing zero digit leaves of a mantissa
/// and scale.
pub open spec fn strip_spec(m: int, s: nat) -> (int, nat)
    decreases s,
{
    if s > 0 && m % 10 == 0 {
        strip_spec(m / 10, (s - 1) as nat)
    } else {
        (m, s)
    }
}

/// Removes trailing zero digits from a magnitude, lowering the scale with
/// each removed digit, until the scale reaches zero or the last digit is not
/// zero.
fn strip_zeros(mag: u128, scale: u32) -> (r: (u128, u32))
    ensures
        r.0 * pow10((scale - r.1) as nat) == mag,
        r.1 <= scale,
        r.0 <= mag,
        (r.0 as int, r.1 as nat) == strip_spec(mag as int, scale as nat),
{
    let mut m: u128 = mag;
    let mut s: u32 = scale;
    while s > 0 && m % 10 == 0
        invariant
            s <= scale,
            m <= mag,
            m * pow10((scale - s) as nat) == mag,
            strip_spec(m as int, s as nat) == strip_spec(mag as int, scale as nat),
        decreases s,
    {
        proof {
            lemma_pow10_pos((scale - s) as nat);
            assert((m / 10) * pow10((scale - s + 1) as nat) == mag) by {
                lemma_pow10_adds(1, (scale - s) as nat);
                assert((m / 10) * (10 * pow10((scale - s) as nat)) == ((m / 10) * 10) * pow10(
                    (scale - s) as nat,
                )) by (nonlinear_arith);
            }
            assert(m / 10 <= m) by (nonlinear_arith)
                requires
                    m >= 0,
            ;
        }
        m = m / 10;
        s = s - 1;
    }
    (m, s)
}

/// Greatest magnitude handed to `normalize`: sums and products of two
/// in-bounds decimals stay within 2 * 10^36.
pub const MAX_RAW: i128 = 2_000_000_000_000_000_000_000_000_000_000_000_000;

/// Brings a raw mantissa and scale within the `Decimal` bounds by removing
/// trailing zero digits, or reports that the value has no in-bounds form
/// reachable that way.
fn normalize(m: i128, s: u32) -> (r: Option<Decimal>)
    requires
        -MAX_RAW <= m <= MAX_RAW,
        s <= 37,
    ensures
        r matches Some(c) ==> c.wf() && c.mantissa * pow10(s as nat) == m * pow10(c.scale as nat),
        -MAX_MANTISSA <= m <= MAX_MANTISSA && s <= MAX_SCALE ==> r == Some(Decimal { mantissa: m, scale: s }),
        r == normalize_spec(m as int, s as nat),
{
    if -MAX_MANTISSA <= m && m <= MAX_MANTISSA && s <= MAX_SCALE {
        return Some(Decimal { mantissa: m, scale: s });
    }
    let neg = m < 0;
    let mag: u128 = if neg {
        (-m) as u128
    } else {
        m as u128
    };
    let (mag2, s2) = strip_zeros(mag, s);
    if mag2 > MAX_MANTISSA as u128 || s2 > MAX_SCALE {
        return None;
    }
    let m2: i128 = if neg {
        -(mag2 as i128)
    } else {
        mag2 as i128
    };
    let c = Decimal { mantissa: m2, scale: s2 };
    proof {
        lemma_pow10_adds((s - s2) as nat, s2 as nat);
        assert(mag2 * pow10((s - s2) as nat) == mag);
        assert(mag2 as int * pow10(s as nat) == mag as int * pow10(s2 as nat)) by (nonlinear_arith)
            requires
                mag2 * pow10((s - s2) as nat) == mag,
                pow10(s as nat) == pow10((s - s2) as nat) * pow10(s2 as nat),
        ;
        assert(c.mantissa * pow10(s as nat) == m * pow10(c.scale as nat)) by (nonlinear_arith)
            requires
                mag2 as int * pow10(s as nat) == mag as int * pow10(s2 as nat),
                c.mantissa == if neg { -(mag2 as int) } else { mag2 as int },
                m == if neg { -(mag as int) } else { mag as int },
                c.scale == s2,
        ;
    }
    Some(c)
}

/// What `normalize` computes: the raw pair itself when in bounds, else the
/// stripped form when that is in bounds, else nothing.
pub open spec fn normalize_spec(m: int, s: nat) -> Option<Decimal> {
    if -MAX_MANTISSA <= m <= MAX_MANTISSA && s <= MAX_SCALE {
        Some(Decimal { mantissa: m as i128, scale: s as u32 })
    } else {
        let mag = if m < 0 {
            -m
        } else {
            m
        };
        let st = strip_spec(mag, s);
        if st.0 <= MAX_MANTISSA && st.1 <= MAX_SCALE {
            Some(
                Decimal {
                    mantissa: (if m < 0 {
                        -st.0
                    } else {
                        st.0
                    }) as i128,
                    scale: st.1 as u32,
                },
            )
        } else {
            None
        }
    }
}

/// What addition computes: the mantissas aligned to the larger scale, their
/// sum brought within bounds.
pub open spec fn add_spec(a: Decimal, b: Decimal) -> Option<Decimal> {
    let s = if a.scale >= b.scale {
        a.scale as nat
    } else {
        b.scale as nat
    };
    normalize_spec(
        a.mantissa * pow10((s - a.scale) as nat) + b.mantissa * pow10((s - b.scale) as nat),
        s,
    )
}

/// What subtraction computes: addition of the negated subtrahend.
pub open spec fn sub_spec(a: Decimal, b: Decimal) -> Option<Decimal> {
    add_spec(a, Decimal { mantissa: (-(b.mantissa as int)) as i128, scale: b.scale })
}

/// What multiplication computes.
pub open spec fn mul_spec(a: Decimal, b: Decimal) -> Option<Decimal> {
    normalize_spec(a.mantissa * b.mantissa, (a.scale + b.scale) as nat)
}

/// One digit of the long division at a time: the quotient accumulated so
/// far, the running remainder, and the digits written after the point.
pub open spec fn div_steps(q: int, r: int, du: int, k: nat) -> Option<(int, nat)>
    decreases MAX_SCALE - k,
{
    if r == 0 {
        Some((q, k))
    } else if k >= MAX_SCALE {
        None
    } else {
        let r10 = r * 10;
        let digit = r10 / du;
        let r2 = r10 % du;
        let q2 = q * 10 + digit;
        if q2 > MAX_MANTISSA {
            None
        } else {
            div_steps(q2, r2, du, k + 1)
        }
    }
}

/// What division computes: long division of the cross-scaled mantissas,
/// exact or nothing.
pub open spec fn div_spec(a: Decimal, b: Decimal) -> Option<Decimal> {
    if b.mantissa == 0 {
        None
    } else {
        let n = a.mantissa * pow10(b.scale as nat);
        let d = b.mantissa * pow10(a.scale as nat);
        let neg = (n < 0) != (d < 0);
        let nu = if n < 0 {
            -n
        } else {
            n
        };
        let du = if d < 0 {
            -d
        } else {
            d
        };
        let q0 = nu / du;
        let r0 = nu % du;
        if q0 > MAX_MANTISSA {
            None
        } else {
            match div_steps(q0, r0, du, 0) {
                Some((q, k)) => Some(
                    Decimal {
                        mantissa: (if neg {
                            -q
                        } else {
                            q
                        }) as i128,
                        scale: k as u32,
                    },
                ),
                None => None,
            }
        }
    }
}

/// Facts every pairwise operation needs: products of an in-bounds mantissa
/// and an in-bounds power of ten stay within 10^36.
proof fn lemma_scaled_bound(m: int, s: nat)
    requires
        -MAX_MANTISSA <= m <= MAX_MANTISSA,
        s <= MAX_SCALE,
    ensures
        -MAX_RAW / 2 <= m * pow10(s) <= MAX_RAW / 2,
        m != 0 ==> m * pow10(s) != 0,
{
    lemma_pow10_pos(s);
    lemma_pow10_mono(s, MAX_SCALE as nat);
    assert(pow10(MAX_SCALE as nat) == MAX_MANTISSA) by {
        reveal_with_fuel(pow10, 19);
    }
    assert(-MAX_RAW / 2 <= m * pow10(s) <= MAX_RAW / 2) by (nonlinear_arith)
        requires
            -MAX_MANTISSA <= m <= MAX_MANTISSA,
            1 <= pow10(s) <= MAX_MANTISSA,
    ;
    assert(m != 0 ==> m * pow10(s) != 0) by (nonlinear_arith)
        requires
            pow10(s) >= 1,
    ;
}

impl Decimal {
    /// The exact negation; always representable.
    pub fn neg(self) -> (r: Decimal)
        requires
            self.wf(),
        ensures
            r.wf(),
            r.mantissa == -self.mantissa,
            r.scale == self.scale,
    {
        Decimal { mantissa: -self.mantissa, scale: self.scale }
    }

    /// The exact sum, or `None` when it cannot be brought within bounds.
    pub fn checked_add(self, other: Decimal) -> (r: Option<Decimal>)
        requires
            self.wf(),
            other.wf(),
        ensures
            r matches Some(c) ==> c.wf() && c.mantissa * pow10((self.scale + other.scale) as nat)
                == (self.mantissa * pow10(other.scale as nat) + other.mantissa * pow10(
                self.scale as nat,
            )) * pow10(c.scale as nat),
            r == add_spec(self, other),
    {
        let s = if self.scale >= other.scale {
            self.scale
        } else {
            other.scale
        };
        proof {
            lemma_scaled_bound(self.mantissa as int, (s - self.scale) as nat);
            lemma_scaled_bound(other.mantissa as int, (s - other.scale) as nat);
        }
        let ma = self.mantissa * pow10_exec(s - self.scale);
        let mb = other.mantissa * pow10_exec(s - other.scale);
        let r = normalize(ma + mb, s);
        proof {
            if let Some(c) = r {
                lemma_add_align(self, other, s as nat, c);
            }
        }
        r
    }

    /// The exact difference, or `None` when it cannot be brought within
    /// bounds.
    pub fn checked_sub(self, other: Decimal) -> (r: Option<Decimal>)
        requires
            self.wf(),
            other.wf(),
        ensures
            r matches Some(c) ==> c.wf() && c.mantissa * pow10((self.scale + other.scale) as nat)
                == (self.mantissa * pow10(other.scale as nat) - other.mantissa * pow10(
                self.scale as nat,
            )) * pow10(c.scale as nat),
            r == sub_spec(self, other),
    {
        let r = self.checked_add(other.neg());
        proof {
            assert((-other.mantissa) * pow10(self.scale as nat) == -(other.mantissa * pow10(
                self.scale as nat,
            ))) by (nonlinear_arith);
        }
        r
    }

    /// The exact product, or `None` when it cannot be brought within bounds.
    pub fn checked_mul(self, other: Decimal) -> (r: Option<Decimal>)
        requires
            self.wf(),
            other.wf(),
        ensures
            r matches Some(c) ==> c.wf() && c.mantissa * pow10((self.scale + other.scale) as nat)
                == (self.mantissa * other.mantissa) * pow10(c.scale as nat),
            r == mul_spec(self, other),
    {
        proof {
            assert(-MAX_RAW <= self.mantissa * other.mantissa <= MAX_RAW) by (nonlinear_arith)
                requires
                    -MAX_MANTISSA <= self.mantissa <= MAX_MANTISSA,
                    -MAX_MANTISSA <= other.mantissa <= MAX_MANTISSA,
            ;
        }
        normalize(self.mantissa * other.mantissa, self.scale + other.scale)
    }

    /// The exact quotient, or `None` when the divisor is zero or the
    /// quotient has no finite decimal form within bounds.
    pub fn checked_div(self, other: Decimal) -> (r: Option<Decimal>)
        requires
            self.wf(),
            other.wf(),
        ensures
            other.mantissa == 0 ==> r is None,
            r matches Some(c) ==> c.wf() && c.mantissa * (other.mantissa * pow10(
                self.scale as nat,
            )) == (self.mantissa * pow10(other.scale as nat)) * pow10(c.scale as nat),
            r == div_spec(self, other),
    {
        if other.mantissa == 0 {
            return None;
        }
        proof {
            lemma_scaled_bound(self.mantissa as int, other.scale as nat);
            lemma_scaled_bound(other.mantissa as int, self.scale as nat);
        }
        let n = self.mantissa * pow10_exec(other.scale);
        let d = other.mantissa * pow10_exec(self.scale);
        let neg = (n < 0) != (d < 0);
        let nu: u128 = if n < 0 {
            (-n) as u128
        } else {
            n as u128
        };
        let du: u128 = if d < 0 {
            (-d) as u128
        } else {
            d as u128
        };
        let mut q: u128 = nu / du;
        let mut rem: u128 = nu % du;
        let mut k: u32 = 0;
        proof {
            vstd::arithmetic::div_mod::lemma_fundamental_div_mod(nu as int, du as int);
            assert(q as int * du as int == du as int * (nu as int / du as int))
                by (nonlinear_arith)
                requires
                    q as int == nu as int / du as int,
            ;
            assert(nu == q * du + rem);
            assert(pow10(0) == 1);
            assert(nu * pow10(0) == nu) by (nonlinear_arith)
                requires
                    pow10(0) == 1,
            ;
        }
        if q > MAX_MANTISSA as u128 {
            return None;
        }
        let ghost spec_result = div_spec(self, other);
        proof {
            assert(spec_result == (match div_steps(q as int, rem as int, du as int, k as nat) {
                Some((qq, kk)) => Some(
                    Decimal {
                        mantissa: (if neg {
                            -qq
                        } else {
                            qq
                        }) as i128,
                        scale: kk as u32,
                    },
                ),
                None => None,
            }));
        }
        while rem != 0
            invariant
                0 < du <= (MAX_RAW / 2) as u128,
                rem < du,
                q <= MAX_MANTISSA as u128,
                k <= MAX_SCALE,
                nu * pow10(k as nat) == q * du + rem,
                spec_result == div_spec(self, other),
                spec_result == (match div_steps(q as int, rem as int, du as int, k as nat) {
                    Some((qq, kk)) => Some(
                        Decimal {
                            mantissa: (if neg {
                                -qq
                            } else {
                                qq
                            }) as i128,
                            scale: kk as u32,
                        },
                    ),
                    None => None,
                }),
            decreases MAX_SCALE - k,
        {
            if k == MAX_SCALE {
                proof {
                    assert(div_steps(q as int, rem as int, du as int, k as nat) is None);
                }
                return None;
            }
            let rem10: u128 = rem * 10;
            let digit: u128 = rem10 / du;
            let rem2: u128 = rem10 % du;
            proof {
                vstd::arithmetic::div_mod::lemma_fundamental_div_mod(rem10 as int, du as int);
                assert(digit < 10) by (nonlinear_arith)
                    requires
                        rem10 < 10 * du,
                        rem10 == du * digit + rem2,
                        rem2 >= 0,
                        du > 0,
                ;
                assert(nu * pow10((k + 1) as nat) == (q * 10 + digit) * du + rem2) by {
                    lemma_pow10_adds(k as nat, 1);
                    assert(nu * (pow10(k as nat) * 10) == (nu * pow10(k as nat)) * 10)
                        by (nonlinear_arith);
                    assert((q * du + rem) * 10 == (q * 10) * du + rem * 10) by (nonlinear_arith);
                    assert((q * 10) * du + (du * digit + rem2) == (q * 10 + digit) * du + rem2)
                        by (nonlinear_arith);
                }
                assert(div_steps(q as int, rem as int, du as int, k as nat) == (if q * 10 + digit
                    > MAX_MANTISSA {
                    None
                } else {
                    div_steps((q * 10 + digit) as int, rem2 as int, du as int, (k + 1) as nat)
                }));
            }
            q = q * 10 + digit;
            rem = rem2;
            k = k + 1;
            if q > MAX_MANTISSA as u128 {
                return None;
            }
        }
        proof {
            assert(div_steps(q as int, rem as int, du as int, k as nat) == Some(
                (q as int, k as nat),
            ));
        }
        let m: i128 = if neg {
            -(q as i128)
        } else {
            q as i128
        };
        let c = Decimal { mantissa: m, scale: k };
        proof {
            assert(c.mantissa * d == n * pow10(c.scale as nat)) by (nonlinear_arith)
                requires
                    nu * pow10(k as nat) == q * du,
                    nu == if n < 0 { -n as int } else { n as int },
                    du == if d < 0 { -d as int } else { d as int },
                    c.mantissa == if (n < 0) != (d < 0) { -(q as int) } else { q as int },
                    c.scale == k,
                    d != 0,
            ;
        }
        Some(c)
    }

    /// `self == other` as rationals.
    pub fn eq_value(self, other: Decimal) -> (r: bool)
        requires
            self.wf(),
            other.wf(),
        ensures
            r == self.same_value(other),
    {
        proof {
            lemma_scaled_bound(self.mantissa as int, other.scale as nat);
            lemma_scaled_bound(other.mantissa as int, self.scale as nat);
        }
        self.mantissa * pow10_exec(other.scale) == other.mantissa * pow10_exec(self.scale)
    }

    /// `self < other` as rationals.
    pub fn lt_value(self, other: Decimal) -> (r: bool)
        requires
            self.wf(),
            other.wf(),
        ensures
            r == self.below(other),
    {
        proof {
            lemma_scaled_bound(self.mantissa as int, other.scale as nat);
            lemma_scaled_bound(other.mantissa as int, self.scale as nat);
        }
        self.mantissa * pow10_exec(other.scale) < other.mantissa * pow10_exec(self.scale)
    }
}

/// Aligning two mantissas to a shared scale keeps the exact sum: what
/// `normalize` preserved at the shared scale equals the cross-multiplied sum.
proof fn lemma_add_align(a: Decimal, b: Decimal, s: nat, c: Decimal)
    requires
        a.wf(),
        b.wf(),
        s == if a.scale >= b.scale { a.scale as nat } else { b.scale as nat },
        c.mantissa * pow10(s) == (a.mantissa * pow10((s - a.scale) as nat) + b.mantissa * pow10(
            (s - b.scale) as nat,
        )) * pow10(c.scale as nat),
    ensures
        c.mantissa * pow10((a.scale + b.scale) as nat) == (a.mantissa * pow10(b.scale as nat)
            + b.mantissa * pow10(a.scale as nat)) * pow10(c.scale as nat),
{
    // Multiply both sides of the hypothesis by pow10(t) where s + t == a.scale + b.scale.
    let t: nat = if a.scale >= b.scale {
        b.scale as nat
    } else {
        a.scale as nat
    };
    assert(s + t == a.scale + b.scale);
    lemma_pow10_adds(s, t);
    lemma_pow10_adds((s - a.scale) as nat, t);
    lemma_pow10_adds((s - b.scale) as nat, t);
    assert((s - a.scale) + t == b.scale);
    assert((s - b.scale) + t == a.scale);
    let pa = pow10((s - a.scale) as nat);
    let pb = pow10((s - b.scale) as nat);
    let pt = pow10(t);
    let pc = pow10(c.scale as nat);
    assert(c.mantissa * pow10((a.scale + b.scale) as nat) == (c.mantissa * pow10(s)) * pt)
        by (nonlinear_arith)
        requires
            pow10((a.scale + b.scale) as nat) == pow10(s) * pt,
    ;
    let ma = a.mantissa as int;
    let mb = b.mantissa as int;
    assert(((ma * pa + mb * pb) * pc) * pt == ((ma * pa + mb * pb) * pt) * pc) by (nonlinear_arith);
    assert((ma * pa + mb * pb) * pt == ma * (pa * pt) + mb * (pb * pt)) by (nonlinear_arith);
    assert(pa * pt == pow10(b.scale as nat));
    assert(pb * pt == pow10(a.scale as nat));
}

/// The character form of a mantissa and scale: the digits of the magnitude,
/// padded so a point can sit `s` digits from the right, with a leading minus
/// for negative numbers.
pub open spec fn dec_chars(m: int, s: nat) -> Seq<char> {
    let mag = (if m < 0 {
        -m
    } else {
        m
    }) as nat;
    let ds = zero_pad(nat_chars(mag), s + 1);
    let body = if s == 0 {
        ds
    } else {
        ds.subrange(0, ds.len() - s) + seq!['.'] + ds.subrange(ds.len() - s, ds.len() as int)
    };
    if m < 0 {
        seq!['-'] + body
    } else {
        body
    }
}

/// The canonical printed form of a mantissa and scale: trailing zero digits
/// of the fraction are dropped first, so whole numbers print with no point.
pub open spec fn render_num(m: int, s: nat) -> Seq<char> {
    let neg = m < 0;
    let mag = if neg {
        -m
    } else {
        m
    };
    let st = strip_spec(mag, s);
    dec_chars(
        if neg {
            -st.0
        } else {
            st.0
        },
        st.1,
    )
}

/// The canonical printed form of a decimal.
pub open spec fn render_decimal(d: Decimal) -> Seq<char> {
    render_num(d.mantissa as int, d.scale as nat)
}

/// Appends `src[from..to]` to `dst`.
fn extend_range(dst: &mut Vec<char>, src: &Vec<char>, from: usize, to: usize)
    requires
        from <= to <= src@.len(),
    ensures
        final(dst)@ == old(dst)@ + src@.subrange(from as int, to as int),
{
    let mut i: usize = from;
    while i < to
        invariant
            from <= i <= to <= src@.len(),
            dst@ == old(dst)@ + src@.subrange(from as int, i as int),
        decreases to - i,
    {
        dst.push(src[i]);
        i = i + 1;
        proof {
            assert(old(dst)@ + src@.subrange(from as int, i as int) =~= (old(dst)@
                + src@.subrange(from as int, i - 1)).push(src@[i - 1]));
        }
    }
    proof {
        assert(dst@ =~= old(dst)@ + src@.subrange(from as int, to as int));
    }
}

impl Decimal {
    /// The canonical printed form.
    pub fn render(&self) -> (r: String)
        requires
            self.wf(),
        ensures
            r@ == render_decimal(*self),
    {
        let neg = self.mantissa < 0;
        let mag: u128 = if neg {
            (-self.mantissa) as u128
        } else {
            self.mantissa as u128
        };
        proof {
            assert(mag as int == if neg {
                -(self.mantissa as int)
            } else {
                self.mantissa as int
            });
        }
        let (m2, s2) = strip_zeros(mag, self.scale);
        let ds = nat_chars_exec(m2);
        let width = s2 as usize + 1;
        let mut padded: Vec<char> = Vec::new();
        if ds.len() < width {
            let pad = width - ds.len();
            let mut j: usize = 0;
            while j < pad
                invariant
                    j <= pad,
                    padded@ =~= Seq::new(j as nat, |k: int| '0'),
                decreases pad - j,
            {
                padded.push('0');
                j = j + 1;
                proof {
                    assert(padded@ =~= Seq::new(j as nat, |k: int| '0'));
                }
            }
        }
        let ghost zeros = padded@;
        extend_range(&mut padded, &ds, 0, ds.len());
        proof {
            assert(ds@.subrange(0, ds@.len() as int) =~= ds@);
            assert(padded@ =~= zero_pad(ds@, width as nat));
        }
        let mut out: Vec<char> = Vec::new();
        if neg {
            out.push('-');
        }
        let ghost sign_part = out@;
        let cut = padded.len() - s2 as usize;
        extend_range(&mut out, &padded, 0, cut);
        if s2 > 0 {
            out.push('.');
            proof {
                assert(out@ =~= sign_part + padded@.subrange(0, cut as int) + seq!['.']);
            }
            extend_range(&mut out, &padded, cut, padded.len());
        }
        proof {
            let stv = strip_spec(mag as int, self.scale as nat);
            assert(stv == (m2 as int, s2 as nat));
            let body = dec_chars(
                if neg {
                    -(m2 as int)
                } else {
                    m2 as int
                },
                s2 as nat,
            );
            assert(m2 as int >= 0);
            if neg {
                assert(mag > 0);
                assert(m2 > 0) by {
                    lemma_pow10_pos((self.scale - s2) as nat);
                    assert(m2 * pow10((self.scale - s2) as nat) == mag);
                    assert(m2 == 0 ==> 0 * pow10((self.scale - s2) as nat) == 0)
                        by (nonlinear_arith);
                }
            }
            assert(render_decimal(*self) == body);
            if s2 == 0 {
                assert(padded@.subrange(0, cut as int) =~= padded@);
                assert(out@ =~= body);
            } else {
                assert(out@ =~= sign_part + padded@.subrange(0, cut as int) + seq!['.']
                    + padded@.subrange(cut as int, padded@.len() as int));
                assert(out@ =~= body);
            }
        }
        chars_to_string(&out)
    }
}

/// 10^n as a machine integer; n stays far below the i128 limit.
pub fn pow10_exec(n: u32) -> (r: i128)
    requires
        n <= 37,
    ensures
        r == pow10(n as nat),
{
    proof {
        lemma_pow10_37_bound();
    }
    let mut i: u32 = 0;
    let mut r: i128 = 1;
    while i < n
        invariant
            i <= n <= 37,
            r == pow10(i as nat),
            pow10(37) < i128::MAX,
        decreases n - i,
    {
        proof {
            lemma_pow10_mono(i as nat + 1, 37);
            lemma_pow10_pos(i as nat);
        }
        r = r * 10;
        i = i + 1;
    }
    r
}

} // verus!
