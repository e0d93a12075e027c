use vstd::arithmetic::div_mod::*;
use vstd::arithmetic::mul::*;
use vstd::prelude::*;

verus! {

/// The Mersenne prime 2^31 - 1 that defines the base field.
pub const P: u32 = 2147483647;

/// An element of the base field, kept in canonical form `0 <= v < P`.
#[derive(Clone, Copy, Debug, PartialEq, Eq, Structural)]
pub struct M31(pub u32);

/// Field addition on canonical values.
pub open spec fn m31_add(a: int, b: int) -> int {
    (a + b) % (P as int)
}

/// Field subtraction on canonical values.
pub open spec fn m31_sub(a: int, b: int) -> int {
    (a - b) % (P as int)
}

/// Field negation on canonical values.
pub open spec fn m31_neg(a: int) -> int {
    (-a) % (P as int)
}

/// Field multiplication on canonical values.
pub open spec fn m31_mul(a: int, b: int) -> int {
    (a * b) % (P as int)
}

/// Sum of two field elements, as an element.
pub open spec fn add_m(a: M31, b: M31) -> M31 {
    M31(m31_add(a.val(), b.val()) as u32)
}

/// Difference of two field elements, as an element.
pub open spec fn sub_m(a: M31, b: M31) -> M31 {
    M31(m31_sub(a.val(), b.val()) as u32)
}

/// Negation of a field element, as an element.
pub open spec fn neg_m(a: M31) -> M31 {
    M31(m31_neg(a.val()) as u32)
}

/// Product of two field elements, as an element.
pub open spec fn mul_m(a: M31, b: M31) -> M31 {
    M31(m31_mul(a.val(), b.val()) as u32)
}

/// `w` is a multiplicative inverse of `a` in the base field.
pub open spec fn m31_is_inverse(a: int, w: int) -> bool {
    (a * w) % (P as int) == 1
}

/// The inverse of a nonzero element (the unique canonical one, see
/// `lemma_inverse_unique`).
pub open spec fn inv_m(a: M31) -> M31 {
    choose|w: M31| w.wf() && m31_is_inverse(a.val(), w.val())
}

/// Two canonical inverses of the same element are equal.
pub proof fn lemma_inverse_unique(a: M31, w1: M31, w2: M31)
    requires
        w1.wf(),
        w2.wf(),
        m31_is_inverse(a.val(), w1.val()),
        m31_is_inverse(a.val(), w2.val()),
    ensures
        w1 == w2,
{
    let p = P as int;
    let x = a.val();
    let y1 = w1.val();
    let y2 = w2.val();
    // y1 == y1 * (x * y2) == (x * y1) * y2 == y2, all modulo p
    lemma_mul_mod_noop_right(y1, x * y2, p);
    lemma_mul_mod_noop_left(x * y1, y2, p);
    lemma_mul_is_associative(y1, x, y2);
    lemma_mul_is_commutative(y1, x);
    lemma_small_mod(y1 as nat, p as nat);
    lemma_small_mod(y2 as nat, p as nat);
}

/// `P` has no divisor strictly between 1 and itself.
pub open spec fn p_is_prime() -> bool {
    forall|d: int| 1 < d < P ==> #[trigger] ((P as int) % d) != 0
}

/// Products of two canonical values fit in 64 bits.
pub proof fn lemma_mul_lt_p_squared(a: int, b: int)
    requires
        0 <= a < P,
        0 <= b < P,
    ensures
        0 <= a * b < (P as int) * (P as int),
        a * b <= u64::MAX,
{
    assert(0 <= a * b < (P as int) * (P as int)) by (nonlinear_arith)
        requires
            0 <= a < P,
            0 <= b < P,
    ;
}

/// No product of two integers that are at least 2 equals `P`, as long as one of
/// them stays below 2^16; this covers every candidate factor pair of `P`.
#[verifier::rlimit(100)]
proof fn lemma_p_no_small_factor()
    ensures
        forall|x: u32, y: u32|
            2 <= x < 65536 && 2 <= y ==> #[trigger] ((x as u64) * (y as u64)) != 2147483647u64,
{
    assert(forall|x: u32, y: u32|
        2 <= x < 65536 && 2 <= y ==> #[trigger] ((x as u64) * (y as u64)) != 2147483647u64)
        by (bit_vector);
}

/// `P` is prime.
pub proof fn lemma_p_is_prime()
    ensures
        p_is_prime(),
{
    lemma_p_no_small_factor();
    assert forall|d: int| 1 < d < P implies #[trigger] ((P as int) % d) != 0 by {
        if (P as int) % d == 0 {
            let e = (P as int) / d;
            lemma_fundamental_div_mod(P as int, d);
            assert(P == d * e);
            assert(e >= 2) by (nonlinear_arith)
                requires
                    P == d * e,
                    1 < d < P,
            ;
            assert(d < 65536 || e < 65536) by (nonlinear_arith)
                requires
                    P == d * e,
                    d >= 2,
                    e >= 2,
            ;
            assert(e < P) by (nonlinear_arith)
                requires
                    P == d * e,
                    d >= 2,
                    e >= 2,
            ;
            if d < 65536 {
                let x = d as u32;
                let y = e as u32;
                assert(x as int == d && y as int == e);
                assert((x as u64) * (y as u64) == d * e);
                assert((x as u64) * (y as u64) == 2147483647u64) by (nonlinear_arith)
                    requires
                        (x as u64) * (y as u64) == d * e,
                        P == d * e,
                ;
                assert(2 <= x < 65536 && 2 <= y);
            } else {
                let x = e as u32;
                let y = d as u32;
                assert(x as int == e && y as int == d);
                assert((x as u64) * (y as u64) == e * d);
                assert((x as u64) * (y as u64) == 2147483647u64) by (nonlinear_arith)
                    requires
                        (x as u64) * (y as u64) == e * d,
                        P == d * e,
                ;
                assert(2 <= x < 65536 && 2 <= y);
            }
        }
    }
}

/// A positive divisor of the prime `P` is 1 or `P`.
proof fn lemma_divisor_of_p(g: int, c: int)
    requires
        g >= 1,
        (P as int) == c * g,
    ensures
        g == 1 || g == P,
{
    lemma_p_is_prime();
    assert(c >= 1) by (nonlinear_arith)
        requires
            g >= 1,
            (P as int) == c * g,
    ;
    assert(g <= P) by (nonlinear_arith)
        requires
            c >= 1,
            g >= 1,
            (P as int) == c * g,
    ;
    if 1 < g < P {
        lemma_mod_multiples_basic(c, g);
        assert((P as int) % g == 0);
    }
}

/// `x` or its negation, depending on `positive`.
pub open spec fn signed(positive: bool, x: int) -> int {
    if positive {
        x
    } else {
        -x
    }
}

/// One division step of the extended Euclidean algorithm keeps the remainders
/// expressed as a signed multiple of `a` plus a multiple of `p`.
proof fn lemma_euclid_step(
    positive: bool,
    u0: int,
    u1: int,
    q: int,
    a: int,
    p: int,
    t0: int,
    t1: int,
    r0: int,
    r1: int,
    r2: int,
)
    requires
        r0 == signed(positive, u0 * a) + t0 * p,
        r1 == signed(!positive, u1 * a) + t1 * p,
        r0 == q * r1 + r2,
    ensures
        r2 == signed(positive, (u0 + q * u1) * a) + (t0 - q * t1) * p,
{
    lemma_mul_is_distributive_add_other_way(a, u0, q * u1);
    lemma_mul_is_associative(q, u1, a);
    lemma_mul_is_associative(q, t1, p);
    lemma_mul_is_distributive_sub_other_way(p, t0, q * t1);
    if positive {
        lemma_mul_is_distributive_add(q, -(u1 * a), t1 * p);
        lemma_mul_unary_negation(q, u1 * a);
    } else {
        lemma_mul_is_distributive_add(q, u1 * a, t1 * p);
    }
}

/// The last remainder 1 of the algorithm yields the inverse of `a`.
proof fn lemma_euclid_finish(positive: bool, u0: int, a: int, p: int, t0: int, um: int, w: int)
    requires
        1 == signed(positive, u0 * a) + t0 * p,
        p > 1,
        u0 >= 0,
        um == u0 % p,
        w == (if positive {
            um
        } else if um == 0 {
            0
        } else {
            p - um
        }),
    ensures
        (a * w) % p == 1,
{
    let k = u0 / p;
    lemma_fundamental_div_mod(u0, p);
    assert(u0 == p * k + um);
    lemma_mul_is_distributive_add_other_way(a, p * k, um);
    lemma_mul_is_associative(p, k, a);
    lemma_mul_is_commutative(a, w);
    lemma_mul_is_commutative(a, um);
    lemma_mul_is_commutative(p, k * a);
    lemma_mul_is_commutative(u0, a);
    if positive {
        // a * um == 1 - (t0 + k * a) * p
        lemma_mul_is_distributive_add(p, t0, k * a);
        lemma_mul_is_commutative(t0, p);
        assert(u0 * a == p * (k * a) + a * um);
        assert(a * w == 1 - p * (t0 + k * a));
        lemma_mul_unary_negation(t0 + k * a, p);
        lemma_mul_is_commutative(t0 + k * a, p);
        assert(a * w == (-(t0 + k * a)) * p + 1);
        lemma_fundamental_div_mod_converse(a * w, p, -(t0 + k * a), 1);
    } else if um == 0 {
        // 1 == (t0 - k * a) * p, impossible for p > 1
        lemma_mul_is_distributive_sub_other_way(p, t0, k * a);
        lemma_mul_is_commutative(p, t0 - k * a);
        let m = t0 - k * a;
        assert(false) by (nonlinear_arith)
            requires
                1 == m * p,
                p > 1,
        ;
    } else {
        // a * (p - um) == a * p - a * um == 1 + (a + k * a - t0) * p
        lemma_mul_is_distributive_sub(a, p, um);
        lemma_mul_is_commutative(a, p);
        lemma_mul_is_distributive_add_other_way(p, a, k * a);
        lemma_mul_is_distributive_sub_other_way(p, a + k * a, t0);
        lemma_mul_is_commutative(p, a + k * a - t0);
        lemma_fundamental_div_mod_converse(a * w, p, a + k * a - t0, 1);
    }
}

/// The extended Euclidean algorithm, run from the remainders `r0 >= 1` and
/// `r1 >= 0` with their Bezout coefficients, ends in an inverse of `a`.
proof fn lemma_euclid_run(
    a: int,
    positive: bool,
    r0: int,
    r1: int,
    u0: int,
    u1: int,
    t0: int,
    t1: int,
    c0: int,
    c1: int,
    d0: int,
    d1: int,
) -> (w: int)
    requires
        1 <= a < P,
        r0 >= 1,
        r1 >= 0,
        u0 >= 0,
        u1 >= 0,
        r0 == signed(positive, u0 * a) + t0 * (P as int),
        r1 == signed(!positive, u1 * a) + t1 * (P as int),
        (P as int) == c0 * r0 + c1 * r1,
        a == d0 * r0 + d1 * r1,
    ensures
        0 <= w < P,
        (a * w) % (P as int) == 1,
    decreases r1,
{
    let p = P as int;
    if r1 == 0 {
        lemma_divisor_of_p(r0, c0);
        if r0 == p {
            assert(false) by (nonlinear_arith)
                requires
                    a == d0 * p,
                    1 <= a < p,
            ;
        }
        let um = u0 % p;
        lemma_mod_bound(u0, p);
        let w = if positive {
            um
        } else if um == 0 {
            0
        } else {
            p - um
        };
        lemma_euclid_finish(positive, u0, a, p, t0, um, w);
        w
    } else {
        let q = r0 / r1;
        let r2 = r0 % r1;
        lemma_fundamental_div_mod(r0, r1);
        lemma_mod_bound(r0, r1);
        lemma_mul_is_commutative(r1, q);
        assert(q >= 0) by (nonlinear_arith)
            requires
                r0 == q * r1 + r2,
                r0 >= 1,
                r1 >= 1,
                0 <= r2 < r1,
        ;
        assert(u0 + q * u1 >= 0) by (nonlinear_arith)
            requires
                q >= 0,
                u0 >= 0,
                u1 >= 0,
        ;
        lemma_euclid_step(positive, u0, u1, q, a, p, t0, t1, r0, r1, r2);
        assert(p == (c0 * q + c1) * r1 + c0 * r2) by (nonlinear_arith)
            requires
                p == c0 * r0 + c1 * r1,
                r0 == q * r1 + r2,
        ;
        assert(a == (d0 * q + d1) * r1 + d0 * r2) by (nonlinear_arith)
            requires
                a == d0 * r0 + d1 * r1,
                r0 == q * r1 + r2,
        ;
        lemma_euclid_run(a, !positive, r1, r2, u1, u0 + q * u1, t1, t0 - q * t1, c0 * q + c1, c0, d0 * q + d1, d0)
    }
}

/// Every nonzero element has an inverse, which `inv_m` picks.
pub proof fn lemma_inverse_exists(a: M31)
    requires
        a.wf(),
        a.0 != 0,
    ensures
        inv_m(a).wf(),
        m31_is_inverse(a.val(), inv_m(a).val()),
{
    let ai = a.val();
    let p = P as int;
    assert(p == 1 * p + 0 * ai);
    assert(ai == 0 * p + 1 * ai);
    assert(p == signed(false, 0 * ai) + 1 * p);
    assert(ai == signed(true, 1 * ai) + 0 * p);
    let w = lemma_euclid_run(ai, false, p, ai, 0, 1, 1, 0, 1, 0, 0, 1);
    let v = M31(w as u32);
    assert(v.wf() && m31_is_inverse(ai, v.val()));
}

impl M31 {
    /// The value is the canonical representative of its residue class.
    pub open spec fn wf(self) -> bool {
        self.0 < P
    }

    /// The element as a mathematical integer in `[0, P)`.
    pub open spec fn val(self) -> int {
        self.0 as int
    }

    pub fn zero() -> (r: M31)
        ensures
            r.wf(),
            r.val() == 0,
    {
        M31(0)
    }

    pub fn one() -> (r: M31)
        ensures
            r.wf(),
            r.val() == 1,
    {
        M31(1)
    }

    /// Wraps a value that the caller promises is already reduced.
    pub fn from_u32_unchecked(v: u32) -> (r: M31)
        requires
            v < P,
        ensures
            r.wf(),
            r.val() == v,
    {
        M31(v)
    }

    /// Reduces any 64-bit value modulo `P`.
    pub fn reduce(v: u64) -> (r: M31)
        ensures
            r.wf(),
            r.val() == (v as int) % (P as int),
    {
        M31((v % (P as u64)) as u32)
    }

    pub fn is_zero(&self) -> (b: bool)
        ensures
            b == (self.0 == 0),
    {
        self.0 == 0
    }

    pub fn add(self, rhs: M31) -> (r: M31)
        requires
            self.wf(),
            rhs.wf(),
        ensures
            r.wf(),
            r.val() == m31_add(self.val(), rhs.val()),
            r == add_m(self, rhs),
    {
        let s: u32 = self.0 + rhs.0;
        if s >= P {
            proof {
                lemma_fundamental_div_mod_converse((s as int), P as int, 1, s - P);
            }
            M31(s - P)
        } else {
            proof {
                lemma_small_mod(s as nat, P as nat);
            }
            M31(s)
        }
    }

    pub fn neg(self) -> (r: M31)
        requires
            self.wf(),
        ensures
            r.wf(),
            r.val() == m31_neg(self.val()),
            r == neg_m(self),
    {
        if self.0 == 0 {
            M31(0)
        } else {
            proof {
                lemma_fundamental_div_mod_converse(-(self.0 as int), P as int, -1, P - self.0);
            }
            M31(P - self.0)
        }
    }

    pub fn sub(self, rhs: M31) -> (r: M31)
        requires
            self.wf(),
            rhs.wf(),
        ensures
            r.wf(),
            r.val() == m31_sub(self.val(), rhs.val()),
            r == sub_m(self, rhs),
    {
        if self.0 >= rhs.0 {
            proof {
                lemma_small_mod((self.0 - rhs.0) as nat, P as nat);
            }
            M31(self.0 - rhs.0)
        } else {
            proof {
                lemma_fundamental_div_mod_converse(
                    self.0 - rhs.0,
                    P as int,
                    -1,
                    P - rhs.0 + self.0,
                );
            }
            M31(P - rhs.0 + self.0)
        }
    }

    pub fn mul(self, rhs: M31) -> (r: M31)
        requires
            self.wf(),
            rhs.wf(),
        ensures
            r.wf(),
            r.val() == m31_mul(self.val(), rhs.val()),
            r == mul_m(self, rhs),
    {
        proof {
            lemma_mul_lt_p_squared(self.0 as int, rhs.0 as int);
        }
        let prod: u64 = (self.0 as u64) * (rhs.0 as u64);
        M31((prod % (P as u64)) as u32)
    }

    pub fn double(self) -> (r: M31)
        requires
            self.wf(),
        ensures
            r.wf(),
            r.val() == m31_add(self.val(), self.val()),
            r == add_m(self, self),
    {
        self.add(self)
    }

    pub fn square(self) -> (r: M31)
        requires
            self.wf(),
        ensures
            r.wf(),
            r.val() == m31_mul(self.val(), self.val()),
            r == mul_m(self, self),
    {
        self.mul(self)
    }

    /// The multiplicative inverse of a nonzero element, found with the
    /// extended Euclidean algorithm on `(P, self)`.
    pub fn inverse(self) -> (r: M31)
        requires
            self.wf(),
            self.0 != 0,
        ensures
            r.wf(),
            m31_is_inverse(self.val(), r.val()),
            r == inv_m(self),
    {
        let a: u64 = self.0 as u64;
        let ghost ai: int = a as int;
        let ghost pi: int = P as int;
        let mut r0: u64 = P as u64;
        let mut r1: u64 = a;
        let mut u0: u64 = 0;
        let mut u1: u64 = 1;
        // sign of the coefficient of `a` in `r0`; the one of `r1` is the opposite
        let mut positive: bool = false;
        let ghost mut t0: int = 1;
        let ghost mut t1: int = 0;
        let ghost mut c0: int = 1;
        let ghost mut c1: int = 0;
        let ghost mut d0: int = 0;
        let ghost mut d1: int = 1;
        while r1 != 0
            invariant
                ai == a,
                pi == P,
                1 <= a < P,
                r0 as int == signed(positive, (u0 as int) * ai) + t0 * pi,
                r1 as int == signed(!positive, (u1 as int) * ai) + t1 * pi,
                (u1 as int) * (r0 as int) + (u0 as int) * (r1 as int) == pi,
                pi == c0 * (r0 as int) + c1 * (r1 as int),
                ai == d0 * (r0 as int) + d1 * (r1 as int),
                r0 >= 1,
                u0 <= P,
                u1 <= P,
            decreases r1,
        {
            let q: u64 = r0 / r1;
            let r2: u64 = r0 % r1;
            proof {
                lemma_fundamental_div_mod(r0 as int, r1 as int);
                lemma_mul_is_commutative(r1 as int, q as int);
                assert(r0 as int == (q as int) * (r1 as int) + (r2 as int));
                assert((q as int) * (u1 as int) <= pi) by (nonlinear_arith)
                    requires
                        (u1 as int) * (r0 as int) + (u0 as int) * (r1 as int) == pi,
                        r0 as int == (q as int) * (r1 as int) + (r2 as int),
                        r1 >= 1,
                        r2 >= 0,
                        q >= 0,
                        u0 >= 0,
                        u1 >= 0,
                ;
                assert((u0 as int) + (q as int) * (u1 as int) <= pi) by (nonlinear_arith)
                    requires
                        (u1 as int) * (r0 as int) + (u0 as int) * (r1 as int) == pi,
                        r0 as int == (q as int) * (r1 as int) + (r2 as int),
                        r1 >= 1,
                        r2 >= 0,
                        q >= 0,
                        u0 >= 0,
                        u1 >= 0,
                ;
            }
            let u2: u64 = u0 + q * u1;
            proof {
                let qi = q as int;
                lemma_euclid_step(
                    positive,
                    u0 as int,
                    u1 as int,
                    qi,
                    ai,
                    pi,
                    t0,
                    t1,
                    r0 as int,
                    r1 as int,
                    r2 as int,
                );
                assert((u2 as int) * (r1 as int) + (u1 as int) * (r2 as int) == pi) by (nonlinear_arith)
                    requires
                        (u1 as int) * (r0 as int) + (u0 as int) * (r1 as int) == pi,
                        r0 as int == qi * (r1 as int) + (r2 as int),
                        u2 as int == (u0 as int) + qi * (u1 as int),
                ;
                assert(pi == (c0 * qi + c1) * (r1 as int) + c0 * (r2 as int)) by (nonlinear_arith)
                    requires
                        pi == c0 * (r0 as int) + c1 * (r1 as int),
                        r0 as int == qi * (r1 as int) + (r2 as int),
                ;
                assert(ai == (d0 * qi + d1) * (r1 as int) + d0 * (r2 as int)) by (nonlinear_arith)
                    requires
                        ai == d0 * (r0 as int) + d1 * (r1 as int),
                        r0 as int == qi * (r1 as int) + (r2 as int),
                ;
                let nt0 = t1;
                let nt1 = t0 - qi * t1;
                let nc0 = c0 * qi + c1;
                let nc1 = c0;
                let nd0 = d0 * qi + d1;
                let nd1 = d0;
                t0 = nt0;
                t1 = nt1;
                c0 = nc0;
                c1 = nc1;
                d0 = nd0;
                d1 = nd1;
            }
            positive = !positive;
            r0 = r1;
            r1 = r2;
            u0 = u1;
            u1 = u2;
        }
        proof {
            assert(pi == c0 * (r0 as int));
            assert(ai == d0 * (r0 as int));
            lemma_divisor_of_p(r0 as int, c0);
            if r0 as int == pi {
                assert(false) by (nonlinear_arith)
                    requires
                        ai == d0 * pi,
                        1 <= ai < pi,
                ;
            }
            assert(r0 == 1);
        }
        let um: u64 = u0 % (P as u64);
        let w: u64 = if positive {
            um
        } else if um == 0 {
            0
        } else {
            (P as u64) - um
        };
        assert(w < P);
        proof {
            // 1 == s0 * u0 * a + t0 * P, so a * (s0 * u0) is 1 modulo P
            lemma_euclid_finish(positive, u0 as int, ai, pi, t0, um as int, w as int);
        }
        let r = M31(w as u32);
        proof {
            assert(r.wf() && m31_is_inverse(self.val(), r.val()));
            assert(exists|v: M31| v.wf() && m31_is_inverse(self.val(), v.val()));
            lemma_inverse_unique(self, r, inv_m(self));
        }
        r
    }
}

} // verus!
