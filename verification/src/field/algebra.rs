use crate::field::cm31::{
    cm31_add, cm31_inverse_with, cm31_mul, cm31_mul_m31, cm31_neg, cm31_norm, cm31_one, cm31_sub,
    cm31_zero, CM31,
};
use crate::field::m31::{
    add_m, inv_m, lemma_inverse_exists, m31_is_inverse, mul_m, neg_m, sub_m, M31, P,
};
use crate::field::qm31::{
    qm31_neg,
    qm31_add, qm31_denom, qm31_inverse, qm31_inverse_with, qm31_invertible, qm31_mul, qm31_one,
    qm31_sub, r_const, QM31,
};
use vstd::arithmetic::div_mod::{
    lemma_add_mod_noop, lemma_fundamental_div_mod_converse, lemma_mod_bound, lemma_mul_mod_noop,
    lemma_small_mod, lemma_sub_mod_noop,
};
use vstd::prelude::*;

verus! {

/// The base field element of the residue of `x`.
pub open spec fn m31_of_int(x: int) -> M31 {
    M31((x % (P as int)) as u32)
}

/// The residue of an integer is canonical and has the integer's remainder as
/// its value.
pub proof fn lemma_m31_of_int_val(x: int)
    ensures
        m31_of_int(x).wf(),
        m31_of_int(x).val() == x % (P as int),
{
    lemma_mod_bound(x, P as int);
}

/// The field operations on residues are the residues of the integer
/// operations.
pub proof fn lemma_m31_of_int_ops(x: int, y: int)
    ensures
        add_m(m31_of_int(x), m31_of_int(y)) == m31_of_int(x + y),
        sub_m(m31_of_int(x), m31_of_int(y)) == m31_of_int(x - y),
        mul_m(m31_of_int(x), m31_of_int(y)) == m31_of_int(x * y),
        neg_m(m31_of_int(x)) == m31_of_int(-x),
{
    let p = P as int;
    lemma_m31_of_int_val(x);
    lemma_m31_of_int_val(y);
    lemma_add_mod_noop(x, y, p);
    lemma_sub_mod_noop(x, y, p);
    lemma_mul_mod_noop(x, y, p);
    lemma_sub_mod_noop(0, x, p);
    lemma_small_mod(0, P as nat);
}

/// A canonical element is the residue of its value.
pub proof fn lemma_m31_canonical(a: M31)
    requires
        a.wf(),
    ensures
        m31_of_int(a.val()) == a,
{
    lemma_small_mod(a.0 as nat, P as nat);
}

/// Congruent integers have the same residue.
pub proof fn lemma_m31_of_int_congruent(x: int, y: int, k: int)
    requires
        x == y + k * (P as int),
    ensures
        m31_of_int(x) == m31_of_int(y),
{
    let p = P as int;
    lemma_mod_bound(y, p);
    lemma_fundamental_div_mod_converse(x, p, k + y / p, y % p);
    vstd::arithmetic::div_mod::lemma_fundamental_div_mod(y, p);
    assert(x == p * (k + y / p) + y % p) by (nonlinear_arith)
        requires
            x == y + k * p,
            y == p * (y / p) + y % p,
    ;
}

/// The complex element with the residues of `x` and `y` as parts.
pub open spec fn cm31_of_ints(x: int, y: int) -> CM31 {
    CM31(m31_of_int(x), m31_of_int(y))
}

/// A canonical complex element is made of the residues of its parts.
pub proof fn lemma_cm31_canonical(c: CM31)
    requires
        c.wf(),
    ensures
        cm31_of_ints(c.0.val(), c.1.val()) == c,
{
    lemma_m31_canonical(c.0);
    lemma_m31_canonical(c.1);
}

/// The complex operations on residues are the residues of the integer
/// formulas.
pub proof fn lemma_cm31_of_ints_ops(x0: int, x1: int, y0: int, y1: int)
    ensures
        cm31_add(cm31_of_ints(x0, x1), cm31_of_ints(y0, y1)) == cm31_of_ints(x0 + y0, x1 + y1),
        cm31_sub(cm31_of_ints(x0, x1), cm31_of_ints(y0, y1)) == cm31_of_ints(x0 - y0, x1 - y1),
        cm31_neg(cm31_of_ints(x0, x1)) == cm31_of_ints(-x0, -x1),
        cm31_mul(cm31_of_ints(x0, x1), cm31_of_ints(y0, y1)) == cm31_of_ints(
            x0 * y0 - x1 * y1,
            x0 * y1 + x1 * y0,
        ),
        cm31_norm(cm31_of_ints(x0, x1)) == m31_of_int(x0 * x0 + x1 * x1),
        cm31_inverse_with(cm31_of_ints(x0, x1), m31_of_int(y0)) == cm31_of_ints(x0 * y0, -x1 * y0),
{
    reveal(cm31_add);
    reveal(cm31_sub);
    reveal(cm31_neg);
    reveal(cm31_mul);
    reveal(cm31_norm);
    reveal(cm31_inverse_with);
    lemma_m31_of_int_ops(x0, y0);
    lemma_m31_of_int_ops(x1, y1);
    lemma_m31_of_int_ops(x0, y1);
    lemma_m31_of_int_ops(x1, y0);
    lemma_m31_of_int_ops(x0 * y0, x1 * y1);
    lemma_m31_of_int_ops(x0 * y1, x1 * y0);
    lemma_m31_of_int_ops(x0, x0);
    lemma_m31_of_int_ops(x1, x1);
    lemma_m31_of_int_ops(x0 * x0, x1 * x1);
    lemma_m31_of_int_ops(-x1, y0);
    lemma_m31_of_int_ops(x1, 0);
    assert((-x1) * y0 == -x1 * y0) by (nonlinear_arith);
}

/// A complex element times the inverse of its norm's inverse-scaled
/// conjugate is one: for `w` an inverse of the norm of `c`,
/// `c * (c.0 w - c.1 w i) == 1`.
pub proof fn lemma_cm31_mul_inverse_with(c: CM31, w: M31)
    requires
        c.wf(),
        w.wf(),
        m31_is_inverse(cm31_norm(c).val(), w.val()),
    ensures
        cm31_mul(c, cm31_inverse_with(c, w)) == cm31_one(),
{
    let (a, b, v) = (c.0.val(), c.1.val(), w.val());
    lemma_cm31_canonical(c);
    lemma_m31_canonical(w);
    lemma_cm31_of_ints_ops(a, b, v, 0);
    lemma_cm31_of_ints_ops(a, b, a * v, -b * v);
    lemma_m31_of_int_val(a * a + b * b);
    // the product is ((a^2 + b^2) v, 0)
    assert(a * (a * v) - b * (-b * v) == (a * a + b * b) * v) by (nonlinear_arith);
    assert(a * (-b * v) + b * (a * v) == 0) by (nonlinear_arith);
    let n = a * a + b * b;
    let p = P as int;
    lemma_mul_mod_noop(n, v, p);
    lemma_small_mod(v as nat, P as nat);
    assert((n * v) % p == 1);
    lemma_m31_of_int_val(n * v);
    lemma_m31_of_int_val(1);
    lemma_small_mod(1, P as nat);
    lemma_small_mod(0, P as nat);
    assert(m31_of_int(n * v) == M31(1));
    assert(m31_of_int(0) == M31(0));
}

/// Real part of the product of the complex integers `x0 + x1 i` and
/// `y0 + y1 i`.
pub open spec fn cre(x0: int, x1: int, y0: int, y1: int) -> int {
    x0 * y0 - x1 * y1
}

/// Imaginary part of the product of the complex integers `x0 + x1 i` and
/// `y0 + y1 i`.
pub open spec fn cim(x0: int, x1: int, y0: int, y1: int) -> int {
    x0 * y1 + x1 * y0
}

/// Multiplication of complex integers is associative.
proof fn lemma_cmul_assoc(x0: int, x1: int, y0: int, y1: int, z0: int, z1: int)
    ensures
        cre(cre(x0, x1, y0, y1), cim(x0, x1, y0, y1), z0, z1) == cre(
            x0,
            x1,
            cre(y0, y1, z0, z1),
            cim(y0, y1, z0, z1),
        ),
        cim(cre(x0, x1, y0, y1), cim(x0, x1, y0, y1), z0, z1) == cim(
            x0,
            x1,
            cre(y0, y1, z0, z1),
            cim(y0, y1, z0, z1),
        ),
{
    assert(x0 * (y0 * z0) == (x0 * y0) * z0 && x0 * (y1 * z1) == (x0 * y1) * z1 && x1 * (y0 * z1)
        == (x1 * y0) * z1 && x1 * (y1 * z0) == (x1 * y1) * z0) by (nonlinear_arith);
    assert(x0 * (y0 * z1) == (x0 * y0) * z1 && x0 * (y1 * z0) == (x0 * y1) * z0 && x1 * (y0 * z0)
        == (x1 * y0) * z0 && x1 * (y1 * z1) == (x1 * y1) * z1) by (nonlinear_arith);
    assert(x0 * (y0 * z0 - y1 * z1) == x0 * (y0 * z0) - x0 * (y1 * z1)) by (nonlinear_arith);
    assert(x1 * (y0 * z1 + y1 * z0) == x1 * (y0 * z1) + x1 * (y1 * z0)) by (nonlinear_arith);
    assert((x0 * y0 - x1 * y1) * z0 == (x0 * y0) * z0 - (x1 * y1) * z0) by (nonlinear_arith);
    assert((x0 * y1 + x1 * y0) * z1 == (x0 * y1) * z1 + (x1 * y0) * z1) by (nonlinear_arith);
    assert(x0 * (y0 * z1 + y1 * z0) == x0 * (y0 * z1) + x0 * (y1 * z0)) by (nonlinear_arith);
    assert(x1 * (y0 * z0 - y1 * z1) == x1 * (y0 * z0) - x1 * (y1 * z1)) by (nonlinear_arith);
    assert((x0 * y0 - x1 * y1) * z1 == (x0 * y0) * z1 - (x1 * y1) * z1) by (nonlinear_arith);
    assert((x0 * y1 + x1 * y0) * z0 == (x0 * y1) * z0 + (x1 * y0) * z0) by (nonlinear_arith);
}

/// Multiplication of complex integers is commutative, and negating a factor
/// negates the product.
proof fn lemma_cmul_comm_neg(x0: int, x1: int, y0: int, y1: int)
    ensures
        cre(x0, x1, y0, y1) == cre(y0, y1, x0, x1),
        cim(x0, x1, y0, y1) == cim(y0, y1, x0, x1),
        cre(x0, x1, -y0, -y1) == -cre(x0, x1, y0, y1),
        cim(x0, x1, -y0, -y1) == -cim(x0, x1, y0, y1),
        cre(-x0, -x1, y0, y1) == -cre(x0, x1, y0, y1),
        cim(-x0, -x1, y0, y1) == -cim(x0, x1, y0, y1),
{
    assert(x0 * y0 == y0 * x0 && x1 * y1 == y1 * x1 && x0 * y1 == y1 * x0 && x1 * y0 == y0 * x1)
        by (nonlinear_arith);
    assert(x0 * (-y0) == -(x0 * y0) && x1 * (-y1) == -(x1 * y1) && x0 * (-y1) == -(x0 * y1) && x1
        * (-y0) == -(x1 * y0)) by (nonlinear_arith);
    assert((-x0) * y0 == -(x0 * y0) && (-x1) * y1 == -(x1 * y1) && (-x0) * y1 == -(x0 * y1) && (
    -x1) * y0 == -(x1 * y0)) by (nonlinear_arith);
}

/// Multiplication of complex integers distributes over a difference on the
/// left.
proof fn lemma_cmul_sub_left(x0: int, x1: int, y0: int, y1: int, z0: int, z1: int)
    ensures
        cre(x0 - y0, x1 - y1, z0, z1) == cre(x0, x1, z0, z1) - cre(y0, y1, z0, z1),
        cim(x0 - y0, x1 - y1, z0, z1) == cim(x0, x1, z0, z1) - cim(y0, y1, z0, z1),
{
    assert((x0 - y0) * z0 == x0 * z0 - y0 * z0 && (x1 - y1) * z1 == x1 * z1 - y1 * z1) by (
    nonlinear_arith);
    assert((x0 - y0) * z1 == x0 * z1 - y0 * z1 && (x1 - y1) * z0 == x1 * z0 - y1 * z0) by (
    nonlinear_arith);
}

/// The degree-4 product of an element with its inverse is one: for `d` an
/// inverse of the denominator `a^2 - (2 + i) b^2` of `x = a + b u`,
/// `x * ((a - b u) d) == 1`.
#[verifier::spinoff_prover]
#[verifier::rlimit(40)]
pub proof fn lemma_qm31_mul_inverse_with(x: QM31, d: CM31)
    requires
        x.wf(),
        d.wf(),
        cm31_mul(qm31_denom(x), d) == cm31_one(),
    ensures
        qm31_mul(x, qm31_inverse_with(x, d)) == qm31_one(),
{
    reveal(qm31_mul);
    let (a0, a1) = (x.0.0.val(), x.0.1.val());
    let (b0, b1) = (x.1.0.val(), x.1.1.val());
    let (d0, d1) = (d.0.val(), d.1.val());
    lemma_cm31_canonical(x.0);
    lemma_cm31_canonical(x.1);
    lemma_cm31_canonical(d);
    lemma_small_mod(2, P as nat);
    lemma_small_mod(1, P as nat);
    lemma_small_mod(0, P as nat);
    assert(r_const() == cm31_of_ints(2, 1));
    // the denominator e = a^2 - s, with s = (2 + i) b^2
    let bb0 = cre(b0, b1, b0, b1);
    let bb1 = cim(b0, b1, b0, b1);
    lemma_cm31_of_ints_ops(b0, b1, b0, b1);
    lemma_m31_of_int_ops(bb1, 0);
    lemma_cm31_of_ints_ops(bb0, bb1, bb0, bb1);
    lemma_cm31_of_ints_ops(bb0 + bb0, bb1 + bb1, -bb1, bb0);
    let s0 = bb0 + bb0 + -bb1;
    let s1 = bb1 + bb1 + bb0;
    let aa0 = cre(a0, a1, a0, a1);
    let aa1 = cim(a0, a1, a0, a1);
    lemma_cm31_of_ints_ops(a0, a1, a0, a1);
    lemma_cm31_of_ints_ops(aa0, aa1, s0, s1);
    let e0 = aa0 - s0;
    let e1 = aa1 - s1;
    assert(qm31_denom(x) == cm31_of_ints(e0, e1));
    lemma_cm31_of_ints_ops(e0, e1, d0, d1);
    // the inverse (w, v) = (a d, -b d)
    let w0 = cre(a0, a1, d0, d1);
    let w1 = cim(a0, a1, d0, d1);
    lemma_cm31_of_ints_ops(a0, a1, d0, d1);
    lemma_cm31_of_ints_ops(b0, b1, 0, 0);
    lemma_cm31_of_ints_ops(-b0, -b1, d0, d1);
    let v0 = cre(-b0, -b1, d0, d1);
    let v1 = cim(-b0, -b1, d0, d1);
    assert(qm31_inverse_with(x, d) == QM31(cm31_of_ints(w0, w1), cm31_of_ints(v0, v1)));
    let u0 = cre(b0, b1, d0, d1);
    let u1 = cim(b0, b1, d0, d1);
    lemma_cmul_comm_neg(b0, b1, d0, d1);
    // first half: a w + (2 + i) b v == a^2 d - s d == e d
    lemma_cm31_of_ints_ops(a0, a1, w0, w1);
    lemma_cm31_of_ints_ops(2, 1, b0, b1);
    let r0 = cre(2, 1, b0, b1);
    let r1 = cim(2, 1, b0, b1);
    lemma_cm31_of_ints_ops(r0, r1, v0, v1);
    let f0 = cre(a0, a1, w0, w1);
    let f1 = cim(a0, a1, w0, w1);
    let g0 = cre(r0, r1, v0, v1);
    let g1 = cim(r0, r1, v0, v1);
    lemma_cm31_of_ints_ops(f0, f1, g0, g1);
    lemma_cmul_assoc(a0, a1, a0, a1, d0, d1);
    lemma_cmul_comm_neg(r0, r1, u0, u1);
    lemma_cmul_assoc(2, 1, b0, b1, u0, u1);
    lemma_cmul_assoc(b0, b1, b0, b1, d0, d1);
    lemma_cmul_assoc(2, 1, bb0, bb1, d0, d1);
    assert(cre(2, 1, bb0, bb1) == s0 && cim(2, 1, bb0, bb1) == s1);
    lemma_cmul_sub_left(aa0, aa1, s0, s1, d0, d1);
    assert(f0 + g0 == cre(e0, e1, d0, d1));
    assert(f1 + g1 == cim(e0, e1, d0, d1));
    // second half: a v + b w == -a b d + b a d == 0
    lemma_cm31_of_ints_ops(a0, a1, v0, v1);
    lemma_cm31_of_ints_ops(b0, b1, w0, w1);
    let h0 = cre(a0, a1, v0, v1);
    let h1 = cim(a0, a1, v0, v1);
    let k0 = cre(b0, b1, w0, w1);
    let k1 = cim(b0, b1, w0, w1);
    lemma_cm31_of_ints_ops(h0, h1, k0, k1);
    lemma_cmul_comm_neg(a0, a1, u0, u1);
    lemma_cmul_assoc(a0, a1, b0, b1, d0, d1);
    lemma_cmul_assoc(b0, b1, a0, a1, d0, d1);
    lemma_cmul_comm_neg(a0, a1, b0, b1);
    assert(h0 + k0 == 0);
    assert(h1 + k1 == 0);
    assert(m31_of_int(0) == M31(0));
}

/// Karatsuba's identity in the base field:
/// `(a + b)(x + y) - a x - b y == a y + b x`.
pub proof fn lemma_m31_karatsuba(a: M31, b: M31, x: M31, y: M31)
    ensures
        sub_m(sub_m(mul_m(add_m(a, b), add_m(x, y)), mul_m(a, x)), mul_m(b, y)) == add_m(
            mul_m(a, y),
            mul_m(b, x),
        ),
{
    let (av, bv, xv, yv) = (a.val(), b.val(), x.val(), y.val());
    let (s, t) = (av + bv, xv + yv);
    lemma_m31_of_int_ops(s, t);
    lemma_m31_of_int_ops(s * t, av * xv);
    lemma_m31_of_int_ops(s * t - av * xv, bv * yv);
    lemma_m31_of_int_ops(av * yv, bv * xv);
    assert(s * t - av * xv - bv * yv == av * yv + bv * xv) by (nonlinear_arith)
        requires
            s == av + bv,
            t == xv + yv,
    ;
}

/// Subtracting what was added gives back a canonical element.
pub proof fn lemma_m31_add_sub_cancel(a: M31, b: M31)
    requires
        a.wf(),
    ensures
        sub_m(add_m(a, b), b) == a,
{
    lemma_m31_of_int_ops(a.val() + b.val(), b.val());
    lemma_m31_canonical(a);
}

/// From `p + q == o`: `p - q == (p + p) - o`.
pub proof fn lemma_m31_difference_from_sum(p: M31, q: M31, o: M31)
    requires
        add_m(p, q) == o,
    ensures
        sub_m(p, q) == sub_m(add_m(p, p), o),
{
    let (pv, qv) = (p.val(), q.val());
    let pr = P as int;
    lemma_m31_of_int_val(pv + qv);
    lemma_m31_of_int_ops(pv + pv, o.val());
    vstd::arithmetic::div_mod::lemma_fundamental_div_mod(pv + qv, pr);
    let k = (pv + qv) / pr;
    assert(pv + pv - o.val() == pv - qv + k * pr) by (nonlinear_arith)
        requires
            pv + qv == pr * k + (pv + qv) % pr,
            o.val() == (pv + qv) % pr,
    ;
    lemma_m31_of_int_congruent(pv + pv - o.val(), pv - qv, k);
}

/// Subtracting what was added gives back a canonical degree-4 element.
pub proof fn lemma_qm31_add_sub_cancel(a: QM31, b: QM31)
    requires
        a.wf(),
    ensures
        qm31_sub(qm31_add(a, b), b) == a,
{
    reveal(qm31_add);
    reveal(qm31_sub);
    reveal(cm31_add);
    reveal(cm31_sub);
    lemma_m31_add_sub_cancel(a.0.0, b.0.0);
    lemma_m31_add_sub_cancel(a.0.1, b.0.1);
    lemma_m31_add_sub_cancel(a.1.0, b.1.0);
    lemma_m31_add_sub_cancel(a.1.1, b.1.1);
}

/// The line through `(x0, y0)` and `(x1, y1)`,
/// `z_x (y0 - y1) + z_y (x1 - x0) + (x0 y1 - y0 x1)`, vanishes at both points.
pub proof fn lemma_m31_line_vanishes(x0: M31, y0: M31, x1: M31, y1: M31, zx: M31, zy: M31)
    requires
        x0.wf(),
        y0.wf(),
        x1.wf(),
        y1.wf(),
        (zx == x0 && zy == y0) || (zx == x1 && zy == y1),
    ensures
        add_m(
            add_m(mul_m(zx, sub_m(y0, y1)), mul_m(zy, sub_m(x1, x0))),
            sub_m(mul_m(x0, y1), mul_m(y0, x1)),
        ) == M31(0),
{
    let (a, b, c, d) = (x0.val(), y0.val(), x1.val(), y1.val());
    let (u, v) = (zx.val(), zy.val());
    lemma_m31_canonical(zx);
    lemma_m31_canonical(zy);
    lemma_m31_of_int_ops(u, b - d);
    lemma_m31_of_int_ops(v, c - a);
    lemma_m31_of_int_ops(u * (b - d), v * (c - a));
    lemma_m31_of_int_ops(a * d, b * c);
    lemma_m31_of_int_ops(u * (b - d) + v * (c - a), a * d - b * c);
    assert(u * (b - d) + v * (c - a) + (a * d - b * c) == 0) by (nonlinear_arith)
        requires
            (u == a && v == b) || (u == c && v == d),
    ;
    lemma_small_mod(0, P as nat);
}

/// Multiplication of complex elements is associative.
pub proof fn lemma_cm31_mul_assoc(x: CM31, y: CM31, z: CM31)
    requires
        x.wf(),
        y.wf(),
        z.wf(),
    ensures
        cm31_mul(cm31_mul(x, y), z) == cm31_mul(x, cm31_mul(y, z)),
{
    let (x0, x1, y0, y1, z0, z1) = (x.0.val(), x.1.val(), y.0.val(), y.1.val(), z.0.val(), z.1.val());
    lemma_cm31_canonical(x);
    lemma_cm31_canonical(y);
    lemma_cm31_canonical(z);
    lemma_cm31_of_ints_ops(x0, x1, y0, y1);
    lemma_cm31_of_ints_ops(cre(x0, x1, y0, y1), cim(x0, x1, y0, y1), z0, z1);
    lemma_cm31_of_ints_ops(y0, y1, z0, z1);
    lemma_cm31_of_ints_ops(x0, x1, cre(y0, y1, z0, z1), cim(y0, y1, z0, z1));
    lemma_cmul_assoc(x0, x1, y0, y1, z0, z1);
}

/// Multiplication of complex elements is commutative.
pub proof fn lemma_cm31_mul_comm(x: CM31, y: CM31)
    requires
        x.wf(),
        y.wf(),
    ensures
        cm31_mul(x, y) == cm31_mul(y, x),
{
    let (x0, x1, y0, y1) = (x.0.val(), x.1.val(), y.0.val(), y.1.val());
    lemma_cm31_canonical(x);
    lemma_cm31_canonical(y);
    lemma_cm31_of_ints_ops(x0, x1, y0, y1);
    lemma_cm31_of_ints_ops(y0, y1, x0, x1);
    lemma_cmul_comm_neg(x0, x1, y0, y1);
}

/// One is neutral for multiplication.
pub proof fn lemma_cm31_mul_one(t: CM31)
    requires
        t.wf(),
    ensures
        cm31_mul(t, cm31_one()) == t,
{
    lemma_small_mod(1, P as nat);
    lemma_small_mod(0, P as nat);
    assert(cm31_one() == cm31_of_ints(1, 0));
    lemma_cm31_canonical(t);
    lemma_cm31_of_ints_ops(t.0.val(), t.1.val(), 1, 0);
}

/// Subtracting `t - x` from `t` gives `x` back.
pub proof fn lemma_cm31_sub_sub(t: CM31, x: CM31)
    requires
        t.wf(),
        x.wf(),
    ensures
        cm31_sub(t, cm31_sub(t, x)) == x,
{
    let (x0, x1, t0, t1) = (x.0.val(), x.1.val(), t.0.val(), t.1.val());
    lemma_cm31_canonical(x);
    lemma_cm31_canonical(t);
    lemma_cm31_of_ints_ops(t0, t1, x0, x1);
    lemma_cm31_of_ints_ops(t0, t1, t0 - x0, t1 - x1);
}

/// A complex element with a nonzero norm times its inverse is one, and the
/// inverse is canonical.
pub proof fn lemma_cm31_inverse(c: CM31)
    requires
        c.wf(),
        cm31_norm(c).0 != 0,
    ensures
        cm31_inverse_with(c, inv_m(cm31_norm(c))).wf(),
        cm31_mul(c, cm31_inverse_with(c, inv_m(cm31_norm(c)))) == cm31_one(),
{
    reveal(cm31_norm);
    let n = cm31_norm(c);
    lemma_m31_of_int_val(mul_m(c.0, c.0).val() + mul_m(c.1, c.1).val());
    lemma_inverse_exists(n);
    lemma_cm31_mul_inverse_with(c, inv_m(n));
    reveal(cm31_inverse_with);
    lemma_m31_of_int_val(c.0.val() * inv_m(n).val());
    lemma_m31_of_int_val(neg_m(c.1).val() * inv_m(n).val());
}

/// A degree-4 element with an invertible denominator times its inverse is
/// one.
pub proof fn lemma_qm31_inverse(x: QM31)
    requires
        x.wf(),
        qm31_invertible(x),
    ensures
        qm31_mul(x, qm31_inverse(x)) == qm31_one(),
{
    let den = qm31_denom(x);
    reveal(cm31_sub);
    lemma_m31_of_int_val(cm31_mul(x.0, x.0).0.val() - cm31_add(
        cm31_add(cm31_mul(x.1, x.1), cm31_mul(x.1, x.1)),
        CM31(neg_m(cm31_mul(x.1, x.1).1), cm31_mul(x.1, x.1).0),
    ).0.val());
    lemma_m31_of_int_val(cm31_mul(x.0, x.0).1.val() - cm31_add(
        cm31_add(cm31_mul(x.1, x.1), cm31_mul(x.1, x.1)),
        CM31(neg_m(cm31_mul(x.1, x.1).1), cm31_mul(x.1, x.1).0),
    ).1.val());
    assert(den.wf());
    lemma_cm31_inverse(den);
    lemma_qm31_mul_inverse_with(x, cm31_inverse_with(den, inv_m(cm31_norm(den))));
}

/// Sums and products of complex elements are canonical.
pub proof fn lemma_cm31_results_wf(x: CM31, y: CM31)
    ensures
        cm31_add(x, y).wf(),
        cm31_mul(x, y).wf(),
{
    reveal(cm31_add);
    reveal(cm31_mul);
    lemma_m31_of_int_val(x.0.val() + y.0.val());
    lemma_m31_of_int_val(x.1.val() + y.1.val());
    let (p, q) = (mul_m(x.0, y.0), mul_m(x.1, y.1));
    let (u, v) = (mul_m(x.0, y.1), mul_m(x.1, y.0));
    lemma_m31_of_int_val(p.val() - q.val());
    lemma_m31_of_int_val(u.val() + v.val());
}

/// Multiplication of complex elements distributes over addition, on both
/// sides.
pub proof fn lemma_cm31_distributive(x: CM31, y: CM31, z: CM31)
    requires
        x.wf(),
        y.wf(),
        z.wf(),
    ensures
        cm31_mul(x, cm31_add(y, z)) == cm31_add(cm31_mul(x, y), cm31_mul(x, z)),
        cm31_mul(cm31_add(x, y), z) == cm31_add(cm31_mul(x, z), cm31_mul(y, z)),
{
    let (x0, x1, y0, y1, z0, z1) = (x.0.val(), x.1.val(), y.0.val(), y.1.val(), z.0.val(), z.1.val());
    lemma_cm31_canonical(x);
    lemma_cm31_canonical(y);
    lemma_cm31_canonical(z);
    lemma_cm31_of_ints_ops(y0, y1, z0, z1);
    lemma_cm31_of_ints_ops(x0, x1, y0 + z0, y1 + z1);
    lemma_cm31_of_ints_ops(x0, x1, y0, y1);
    lemma_cm31_of_ints_ops(x0, x1, z0, z1);
    lemma_cm31_of_ints_ops(cre(x0, x1, y0, y1), cim(x0, x1, y0, y1), cre(x0, x1, z0, z1), cim(x0, x1, z0, z1));
    assert(x0 * (y0 + z0) == x0 * y0 + x0 * z0 && x1 * (y1 + z1) == x1 * y1 + x1 * z1 && x0 * (y1
        + z1) == x0 * y1 + x0 * z1 && x1 * (y0 + z0) == x1 * y0 + x1 * z0) by (nonlinear_arith);
    lemma_cm31_of_ints_ops(x0, x1, y0, y1);
    lemma_cm31_of_ints_ops(x0 + y0, x1 + y1, z0, z1);
    lemma_cm31_of_ints_ops(y0, y1, z0, z1);
    lemma_cm31_of_ints_ops(cre(x0, x1, z0, z1), cim(x0, x1, z0, z1), cre(y0, y1, z0, z1), cim(y0, y1, z0, z1));
    assert((x0 + y0) * z0 == x0 * z0 + y0 * z0 && (x1 + y1) * z1 == x1 * z1 + y1 * z1 && (x0 + y0)
        * z1 == x0 * z1 + y0 * z1 && (x1 + y1) * z0 == x1 * z0 + y1 * z0) by (nonlinear_arith);
}

/// The sum of complex residues is the residue of the sums of the parts.
proof fn lemma_cm31_of_ints_add(x0: int, x1: int, y0: int, y1: int)
    ensures
        cm31_add(cm31_of_ints(x0, x1), cm31_of_ints(y0, y1)) == cm31_of_ints(x0 + y0, x1 + y1),
{
    reveal(cm31_add);
    lemma_m31_of_int_val(x0);
    lemma_m31_of_int_val(x1);
    lemma_m31_of_int_val(y0);
    lemma_m31_of_int_val(y1);
    let p = P as int;
    lemma_add_mod_noop(x0, y0, p);
    lemma_add_mod_noop(x1, y1, p);
}

/// Four canonical complex elements add up to the same sum in the orders
/// `(p + q) + (r + s)`, `(p + r) + (s + q)`, `(p + s) + (q + r)` and
/// `(p + r) + (q + s)`.
#[verifier::rlimit(30)]
pub proof fn lemma_cm31_add4(p: CM31, q: CM31, r: CM31, s: CM31)
    requires
        p.wf(),
        q.wf(),
        r.wf(),
        s.wf(),
    ensures
        cm31_add(cm31_add(p, q), cm31_add(r, s)) == cm31_add(cm31_add(p, r), cm31_add(s, q)),
        cm31_add(cm31_add(p, s), cm31_add(q, r)) == cm31_add(cm31_add(p, q), cm31_add(r, s)),
        cm31_add(cm31_add(p, r), cm31_add(q, s)) == cm31_add(cm31_add(p, q), cm31_add(r, s)),
{
    let (p0, p1, q0, q1) = (p.0.val(), p.1.val(), q.0.val(), q.1.val());
    let (r0, r1, s0, s1) = (r.0.val(), r.1.val(), s.0.val(), s.1.val());
    lemma_cm31_canonical(p);
    lemma_cm31_canonical(q);
    lemma_cm31_canonical(r);
    lemma_cm31_canonical(s);
    lemma_cm31_of_ints_add(p0, p1, q0, q1);
    lemma_cm31_of_ints_add(r0, r1, s0, s1);
    lemma_cm31_of_ints_add(p0 + q0, p1 + q1, r0 + s0, r1 + s1);
    lemma_cm31_of_ints_add(p0, p1, r0, r1);
    lemma_cm31_of_ints_add(s0, s1, q0, q1);
    lemma_cm31_of_ints_add(p0 + r0, p1 + r1, s0 + q0, s1 + q1);
    lemma_cm31_of_ints_add(p0, p1, s0, s1);
    lemma_cm31_of_ints_add(q0, q1, r0, r1);
    lemma_cm31_of_ints_add(p0 + s0, p1 + s1, q0 + r0, q1 + r1);
    lemma_cm31_of_ints_add(q0, q1, s0, s1);
    lemma_cm31_of_ints_add(p0 + r0, p1 + r1, q0 + s0, q1 + s1);
    assert(p0 + q0 + (r0 + s0) == p0 + r0 + (s0 + q0));
}

/// Multiplication of degree-4 elements is associative.
#[verifier::spinoff_prover]
#[verifier::rlimit(80)]
pub proof fn lemma_qm31_mul_assoc(x: QM31, y: QM31, z: QM31)
    requires
        x.wf(),
        y.wf(),
        z.wf(),
    ensures
        qm31_mul(qm31_mul(x, y), z) == qm31_mul(x, qm31_mul(y, z)),
{
    reveal(qm31_mul);
    let (a, b, c, d, e, f) = (x.0, x.1, y.0, y.1, z.0, z.1);
    let rr = r_const();
    let rb = cm31_mul(rr, b);
    let rd = cm31_mul(rr, d);
    let (ac, ad, bc, df) = (cm31_mul(a, c), cm31_mul(a, d), cm31_mul(b, c), cm31_mul(d, f));
    let rbd = cm31_mul(rb, d);
    let xy0 = cm31_add(ac, rbd);
    let xy1 = cm31_add(ad, bc);
    let (ce, cf, de) = (cm31_mul(c, e), cm31_mul(c, f), cm31_mul(d, e));
    let rdf = cm31_mul(rd, f);
    let yz0 = cm31_add(ce, rdf);
    let yz1 = cm31_add(cf, de);
    // every intermediate value is canonical
    lemma_cm31_results_wf(rr, b);
    lemma_cm31_results_wf(rr, d);
    lemma_cm31_results_wf(a, c);
    lemma_cm31_results_wf(a, d);
    lemma_cm31_results_wf(b, c);
    lemma_cm31_results_wf(d, f);
    lemma_cm31_results_wf(rb, d);
    lemma_cm31_results_wf(ac, rbd);
    lemma_cm31_results_wf(ad, bc);
    lemma_cm31_results_wf(c, e);
    lemma_cm31_results_wf(c, f);
    lemma_cm31_results_wf(d, e);
    lemma_cm31_results_wf(rd, f);
    lemma_cm31_results_wf(ce, rdf);
    lemma_cm31_results_wf(cf, de);
    lemma_cm31_results_wf(rr, ad);
    lemma_cm31_results_wf(rr, bc);
    lemma_cm31_results_wf(ad, f);
    lemma_cm31_results_wf(a, df);
    lemma_cm31_results_wf(rr, df);
    lemma_cm31_results_wf(rr, a);
    // the second half: (p + q) + (r + s) with p = (ac)f, q = ((rb)d)f,
    // r = (ad)e, s = (bc)e
    lemma_cm31_distributive(ac, rbd, f);
    lemma_cm31_distributive(ad, bc, e);
    lemma_cm31_distributive(a, cf, de);
    lemma_cm31_distributive(b, ce, rdf);
    lemma_cm31_mul_assoc(a, c, f);
    lemma_cm31_mul_assoc(a, d, e);
    lemma_cm31_mul_assoc(b, c, e);
    lemma_cm31_mul_assoc(rb, d, f);
    lemma_cm31_mul_comm(rr, b);
    lemma_cm31_mul_assoc(b, rr, df);
    lemma_cm31_mul_assoc(rr, d, f);
    let (p1, q1, r1, s1) = (cm31_mul(ac, f), cm31_mul(rbd, f), cm31_mul(ad, e), cm31_mul(bc, e));
    lemma_cm31_results_wf(ac, f);
    lemma_cm31_results_wf(rbd, f);
    lemma_cm31_results_wf(ad, e);
    lemma_cm31_results_wf(bc, e);
    assert(cm31_mul(b, rdf) == q1);
    lemma_cm31_add4(p1, q1, r1, s1);
    // the first half: (p + q) + (r + s) with p = (ac)e, q = ((rb)d)e,
    // r = (rr (ad))f, s = (rr (bc))f
    let rxy1 = cm31_mul(rr, xy1);
    lemma_cm31_distributive(ac, rbd, e);
    lemma_cm31_distributive(rr, ad, bc);
    lemma_cm31_distributive(cm31_mul(rr, ad), cm31_mul(rr, bc), f);
    lemma_cm31_distributive(a, ce, rdf);
    lemma_cm31_distributive(rb, cf, de);
    lemma_cm31_mul_assoc(a, c, e);
    lemma_cm31_mul_assoc(rb, d, e);
    lemma_cm31_mul_assoc(rr, ad, f);
    lemma_cm31_mul_assoc(a, d, f);
    lemma_cm31_mul_assoc(rr, a, df);
    lemma_cm31_mul_comm(rr, a);
    lemma_cm31_mul_assoc(a, rr, df);
    lemma_cm31_mul_assoc(rr, b, c);
    lemma_cm31_mul_assoc(rb, c, f);
    let (p0, q0) = (cm31_mul(ac, e), cm31_mul(rbd, e));
    let (r0, s0) = (cm31_mul(cm31_mul(rr, ad), f), cm31_mul(cm31_mul(rr, bc), f));
    lemma_cm31_results_wf(ac, e);
    lemma_cm31_results_wf(rbd, e);
    lemma_cm31_results_wf(cm31_mul(rr, ad), f);
    lemma_cm31_results_wf(cm31_mul(rr, bc), f);
    assert(cm31_mul(a, rdf) == r0);
    assert(cm31_mul(rb, cf) == s0);
    assert(cm31_mul(rb, de) == q0);
    lemma_cm31_add4(p0, q0, r0, s0);
}

/// Addition of complex elements is commutative.
pub proof fn lemma_cm31_add_comm(x: CM31, y: CM31)
    ensures
        cm31_add(x, y) == cm31_add(y, x),
{
    reveal(cm31_add);
}

/// Multiplication of degree-4 elements is commutative.
#[verifier::spinoff_prover]
#[verifier::rlimit(40)]
pub proof fn lemma_qm31_mul_comm(x: QM31, y: QM31)
    requires
        x.wf(),
        y.wf(),
    ensures
        qm31_mul(x, y) == qm31_mul(y, x),
{
    reveal(qm31_mul);
    let (a, b, c, d) = (x.0, x.1, y.0, y.1);
    let rr = r_const();
    lemma_cm31_results_wf(rr, b);
    lemma_cm31_results_wf(rr, d);
    lemma_cm31_results_wf(b, d);
    lemma_cm31_mul_comm(a, c);
    lemma_cm31_mul_comm(a, d);
    lemma_cm31_mul_comm(b, c);
    lemma_cm31_mul_comm(b, d);
    lemma_cm31_mul_assoc(rr, b, d);
    lemma_cm31_mul_assoc(rr, d, b);
    lemma_cm31_add_comm(cm31_mul(a, d), cm31_mul(b, c));
}

/// One is neutral for the multiplication of degree-4 elements.
pub proof fn lemma_qm31_mul_one(x: QM31)
    requires
        x.wf(),
    ensures
        qm31_mul(x, qm31_one()) == x,
        qm31_mul(qm31_one(), x) == x,
{
    reveal(qm31_mul);
    let (a0, a1, b0, b1) = (x.0.0.val(), x.0.1.val(), x.1.0.val(), x.1.1.val());
    lemma_cm31_canonical(x.0);
    lemma_cm31_canonical(x.1);
    lemma_small_mod(1, P as nat);
    lemma_small_mod(0, P as nat);
    lemma_small_mod(2, P as nat);
    assert(r_const() == cm31_of_ints(2, 1));
    assert(qm31_one().0 == cm31_of_ints(1, 0));
    assert(qm31_one().1 == cm31_of_ints(0, 0));
    lemma_cm31_of_ints_ops(a0, a1, 1, 0);
    lemma_cm31_of_ints_ops(2, 1, b0, b1);
    lemma_cm31_of_ints_ops(cre(2, 1, b0, b1), cim(2, 1, b0, b1), 0, 0);
    lemma_cm31_of_ints_ops(a0, a1, 0, 0);
    lemma_cm31_of_ints_ops(b0, b1, 1, 0);
    lemma_cm31_of_ints_ops(a0, a1, cre(2, 1, b0, b1) * 0 - cim(2, 1, b0, b1) * 0, cre(2, 1, b0, b1) * 0
        + cim(2, 1, b0, b1) * 0);
    lemma_cm31_of_ints_add(a0, a1, 0, 0);
    lemma_cm31_of_ints_add(0, 0, b0, b1);
    lemma_cm31_of_ints_ops(1, 0, a0, a1);
    lemma_cm31_of_ints_ops(2, 1, 0, 0);
    lemma_cm31_of_ints_ops(0, 0, b0, b1);
    lemma_cm31_of_ints_ops(1, 0, b0, b1);
    lemma_cm31_of_ints_ops(0, 0, a0, a1);
    lemma_cm31_of_ints_add(a0, a1, 0, 0);
    lemma_cm31_of_ints_add(b0, b1, 0, 0);
}

/// The powers of a degree-4 element: `a^0 = 1` and `a^(n + 1) = a a^n`.
pub open spec fn qm31_pow(a: QM31, n: nat) -> QM31
    decreases n,
{
    if n == 0 {
        qm31_one()
    } else {
        qm31_mul(a, qm31_pow(a, (n - 1) as nat))
    }
}

/// `-(o + (-p)) == p - o` in the base field.
proof fn lemma_m31_neg_of_difference(p: M31, o: M31)
    requires
        p.wf(),
        o.wf(),
    ensures
        neg_m(add_m(o, neg_m(p))) == sub_m(p, o),
{
    let (pv, ov) = (p.val(), o.val());
    lemma_m31_canonical(p);
    lemma_m31_canonical(o);
    lemma_m31_of_int_ops(pv, ov);
    lemma_m31_of_int_ops(ov, -pv);
    lemma_m31_of_int_ops(ov - pv, 0);
    assert(-(ov - pv) == pv - ov);
}

/// Sums, differences, negations, products and inverses of degree-4 elements
/// are canonical.
pub proof fn lemma_qm31_results_wf(x: QM31, y: QM31)
    ensures
        qm31_add(x, y).wf(),
        qm31_sub(x, y).wf(),
        qm31_neg(x).wf(),
        qm31_mul(x, y).wf(),
        qm31_inverse(x).wf(),
{
    reveal(qm31_add);
    reveal(qm31_sub);
    reveal(qm31_neg);
    reveal(qm31_mul);
    reveal(cm31_add);
    reveal(cm31_sub);
    reveal(cm31_neg);
    reveal(cm31_mul);
    assert forall|a: M31, b: M31| #![auto] add_m(a, b).wf() && sub_m(a, b).wf() && neg_m(a).wf()
        && mul_m(a, b).wf() by {
        lemma_m31_of_int_val(a.val() + b.val());
        lemma_m31_of_int_val(a.val() - b.val());
        lemma_m31_of_int_val(-a.val());
        lemma_m31_of_int_val(a.val() * b.val());
    }
}

/// The point `((1 - t^2) / (1 + t^2), 2 t / (1 + t^2))` passes the checks
/// `-(x (t^2 + 1)) == t^2 - 1` and `y (t^2 + 1) == t + t`.
#[verifier::rlimit(30)]
pub proof fn lemma_circle_point_checks(t: QM31)
    requires
        t.wf(),
        qm31_invertible(qm31_add(qm31_mul(t, t), qm31_one())),
    ensures
        ({
            let tt = qm31_mul(t, t);
            let s = qm31_add(tt, qm31_one());
            let inv = qm31_inverse(s);
            &&& qm31_neg(qm31_mul(qm31_mul(qm31_add(qm31_one(), qm31_neg(tt)), inv), s)) == qm31_sub(
                tt,
                qm31_one(),
            )
            &&& qm31_mul(qm31_mul(qm31_add(t, t), inv), s) == qm31_add(t, t)
        }),
{
    let tt = qm31_mul(t, t);
    let s = qm31_add(tt, qm31_one());
    let inv = qm31_inverse(s);
    let u = qm31_add(qm31_one(), qm31_neg(tt));
    let w = qm31_add(t, t);
    lemma_qm31_results_wf(t, t);
    lemma_qm31_results_wf(tt, qm31_one());
    lemma_qm31_results_wf(s, s);
    lemma_qm31_results_wf(qm31_one(), qm31_neg(tt));
    lemma_qm31_results_wf(tt, tt);
    lemma_qm31_inverse(s);
    lemma_qm31_mul_comm(inv, s);
    lemma_qm31_mul_assoc(u, inv, s);
    lemma_qm31_mul_assoc(w, inv, s);
    lemma_qm31_mul_one(u);
    lemma_qm31_mul_one(w);
    reveal(qm31_add);
    reveal(qm31_sub);
    reveal(qm31_neg);
    reveal(cm31_add);
    reveal(cm31_sub);
    reveal(cm31_neg);
    lemma_m31_neg_of_difference(tt.0.0, M31(1));
    lemma_m31_neg_of_difference(tt.0.1, M31(0));
    lemma_m31_neg_of_difference(tt.1.0, M31(0));
    lemma_m31_neg_of_difference(tt.1.1, M31(0));
}

} // verus!
