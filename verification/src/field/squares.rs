use crate::field::algebra::{
    cm31_of_ints, lemma_cm31_canonical, lemma_cm31_inverse, lemma_cm31_mul_assoc,
    lemma_cm31_mul_comm, lemma_cm31_mul_one, lemma_cm31_of_ints_ops, lemma_cm31_results_wf,
    lemma_m31_canonical, lemma_m31_of_int_ops, lemma_m31_of_int_val,
};
use crate::field::cm31::{
    cm31_add, cm31_inverse_with, cm31_mul, cm31_norm, cm31_one, cm31_sub, cm31_zero, CM31,
};
use crate::field::m31::{inv_m, lemma_inverse_exists, neg_m, M31, P};
use crate::field::qm31::{qm31_denom, qm31_invertible, qm31_zero, r_const, QM31};
use vstd::arithmetic::div_mod::{
    lemma_fundamental_div_mod, lemma_fundamental_div_mod_converse, lemma_mod_bound,
    lemma_mod_multiples_basic, lemma_mul_mod_noop, lemma_mul_mod_noop_left,
    lemma_mul_mod_noop_right, lemma_small_mod,
};
use vstd::prelude::*;
use vstd::set_lib::{lemma_int_range, set_int_range};

verus! {

/// If `d y` is a multiple of `P` and `y` is not, then `d` is.
proof fn lemma_cancel_nonzero(d: int, y: int)
    requires
        0 < y < P,
        (d * y) % (P as int) == 0,
    ensures
        d % (P as int) == 0,
{
    let p = P as int;
    let m = M31(y as u32);
    lemma_inverse_exists(m);
    let w = inv_m(m).val();
    lemma_mul_mod_noop_right(d, y * w, p);
    lemma_small_mod(1, P as nat);
    assert(d * (y * w) == (d * y) * w) by (nonlinear_arith);
    lemma_mul_mod_noop_left(d * y, w, p);
}

/// `c y` reduced modulo `P`.
spec fn times(c: int, y: int) -> int {
    (c * y) % (P as int)
}

/// `c` is a square root of `-1` modulo `P`.
spec fn is_sqrt_minus_one(c: int) -> bool {
    0 <= c < P && (c * c) % (P as int) == P - 1
}

/// Multiplying by a square root `c` of `-1` maps `[1, P)` to itself, twice
/// gives the negation, commutes with negation, and moves every element to
/// something else than itself or its negation.
proof fn lemma_times_root(c: int, y: int)
    requires
        is_sqrt_minus_one(c),
        0 < y < P,
    ensures
        0 < times(c, y) < P,
        times(c, times(c, y)) == P - y,
        times(c, P - y) == P - times(c, y),
        times(c, y) != y,
        times(c, y) != P - y,
{
    let p = P as int;
    let z = (c * y) % p;
    lemma_mod_bound(c * y, p);
    assert(c != 0) by {
        if c == 0 {
            assert(c * c == 0) by (nonlinear_arith)
                requires
                    c == 0,
            ;
        }
    }
    assert(z != 0) by {
        if z == 0 {
            lemma_cancel_nonzero(c, y);
            lemma_small_mod(c as nat, P as nat);
        }
    }
    // c (c y) == (c c) y == -y
    lemma_mul_mod_noop_right(c, c * y, p);
    assert(c * (c * y) == (c * c) * y) by (nonlinear_arith);
    lemma_mul_mod_noop_left(c * c, y, p);
    assert((p - 1) * y == (y - 1) * p + (p - y)) by (nonlinear_arith);
    lemma_fundamental_div_mod_converse((p - 1) * y, p, y - 1, p - y);
    // c (P - y) == -(c y)
    lemma_fundamental_div_mod(c * y, p);
    let k = (c * y) / p;
    assert(c * (p - y) == (c - k - 1) * p + (p - z)) by (nonlinear_arith)
        requires
            c * y == p * k + z,
    ;
    lemma_fundamental_div_mod_converse(c * (p - y), p, c - k - 1, p - z);
    if z == y {
        assert((c - 1) * y == k * p) by (nonlinear_arith)
            requires
                c * y == p * k + z,
                z == y,
        ;
        lemma_mod_multiples_basic(k, p);
        lemma_cancel_nonzero(c - 1, y);
        lemma_small_mod((c - 1) as nat, P as nat);
        assert(c * c == 1);
        lemma_small_mod(1, P as nat);
    }
    if z == p - y {
        assert((c + 1) * y == (k + 1) * p) by (nonlinear_arith)
            requires
                c * y == p * k + z,
                z == p - y,
        ;
        lemma_mod_multiples_basic(k + 1, p);
        lemma_cancel_nonzero(c + 1, y);
        if c + 1 < p {
            lemma_small_mod((c + 1) as nat, P as nat);
        }
        assert(c * c == (p - 2) * p + 1) by (nonlinear_arith)
            requires
                c == p - 1,
        ;
        lemma_fundamental_div_mod_converse(c * c, p, p - 2, 1);
    }
}

/// A finite set of elements of `[1, P)` that multiplication by a square root
/// of `-1` keeps inside splits into orbits of four, so its size is a multiple
/// of four.
proof fn lemma_orbits_of_four(s: Set<int>, c: int)
    requires
        is_sqrt_minus_one(c),
        s.finite(),
        forall|y: int| #[trigger] s.contains(y) ==> 0 < y < P,
        forall|y: int| #[trigger] s.contains(y) ==> s.contains(times(c, y)),
    ensures
        s.len() % 4 == 0,
    decreases s.len(),
{
    if s.is_empty() {
        assert(s =~= Set::empty());
    } else {
        let p = P as int;
        let y = s.choose();
        let z = times(c, y);
        lemma_times_root(c, y);
        lemma_times_root(c, z);
        assert(s.contains(z));
        assert(s.contains(p - y));
        assert(s.contains(p - z));
        let s2 = s.remove(y).remove(z).remove(p - y).remove(p - z);
        assert forall|w: int| #[trigger] s2.contains(w) implies s2.contains(times(c, w)) by {
            let v = times(c, w);
            lemma_times_root(c, w);
            assert(s.contains(v));
            if v == y || v == z || v == p - y || v == p - z {
                lemma_times_root(c, v);
            }
        }
        lemma_orbits_of_four(s2, c);
    }
}

/// `-1` has no square root modulo `P`.
pub proof fn lemma_no_square_root_of_minus_one(c: int)
    requires
        0 <= c < P,
    ensures
        (c * c) % (P as int) != P - 1,
{
    if (c * c) % (P as int) == P - 1 {
        let s = set_int_range(1, P as int);
        lemma_int_range(1, P as int);
        assert forall|y: int| #[trigger] s.contains(y) implies s.contains(times(c, y)) by {
            lemma_times_root(c, y);
        }
        lemma_orbits_of_four(s, c);
    }
}

/// A complex element has norm zero exactly when it is zero, so every nonzero
/// complex element is invertible.
pub proof fn lemma_cm31_norm_zero(a: CM31)
    requires
        a.wf(),
    ensures
        cm31_norm(a).0 == 0 <==> a == cm31_zero(),
{
    let p = P as int;
    let (a0, a1) = (a.0.val(), a.1.val());
    lemma_cm31_canonical(a);
    lemma_cm31_of_ints_ops(a0, a1, 0, 0);
    lemma_m31_of_int_val(a0 * a0 + a1 * a1);
    let n = a0 * a0 + a1 * a1;
    if cm31_norm(a).0 == 0 {
        assert(n % p == 0);
        if a1 != 0 {
            let m = M31(a1 as u32);
            lemma_inverse_exists(m);
            let w = inv_m(m).val();
            lemma_fundamental_div_mod(n, p);
            lemma_fundamental_div_mod(a1 * w, p);
            let k = n / p;
            let j = (a1 * w) / p;
            let x = a0 * w;
            let (aa, bb, ww, bw) = (a0 * a0, a1 * a1, w * w, a1 * w);
            assert(x * x == aa * ww) by (nonlinear_arith)
                requires
                    x == a0 * w,
                    aa == a0 * a0,
                    ww == w * w,
            ;
            assert(bb * ww == bw * bw) by (nonlinear_arith)
                requires
                    bb == a1 * a1,
                    ww == w * w,
                    bw == a1 * w,
            ;
            assert(bw * bw == (p * j * j + 2 * j) * p + 1) by (nonlinear_arith)
                requires
                    bw == p * j + 1,
            ;
            assert(aa * ww == (k * ww) * p - bb * ww) by (nonlinear_arith)
                requires
                    aa == p * k - bb,
            ;
            let q = k * ww - (p * j * j + 2 * j) - 1;
            assert(x * x == q * p + (p - 1));
            lemma_fundamental_div_mod_converse(x * x, p, q, p - 1);
            lemma_mul_mod_noop(x, x, p);
            lemma_mod_bound(x, p);
            lemma_no_square_root_of_minus_one(x % p);
        } else if a0 != 0 {
            assert(n == a0 * a0);
            lemma_cancel_nonzero(a0, a0);
            lemma_small_mod(a0 as nat, P as nat);
        }
    } else {
        if a0 == 0 && a1 == 0 {
            lemma_small_mod(0, P as nat);
        }
    }
}

/// `b^n` reduced modulo `P` after each multiplication.
pub open spec fn pow_mod(b: int, n: nat) -> int
    decreases n,
{
    if n == 0 {
        1
    } else {
        (b * pow_mod(b, (n - 1) as nat)) % (P as int)
    }
}

/// Multiplication modulo `P`, the step of `product`.
spec fn mul_mod_step() -> spec_fn(int, int) -> int {
    |acc: int, x: int| (acc * x) % (P as int)
}

/// The product modulo `P` of the elements of a finite set.
spec fn product(s: Set<int>) -> int {
    s.fold(1, mul_mod_step())
}

/// `mul_mod_step` does not depend on the order of the elements.
proof fn lemma_mul_mod_step_commutative()
    ensures
        vstd::set::fold::is_fun_commutative(mul_mod_step()),
{
    let p = P as int;
    let f = mul_mod_step();
    assert forall|a1: int, a2: int, b: int| #[trigger] f(f(b, a2), a1) == f(f(b, a1), a2) by {
        lemma_mul_mod_noop_left(b * a2, a1, p);
        lemma_mul_mod_noop_left(b * a1, a2, p);
        assert((b * a2) * a1 == (b * a1) * a2) by (nonlinear_arith);
    }
}

/// Multiplication by `a` modulo `P`.
spec fn fwd(a: int, x: int) -> int {
    (a * x) % (P as int)
}

/// The image of `s` under multiplication by `a`, written with the inverse
/// `w` of `a`.
spec fn scaled(s: Set<int>, a: int, w: int) -> Set<int> {
    Set::new(|b: int| s.contains(fwd(w, b)) && b == fwd(a, fwd(w, b)))
}

/// Multiplying by `a` and then by its inverse `w` gives back every element of
/// `[0, P)`.
proof fn lemma_fwd_back(a: int, w: int, x: int)
    requires
        (a * w) % (P as int) == 1,
        0 <= x < P,
    ensures
        fwd(w, fwd(a, x)) == x,
{
    let p = P as int;
    lemma_mul_mod_noop_right(w, a * x, p);
    assert(w * (a * x) == (a * w) * x) by (nonlinear_arith);
    lemma_mul_mod_noop_left(a * w, x, p);
    lemma_small_mod(x as nat, P as nat);
}

/// A set of nonzero residues has a nonzero product.
proof fn lemma_product_nonzero(s: Set<int>)
    requires
        s.finite(),
        forall|x: int| #[trigger] s.contains(x) ==> 0 < x < P,
    ensures
        0 < product(s) < P,
    decreases s.len(),
{
    let p = P as int;
    lemma_mul_mod_step_commutative();
    if s.is_empty() {
        assert(s =~= Set::empty());
        vstd::set::fold::lemma_fold_empty(1, mul_mod_step());
    } else {
        let x = s.choose();
        let s2 = s.remove(x);
        lemma_product_nonzero(s2);
        assert(s2.insert(x) =~= s);
        vstd::set::fold::lemma_fold_insert(s2, 1, mul_mod_step(), x);
        let d = product(s2);
        lemma_mod_bound(d * x, p);
        if (d * x) % p == 0 {
            lemma_cancel_nonzero(d, x);
            lemma_small_mod(d as nat, P as nat);
        }
    }
}

/// Multiplying every element of `s` by `a` multiplies the product by
/// `a^|s|`.
proof fn lemma_scaled_product(s: Set<int>, a: int, w: int)
    requires
        s.finite(),
        forall|x: int| #[trigger] s.contains(x) ==> 0 < x < P,
        (a * w) % (P as int) == 1,
    ensures
        scaled(s, a, w).finite(),
        product(scaled(s, a, w)) == (pow_mod(a, s.len()) * product(s)) % (P as int),
    decreases s.len(),
{
    let p = P as int;
    lemma_mul_mod_step_commutative();
    if s.is_empty() {
        assert(s =~= Set::empty());
        assert(scaled(s, a, w) =~= Set::empty());
        vstd::set::fold::lemma_fold_empty(1, mul_mod_step());
    } else {
        let x = s.choose();
        let s2 = s.remove(x);
        lemma_scaled_product(s2, a, w);
        lemma_fwd_back(a, w, x);
        let fx = fwd(a, x);
        assert(s2.insert(x) =~= s);
        assert(scaled(s2, a, w).insert(fx) =~= scaled(s, a, w));
        assert(!scaled(s2, a, w).contains(fx));
        vstd::set::fold::lemma_fold_insert(s2, 1, mul_mod_step(), x);
        vstd::set::fold::lemma_fold_insert(scaled(s2, a, w), 1, mul_mod_step(), fx);
        let pa = pow_mod(a, s2.len());
        let b = product(s2);
        lemma_mul_mod_noop(pa * b, a * x, p);
        lemma_mul_mod_noop(a * pa, b * x, p);
        assert((pa * b) * (a * x) == (a * pa) * (b * x)) by (nonlinear_arith);
    }
}

/// Fermat: `a^(P - 1) == 1` modulo `P` for every nonzero residue `a`.
pub proof fn lemma_fermat(a: int)
    requires
        0 < a < P,
    ensures
        pow_mod(a, (P - 1) as nat) == 1,
{
    let p = P as int;
    let m = M31(a as u32);
    lemma_inverse_exists(m);
    let w = inv_m(m).val();
    assert(w != 0) by {
        if w == 0 {
            assert(a * w == 0);
            lemma_small_mod(0, P as nat);
        }
    }
    let s = set_int_range(1, p);
    lemma_int_range(1, p);
    lemma_scaled_product(s, a, w);
    assert forall|b: int| #[trigger] s.contains(b) implies scaled(s, a, w).contains(b) by {
        lemma_mod_bound(w * b, p);
        if (w * b) % p == 0 {
            lemma_cancel_nonzero(w, b);
            lemma_small_mod(w as nat, P as nat);
        }
        assert(w * a == a * w) by (nonlinear_arith);
        lemma_fwd_back(w, a, b);
        assert(0 < fwd(w, b) < p);
        assert(s.contains(fwd(w, b)));
        assert(b == fwd(a, fwd(w, b)));
    }
    assert forall|b: int| #[trigger] scaled(s, a, w).contains(b) implies s.contains(b) by {
        let r = fwd(w, b);
        lemma_mod_bound(a * r, p);
        if (a * r) % p == 0 {
            lemma_cancel_nonzero(a, r);
            lemma_small_mod(a as nat, P as nat);
        }
    }
    assert(scaled(s, a, w) =~= s);
    lemma_product_nonzero(s);
    let big_a = pow_mod(a, (p - 1) as nat);
    let b = product(s);
    lemma_mod_bound(a * pow_mod(a, (p - 2) as nat), p);
    lemma_fundamental_div_mod(big_a * b, p);
    let q = (big_a * b) / p;
    assert((big_a - 1) * b == q * p) by (nonlinear_arith)
        requires
            big_a * b == p * q + b,
    ;
    lemma_mod_multiples_basic(q, p);
    lemma_cancel_nonzero(big_a - 1, b);
    if big_a >= 1 {
        lemma_small_mod((big_a - 1) as nat, P as nat);
    }
}

/// `b^(2n) == (b^2)^n` modulo `P`.
proof fn lemma_pow_mod_square(b: int, n: nat)
    ensures
        pow_mod(b, 2 * n) == pow_mod((b * b) % (P as int), n),
    decreases n,
{
    let p = P as int;
    if n > 0 {
        lemma_pow_mod_square(b, (n - 1) as nat);
        let rest = pow_mod(b, (2 * n - 2) as nat);
        assert(pow_mod(b, (2 * n - 1) as nat) == (b * rest) % p);
        lemma_mul_mod_noop_right(b, b * rest, p);
        assert(b * (b * rest) == (b * b) * rest) by (nonlinear_arith);
        lemma_mul_mod_noop_left(b * b, rest, p);
    }
}

/// `b^n` modulo `P` by repeated squaring.
spec fn fast_pow(b: int, n: nat) -> int
    decreases n,
{
    if n == 0 {
        1
    } else if n % 2 == 0 {
        fast_pow((b * b) % (P as int), n / 2)
    } else {
        (b * fast_pow((b * b) % (P as int), n / 2)) % (P as int)
    }
}

/// Repeated squaring computes the power.
proof fn lemma_fast_pow(b: int, n: nat)
    ensures
        fast_pow(b, n) == pow_mod(b, n),
    decreases n,
{
    if n > 0 {
        let bb = (b * b) % (P as int);
        lemma_fast_pow(bb, n / 2);
        lemma_pow_mod_square(b, n / 2);
    }
}

/// `5^((P - 1) / 2) == -1` modulo `P`.
proof fn lemma_five_power()
    ensures
        pow_mod(5, 1073741823) == P - 1,
{
    assert(fast_pow(2147483642, 0) == 1);
    assert(fast_pow(2041534867, 1) == 2041534867);
    assert(fast_pow(479583087, 3) == 375679503);
    assert(fast_pow(1467893795, 7) == 691998618);
    assert(fast_pow(1317625669, 15) == 1669467189);
    assert(fast_pow(1401911815, 31) == 1945138564);
    assert(fast_pow(780729395, 63) == 484169588);
    assert(fast_pow(114773075, 127) == 1261708078);
    assert(fast_pow(1200896415, 255) == 333257017);
    assert(fast_pow(28939304, 511) == 1620470694);
    assert(fast_pow(1786353027, 1023) == 1735328795);
    assert(fast_pow(850560125, 2047) == 152079419);
    assert(fast_pow(1296694829, 4095) == 1146577450);
    assert(fast_pow(870690664, 8191) == 1222773289);
    assert(fast_pow(241538311, 16383) == 1450685554);
    assert(fast_pow(541363487, 32767) == 720756695);
    assert(fast_pow(184852018, 65535) == 1681594369);
    assert(fast_pow(523043241, 131071) == 1437689740);
    assert(fast_pow(19849525, 262143) == 1370440017);
    assert(fast_pow(1091781300, 524287) == 832247988);
    assert(fast_pow(1283853307, 1048575) == 1224801833);
    assert(fast_pow(824369415, 2097151) == 350306822);
    assert(fast_pow(121052136, 4194303) == 143771236);
    assert(fast_pow(943831652, 8388607) == 104748125);
    assert(fast_pow(1375672677, 16777215) == 108478589);
    assert(fast_pow(1619494384, 33554431) == 1796779799);
    assert(fast_pow(116551688, 67108863) == 955091284);
    assert(fast_pow(390625, 134217727) == 198819190);
    assert(fast_pow(625, 268435455) == 1855425871);
    assert(fast_pow(25, 536870911) == 1288490188);
    assert(fast_pow(5, 1073741823) == 2147483646);
    lemma_fast_pow(5, 1073741823);
}

/// `5` has no square root modulo `P`.
pub proof fn lemma_five_not_square(e: int)
    requires
        0 <= e < P,
    ensures
        (e * e) % (P as int) != 5,
{
    if (e * e) % (P as int) == 5 {
        if e == 0 {
            assert(e * e == 0);
        }
        lemma_fermat(e);
        lemma_pow_mod_square(e, 1073741823);
        lemma_five_power();
    }
}

/// `2 + i`, the square of `u` in the degree-4 extension, is not the square of
/// a complex element.
pub proof fn lemma_two_plus_i_not_square(d: CM31)
    requires
        d.wf(),
    ensures
        cm31_mul(d, d) != r_const(),
{
    let p = P as int;
    let (x, y) = (d.0.val(), d.1.val());
    lemma_cm31_canonical(d);
    lemma_cm31_of_ints_ops(x, y, x, y);
    let (u, v) = (x * x - y * y, x * y + y * x);
    if cm31_mul(d, d) == r_const() {
        lemma_m31_of_int_val(u);
        lemma_m31_of_int_val(v);
        lemma_fundamental_div_mod(u, p);
        lemma_fundamental_div_mod(v, p);
        let (k1, k2) = (u / p, v / p);
        let n = x * x + y * y;
        assert(n * n == u * u + v * v) by (nonlinear_arith)
            requires
                n == x * x + y * y,
                u == x * x - y * y,
                v == x * y + y * x,
        ;
        assert(u * u == (4 * k1 + k1 * k1 * p) * p + 4) by (nonlinear_arith)
            requires
                u == p * k1 + 2,
        ;
        assert(v * v == (2 * k2 + k2 * k2 * p) * p + 1) by (nonlinear_arith)
            requires
                v == p * k2 + 1,
        ;
        let q = 4 * k1 + k1 * k1 * p + 2 * k2 + k2 * k2 * p;
        lemma_fundamental_div_mod_converse(n * n, p, q, 5);
        lemma_mul_mod_noop(n, n, p);
        lemma_mod_bound(n, p);
        lemma_five_not_square(n % p);
    }
}

/// `(a b) (a b) == (a a) (b b)` for complex elements.
proof fn lemma_cm31_square_of_product(a: CM31, b: CM31)
    requires
        a.wf(),
        b.wf(),
    ensures
        cm31_mul(cm31_mul(a, b), cm31_mul(a, b)) == cm31_mul(cm31_mul(a, a), cm31_mul(b, b)),
{
    let ab = cm31_mul(a, b);
    let bb = cm31_mul(b, b);
    lemma_cm31_results_wf(a, b);
    lemma_cm31_results_wf(b, b);
    lemma_cm31_results_wf(b, a);
    lemma_cm31_mul_assoc(a, b, ab);
    lemma_cm31_mul_assoc(b, a, b);
    lemma_cm31_mul_comm(b, a);
    lemma_cm31_mul_assoc(a, b, b);
    lemma_cm31_mul_assoc(a, a, bb);
}

/// Zero times anything is zero.
proof fn lemma_cm31_mul_zero(y: CM31)
    requires
        y.wf(),
    ensures
        cm31_mul(cm31_zero(), y) == cm31_zero(),
        cm31_mul(y, cm31_zero()) == cm31_zero(),
{
    lemma_small_mod(0, P as nat);
    assert(cm31_zero() == cm31_of_ints(0, 0));
    lemma_cm31_canonical(y);
    lemma_cm31_of_ints_ops(0, 0, y.0.val(), y.1.val());
    lemma_cm31_of_ints_ops(y.0.val(), y.1.val(), 0, 0);
}

/// A complex element whose square is zero is zero.
proof fn lemma_cm31_square_zero(a: CM31)
    requires
        a.wf(),
        cm31_mul(a, a) == cm31_zero(),
    ensures
        a == cm31_zero(),
{
    if a != cm31_zero() {
        lemma_cm31_norm_zero(a);
        lemma_cm31_inverse(a);
        let ai = cm31_inverse_with(a, inv_m(cm31_norm(a)));
        lemma_cm31_mul_assoc(a, a, ai);
        lemma_cm31_mul_one(a);
        lemma_cm31_mul_zero(ai);
    }
}

/// `u - v` is zero exactly when `u == v`, for canonical complex elements.
proof fn lemma_cm31_sub_zero(u: CM31, v: CM31)
    requires
        u.wf(),
        v.wf(),
    ensures
        cm31_sub(u, v) == cm31_zero() <==> u == v,
{
    let p = P as int;
    let (u0, u1, v0, v1) = (u.0.val(), u.1.val(), v.0.val(), v.1.val());
    lemma_cm31_canonical(u);
    lemma_cm31_canonical(v);
    lemma_cm31_of_ints_ops(u0, u1, v0, v1);
    lemma_m31_of_int_val(u0 - v0);
    lemma_m31_of_int_val(u1 - v1);
    lemma_small_difference(u0 - v0);
    lemma_small_difference(u1 - v1);
}

/// A difference of two residues is a multiple of `P` only when it is zero.
proof fn lemma_small_difference(d: int)
    requires
        -P < d < P,
    ensures
        d % (P as int) == 0 <==> d == 0,
{
    let p = P as int;
    if d > 0 {
        lemma_small_mod(d as nat, P as nat);
    } else if d < 0 {
        lemma_fundamental_div_mod_converse(d, p, -1, d + p);
    } else {
        lemma_small_mod(0, P as nat);
    }
}

/// The denominator `a^2 - (2 + i) b^2` of the inverse of `a + b u` is zero
/// exactly when the element is zero.
proof fn lemma_qm31_denom_zero(x: QM31)
    requires
        x.wf(),
    ensures
        qm31_denom(x) == cm31_zero() <==> x == qm31_zero(),
{
    let p = P as int;
    let (a, b) = (x.0, x.1);
    let r = r_const();
    let aa = cm31_mul(a, a);
    let b2 = cm31_mul(b, b);
    let ib2 = CM31(neg_m(b2.1), b2.0);
    lemma_cm31_results_wf(a, a);
    lemma_cm31_results_wf(b, b);
    lemma_cm31_results_wf(r, b2);
    // (b2 + b2) + i b2 == (2 + i) b2
    let (s0, s1) = (b2.0.val(), b2.1.val());
    lemma_cm31_canonical(b2);
    lemma_small_mod(2, P as nat);
    lemma_small_mod(1, P as nat);
    lemma_small_mod(0, P as nat);
    assert(r == cm31_of_ints(2, 1));
    lemma_m31_of_int_ops(s1, 0);
    lemma_m31_canonical(b2.1);
    lemma_m31_canonical(b2.0);
    assert(ib2 == cm31_of_ints(-s1, s0));
    lemma_cm31_of_ints_ops(s0, s1, s0, s1);
    lemma_cm31_of_ints_ops(s0 + s0, s1 + s1, -s1, s0);
    lemma_cm31_of_ints_ops(2, 1, s0, s1);
    let rb2 = cm31_add(cm31_add(b2, b2), ib2);
    assert(rb2 == cm31_mul(r, b2));
    lemma_cm31_sub_zero(aa, rb2);
    assert(qm31_denom(x) == cm31_sub(aa, rb2));
    if x == qm31_zero() {
        lemma_cm31_mul_zero(a);
        lemma_cm31_mul_zero(r);
    }
    if qm31_denom(x) == cm31_zero() && x != qm31_zero() {
        if b == cm31_zero() {
            lemma_cm31_mul_zero(b);
            lemma_cm31_mul_zero(r);
            lemma_cm31_square_zero(a);
        } else {
            lemma_cm31_norm_zero(b);
            lemma_cm31_inverse(b);
            let bi = cm31_inverse_with(b, inv_m(cm31_norm(b)));
            let c = cm31_mul(a, bi);
            lemma_cm31_results_wf(a, bi);
            lemma_cm31_results_wf(bi, bi);
            lemma_cm31_square_of_product(a, bi);
            lemma_cm31_mul_assoc(r, b2, cm31_mul(bi, bi));
            lemma_cm31_square_of_product(b, bi);
            assert(cm31_one().wf());
            lemma_cm31_mul_one(cm31_one());
            lemma_cm31_mul_one(r);
            lemma_two_plus_i_not_square(c);
        }
    }
}

/// A degree-4 element is invertible exactly when it is nonzero.
pub proof fn lemma_qm31_invertible_iff_nonzero(x: QM31)
    requires
        x.wf(),
    ensures
        qm31_invertible(x) <==> x != qm31_zero(),
{
    let den = qm31_denom(x);
    reveal(cm31_sub);
    lemma_cm31_results_wf(x.0, x.0);
    lemma_cm31_results_wf(x.1, x.1);
    let b2 = cm31_mul(x.1, x.1);
    lemma_cm31_results_wf(b2, b2);
    lemma_m31_of_int_val(cm31_mul(x.0, x.0).0.val() - cm31_add(
        cm31_add(b2, b2),
        CM31(neg_m(b2.1), b2.0),
    ).0.val());
    lemma_m31_of_int_val(cm31_mul(x.0, x.0).1.val() - cm31_add(
        cm31_add(b2, b2),
        CM31(neg_m(b2.1), b2.0),
    ).1.val());
    assert(den.wf());
    lemma_cm31_norm_zero(den);
    lemma_qm31_denom_zero(x);
}

} // verus!
