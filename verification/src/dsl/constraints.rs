use crate::dsl::compose::{
    dsl_ready, indices_in, lemma_qm31_entry_at, qm31_entry, qm31_valid_at, qm31_value, table_at,
};
use crate::dsl::framework::{lemma_extends_trans, DslError, Result, DSL};
use crate::dsl::point::{
    add_constant_m31_point_x_only, add_constant_value, double_x_value, point_double_x, CirclePoint,
};
use crate::dsl::compose::{
    alloc_m31_limbs_constant, call_qm31_1add, lemma_qm31_inverse_wf, lemma_qm31_limbs_roundtrip,
    call_qm31_add, call_qm31_limbs_inverse, call_qm31_limbs_mul, call_qm31_sub, call_qm31_to_limbs,
    lemma_qm31_entry, lemma_qm31_i32_limbs, lemma_qm31_ops_wf, nums,
};
use crate::dsl::fiat_shamir::{pair_vanishing_value, pair_vanishing_with_constant_m31_points};
use crate::field::m31::{inv_m, mul_m, sub_m, M31};
use crate::dsl::building_blocks::qm31::qm31_mul_m31_limbs;
use crate::limbs::{lemma_limbs_roundtrip, limbs_value, m31_limbs, qm31_limbs};
use crate::dsl::framework::ElementV;
use crate::dsl::values::qm31_elem;
use crate::field::qm31::{
    qm31_add, qm31_inverse, qm31_invertible, qm31_mul, qm31_mul_m31, qm31_one, qm31_sub, QM31,
};
use vstd::prelude::*;

verus! {

/// The `x` coordinate `x` doubled `k` times.
pub open spec fn doubled_x(x: QM31, k: nat) -> QM31
    decreases k,
{
    if k == 0 {
        x
    } else {
        double_x_value(doubled_x(x, (k - 1) as nat))
    }
}

/// The number of doublings for a coset of size `2^log_size`.
pub open spec fn doublings(log_size: u32) -> nat {
    if log_size >= 1 {
        (log_size - 1) as nat
    } else {
        0
    }
}

/// The vanishing polynomial of a coset of size `2^log_size` at the point
/// `(z_x, z_y)`: the `x` coordinate of `z + shift`, doubled `log_size - 1`
/// times.
pub open spec fn coset_vanishing_value(z_x: QM31, z_y: QM31, shift: CirclePoint, log_size: u32) -> QM31 {
    doubled_x(add_constant_value(z_x, z_y, shift).0, doublings(log_size))
}

/// Evaluates at `(z_x, z_y)` the vanishing polynomial of the coset of size
/// `2^log_size` whose shift `-initial + step / 2` is `shift`.
#[verifier::spinoff_prover]
#[verifier::rlimit(40)]
pub fn coset_vanishing(
    dsl: &mut DSL,
    table: usize,
    z_x: usize,
    z_y: usize,
    shift: CirclePoint,
    log_size: u32,
) -> (r: Result<usize>)
    requires
        shift.wf(),
    ensures
        final(dsl).extends(old(dsl)),
        dsl_ready(old(dsl)) && indices_in(old(dsl).mem(), seq![table, z_x, z_y]) ==> (r is Ok
            <==> table_at(old(dsl).mem(), table) && qm31_valid_at(old(dsl).mem(), z_x) && qm31_valid_at(
            old(dsl).mem(),
            z_y,
        )),
        dsl_ready(old(dsl)) && table_at(old(dsl).mem(), table) && qm31_valid_at(old(dsl).mem(), z_x)
            && qm31_valid_at(old(dsl).mem(), z_y) ==> ({
            let m = old(dsl).mem();
            let n = final(dsl).mem().len();
            &&& n == m.len() + 37 + 4 * doublings(log_size)
            &&& r == Ok::<usize, DslError>((n - 1) as usize)
            &&& final(dsl).mem()[n - 1] == qm31_entry(
                coset_vanishing_value(qm31_value(m, z_x), qm31_value(m, z_y), shift, log_size),
            )
            &&& coset_vanishing_value(qm31_value(m, z_x), qm31_value(m, z_y), shift, log_size).wf()
        }),
{
    let ghost d0: DSL = *dsl;
    let ghost m = dsl.mem();
    let ghost ready = dsl_ready(dsl);
    let ghost valid = table_at(m, table) && qm31_valid_at(m, z_x) && qm31_valid_at(m, z_y);
    let ghost v0 = add_constant_value(qm31_value(m, z_x), qm31_value(m, z_y), shift).0;
    let mut res = add_constant_m31_point_x_only(dsl, table, z_x, z_y, shift)?;
    proof {
        if ready && valid {
            let (x0, y0) = (qm31_value(m, z_x), qm31_value(m, z_y));
            lemma_qm31_ops_wf(qm31_mul_m31(x0, shift.x), qm31_mul_m31(y0, shift.y), shift.x);
            assert(doubled_x(v0, 0) == v0);
        }
    }
    let mut k: u32 = 1;
    while k < log_size
        invariant
            1 <= k,
            k <= log_size || k == 1,
            dsl.extends(&d0),
            d0 == *old(dsl),
            m == d0.mem(),
            ready == dsl_ready(&d0),
            valid == (table_at(m, table) && qm31_valid_at(m, z_x) && qm31_valid_at(m, z_y)),
            ready && indices_in(m, seq![table, z_x, z_y]) ==> valid,
            ready && valid ==> ({
                &&& dsl.mem().len() == m.len() + 37 + 4 * (k - 1)
                &&& res == dsl.mem().len() - 1
                &&& dsl.mem()[res as int] == qm31_entry(doubled_x(v0, (k - 1) as nat))
                &&& doubled_x(v0, (k - 1) as nat).wf()
            }),
        decreases log_size - k,
    {
        let ghost d1: DSL = *dsl;
        proof {
            if ready && valid {
                assert(dsl.mem()[table as int] == m[table as int]);
                lemma_qm31_entry_at(dsl.mem(), res, doubled_x(v0, (k - 1) as nat));
                assert(seq![table, res][0] < dsl.mem().len());
                assert(seq![table, res][1] < dsl.mem().len());
                assert(indices_in(dsl.mem(), seq![table, res]));
            }
        }
        let next = point_double_x(dsl, table, res);
        proof {
            lemma_extends_trans(dsl, &d1, &d0);
        }
        res = next?;
        proof {
            if ready && valid {
                let x = doubled_x(v0, (k - 1) as nat);
                assert(doubled_x(v0, k as nat) == double_x_value(x));
                lemma_qm31_ops_wf(qm31_add(qm31_mul(x, x), qm31_mul(x, x)), qm31_one(), shift.x);
            }
        }
        k = k + 1;
    }
    Ok(res)
}

/// Evaluates at `(z_x, z_y)` the inverse of the vanishing polynomial of the
/// coset of size `2^log_size` with shift `shift`, the denominator of the step
/// constraint, and gives its limbs.
#[verifier::spinoff_prover]
#[verifier::rlimit(40)]
pub fn step_constraint_denominator_inverse_evaluation(
    dsl: &mut DSL,
    table: usize,
    z_x: usize,
    z_y: usize,
    shift: CirclePoint,
    log_size: u32,
) -> (r: Result<usize>)
    requires
        shift.wf(),
    ensures
        final(dsl).extends(old(dsl)),
        dsl_ready(old(dsl)) && indices_in(old(dsl).mem(), seq![table, z_x, z_y]) ==> (r is Ok
            <==> table_at(old(dsl).mem(), table) && qm31_valid_at(old(dsl).mem(), z_x) && qm31_valid_at(
            old(dsl).mem(),
            z_y,
        ) && qm31_invertible(
            coset_vanishing_value(qm31_value(old(dsl).mem(), z_x), qm31_value(old(dsl).mem(), z_y), shift, log_size),
        )),
        dsl_ready(old(dsl)) && table_at(old(dsl).mem(), table) && qm31_valid_at(old(dsl).mem(), z_x)
            && qm31_valid_at(old(dsl).mem(), z_y) && qm31_invertible(
            coset_vanishing_value(qm31_value(old(dsl).mem(), z_x), qm31_value(old(dsl).mem(), z_y), shift, log_size),
        ) ==> ({
            let m = old(dsl).mem();
            let n = final(dsl).mem().len();
            &&& n == m.len() + 39 + 4 * doublings(log_size)
            &&& r == Ok::<usize, DslError>((n - 1) as usize)
            &&& final(dsl).mem()[n - 1] == ("qm31_limbs"@, ElementV::ManyNum(
                qm31_limbs(qm31_inverse(coset_vanishing_value(qm31_value(m, z_x), qm31_value(m, z_y), shift, log_size))),
            ))
        }),
{
    let ghost m = dsl.mem();
    let ghost ready = dsl_ready(dsl);
    let ghost v = coset_vanishing_value(qm31_value(m, z_x), qm31_value(m, z_y), shift, log_size);
    let den = coset_vanishing(dsl, table, z_x, z_y, shift, log_size)?;
    let ghost m1 = dsl.mem();
    proof {
        if ready && table_at(m, table) && qm31_valid_at(m, z_x) && qm31_valid_at(m, z_y) {
            assert(m1.len() == dsl.memory@.len());
            assert(dsl.memory@.len() == dsl.memory.len());
            assert(den as int == m1.len() - 1);
            assert(m1[m1.len() - 1] == qm31_entry(v));
            lemma_qm31_entry_at(m1, den, v);
            lemma_qm31_i32_limbs(qm31_elem(v));
            assert(m1[table as int] == m[table as int]);
        }
    }
    let limbs = call_qm31_to_limbs(dsl, den)?;
    let ghost m2 = dsl.mem();
    proof {
        if ready && table_at(m, table) && qm31_valid_at(m, z_x) && qm31_valid_at(m, z_y) {
            assert(m2[table as int] == m[table as int]);
            assert(nums(m1[den as int].1) == qm31_elem(v));
        }
    }
    let inv = call_qm31_limbs_inverse(dsl, table, limbs)?;
    Ok(inv)
}

/// The step constraint `f(z)^2 + f(gz)^2 - f(g^2 z)` times the pair vanishing
/// polynomial through `e0` and `e1` at `(z_x, z_y)`.
pub open spec fn step_numerator_value(
    fz: QM31,
    fgz: QM31,
    fg2z: QM31,
    z_x: QM31,
    z_y: QM31,
    e0: CirclePoint,
    e1: CirclePoint,
) -> QM31 {
    qm31_mul(
        qm31_sub(qm31_add(qm31_mul(fz, fz), qm31_mul(fgz, fgz)), fg2z),
        pair_vanishing_value(z_x, z_y, e0, e1),
    )
}

/// Computes `f(z)^2 + f(gz)^2 - f(g^2 z)`, the step polynomial before its
/// vanishing factor.
#[verifier::spinoff_prover]
#[verifier::rlimit(60)]
fn step_polynomial_part(dsl: &mut DSL, table: usize, f_z: usize, f_gz: usize, f_g2z: usize) -> (r: Result<usize>)
    ensures
        final(dsl).extends(old(dsl)),
        dsl_ready(old(dsl)) && indices_in(old(dsl).mem(), seq![table, f_z, f_gz, f_g2z]) ==> (r is Ok
            <==> table_at(old(dsl).mem(), table) && qm31_valid_at(old(dsl).mem(), f_z) && qm31_valid_at(
            old(dsl).mem(),
            f_gz,
        ) && qm31_valid_at(old(dsl).mem(), f_g2z)),
        dsl_ready(old(dsl)) && table_at(old(dsl).mem(), table) && qm31_valid_at(old(dsl).mem(), f_z)
            && qm31_valid_at(old(dsl).mem(), f_gz) && qm31_valid_at(old(dsl).mem(), f_g2z) ==> ({
            let m = old(dsl).mem();
            let n = final(dsl).mem().len();
            let a = qm31_value(m, f_z);
            let b = qm31_value(m, f_gz);
            let poly = qm31_sub(qm31_add(qm31_mul(a, a), qm31_mul(b, b)), qm31_value(m, f_g2z));
            &&& n == m.len() + 6
            &&& r == Ok::<usize, DslError>((n - 1) as usize)
            &&& final(dsl).mem()[n - 1] == qm31_entry(poly)
            &&& poly.wf()
        }),
{
    let ghost m = dsl.mem();
    let ghost ready = dsl_ready(dsl);
    let ghost idx = seq![table, f_z, f_gz, f_g2z];
    let ghost (a, b, c) = (qm31_value(m, f_z), qm31_value(m, f_gz), qm31_value(m, f_g2z));
    let ghost ok = ready && table_at(m, table) && qm31_valid_at(m, f_z) && qm31_valid_at(m, f_gz)
        && qm31_valid_at(m, f_g2z);
    let ghost aa = qm31_mul(a, a);
    let ghost bb = qm31_mul(b, b);
    let ghost poly = qm31_sub(qm31_add(aa, bb), c);
    proof {
        if ready && indices_in(m, idx) {
            assert(idx[0] < m.len() && idx[1] < m.len() && idx[2] < m.len() && idx[3] < m.len());
        }
        if nums(m[f_z as int].1).len() == 4 {
            lemma_qm31_i32_limbs(nums(m[f_z as int].1));
        }
        if nums(m[f_gz as int].1).len() == 4 {
            lemma_qm31_i32_limbs(nums(m[f_gz as int].1));
        }
        lemma_qm31_ops_wf(a, a, M31(0));
        lemma_qm31_ops_wf(b, b, M31(0));
        lemma_qm31_ops_wf(aa, bb, M31(0));
        lemma_qm31_ops_wf(qm31_add(aa, bb), c, M31(0));
    }
    let a_limbs = call_qm31_to_limbs(dsl, f_z)?;
    let ghost m1 = dsl.mem();
    let a_sq = call_qm31_limbs_mul(dsl, table, a_limbs, a_limbs)?;
    proof {
        if ok {
            lemma_qm31_entry(m1, aa);
        }
    }
    let b_limbs = call_qm31_to_limbs(dsl, f_gz)?;
    let ghost m3 = dsl.mem();
    let b_sq = call_qm31_limbs_mul(dsl, table, b_limbs, b_limbs)?;
    let ghost m4 = dsl.mem();
    proof {
        if ok {
            lemma_qm31_entry(m3, bb);
            assert(m4[a_sq as int] == m3[a_sq as int]);
        }
    }
    let sum = call_qm31_add(dsl, a_sq, b_sq)?;
    let ghost m5 = dsl.mem();
    proof {
        if ok {
            lemma_qm31_entry(m4, qm31_add(aa, bb));
        }
    }
    let p = call_qm31_sub(dsl, sum, f_g2z)?;
    proof {
        if ok {
            lemma_qm31_entry(m5, poly);
        }
    }
    Ok(p)
}

/// Evaluates the numerator of the step constraint from the values `f(z)`,
/// `f(gz)` and `f(g^2 z)`, with the pair vanishing polynomial through the
/// last two points `excluded0` and `excluded1` of the constraint domain.
#[verifier::spinoff_prover]
#[verifier::rlimit(100)]
pub fn step_constraint_numerator_evaluation(
    dsl: &mut DSL,
    table: usize,
    f_z: usize,
    f_gz: usize,
    f_g2z: usize,
    z_x: usize,
    z_y: usize,
    excluded0: CirclePoint,
    excluded1: CirclePoint,
) -> (r: Result<usize>)
    requires
        excluded0.wf(),
        excluded1.wf(),
    ensures
        final(dsl).extends(old(dsl)),
        dsl_ready(old(dsl)) && indices_in(old(dsl).mem(), seq![table, f_z, f_gz, f_g2z, z_x, z_y]) ==> (r is Ok
            <==> table_at(old(dsl).mem(), table) && qm31_valid_at(old(dsl).mem(), f_z) && qm31_valid_at(
            old(dsl).mem(),
            f_gz,
        ) && qm31_valid_at(old(dsl).mem(), f_g2z) && qm31_valid_at(old(dsl).mem(), z_x) && qm31_valid_at(
            old(dsl).mem(),
            z_y,
        )),
        dsl_ready(old(dsl)) && table_at(old(dsl).mem(), table) && qm31_valid_at(old(dsl).mem(), f_z)
            && qm31_valid_at(old(dsl).mem(), f_gz) && qm31_valid_at(old(dsl).mem(), f_g2z) && qm31_valid_at(
            old(dsl).mem(),
            z_x,
        ) && qm31_valid_at(old(dsl).mem(), z_y) ==> ({
            let m = old(dsl).mem();
            let n = final(dsl).mem().len();
            &&& n == m.len() + 48
            &&& r == Ok::<usize, DslError>((n - 1) as usize)
            &&& final(dsl).mem()[n - 1] == qm31_entry(
                step_numerator_value(
                    qm31_value(m, f_z),
                    qm31_value(m, f_gz),
                    qm31_value(m, f_g2z),
                    qm31_value(m, z_x),
                    qm31_value(m, z_y),
                    excluded0,
                    excluded1,
                ),
            )
        }),
{
    let ghost m = dsl.mem();
    let ghost ready = dsl_ready(dsl);
    let ghost idx = seq![table, f_z, f_gz, f_g2z, z_x, z_y];
    let ghost (a, b, c) = (qm31_value(m, f_z), qm31_value(m, f_gz), qm31_value(m, f_g2z));
    let ghost ok = ready && table_at(m, table) && qm31_valid_at(m, f_z) && qm31_valid_at(m, f_gz)
        && qm31_valid_at(m, f_g2z) && qm31_valid_at(m, z_x) && qm31_valid_at(m, z_y);
    let ghost poly = qm31_sub(qm31_add(qm31_mul(a, a), qm31_mul(b, b)), c);
    let ghost pv = pair_vanishing_value(qm31_value(m, z_x), qm31_value(m, z_y), excluded0, excluded1);
    proof {
        if ready && indices_in(m, idx) {
            assert(idx[0] < m.len() && idx[1] < m.len() && idx[2] < m.len() && idx[3] < m.len()
                && idx[4] < m.len() && idx[5] < m.len());
            assert(indices_in(m, seq![table, f_z, f_gz, f_g2z]));
        }
        lemma_qm31_ops_wf(poly, pv, M31(0));
        let (zx, zy) = (qm31_value(m, z_x), qm31_value(m, z_y));
        let dy = sub_m(excluded0.y, excluded1.y);
        let dx = sub_m(excluded1.x, excluded0.x);
        let cross = sub_m(mul_m(excluded0.x, excluded1.y), mul_m(excluded0.y, excluded1.x));
        lemma_qm31_ops_wf(qm31_mul_m31(zx, dy), qm31_mul_m31(zy, dx), cross);
        lemma_qm31_ops_wf(qm31_add(qm31_mul_m31(zx, dy), qm31_mul_m31(zy, dx)), zx, cross);
    }
    let p = step_polynomial_part(dsl, table, f_z, f_gz, f_g2z)?;
    let ghost m6 = dsl.mem();
    proof {
        if ready && indices_in(m, idx) {
            assert(m6[z_x as int] == m[z_x as int] && m6[z_y as int] == m[z_y as int]);
            assert(m6[table as int] == m[table as int]);
            assert(indices_in(m6, seq![table, z_x, z_y]));
        }
    }
    let v = pair_vanishing_with_constant_m31_points(dsl, table, z_x, z_y, excluded0, excluded1)?;
    let ghost m7 = dsl.mem();
    proof {
        if ok {
            assert(qm31_value(m6, z_x) == qm31_value(m, z_x) && qm31_value(m6, z_y) == qm31_value(m, z_y));
            assert(m7[p as int] == m6[p as int]);
            lemma_qm31_entry_at(m7, p, poly);
            lemma_qm31_entry_at(m7, v, pv);
            lemma_qm31_i32_limbs(qm31_elem(poly));
            lemma_qm31_i32_limbs(qm31_elem(pv));
        }
    }
    let p_limbs = call_qm31_to_limbs(dsl, p)?;
    let v_limbs = call_qm31_to_limbs(dsl, v)?;
    let ghost m9 = dsl.mem();
    proof {
        if ok {
            assert(m9[p_limbs as int] == m9[m7.len() as int]);
            assert(nums(m7[p as int].1) == qm31_elem(poly));
            assert(nums(m7[v as int].1) == qm31_elem(pv));
        }
    }
    let num = call_qm31_limbs_mul(dsl, table, p_limbs, v_limbs)?;
    Ok(num)
}

/// The boundary constraint at `(z_x, z_y)`: `f(z) - (1 + z_y (claim - 1) / p.y)`
/// over the pair vanishing polynomial through `p` and the identity `(1, 0)`.
pub open spec fn boundary_value(fz: QM31, z_x: QM31, z_y: QM31, p: CirclePoint, claim: M31) -> QM31 {
    let c = mul_m(sub_m(claim, M31(1)), inv_m(p.y));
    let numerator = qm31_sub(fz, qm31_add(qm31_mul_m31(z_y, c), qm31_one()));
    qm31_mul(numerator, qm31_inverse(boundary_denominator(z_x, z_y, p)))
}

/// The pair vanishing polynomial through `p` and the identity `(1, 0)`.
pub open spec fn boundary_denominator(z_x: QM31, z_y: QM31, p: CirclePoint) -> QM31 {
    pair_vanishing_value(z_x, z_y, p, CirclePoint { x: M31(1), y: M31(0) })
}

/// The numerator `f(z) - (1 + z_y c)` of the boundary constraint.
#[verifier::spinoff_prover]
#[verifier::rlimit(40)]
fn boundary_numerator(dsl: &mut DSL, table: usize, f_z: usize, z_y: usize, c: M31) -> (r: Result<usize>)
    requires
        c.wf(),
    ensures
        final(dsl).extends(old(dsl)),
        dsl_ready(old(dsl)) && indices_in(old(dsl).mem(), seq![table, f_z, z_y]) ==> (r is Ok
            <==> table_at(old(dsl).mem(), table) && qm31_valid_at(old(dsl).mem(), f_z) && qm31_valid_at(
            old(dsl).mem(),
            z_y,
        )),
        dsl_ready(old(dsl)) && table_at(old(dsl).mem(), table) && qm31_valid_at(old(dsl).mem(), f_z)
            && qm31_valid_at(old(dsl).mem(), z_y) ==> ({
            let m = old(dsl).mem();
            let v = qm31_sub(qm31_value(m, f_z), qm31_add(qm31_mul_m31(qm31_value(m, z_y), c), qm31_one()));
            &&& final(dsl).mem().len() == m.len() + 20
            &&& r == Ok::<usize, DslError>((m.len() + 19) as usize)
            &&& final(dsl).mem()[m.len() + 19int] == qm31_entry(v)
            &&& v.wf()
        }),
{
    let ghost m = dsl.mem();
    let ghost ready = dsl_ready(dsl);
    let ghost idx = seq![table, f_z, z_y];
    let ghost (fz, zy) = (qm31_value(m, f_z), qm31_value(m, z_y));
    let ghost ok = ready && table_at(m, table) && qm31_valid_at(m, f_z) && qm31_valid_at(m, z_y);
    let ghost linear = qm31_add(qm31_mul_m31(zy, c), qm31_one());
    proof {
        if ready && indices_in(m, idx) {
            assert(idx[0] < m.len() && idx[1] < m.len() && idx[2] < m.len());
        }
        lemma_limbs_roundtrip(c.0);
        lemma_qm31_ops_wf(zy, fz, c);
        lemma_qm31_ops_wf(qm31_mul_m31(zy, c), qm31_one(), c);
        lemma_qm31_ops_wf(fz, linear, c);
    }
    let c_limbs = alloc_m31_limbs_constant(dsl, c)?;
    let ghost m1 = dsl.mem();
    proof {
        if ready {
            assert(m1[c_limbs as int] == ("m31_limbs"@, ElementV::ManyNum(m31_limbs(c.val()))));
        }
    }
    let scaled = qm31_mul_m31_limbs(dsl, table, z_y, c_limbs)?;
    let ghost m2 = dsl.mem();
    proof {
        if ok {
            assert(M31(limbs_value(m31_limbs(c.val())) as u32) == c);
            lemma_qm31_entry_at(m2, scaled, qm31_mul_m31(zy, c));
        }
    }
    let lin = call_qm31_1add(dsl, scaled)?;
    proof {
        if ok {
            lemma_qm31_entry(m2, linear);
        }
    }
    let num = call_qm31_sub(dsl, f_z, lin)?;
    Ok(num)
}

/// Evaluates the boundary constraint that the trace starts at 1 and takes the
/// value `claim` at the point `p` of the constraint domain.
#[verifier::spinoff_prover]
#[verifier::rlimit(60)]
pub fn boundary_constraint_evaluation(
    dsl: &mut DSL,
    table: usize,
    f_z: usize,
    z_x: usize,
    z_y: usize,
    p: CirclePoint,
    claim: M31,
) -> (r: Result<usize>)
    requires
        p.wf(),
        claim.wf(),
        p.y.0 != 0,
    ensures
        final(dsl).extends(old(dsl)),
        dsl_ready(old(dsl)) && indices_in(old(dsl).mem(), seq![table, f_z, z_x, z_y]) ==> (r is Ok
            <==> table_at(old(dsl).mem(), table) && qm31_valid_at(old(dsl).mem(), f_z) && qm31_valid_at(
            old(dsl).mem(),
            z_x,
        ) && qm31_valid_at(old(dsl).mem(), z_y) && qm31_invertible(
            boundary_denominator(qm31_value(old(dsl).mem(), z_x), qm31_value(old(dsl).mem(), z_y), p),
        )),
        dsl_ready(old(dsl)) && table_at(old(dsl).mem(), table) && qm31_valid_at(old(dsl).mem(), f_z)
            && qm31_valid_at(old(dsl).mem(), z_x) && qm31_valid_at(old(dsl).mem(), z_y) && qm31_invertible(
            boundary_denominator(qm31_value(old(dsl).mem(), z_x), qm31_value(old(dsl).mem(), z_y), p),
        ) ==> ({
            let m = old(dsl).mem();
            let n = final(dsl).mem().len();
            &&& n == m.len() + 63
            &&& r == Ok::<usize, DslError>((n - 1) as usize)
            &&& final(dsl).mem()[n - 1] == qm31_entry(
                boundary_value(qm31_value(m, f_z), qm31_value(m, z_x), qm31_value(m, z_y), p, claim),
            )
        }),
{
    let ghost m = dsl.mem();
    let ghost ready = dsl_ready(dsl);
    let ghost idx = seq![table, f_z, z_x, z_y];
    let ghost (fz, zx, zy) = (qm31_value(m, f_z), qm31_value(m, z_x), qm31_value(m, z_y));
    let ghost den = boundary_denominator(zx, zy, p);
    let ghost ok = ready && table_at(m, table) && qm31_valid_at(m, f_z) && qm31_valid_at(m, z_x)
        && qm31_valid_at(m, z_y);
    let c = claim.sub(M31::one()).mul(p.y.inverse());
    let identity = CirclePoint { x: M31::one(), y: M31::zero() };
    let ghost numerator = qm31_sub(fz, qm31_add(qm31_mul_m31(zy, c), qm31_one()));
    proof {
        if ready && indices_in(m, idx) {
            assert(idx[0] < m.len() && idx[1] < m.len() && idx[2] < m.len() && idx[3] < m.len());
            assert(indices_in(m, seq![table, f_z, z_y]));
        }
        lemma_qm31_inverse_wf(den);
        lemma_qm31_ops_wf(numerator, qm31_inverse(den), c);
        let dy = sub_m(p.y, identity.y);
        let dx = sub_m(identity.x, p.x);
        let cross = sub_m(mul_m(p.x, identity.y), mul_m(p.y, identity.x));
        lemma_qm31_ops_wf(qm31_mul_m31(zx, dy), qm31_mul_m31(zy, dx), cross);
        lemma_qm31_ops_wf(qm31_add(qm31_mul_m31(zx, dy), qm31_mul_m31(zy, dx)), zx, cross);
    }
    let num = boundary_numerator(dsl, table, f_z, z_y, c)?;
    let ghost m4 = dsl.mem();
    proof {
        if ready && indices_in(m, idx) {
            assert(seq![table, z_x, z_y][0] < m4.len());
            assert(seq![table, z_x, z_y][1] < m4.len());
            assert(seq![table, z_x, z_y][2] < m4.len());
        }
    }
    let d = pair_vanishing_with_constant_m31_points(dsl, table, z_x, z_y, p, identity)?;
    let ghost m5 = dsl.mem();
    proof {
        if ok {
            assert(m5[num as int] == m4[num as int]);
            lemma_qm31_entry_at(m5, num, numerator);
            lemma_qm31_entry_at(m5, d, den);
            lemma_qm31_i32_limbs(qm31_elem(numerator));
            lemma_qm31_i32_limbs(qm31_elem(den));
        }
    }
    let num_limbs = call_qm31_to_limbs(dsl, num)?;
    let den_limbs = call_qm31_to_limbs(dsl, d)?;
    let ghost m7 = dsl.mem();
    proof {
        if ok {
            assert(nums(m5[num as int].1) == qm31_elem(numerator));
            assert(nums(m5[d as int].1) == qm31_elem(den));
        }
    }
    let den_inv = call_qm31_limbs_inverse(dsl, table, den_limbs)?;
    let ghost m8 = dsl.mem();
    proof {
        if ok {
            lemma_qm31_limbs_roundtrip(qm31_inverse(den));
            assert(m8[num_limbs as int] == m7[num_limbs as int]);
        }
    }
    let res = call_qm31_limbs_mul(dsl, table, num_limbs, den_inv)?;
    Ok(res)
}

} // verus!
