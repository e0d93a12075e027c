use crate::dsl::functions_ready;
use crate::dsl::building_blocks::cm31::cm31_mul_m31_limbs;
use crate::dsl::building_blocks::qm31::qm31_mul_cm31_limbs;
use crate::dsl::compose::{
    call_cm31_add, call_cm31_add_m31, call_cm31_limbs_inverse, call_cm31_limbs_mul, call_cm31_sub,
    call_cm31_to_limbs, call_m31_to_limbs, call_qm31_add, call_qm31_add_cm31, cm31_entry,
    cm31_inverse, cm31_valid_at, cm31_value, indices_in, lemma_cm31_entry, lemma_cm31_entry_at,
    lemma_cm31_i32_limbs, lemma_cm31_ops_wf, lemma_m31_ops_wf, lemma_qm31_entry_at,
    lemma_qm31_ops_wf, m31_valid_at, m31_value, num, nums, qm31_entry, qm31_valid_at, qm31_value,
    table_at,
};
use crate::dsl::framework::{DSL, DslError, ElementV, EntryV, Result};
use crate::dsl::values::{cm31_elem, lemma_i32_limbs_valid, m31_of};
use crate::field::cm31::{
    CM31, cm31_add, cm31_add_m31, cm31_mul, cm31_mul_m31, cm31_norm, cm31_sub, cm31_zero,
};
use crate::field::m31::M31;
use crate::field::qm31::{QM31, qm31_add, qm31_mul_cm31};
use crate::limbs::{cm31_limbs, limbs_value};
use vstd::prelude::*;

verus! {

/// Multiplies the complex elements at `x` and `y` through their limbs.
#[verifier::spinoff_prover]
fn cm31_product(dsl: &mut DSL, table: usize, x: usize, y: usize) -> (r: Result<usize>)
    ensures
        final(dsl).extends(old(dsl)),
        functions_ready(old(dsl).functions@) && indices_in(old(dsl).mem(), seq![table, x, y]) ==> (r is Ok
            <==> table_at(old(dsl).mem(), table) && cm31_valid_at(old(dsl).mem(), x) && cm31_valid_at(
            old(dsl).mem(),
            y,
        )),
        functions_ready(old(dsl).functions@) && table_at(old(dsl).mem(), table) && cm31_valid_at(
            old(dsl).mem(),
            x,
        ) && cm31_valid_at(old(dsl).mem(), y) ==> ({
            let m = old(dsl).mem();
            &&& m.len() + 3 <= usize::MAX
            &&& r == Ok::<usize, DslError>((m.len() + 2) as usize)
            &&& final(dsl).mem().len() == m.len() + 3
            &&& final(dsl).hint_v().len() == old(dsl).hint_v().len() + 5
            &&& final(dsl).mem()[m.len() + 2int] == cm31_entry(
                cm31_mul(cm31_value(m, x), cm31_value(m, y)),
            )
        }),
{
    let ghost m = dsl.mem();
    let ghost ready = functions_ready(dsl.functions@);
    proof {
        lemma_m31_ops_wf();
        if ready && indices_in(m, seq![table, x, y]) {
            assert(seq![table, x, y][0] < m.len());
            assert(seq![table, x, y][1] < m.len());
            assert(seq![table, x, y][2] < m.len());
        }
        if nums(m[x as int].1).len() == 2 {
            lemma_cm31_i32_limbs(nums(m[x as int].1));
        }
        if nums(m[y as int].1).len() == 2 {
            lemma_cm31_i32_limbs(nums(m[y as int].1));
        }
    }
    let x_limbs = call_cm31_to_limbs(dsl, x)?;
    let y_limbs = call_cm31_to_limbs(dsl, y)?;
    let res = call_cm31_limbs_mul(dsl, table, x_limbs, y_limbs)?;
    Ok(res)
}

/// Multiplies the degree-4 element at `q` by the complex element at `c`,
/// through the limbs of `c`.
#[verifier::spinoff_prover]
fn qm31_times_cm31(dsl: &mut DSL, table: usize, q: usize, c: usize) -> (r: Result<usize>)
    ensures
        final(dsl).extends(old(dsl)),
        functions_ready(old(dsl).functions@) && indices_in(old(dsl).mem(), seq![table, q, c]) ==> (r is Ok
            <==> table_at(old(dsl).mem(), table) && qm31_valid_at(old(dsl).mem(), q) && cm31_valid_at(
            old(dsl).mem(),
            c,
        )),
        functions_ready(old(dsl).functions@) && table_at(old(dsl).mem(), table) && qm31_valid_at(
            old(dsl).mem(),
            q,
        ) && cm31_valid_at(old(dsl).mem(), c) ==> ({
            let m = old(dsl).mem();
            &&& m.len() + 8 <= usize::MAX
            &&& r == Ok::<usize, DslError>((m.len() + 7) as usize)
            &&& final(dsl).mem().len() == m.len() + 8
            &&& final(dsl).hint_v().len() == old(dsl).hint_v().len() + 9
            &&& final(dsl).mem()[m.len() + 7int] == qm31_entry(
                qm31_mul_cm31(qm31_value(m, q), cm31_value(m, c)),
            )
        }),
{
    let ghost m = dsl.mem();
    let ghost ready = functions_ready(dsl.functions@);
    proof {
        if ready && indices_in(m, seq![table, q, c]) {
            assert(seq![table, q, c][0] < m.len());
            assert(seq![table, q, c][1] < m.len());
            assert(seq![table, q, c][2] < m.len());
        }
        if nums(m[c as int].1).len() == 2 {
            lemma_cm31_i32_limbs(nums(m[c as int].1));
        }
    }
    let c_limbs = call_cm31_to_limbs(dsl, c)?;
    let ghost m1 = dsl.mem();
    proof {
        if ready && indices_in(m, seq![table, q, c]) {
            assert(seq![table, q, c_limbs][0] < m1.len());
            assert(seq![table, q, c_limbs][1] < m1.len());
            assert(seq![table, q, c_limbs][2] < m1.len());
            assert(indices_in(m1, seq![table, q, c_limbs]));
        }
    }
    let res = qm31_mul_cm31_limbs(dsl, table, q, c_limbs)?;
    Ok(res)
}

/// Applies the twin values: for the complex line coefficients `a`, `b` and
/// the `y` coordinate `z_y`, gives `b - a z_y + v` and `b + a z_y + w` for the
/// values `v`, `w` queried at the point and at its conjugate.
#[verifier::spinoff_prover]
#[verifier::rlimit(40)]
pub fn apply_twin(
    dsl: &mut DSL,
    table: usize,
    z_y: usize,
    queried_value_for_z: usize,
    queried_value_for_conjugated_z: usize,
    a: usize,
    b: usize,
) -> (r: Result<(usize, usize)>)
    ensures
        final(dsl).extends(old(dsl)),
        functions_ready(old(dsl).functions@) && indices_in(
            old(dsl).mem(),
            seq![table, z_y, queried_value_for_z, queried_value_for_conjugated_z, a, b],
        ) ==> (r is Ok <==> table_at(old(dsl).mem(), table) && m31_valid_at(old(dsl).mem(), z_y)
            && m31_valid_at(old(dsl).mem(), queried_value_for_z) && m31_valid_at(
            old(dsl).mem(),
            queried_value_for_conjugated_z,
        ) && cm31_valid_at(old(dsl).mem(), a) && cm31_valid_at(old(dsl).mem(), b)),
        functions_ready(old(dsl).functions@) && table_at(old(dsl).mem(), table) && m31_valid_at(
            old(dsl).mem(),
            z_y,
        ) && m31_valid_at(old(dsl).mem(), queried_value_for_z) && m31_valid_at(
            old(dsl).mem(),
            queried_value_for_conjugated_z,
        ) && cm31_valid_at(old(dsl).mem(), a) && cm31_valid_at(old(dsl).mem(), b) ==> ({
            let m = old(dsl).mem();
            let t = cm31_mul_m31(cm31_value(m, a), m31_value(m, z_y));
            &&& m.len() + 12 <= usize::MAX
            &&& r == Ok::<(usize, usize), DslError>(((m.len() + 9) as usize, (m.len() + 11) as usize))
            &&& final(dsl).mem().len() == m.len() + 12
            &&& final(dsl).hint_v().len() == old(dsl).hint_v().len() + 5
            &&& final(dsl).mem()[m.len() + 9int] == cm31_entry(
                cm31_add_m31(cm31_sub(cm31_value(m, b), t), m31_value(m, queried_value_for_z)),
            )
            &&& final(dsl).mem()[m.len() + 11int] == cm31_entry(
                cm31_add_m31(cm31_add(cm31_value(m, b), t), m31_value(m, queried_value_for_conjugated_z)),
            )
        }),
{
    let ghost m = dsl.mem();
    let ghost ready = functions_ready(dsl.functions@);
    let ghost idx = seq![table, z_y, queried_value_for_z, queried_value_for_conjugated_z, a, b];
    let ghost zy = num(m[z_y as int].1);
    let ghost av = cm31_value(m, a);
    let ghost bv = cm31_value(m, b);
    let ghost t = cm31_mul_m31(av, m31_of(zy));
    let ghost ok = ready && table_at(m, table) && m31_valid_at(m, z_y) && m31_valid_at(m, queried_value_for_z)
        && m31_valid_at(m, queried_value_for_conjugated_z) && cm31_valid_at(m, a) && cm31_valid_at(m, b);
    proof {
        lemma_m31_ops_wf();
        lemma_i32_limbs_valid(zy);
        lemma_cm31_ops_wf(av, bv, m31_of(zy));
        lemma_cm31_ops_wf(bv, t, M31(0));
        if ready && indices_in(m, idx) {
            assert(idx[0] < m.len() && idx[1] < m.len() && idx[2] < m.len() && idx[3] < m.len() && idx[4] < m.len()
                && idx[5] < m.len());
        }
    }
    let z_y_limbs = call_m31_to_limbs(dsl, z_y)?;
    let ghost m1 = dsl.mem();
    proof {
        if ready && indices_in(m, idx) {
            assert(seq![table, a, z_y_limbs][0] < m1.len());
            assert(seq![table, a, z_y_limbs][1] < m1.len());
            assert(seq![table, a, z_y_limbs][2] < m1.len());
            assert(indices_in(m1, seq![table, a, z_y_limbs]));
        }
    }
    let a_times_z_y = cm31_mul_m31_limbs(dsl, table, a, z_y_limbs)?;
    let ghost m2 = dsl.mem();
    proof {
        if ok {
            assert(limbs_value(nums(m1[z_y_limbs as int].1)) == zy);
            assert(m2[a_times_z_y as int] == cm31_entry(t));
            assert(cm31_valid_at(m2, a_times_z_y));
        }
    }
    let res_z = call_cm31_sub(dsl, b, a_times_z_y)?;
    let ghost m3 = dsl.mem();
    proof {
        if ok {
            lemma_cm31_entry(m2, cm31_sub(bv, t));
        }
    }
    let res_z = call_cm31_add_m31(dsl, res_z, queried_value_for_z)?;
    let res_conjugated_z = call_cm31_add(dsl, b, a_times_z_y)?;
    let ghost m5 = dsl.mem();
    proof {
        if ok {
            lemma_cm31_entry(m.add(m5.subrange(m.len() as int, m5.len() - 1)), cm31_add(bv, t));
            assert(m.add(m5.subrange(m.len() as int, m5.len() - 1)).push(cm31_entry(cm31_add(bv, t))) =~= m5);
        }
    }
    let res_conjugated_z = call_cm31_add_m31(dsl, res_conjugated_z, queried_value_for_conjugated_z)?;
    Ok((res_z, res_conjugated_z))
}

/// The two complex values `cross + z_x - d z_y` and
/// `cross + z_x + d z_y` whose inverses are the denominators for a point and
/// its conjugate.
pub open spec fn twin_denominators(d: CM31, cross: CM31, z_x: M31, z_y: M31) -> (CM31, CM31) {
    let c = cm31_add_m31(cross, z_x);
    let t = cm31_mul_m31(d, z_y);
    (cm31_sub(c, t), cm31_add(c, t))
}

/// From the prepared values `x_imag_div_y_imag` and `cross_term` of a point and
/// the query point `(z_x, z_y)`, computes the limbs of the inverses of the
/// two denominators, for the point and for its conjugate.
#[verifier::spinoff_prover]
#[verifier::rlimit(40)]
pub fn denominator_inverse_limbs_from_prepared(
    dsl: &mut DSL,
    table: usize,
    x_imag_div_y_imag: usize,
    cross_term: usize,
    z_x: usize,
    z_y: usize,
) -> (r: Result<(usize, usize)>)
    ensures
        final(dsl).extends(old(dsl)),
        functions_ready(old(dsl).functions@) && indices_in(
            old(dsl).mem(),
            seq![table, x_imag_div_y_imag, cross_term, z_x, z_y],
        ) ==> (r is Ok <==> table_at(old(dsl).mem(), table) && cm31_valid_at(old(dsl).mem(), x_imag_div_y_imag)
            && cm31_valid_at(old(dsl).mem(), cross_term) && m31_valid_at(old(dsl).mem(), z_x) && m31_valid_at(
            old(dsl).mem(),
            z_y,
        ) && ({
            let m = old(dsl).mem();
            let dn = twin_denominators(
                cm31_value(m, x_imag_div_y_imag),
                cm31_value(m, cross_term),
                m31_value(m, z_x),
                m31_value(m, z_y),
            );
            cm31_norm(dn.0).0 != 0 && cm31_norm(dn.1).0 != 0
        })),
        functions_ready(old(dsl).functions@) && table_at(old(dsl).mem(), table) && cm31_valid_at(
            old(dsl).mem(),
            x_imag_div_y_imag,
        ) && cm31_valid_at(old(dsl).mem(), cross_term) && m31_valid_at(old(dsl).mem(), z_x) && m31_valid_at(
            old(dsl).mem(),
            z_y,
        ) && r is Ok ==> ({
            let m = old(dsl).mem();
            let dn = twin_denominators(
                cm31_value(m, x_imag_div_y_imag),
                cm31_value(m, cross_term),
                m31_value(m, z_x),
                m31_value(m, z_y),
            );
            &&& m.len() + 15 <= usize::MAX
            &&& r == Ok::<(usize, usize), DslError>(((m.len() + 12) as usize, (m.len() + 14) as usize))
            &&& final(dsl).mem().len() == m.len() + 15
            &&& final(dsl).hint_v().len() == old(dsl).hint_v().len() + 15
            &&& final(dsl).mem()[m.len() + 12int] == ("cm31_limbs"@, ElementV::ManyNum(
                cm31_limbs(cm31_inverse(dn.0)),
            ))
            &&& final(dsl).mem()[m.len() + 14int] == ("cm31_limbs"@, ElementV::ManyNum(
                cm31_limbs(cm31_inverse(dn.1)),
            ))
        }),
{
    let ghost m = dsl.mem();
    let ghost ready = functions_ready(dsl.functions@);
    let ghost idx = seq![table, x_imag_div_y_imag, cross_term, z_x, z_y];
    let ghost dv = cm31_value(m, x_imag_div_y_imag);
    let ghost cv = cm31_value(m, cross_term);
    let ghost zx = m31_value(m, z_x);
    let ghost zy = num(m[z_y as int].1);
    let ghost c = cm31_add_m31(cv, zx);
    let ghost t = cm31_mul_m31(dv, m31_of(zy));
    let ghost dn = twin_denominators(dv, cv, zx, m31_of(zy));
    let ghost ok = ready && table_at(m, table) && cm31_valid_at(m, x_imag_div_y_imag) && cm31_valid_at(m, cross_term)
        && m31_valid_at(m, z_x) && m31_valid_at(m, z_y);
    proof {
        lemma_m31_ops_wf();
        lemma_i32_limbs_valid(zy);
        lemma_cm31_ops_wf(cv, cv, zx);
        lemma_cm31_ops_wf(dv, dv, m31_of(zy));
        lemma_cm31_ops_wf(c, t, M31(0));
        if ready && indices_in(m, idx) {
            assert(idx[0] < m.len() && idx[1] < m.len() && idx[2] < m.len() && idx[3] < m.len() && idx[4] < m.len());
        }
        lemma_cm31_i32_limbs(cm31_elem(dn.0));
        lemma_cm31_i32_limbs(cm31_elem(dn.1));
    }
    let ghost m0 = dsl.mem();
    let cross_term_plus_z_x = call_cm31_add_m31(dsl, cross_term, z_x)?;
    proof {
        if ok {
            lemma_cm31_entry(m0, c);
        }
    }
    let z_y_limbs = call_m31_to_limbs(dsl, z_y)?;
    let ghost m2 = dsl.mem();
    proof {
        if ready && indices_in(m, idx) {
            assert(seq![table, x_imag_div_y_imag, z_y_limbs][0] < m2.len());
            assert(seq![table, x_imag_div_y_imag, z_y_limbs][1] < m2.len());
            assert(seq![table, x_imag_div_y_imag, z_y_limbs][2] < m2.len());
            assert(indices_in(m2, seq![table, x_imag_div_y_imag, z_y_limbs]));
        }
    }
    let x_imag_div_y_imag_times_z_y = cm31_mul_m31_limbs(dsl, table, x_imag_div_y_imag, z_y_limbs)?;
    let ghost m3 = dsl.mem();
    proof {
        if ok {
            assert(limbs_value(nums(m2[z_y_limbs as int].1)) == zy);
            assert(cm31_valid_at(m3, x_imag_div_y_imag_times_z_y));
        }
    }
    let result_for_z = call_cm31_sub(dsl, cross_term_plus_z_x, x_imag_div_y_imag_times_z_y)?;
    proof {
        if ok {
            lemma_cm31_entry(m3, dn.0);
        }
    }
    let ghost m4 = dsl.mem();
    let result_for_conjugated_z = call_cm31_add(dsl, cross_term_plus_z_x, x_imag_div_y_imag_times_z_y)?;
    proof {
        if ok {
            lemma_cm31_entry(m4, dn.1);
        }
    }
    let result_for_z_limbs = call_cm31_to_limbs(dsl, result_for_z)?;
    let inverse_for_z_limbs = call_cm31_limbs_inverse(dsl, table, result_for_z_limbs)?;
    let result_for_conjugated_z_limbs = call_cm31_to_limbs(dsl, result_for_conjugated_z)?;
    let inverse_for_conjugated_z_limbs = call_cm31_limbs_inverse(dsl, table, result_for_conjugated_z_limbs)?;
    Ok((inverse_for_z_limbs, inverse_for_conjugated_z_limbs))
}

/// The indices of the inverses of the four denominators.
#[derive(Clone, Copy, Debug)]
pub struct DenominatorInversesIndices {
    pub u1: usize,
    pub u2: usize,
    pub u3: usize,
    pub u4: usize,
}

/// The indices of the numerators: three of the trace, four of the
/// composition.
#[derive(Clone, Copy, Debug)]
pub struct NominatorsIndices {
    pub a1: usize,
    pub a2: usize,
    pub a3: usize,
    pub c1: usize,
    pub c2: usize,
    pub c3: usize,
    pub c4: usize,
}

/// The aggregated quotient
/// `p0 (a1 u1) + p1 (a2 u2) + p2 (a3 u3) + (p3 c1 + p4 c2 + p5 c3 + c4) u4`
/// for the powers `p = [alpha^6, ..., alpha]`.
pub open spec fn aggregation_value(u: Seq<CM31>, a: Seq<CM31>, c: Seq<CM31>, p: Seq<QM31>) -> QM31 {
    let sum = qm31_add(
        qm31_add(qm31_add(qm31_mul_cm31(p[3], c[0]), qm31_mul_cm31(p[4], c[1])), qm31_mul_cm31(p[5], c[2])),
        QM31(c[3], cm31_zero()),
    );
    qm31_add(
        qm31_add(
            qm31_add(qm31_mul_cm31(sum, u[3]), qm31_mul_cm31(p[0], cm31_mul(u[0], a[0]))),
            qm31_mul_cm31(p[1], cm31_mul(u[1], a[1])),
        ),
        qm31_mul_cm31(p[2], cm31_mul(u[2], a[2])),
    )
}

/// The complex inputs of the aggregation are valid.
pub open spec fn aggregation_inputs_valid(
    m: Seq<EntryV>,
    d: DenominatorInversesIndices,
    n: NominatorsIndices,
    p: Seq<usize>,
) -> bool {
    &&& cm31_valid_at(m, d.u1) && cm31_valid_at(m, d.u2) && cm31_valid_at(m, d.u3) && cm31_valid_at(m, d.u4)
    &&& cm31_valid_at(m, n.a1) && cm31_valid_at(m, n.a2) && cm31_valid_at(m, n.a3)
    &&& cm31_valid_at(m, n.c1) && cm31_valid_at(m, n.c2) && cm31_valid_at(m, n.c3) && cm31_valid_at(m, n.c4)
    &&& forall|k: int| 0 <= k < 6 ==> #[trigger] qm31_valid_at(m, p[k])
}

/// All indices of the aggregation.
pub open spec fn aggregation_indices(
    table: usize,
    d: DenominatorInversesIndices,
    n: NominatorsIndices,
    p: Seq<usize>,
) -> Seq<usize> {
    seq![table, d.u1, d.u2, d.u3, d.u4, n.a1, n.a2, n.a3, n.c1, n.c2, n.c3, n.c4] + p.subrange(0, 6)
}

/// Aggregates the quotients of the trace and composition columns.
#[verifier::spinoff_prover]
#[verifier::rlimit(100)]
pub fn aggregation(
    dsl: &mut DSL,
    table: usize,
    denominator_inverses_indices: &DenominatorInversesIndices,
    nominators_indices: &NominatorsIndices,
    power_alphas: &[usize],
) -> (r: Result<usize>)
    requires
        power_alphas@.len() >= 6,
    ensures
        final(dsl).extends(old(dsl)),
        functions_ready(old(dsl).functions@) && indices_in(
            old(dsl).mem(),
            aggregation_indices(table, *denominator_inverses_indices, *nominators_indices, power_alphas@),
        ) ==> (r is Ok <==> table_at(old(dsl).mem(), table) && aggregation_inputs_valid(
            old(dsl).mem(),
            *denominator_inverses_indices,
            *nominators_indices,
            power_alphas@,
        )),
        functions_ready(old(dsl).functions@) && table_at(old(dsl).mem(), table) && aggregation_inputs_valid(
            old(dsl).mem(),
            *denominator_inverses_indices,
            *nominators_indices,
            power_alphas@,
        ) ==> ({
            let m = old(dsl).mem();
            let d = *denominator_inverses_indices;
            let n = *nominators_indices;
            let p = power_alphas@;
            &&& m.len() + 71 <= usize::MAX
            &&& r == Ok::<usize, DslError>((m.len() + 70) as usize)
            &&& final(dsl).mem().len() == m.len() + 71
            &&& final(dsl).mem()[m.len() + 70int] == qm31_entry(
                aggregation_value(
                    seq![cm31_value(m, d.u1), cm31_value(m, d.u2), cm31_value(m, d.u3), cm31_value(m, d.u4)],
                    seq![cm31_value(m, n.a1), cm31_value(m, n.a2), cm31_value(m, n.a3)],
                    seq![cm31_value(m, n.c1), cm31_value(m, n.c2), cm31_value(m, n.c3), cm31_value(m, n.c4)],
                    seq![
                        qm31_value(m, p[0]),
                        qm31_value(m, p[1]),
                        qm31_value(m, p[2]),
                        qm31_value(m, p[3]),
                        qm31_value(m, p[4]),
                        qm31_value(m, p[5]),
                    ],
                ),
            )
        }),
{
    let ghost m = dsl.mem();
    let ghost ready = functions_ready(dsl.functions@);
    let d = *denominator_inverses_indices;
    let n = *nominators_indices;
    let ghost p = power_alphas@;
    let ghost all = aggregation_indices(table, d, n, p);
    let ghost ok = ready && table_at(m, table) && aggregation_inputs_valid(m, d, n, p);
    proof {
        lemma_m31_ops_wf();
        if ready && indices_in(m, all) {
            assert forall|k: int| 0 <= k < 18 implies #[trigger] all[k] < m.len() by {}
            assert(all[0] == table && all[1] == d.u1 && all[2] == d.u2 && all[3] == d.u3 && all[4] == d.u4);
            assert(all[5] == n.a1 && all[6] == n.a2 && all[7] == n.a3);
            assert(all[8] == n.c1 && all[9] == n.c2 && all[10] == n.c3 && all[11] == n.c4);
            assert(all[12] == p[0] && all[13] == p[1] && all[14] == p[2] && all[15] == p[3] && all[16] == p[4]
                && all[17] == p[5]);
        }
        if ok {
            assert(qm31_valid_at(m, p[0]) && qm31_valid_at(m, p[1]) && qm31_valid_at(m, p[2]));
            assert(qm31_valid_at(m, p[3]) && qm31_valid_at(m, p[4]) && qm31_valid_at(m, p[5]));
        }
    }
    let ghost m0 = dsl.mem();
    let u1a1 = cm31_product(dsl, table, d.u1, n.a1)?;
    let ghost m1 = dsl.mem();
    let u2a2 = cm31_product(dsl, table, d.u2, n.a2)?;
    let ghost m2 = dsl.mem();
    let u3a3 = cm31_product(dsl, table, d.u3, n.a3)?;
    let ghost m3 = dsl.mem();
    let alpha3c1 = qm31_times_cm31(dsl, table, power_alphas[3], n.c1)?;
    let ghost m4 = dsl.mem();
    let alpha2c2 = qm31_times_cm31(dsl, table, power_alphas[4], n.c2)?;
    let ghost m5 = dsl.mem();
    let alpha1c3 = qm31_times_cm31(dsl, table, power_alphas[5], n.c3)?;
    let ghost m6 = dsl.mem();
    let ghost uv = seq![cm31_value(m, d.u1), cm31_value(m, d.u2), cm31_value(m, d.u3), cm31_value(m, d.u4)];
    let ghost av = seq![cm31_value(m, n.a1), cm31_value(m, n.a2), cm31_value(m, n.a3)];
    let ghost cv = seq![cm31_value(m, n.c1), cm31_value(m, n.c2), cm31_value(m, n.c3), cm31_value(m, n.c4)];
    let ghost pv = seq![
        qm31_value(m, p[0]),
        qm31_value(m, p[1]),
        qm31_value(m, p[2]),
        qm31_value(m, p[3]),
        qm31_value(m, p[4]),
        qm31_value(m, p[5]),
    ];
    let ghost t1 = qm31_mul_cm31(pv[3], cv[0]);
    let ghost t2 = qm31_mul_cm31(pv[4], cv[1]);
    let ghost t3 = qm31_mul_cm31(pv[5], cv[2]);
    let ghost s1 = qm31_add(t1, t2);
    let ghost s2 = qm31_add(s1, t3);
    let ghost s3 = qm31_add(s2, QM31(cv[3], cm31_zero()));
    proof {
        if ok {
            lemma_cm31_ops_wf(uv[0], av[0], M31(0));
            lemma_cm31_ops_wf(uv[1], av[1], M31(0));
            lemma_cm31_ops_wf(uv[2], av[2], M31(0));
            lemma_cm31_entry_at(m1, u1a1, cm31_mul(uv[0], av[0]));
            lemma_cm31_entry_at(m2, u2a2, cm31_mul(uv[1], av[1]));
            lemma_cm31_entry_at(m3, u3a3, cm31_mul(uv[2], av[2]));
            lemma_qm31_ops_wf(pv[3], QM31(cv[0], cv[0]), M31(0));
            lemma_qm31_ops_wf(pv[4], QM31(cv[1], cv[1]), M31(0));
            lemma_qm31_ops_wf(pv[5], QM31(cv[2], cv[2]), M31(0));
            lemma_qm31_entry_at(m4, alpha3c1, t1);
            lemma_qm31_entry_at(m5, alpha2c2, t2);
            lemma_qm31_entry_at(m6, alpha1c3, t3);
            lemma_qm31_ops_wf(t1, t2, M31(0));
            lemma_qm31_ops_wf(s1, t3, M31(0));
            lemma_qm31_ops_wf(s2, QM31(cv[3], cv[3]), M31(0));
        }
    }
    let sum = call_qm31_add(dsl, alpha3c1, alpha2c2)?;
    let ghost m7 = dsl.mem();
    proof {
        if ok {
            lemma_qm31_entry_at(m7, sum, s1);
        }
    }
    let sum = call_qm31_add(dsl, sum, alpha1c3)?;
    let ghost m8 = dsl.mem();
    proof {
        if ok {
            lemma_qm31_entry_at(m8, sum, s2);
        }
    }
    let sum = call_qm31_add_cm31(dsl, sum, n.c4)?;
    let ghost m9 = dsl.mem();
    proof {
        if ok {
            lemma_qm31_entry_at(m9, sum, s3);
        }
    }
    let sumu4 = qm31_times_cm31(dsl, table, sum, d.u4)?;
    let ghost m10 = dsl.mem();
    let alpha6u1a1 = qm31_times_cm31(dsl, table, power_alphas[0], u1a1)?;
    let ghost m11 = dsl.mem();
    let alpha5u2a2 = qm31_times_cm31(dsl, table, power_alphas[1], u2a2)?;
    let ghost m12 = dsl.mem();
    let alpha4u3a3 = qm31_times_cm31(dsl, table, power_alphas[2], u3a3)?;
    let ghost m13 = dsl.mem();
    let ghost w0 = qm31_mul_cm31(s3, uv[3]);
    let ghost w1 = qm31_mul_cm31(pv[0], cm31_mul(uv[0], av[0]));
    let ghost w2 = qm31_mul_cm31(pv[1], cm31_mul(uv[1], av[1]));
    let ghost w3 = qm31_mul_cm31(pv[2], cm31_mul(uv[2], av[2]));
    proof {
        if ok {
            lemma_qm31_ops_wf(s3, QM31(uv[3], uv[3]), M31(0));
            lemma_qm31_ops_wf(pv[0], QM31(cm31_mul(uv[0], av[0]), uv[0]), M31(0));
            lemma_qm31_ops_wf(pv[1], QM31(cm31_mul(uv[1], av[1]), uv[1]), M31(0));
            lemma_qm31_ops_wf(pv[2], QM31(cm31_mul(uv[2], av[2]), uv[2]), M31(0));
            lemma_qm31_entry_at(m10, sumu4, w0);
            lemma_qm31_entry_at(m11, alpha6u1a1, w1);
            lemma_qm31_entry_at(m12, alpha5u2a2, w2);
            lemma_qm31_entry_at(m13, alpha4u3a3, w3);
            lemma_qm31_ops_wf(w0, w1, M31(0));
            lemma_qm31_ops_wf(qm31_add(w0, w1), w2, M31(0));
        }
    }
    let res = call_qm31_add(dsl, sumu4, alpha6u1a1)?;
    let ghost m14 = dsl.mem();
    proof {
        if ok {
            lemma_qm31_entry_at(m14, res, qm31_add(w0, w1));
        }
    }
    let res = call_qm31_add(dsl, res, alpha5u2a2)?;
    let ghost m15 = dsl.mem();
    proof {
        if ok {
            lemma_qm31_entry_at(m15, res, qm31_add(qm31_add(w0, w1), w2));
        }
    }
    let res = call_qm31_add(dsl, res, alpha4u3a3)?;
    Ok(res)
}

} // verus!
