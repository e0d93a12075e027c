use crate::dsl::functions_ready;
use crate::dsl::building_blocks::qm31::qm31_mul_m31_limbs;
use crate::dsl::compose::{
    alloc_m31_constant, alloc_m31_limbs_constant, call_qm31_add, call_qm31_add_m31,
    call_qm31_shift_by_i, call_qm31_shift_by_ij, call_qm31_shift_by_j, dsl_ready, indices_in,
    lemma_m31_ops_wf, lemma_qm31_entry, lemma_qm31_ops_wf, m31_valid_at, m31_value, qm31_entry,
    qm31_valid_at, qm31_value, table_at,
};
use crate::dsl::framework::{DSL, DslError, EntryV, Result};
use crate::dsl::point::CirclePoint;
use crate::field::m31::{M31, mul_m, sub_m};
use crate::field::algebra::lemma_m31_line_vanishes;
use crate::field::cm31::{cm31_add, cm31_add_m31, cm31_mul_m31};
use crate::field::qm31::{
    QM31, qm31_add, qm31_add_m31, qm31_from, qm31_mul, qm31_mul_m31, qm31_of_m31, qm31_zero,
};
use crate::limbs::lemma_limbs_roundtrip;
use vstd::prelude::*;

verus! {

/// The evaluation `a + b i + c u + d i u` of four partial evaluations.
pub open spec fn eval_from_partial_evals_value(a: QM31, b: QM31, c: QM31, d: QM31) -> QM31 {
    qm31_add(
        qm31_add(qm31_add(a, qm31_mul(b, qm31_from(0, 1, 0, 0))), qm31_mul(c, qm31_from(0, 0, 1, 0))),
        qm31_mul(d, qm31_from(0, 0, 0, 1)),
    )
}

/// The four partial evaluations are degree-4 elements.
pub open spec fn partial_evals_valid(m: Seq<EntryV>, a: usize, b: usize, c: usize, d: usize) -> bool {
    qm31_valid_at(m, a) && qm31_valid_at(m, b) && qm31_valid_at(m, c) && qm31_valid_at(m, d)
}

/// The entries that combining the partial evaluations adds: the shifted
/// values `b i`, `c u`, `d i u`, then the partial sums.
#[verifier::opaque]
pub open spec fn partial_evals_entries(m: Seq<EntryV>, a: usize, b: usize, c: usize, d: usize) -> Seq<EntryV> {
    let bi = qm31_mul(qm31_value(m, b), qm31_from(0, 1, 0, 0));
    let cj = qm31_mul(qm31_value(m, c), qm31_from(0, 0, 1, 0));
    let dij = qm31_mul(qm31_value(m, d), qm31_from(0, 0, 0, 1));
    let s1 = qm31_add(qm31_value(m, a), bi);
    let s2 = qm31_add(s1, cj);
    seq![
        qm31_entry(bi),
        qm31_entry(cj),
        qm31_entry(dij),
        qm31_entry(s1),
        qm31_entry(s2),
        qm31_entry(qm31_add(s2, dij)),
    ]
}

/// Combines four partial evaluations `a, b, c, d` into `a + b i + c u + d i u`:
/// the three shifted values, then the three partial sums, go to the memory,
/// and the index of the last sum comes back.
#[verifier::spinoff_prover]
#[verifier::rlimit(40)]
pub fn eval_from_partial_evals(dsl: &mut DSL, a: usize, b: usize, c: usize, d: usize) -> (r: Result<usize>)
    ensures
        final(dsl).extends(old(dsl)),
        functions_ready(old(dsl).functions@) && indices_in(old(dsl).mem(), seq![a, b, c, d]) ==> (r is Ok
            <==> partial_evals_valid(old(dsl).mem(), a, b, c, d)),
        functions_ready(old(dsl).functions@) && partial_evals_valid(old(dsl).mem(), a, b, c, d) ==> {
            &&& old(dsl).mem().len() + 6 <= usize::MAX
            &&& r == Ok::<usize, DslError>((old(dsl).mem().len() + 5) as usize)
            &&& final(dsl).mem() == old(dsl).mem() + partial_evals_entries(old(dsl).mem(), a, b, c, d)
            &&& final(dsl).hint_v() == old(dsl).hint_v()
            &&& final(dsl).mem()[old(dsl).mem().len() + 5int] == qm31_entry(
                eval_from_partial_evals_value(
                    qm31_value(old(dsl).mem(), a),
                    qm31_value(old(dsl).mem(), b),
                    qm31_value(old(dsl).mem(), c),
                    qm31_value(old(dsl).mem(), d),
                ),
            )
        },
{
    let ghost m = dsl.mem();
    let ghost ready = functions_ready(dsl.functions@);
    let ghost e = partial_evals_entries(m, a, b, c, d);
    proof {
        lemma_m31_ops_wf();
        if ready && indices_in(m, seq![a, b, c, d]) {
            assert(seq![a, b, c, d][0] < m.len());
            assert(seq![a, b, c, d][1] < m.len());
            assert(seq![a, b, c, d][2] < m.len());
            assert(seq![a, b, c, d][3] < m.len());
        }
    }
    let b_shift_by_i = call_qm31_shift_by_i(dsl, b)?;
    let ghost m1 = dsl.mem();
    proof {
        if ready {
            lemma_qm31_ops_wf(qm31_value(m, b), qm31_from(0, 1, 0, 0), M31(0));
            lemma_qm31_entry(m, qm31_mul(qm31_value(m, b), qm31_from(0, 1, 0, 0)));
        }
    }
    let c_shift_by_j = call_qm31_shift_by_j(dsl, c)?;
    let ghost m2 = dsl.mem();
    proof {
        if ready {
            lemma_qm31_ops_wf(qm31_value(m, c), qm31_from(0, 0, 1, 0), M31(0));
            lemma_qm31_entry(m1, qm31_mul(qm31_value(m, c), qm31_from(0, 0, 1, 0)));
        }
    }
    let d_shift_by_ij = call_qm31_shift_by_ij(dsl, d)?;
    let ghost m3 = dsl.mem();
    proof {
        if ready {
            lemma_qm31_ops_wf(qm31_value(m, d), qm31_from(0, 0, 0, 1), M31(0));
            lemma_qm31_entry(m2, qm31_mul(qm31_value(m, d), qm31_from(0, 0, 0, 1)));
        }
    }
    let s1 = call_qm31_add(dsl, a, b_shift_by_i)?;
    let ghost m4 = dsl.mem();
    let ghost v1 = qm31_add(qm31_value(m, a), qm31_value(m1, b_shift_by_i));
    proof {
        if ready {
            lemma_qm31_ops_wf(qm31_value(m, a), qm31_value(m1, b_shift_by_i), M31(0));
            lemma_qm31_entry(m3, v1);
        }
    }
    let s2 = call_qm31_add(dsl, s1, c_shift_by_j)?;
    let ghost m5 = dsl.mem();
    let ghost v2 = qm31_add(v1, qm31_value(m2, c_shift_by_j));
    proof {
        if ready {
            lemma_qm31_ops_wf(v1, qm31_value(m2, c_shift_by_j), M31(0));
            lemma_qm31_entry(m4, v2);
        }
    }
    let sum = call_qm31_add(dsl, s2, d_shift_by_ij)?;
    proof {
        if ready && partial_evals_valid(m, a, b, c, d) {
            reveal(partial_evals_entries);
            assert(dsl.mem() =~= m + e);
        }
    }
    Ok(sum)
}

/// The value at `(z_x, z_y)` of the line through the constant points `e0`
/// and `e1`: `z_x (e0.y - e1.y) + z_y (e1.x - e0.x) + (e0.x e1.y - e0.y e1.x)`.
pub open spec fn pair_vanishing_value(z_x: QM31, z_y: QM31, e0: CirclePoint, e1: CirclePoint) -> QM31 {
    qm31_add_m31(
        qm31_add(qm31_mul_m31(z_x, sub_m(e0.y, e1.y)), qm31_mul_m31(z_y, sub_m(e1.x, e0.x))),
        sub_m(mul_m(e0.x, e1.y), mul_m(e0.y, e1.x)),
    )
}

/// Evaluates at `(z_x, z_y)` the line through the constant points `excluded0`
/// and `excluded1`, which vanishes at both.
#[verifier::spinoff_prover]
#[verifier::rlimit(40)]
pub fn pair_vanishing_with_constant_m31_points(
    dsl: &mut DSL,
    table: usize,
    z_x: usize,
    z_y: usize,
    excluded0: CirclePoint,
    excluded1: CirclePoint,
) -> (r: Result<usize>)
    requires
        excluded0.wf(),
        excluded1.wf(),
    ensures
        final(dsl).extends(old(dsl)),
        dsl_ready(old(dsl)) && indices_in(old(dsl).mem(), seq![table, z_x, z_y]) ==> (r is Ok
            <==> table_at(old(dsl).mem(), table) && qm31_valid_at(old(dsl).mem(), z_x) && qm31_valid_at(
            old(dsl).mem(),
            z_y,
        )),
        dsl_ready(old(dsl)) && table_at(old(dsl).mem(), table) && qm31_valid_at(old(dsl).mem(), z_x)
            && qm31_valid_at(old(dsl).mem(), z_y) ==> ({
            let m = old(dsl).mem();
            &&& m.len() + 39 <= usize::MAX
            &&& r == Ok::<usize, DslError>((m.len() + 38) as usize)
            &&& final(dsl).mem().len() == m.len() + 39
            &&& final(dsl).mem()[m.len() + 38int] == qm31_entry(
                pair_vanishing_value(qm31_value(m, z_x), qm31_value(m, z_y), excluded0, excluded1),
            )
        }),
{
    let ghost m = dsl.mem();
    let ghost ready = dsl_ready(dsl);
    let ghost zx = qm31_value(m, z_x);
    let ghost zy = qm31_value(m, z_y);
    let ghost ok = ready && table_at(m, table) && qm31_valid_at(m, z_x) && qm31_valid_at(m, z_y);
    let dx = excluded1.x.sub(excluded0.x);
    let dy = excluded0.y.sub(excluded1.y);
    let cross = excluded0.x.mul(excluded1.y).sub(excluded0.y.mul(excluded1.x));
    proof {
        lemma_m31_ops_wf();
        if ready && indices_in(m, seq![table, z_x, z_y]) {
            assert(seq![table, z_x, z_y][0] < m.len());
            assert(seq![table, z_x, z_y][1] < m.len());
            assert(seq![table, z_x, z_y][2] < m.len());
        }
        lemma_limbs_roundtrip(dx.0);
        lemma_limbs_roundtrip(dy.0);
        lemma_qm31_ops_wf(zy, zx, dx);
        lemma_qm31_ops_wf(zx, zy, dy);
    }
    let dx_limbs = alloc_m31_limbs_constant(dsl, dx)?;
    let z_y_part = qm31_mul_m31_limbs(dsl, table, z_y, dx_limbs)?;
    let dy_limbs = alloc_m31_limbs_constant(dsl, dy)?;
    let z_x_part = qm31_mul_m31_limbs(dsl, table, z_x, dy_limbs)?;
    let ghost m4 = dsl.mem();
    let sum = call_qm31_add(dsl, z_x_part, z_y_part)?;
    let ghost m5 = dsl.mem();
    let ghost s = qm31_add(qm31_mul_m31(zx, dy), qm31_mul_m31(zy, dx));
    proof {
        if ok {
            lemma_qm31_ops_wf(qm31_mul_m31(zx, dy), qm31_mul_m31(zy, dx), cross);
            lemma_qm31_entry(m4, s);
        }
    }
    let constant = alloc_m31_constant(dsl, cross)?;
    let ghost m6 = dsl.mem();
    proof {
        if ok {
            assert(m31_valid_at(m6, constant));
            assert(m31_value(m6, constant) == cross);
        }
    }
    let sum = call_qm31_add_m31(dsl, sum, constant)?;
    Ok(sum)
}

/// The pair vanishing line through `excluded0` and `excluded1` vanishes at
/// both of them.
pub proof fn lemma_pair_vanishing_at_excluded(e0: CirclePoint, e1: CirclePoint)
    requires
        e0.wf(),
        e1.wf(),
    ensures
        pair_vanishing_value(qm31_of_m31(e0.x), qm31_of_m31(e0.y), e0, e1) == qm31_zero(),
        pair_vanishing_value(qm31_of_m31(e1.x), qm31_of_m31(e1.y), e0, e1) == qm31_zero(),
{
    reveal(qm31_add);
    reveal(qm31_add_m31);
    reveal(qm31_mul_m31);
    reveal(cm31_add);
    reveal(cm31_add_m31);
    reveal(cm31_mul_m31);
    lemma_m31_line_vanishes(e0.x, e0.y, e1.x, e1.y, e0.x, e0.y);
    lemma_m31_line_vanishes(e0.x, e0.y, e1.x, e1.y, e1.x, e1.y);
    vstd::arithmetic::div_mod::lemma_small_mod(0, crate::field::m31::P as nat);
}

} // verus!
