use crate::dsl::functions_ready;
use crate::dsl::building_blocks::qm31::{lemma_qm31_mul_quotients_len, qm31_mul_m31_limbs};
use crate::dsl::compose::{
    alloc_m31_limbs_constant, call_qm31_1sub, call_qm31_add, call_qm31_limbs_mul, call_qm31_sub,
    call_qm31_to_limbs, dsl_ready, indices_in, lemma_m31_ops_wf, lemma_qm31_entry,
    lemma_qm31_i32_limbs, lemma_qm31_ops_wf, nums, qm31_entry, qm31_valid_at, qm31_value, table_at,
};
use crate::dsl::framework::{DSL, DslError, Result};
use crate::field::m31::{M31, add_m};
use crate::field::algebra::{lemma_m31_difference_from_sum, lemma_m31_karatsuba};
use crate::field::cm31::{cm31_add, cm31_mul_m31, cm31_sub};
use crate::field::qm31::{QM31, qm31_add, qm31_mul, qm31_mul_m31, qm31_one, qm31_sub};
use crate::limbs::lemma_limbs_roundtrip;
use vstd::prelude::*;

verus! {

/// The `x` coordinate `2 x^2 - 1` of the double of a point on the circle.
pub open spec fn double_x_value(x: QM31) -> QM31 {
    qm31_sub(qm31_add(qm31_mul(x, x), qm31_mul(x, x)), qm31_one())
}

/// Doubles the `x` coordinate at `x`: squares it through its limbs, doubles
/// the square and subtracts one.
#[verifier::spinoff_prover]
#[verifier::rlimit(40)]
pub fn point_double_x(dsl: &mut DSL, table: usize, x: usize) -> (r: Result<usize>)
    ensures
        final(dsl).extends(old(dsl)),
        functions_ready(old(dsl).functions@) && indices_in(old(dsl).mem(), seq![table, x]) ==> (r is Ok
            <==> table_at(old(dsl).mem(), table) && qm31_valid_at(old(dsl).mem(), x)),
        functions_ready(old(dsl).functions@) && table_at(old(dsl).mem(), table) && qm31_valid_at(
            old(dsl).mem(),
            x,
        ) ==> ({
            let m = old(dsl).mem();
            &&& m.len() + 4 <= usize::MAX
            &&& r == Ok::<usize, DslError>((m.len() + 3) as usize)
            &&& final(dsl).mem().len() == m.len() + 4
            &&& final(dsl).hint_v().len() == old(dsl).hint_v().len() + 10
            &&& final(dsl).mem()[m.len() + 3int] == qm31_entry(double_x_value(qm31_value(m, x)))
        }),
{
    let ghost m = dsl.mem();
    let ghost ready = functions_ready(dsl.functions@);
    let ghost n = nums(m[x as int].1);
    proof {
        lemma_m31_ops_wf();
        if ready && indices_in(m, seq![table, x]) {
            assert(seq![table, x][0] < m.len());
            assert(seq![table, x][1] < m.len());
        }
        if n.len() == 4 {
            lemma_qm31_i32_limbs(n);
        }
    }
    let x_limbs = call_qm31_to_limbs(dsl, x)?;
    let ghost m1 = dsl.mem();
    let x_squared = call_qm31_limbs_mul(dsl, table, x_limbs, x_limbs)?;
    let ghost m2 = dsl.mem();
    let ghost v = qm31_value(m, x);
    let ghost sq = qm31_mul(v, v);
    proof {
        if ready && qm31_valid_at(m, x) {
            lemma_qm31_ops_wf(v, v, M31(0));
            lemma_qm31_entry(m1, sq);
        }
    }
    let doubled = call_qm31_add(dsl, x_squared, x_squared)?;
    let ghost m3 = dsl.mem();
    proof {
        if ready && qm31_valid_at(m, x) {
            lemma_qm31_ops_wf(sq, sq, M31(0));
            lemma_qm31_entry(m2, qm31_add(sq, sq));
        }
    }
    let res = call_qm31_1sub(dsl, doubled)?;
    Ok(res)
}

/// The `x` coordinate `x0 x1 - y0 y1` of the sum of two points.
pub open spec fn add_x_value(x0: QM31, y0: QM31, x1: QM31, y1: QM31) -> QM31 {
    qm31_sub(qm31_mul(x0, x1), qm31_mul(y0, y1))
}

/// The `x` coordinate of the sum of the points `(x0, y0)` and `(x1, y1)`,
/// with both products taken through limbs.
#[verifier::spinoff_prover]
#[verifier::rlimit(40)]
pub fn point_add_x_only(dsl: &mut DSL, table: usize, x0: usize, y0: usize, x1: usize, y1: usize) -> (r: Result<usize>)
    ensures
        final(dsl).extends(old(dsl)),
        functions_ready(old(dsl).functions@) && indices_in(old(dsl).mem(), seq![table, x0, y0, x1, y1]) ==> (r is Ok
            <==> table_at(old(dsl).mem(), table) && qm31_valid_at(old(dsl).mem(), x0) && qm31_valid_at(
            old(dsl).mem(),
            y0,
        ) && qm31_valid_at(old(dsl).mem(), x1) && qm31_valid_at(old(dsl).mem(), y1)),
        functions_ready(old(dsl).functions@) && table_at(old(dsl).mem(), table) && qm31_valid_at(
            old(dsl).mem(),
            x0,
        ) && qm31_valid_at(old(dsl).mem(), y0) && qm31_valid_at(old(dsl).mem(), x1) && qm31_valid_at(
            old(dsl).mem(),
            y1,
        ) ==> ({
            let m = old(dsl).mem();
            &&& m.len() + 7 <= usize::MAX
            &&& r == Ok::<usize, DslError>((m.len() + 6) as usize)
            &&& final(dsl).mem().len() == m.len() + 7
            &&& final(dsl).hint_v().len() == old(dsl).hint_v().len() + 22
            &&& final(dsl).mem()[m.len() + 6int] == qm31_entry(
                add_x_value(qm31_value(m, x0), qm31_value(m, y0), qm31_value(m, x1), qm31_value(m, y1)),
            )
        }),
{
    let ghost m = dsl.mem();
    let ghost ready = functions_ready(dsl.functions@);
    let ghost idx = seq![table, x0, y0, x1, y1];
    proof {
        lemma_m31_ops_wf();
        if ready && indices_in(m, idx) {
            assert(idx[0] < m.len() && idx[1] < m.len() && idx[2] < m.len() && idx[3] < m.len() && idx[4] < m.len());
        }
        if nums(m[x0 as int].1).len() == 4 {
            lemma_qm31_i32_limbs(nums(m[x0 as int].1));
        }
        if nums(m[x1 as int].1).len() == 4 {
            lemma_qm31_i32_limbs(nums(m[x1 as int].1));
        }
        if nums(m[y0 as int].1).len() == 4 {
            lemma_qm31_i32_limbs(nums(m[y0 as int].1));
        }
        if nums(m[y1 as int].1).len() == 4 {
            lemma_qm31_i32_limbs(nums(m[y1 as int].1));
        }
    }
    let ghost ok = ready && table_at(m, table) && qm31_valid_at(m, x0) && qm31_valid_at(m, y0)
        && qm31_valid_at(m, x1) && qm31_valid_at(m, y1);
    let ghost p1 = qm31_mul(qm31_value(m, x0), qm31_value(m, x1));
    let ghost p2 = qm31_mul(qm31_value(m, y0), qm31_value(m, y1));
    proof {
        lemma_qm31_ops_wf(qm31_value(m, x0), qm31_value(m, x1), M31(0));
        lemma_qm31_ops_wf(qm31_value(m, y0), qm31_value(m, y1), M31(0));
    }
    let ghost h = dsl.hint_v();
    let x0_limbs = call_qm31_to_limbs(dsl, x0)?;
    let x1_limbs = call_qm31_to_limbs(dsl, x1)?;
    let ghost m2 = dsl.mem();
    let ghost h2 = dsl.hint_v();
    let x0x1 = call_qm31_limbs_mul(dsl, table, x0_limbs, x1_limbs)?;
    proof {
        if ok {
            lemma_qm31_mul_quotients_len();
            assert(dsl.hint_v().len() == h.len() + 11);
            lemma_qm31_entry(m2, p1);
        }
    }
    let y0_limbs = call_qm31_to_limbs(dsl, y0)?;
    let y1_limbs = call_qm31_to_limbs(dsl, y1)?;
    let ghost m5 = dsl.mem();
    let y0y1 = call_qm31_limbs_mul(dsl, table, y0_limbs, y1_limbs)?;
    proof {
        if ok {
            lemma_qm31_mul_quotients_len();
            lemma_qm31_entry(m5, p2);
        }
    }
    let res = call_qm31_sub(dsl, x0x1, y0y1)?;
    Ok(res)
}

/// A point `(x, y)` of the circle over the base field.
#[derive(Clone, Copy, Debug, PartialEq, Eq, Structural)]
pub struct CirclePoint {
    pub x: M31,
    pub y: M31,
}

impl CirclePoint {
    /// Both coordinates are canonical.
    pub open spec fn wf(self) -> bool {
        self.x.wf() && self.y.wf()
    }
}

/// The sum `(x0 x1 - y0 y1, (x0 + y0)(x1 + y1) - x0 x1 - y0 y1)` of the point
/// `(x0, y0)` and the constant point `(x1, y1)`, the second coordinate by
/// Karatsuba's trick.
pub open spec fn add_constant_value(x0: QM31, y0: QM31, c: CirclePoint) -> (QM31, QM31) {
    let x0x1 = qm31_mul_m31(x0, c.x);
    let y0y1 = qm31_mul_m31(y0, c.y);
    let all = qm31_mul_m31(qm31_add(x0, y0), add_m(c.x, c.y));
    (qm31_sub(x0x1, y0y1), qm31_sub(qm31_sub(all, x0x1), y0y1))
}

/// Adds the constant point `constant` to the point `(current_x, current_y)`.
#[verifier::spinoff_prover]
#[verifier::rlimit(40)]
pub fn add_constant_m31_point(
    dsl: &mut DSL,
    table: usize,
    current_x: usize,
    current_y: usize,
    constant: CirclePoint,
) -> (r: Result<(usize, usize)>)
    requires
        constant.wf(),
    ensures
        final(dsl).extends(old(dsl)),
        dsl_ready(old(dsl)) && indices_in(old(dsl).mem(), seq![table, current_x, current_y]) ==> (r is Ok
            <==> table_at(old(dsl).mem(), table) && qm31_valid_at(old(dsl).mem(), current_x) && qm31_valid_at(
            old(dsl).mem(),
            current_y,
        )),
        dsl_ready(old(dsl)) && table_at(old(dsl).mem(), table) && qm31_valid_at(old(dsl).mem(), current_x)
            && qm31_valid_at(old(dsl).mem(), current_y) ==> ({
            let m = old(dsl).mem();
            let v = add_constant_value(qm31_value(m, current_x), qm31_value(m, current_y), constant);
            &&& m.len() + 58 <= usize::MAX
            &&& r == Ok::<(usize, usize), DslError>(((m.len() + 57) as usize, (m.len() + 56) as usize))
            &&& final(dsl).mem().len() == m.len() + 58
            &&& final(dsl).mem()[m.len() + 57int] == qm31_entry(v.0)
            &&& final(dsl).mem()[m.len() + 56int] == qm31_entry(v.1)
        }),
{
    let ghost m = dsl.mem();
    let ghost ready = dsl_ready(dsl);
    let ghost x0 = qm31_value(m, current_x);
    let ghost y0 = qm31_value(m, current_y);
    let ghost v = add_constant_value(x0, y0, constant);
    let ghost ok = ready && table_at(m, table) && qm31_valid_at(m, current_x) && qm31_valid_at(m, current_y);
    proof {
        lemma_m31_ops_wf();
        if ready && indices_in(m, seq![table, current_x, current_y]) {
            assert(seq![table, current_x, current_y][0] < m.len());
            assert(seq![table, current_x, current_y][1] < m.len());
            assert(seq![table, current_x, current_y][2] < m.len());
        }
        lemma_limbs_roundtrip(constant.x.0);
        lemma_limbs_roundtrip(constant.y.0);
        lemma_limbs_roundtrip(add_m(constant.x, constant.y).0);
        lemma_qm31_ops_wf(x0, y0, constant.x);
        lemma_qm31_ops_wf(y0, x0, constant.y);
    }
    let x1_limbs = alloc_m31_limbs_constant(dsl, constant.x)?;
    let ghost m1 = dsl.mem();
    let x0x1 = qm31_mul_m31_limbs(dsl, table, current_x, x1_limbs)?;
    let ghost m2 = dsl.mem();
    let y1_limbs = alloc_m31_limbs_constant(dsl, constant.y)?;
    let ghost m3 = dsl.mem();
    let y0y1 = qm31_mul_m31_limbs(dsl, table, current_y, y1_limbs)?;
    let ghost m4 = dsl.mem();
    let x0_plus_y0 = call_qm31_add(dsl, current_x, current_y)?;
    let ghost m5 = dsl.mem();
    proof {
        if ok {
            lemma_qm31_entry(m4, qm31_add(x0, y0));
        }
    }
    let x1_plus_y1 = constant.x.add(constant.y);
    let x1_plus_y1_limbs = alloc_m31_limbs_constant(dsl, x1_plus_y1)?;
    let ghost m6 = dsl.mem();
    let all_terms = qm31_mul_m31_limbs(dsl, table, x0_plus_y0, x1_plus_y1_limbs)?;
    let ghost m7 = dsl.mem();
    proof {
        if ok {
            let all = qm31_mul_m31(qm31_add(x0, y0), add_m(constant.x, constant.y));
            lemma_qm31_ops_wf(qm31_add(x0, y0), x0, add_m(constant.x, constant.y));
            assert(m7[m6.len() + 16int] == qm31_entry(all));
            assert(qm31_valid_at(m7, all_terms));
            assert(qm31_valid_at(m7, x0x1));
        }
    }
    let cross_terms = call_qm31_sub(dsl, all_terms, x0x1)?;
    let ghost m8 = dsl.mem();
    proof {
        if ok {
            let all = qm31_mul_m31(qm31_add(x0, y0), add_m(constant.x, constant.y));
            lemma_qm31_ops_wf(all, qm31_mul_m31(x0, constant.x), M31(0));
            lemma_qm31_entry(m7, qm31_sub(all, qm31_mul_m31(x0, constant.x)));
        }
    }
    let cross_terms = call_qm31_sub(dsl, cross_terms, y0y1)?;
    let ghost m9 = dsl.mem();
    proof {
        if ok {
            let all = qm31_mul_m31(qm31_add(x0, y0), add_m(constant.x, constant.y));
            lemma_qm31_ops_wf(qm31_sub(all, qm31_mul_m31(x0, constant.x)), qm31_mul_m31(y0, constant.y), M31(0));
            lemma_qm31_entry(m8, v.1);
        }
    }
    let new_x = call_qm31_sub(dsl, x0x1, y0y1)?;
    Ok((new_x, cross_terms))
}

/// The `x` coordinate `x0 x1 - y0 y1` of the sum of the point `(x0, y0)` and
/// the constant point `(x1, y1)`.
#[verifier::spinoff_prover]
#[verifier::rlimit(40)]
pub fn add_constant_m31_point_x_only(
    dsl: &mut DSL,
    table: usize,
    current_x: usize,
    current_y: usize,
    constant: CirclePoint,
) -> (r: Result<usize>)
    requires
        constant.wf(),
    ensures
        final(dsl).extends(old(dsl)),
        dsl_ready(old(dsl)) && indices_in(old(dsl).mem(), seq![table, current_x, current_y]) ==> (r is Ok
            <==> table_at(old(dsl).mem(), table) && qm31_valid_at(old(dsl).mem(), current_x) && qm31_valid_at(
            old(dsl).mem(),
            current_y,
        )),
        dsl_ready(old(dsl)) && table_at(old(dsl).mem(), table) && qm31_valid_at(old(dsl).mem(), current_x)
            && qm31_valid_at(old(dsl).mem(), current_y) ==> ({
            let m = old(dsl).mem();
            let v = add_constant_value(qm31_value(m, current_x), qm31_value(m, current_y), constant);
            &&& m.len() + 37 <= usize::MAX
            &&& r == Ok::<usize, DslError>((m.len() + 36) as usize)
            &&& final(dsl).mem().len() == m.len() + 37
            &&& final(dsl).mem()[m.len() + 36int] == qm31_entry(v.0)
        }),
{
    let ghost m = dsl.mem();
    let ghost ready = dsl_ready(dsl);
    let ghost x0 = qm31_value(m, current_x);
    let ghost y0 = qm31_value(m, current_y);
    proof {
        lemma_m31_ops_wf();
        if ready && indices_in(m, seq![table, current_x, current_y]) {
            assert(seq![table, current_x, current_y][0] < m.len());
            assert(seq![table, current_x, current_y][1] < m.len());
            assert(seq![table, current_x, current_y][2] < m.len());
        }
        lemma_limbs_roundtrip(constant.x.0);
        lemma_limbs_roundtrip(constant.y.0);
        lemma_qm31_ops_wf(x0, y0, constant.x);
        lemma_qm31_ops_wf(y0, x0, constant.y);
    }
    let x1_limbs = alloc_m31_limbs_constant(dsl, constant.x)?;
    let x0x1 = qm31_mul_m31_limbs(dsl, table, current_x, x1_limbs)?;
    let y1_limbs = alloc_m31_limbs_constant(dsl, constant.y)?;
    let y0y1 = qm31_mul_m31_limbs(dsl, table, current_y, y1_limbs)?;
    let new_x = call_qm31_sub(dsl, x0x1, y0y1)?;
    Ok(new_x)
}

/// Karatsuba's trick gives the `y` coordinate of the sum with a constant
/// point: `x0 c.y + y0 c.x`.
pub proof fn lemma_add_constant_y(x0: QM31, y0: QM31, c: CirclePoint)
    ensures
        add_constant_value(x0, y0, c).1 == qm31_add(qm31_mul_m31(x0, c.y), qm31_mul_m31(y0, c.x)),
{
    reveal(qm31_add);
    reveal(qm31_sub);
    reveal(qm31_mul_m31);
    reveal(cm31_add);
    reveal(cm31_sub);
    reveal(cm31_mul_m31);
    lemma_m31_karatsuba(x0.0.0, y0.0.0, c.x, c.y);
    lemma_m31_karatsuba(x0.0.1, y0.0.1, c.x, c.y);
    lemma_m31_karatsuba(x0.1.0, y0.1.0, c.x, c.y);
    lemma_m31_karatsuba(x0.1.1, y0.1.1, c.x, c.y);
}

/// On the circle `x^2 + y^2 == 1`, the `x` coordinate of the sum of a point
/// with itself is the doubled `x` coordinate `2 x^2 - 1`.
pub proof fn lemma_double_x_is_self_add(x: QM31, y: QM31)
    requires
        qm31_add(qm31_mul(x, x), qm31_mul(y, y)) == qm31_one(),
    ensures
        add_x_value(x, y, x, y) == double_x_value(x),
{
    reveal(qm31_add);
    reveal(qm31_sub);
    reveal(cm31_add);
    reveal(cm31_sub);
    let p = qm31_mul(x, x);
    let q = qm31_mul(y, y);
    lemma_m31_difference_from_sum(p.0.0, q.0.0, M31(1));
    lemma_m31_difference_from_sum(p.0.1, q.0.1, M31(0));
    lemma_m31_difference_from_sum(p.1.0, q.1.0, M31(0));
    lemma_m31_difference_from_sum(p.1.1, q.1.1, M31(0));
}

} // verus!
