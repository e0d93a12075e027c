use crate::dsl::building_blocks::cm31::lemma_cm31_mul_quotients_len;
use crate::dsl::functions_ready;
use crate::dsl::compose::{
    call_cm31_limbs_inverse, call_cm31_limbs_mul, call_cm31_sub, call_cm31_to_limbs,
    call_qm31_first, call_qm31_limbs_mul, call_qm31_second, call_qm31_to_limbs, cm31_entry,
    cm31_inverse, cm31_limbs_valid_at, indices_in, lemma_cm31_entry, lemma_cm31_i32_limbs,
    lemma_cm31_limbs_roundtrip, lemma_cm31_ops_wf, lemma_m31_ops_wf, lemma_qm31_entry,
    lemma_qm31_i32_limbs, lemma_qm31_ops_wf, nums, qm31_entry, qm31_valid_at, qm31_value, table_at,
};
use crate::dsl::framework::{DSL, DslError, EntryV, Result};
use crate::dsl::values::{cm31_elem, qm31_elem};
use crate::field::cm31::{CM31, cm31_mul, cm31_norm, cm31_sub};
use crate::field::m31::{M31, inv_m};
use crate::field::qm31::{QM31, qm31_mul, qm31_one};
use crate::field::algebra::{
    lemma_qm31_mul_assoc, lemma_qm31_mul_one, qm31_pow,
    lemma_cm31_inverse, lemma_cm31_mul_assoc, lemma_cm31_mul_comm, lemma_cm31_mul_one,
    lemma_cm31_sub_sub,
};
use crate::limbs::cm31_of_limbs;
use vstd::prelude::*;

verus! {

/// The powers `alpha^2, ..., alpha^6` as the products that compute them.
pub open spec fn alpha_powers(a: QM31) -> Seq<QM31> {
    let a2 = qm31_mul(a, a);
    let a4 = qm31_mul(a2, a2);
    seq![qm31_mul(a2, a4), qm31_mul(a, a4), a4, qm31_mul(a, a2), a2, a]
}

/// Computes `alpha^6, alpha^5, ..., alpha^2, alpha` from `alpha`, squaring
/// and multiplying through limbs, and gives their indices in that order.
#[verifier::spinoff_prover]
#[verifier::rlimit(100)]
pub fn power_alpha_six(dsl: &mut DSL, table: usize, alpha: usize) -> (r: Result<Vec<usize>>)
    ensures
        final(dsl).extends(old(dsl)),
        functions_ready(old(dsl).functions@) && indices_in(old(dsl).mem(), seq![table, alpha]) ==> (r is Ok
            <==> table_at(old(dsl).mem(), table) && qm31_valid_at(old(dsl).mem(), alpha)),
        functions_ready(old(dsl).functions@) && table_at(old(dsl).mem(), table) && qm31_valid_at(
            old(dsl).mem(),
            alpha,
        ) ==> ({
            let m = old(dsl).mem();
            let pw = alpha_powers(qm31_value(m, alpha));
            &&& m.len() + 8 <= usize::MAX
            &&& r matches Ok(v) && v@ == seq![
                (m.len() + 7) as usize,
                (m.len() + 6) as usize,
                (m.len() + 3) as usize,
                (m.len() + 5) as usize,
                (m.len() + 1) as usize,
                alpha,
            ]
            &&& final(dsl).mem().len() == m.len() + 8
            &&& final(dsl).hint_v().len() == old(dsl).hint_v().len() + 48
            &&& forall|k: int| 0 <= k < 5 ==> #[trigger] final(dsl).mem()[r->Ok_0@[k] as int] == qm31_entry(pw[k])
        }),
{
    let ghost m = dsl.mem();
    let ghost ready = functions_ready(dsl.functions@);
    let ghost a = qm31_value(m, alpha);
    let ghost a2 = qm31_mul(a, a);
    let ghost a4 = qm31_mul(a2, a2);
    proof {
        lemma_m31_ops_wf();
        lemma_qm31_ops_wf(a, a, M31(0));
        lemma_qm31_ops_wf(a2, a2, M31(0));
        if ready && indices_in(m, seq![table, alpha]) {
            assert(seq![table, alpha][0] < m.len());
            assert(seq![table, alpha][1] < m.len());
        }
        if nums(m[alpha as int].1).len() == 4 {
            lemma_qm31_i32_limbs(nums(m[alpha as int].1));
        }
        lemma_qm31_i32_limbs(qm31_elem(a2));
        lemma_qm31_i32_limbs(qm31_elem(a4));
    }
    let ghost h = dsl.hint_v();
    let alpha_limbs = call_qm31_to_limbs(dsl, alpha)?;
    let ghost m1 = dsl.mem();
    let alpha_2 = call_qm31_limbs_mul(dsl, table, alpha_limbs, alpha_limbs)?;
    proof {
        if ready && table_at(m, table) && qm31_valid_at(m, alpha) {
            lemma_qm31_entry(m1, a2);
        }
    }
    let alpha_2_limbs = call_qm31_to_limbs(dsl, alpha_2)?;
    proof {
        if ready && table_at(m, table) && qm31_valid_at(m, alpha) {
            assert(dsl.hint_v().len() == h.len() + 11);
        }
    }
    let ghost m3 = dsl.mem();
    let alpha_4 = call_qm31_limbs_mul(dsl, table, alpha_2_limbs, alpha_2_limbs)?;
    proof {
        if ready && table_at(m, table) && qm31_valid_at(m, alpha) {
            lemma_qm31_entry(m3, a4);
        }
    }
    let alpha_4_limbs = call_qm31_to_limbs(dsl, alpha_4)?;
    proof {
        if ready && table_at(m, table) && qm31_valid_at(m, alpha) {
            assert(dsl.hint_v().len() == h.len() + 21);
        }
    }
    let alpha_3 = call_qm31_limbs_mul(dsl, table, alpha_limbs, alpha_2_limbs)?;
    proof {
        if ready && table_at(m, table) && qm31_valid_at(m, alpha) {
            assert(dsl.hint_v().len() == h.len() + 30);
        }
    }
    let alpha_5 = call_qm31_limbs_mul(dsl, table, alpha_limbs, alpha_4_limbs)?;
    proof {
        if ready && table_at(m, table) && qm31_valid_at(m, alpha) {
            assert(dsl.hint_v().len() == h.len() + 39);
        }
    }
    let alpha_6 = call_qm31_limbs_mul(dsl, table, alpha_2_limbs, alpha_4_limbs)?;
    proof {
        if ready && table_at(m, table) && qm31_valid_at(m, alpha) {
            assert(dsl.hint_v().len() == h.len() + 48);
        }
    }
    let v = vec![alpha_6, alpha_5, alpha_4, alpha_3, alpha_2, alpha];
    Ok(v)
}

/// The prepared values of the point `(x, y)` for the pair vanishing
/// polynomials: `Im(x) / Im(y)` and `Im(x) / Im(y) Re(y) - Re(x)`, where the
/// halves of a degree-4 element are its real and imaginary parts over the
/// complex field.
pub open spec fn prepared_pair_vanishing(x: QM31, y: QM31) -> (CM31, CM31) {
    let d = cm31_mul(x.1, cm31_inverse(y.1));
    (d, cm31_sub(cm31_mul(d, y.0), x.0))
}

/// Prepares the point at `(x, y)` for the pair vanishing polynomials.
#[verifier::spinoff_prover]
#[verifier::rlimit(100)]
pub fn prepare_pair_vanishing(dsl: &mut DSL, table: usize, x: usize, y: usize) -> (r: Result<(usize, usize)>)
    ensures
        final(dsl).extends(old(dsl)),
        functions_ready(old(dsl).functions@) && indices_in(old(dsl).mem(), seq![table, x, y]) ==> (r is Ok
            <==> table_at(old(dsl).mem(), table) && qm31_valid_at(old(dsl).mem(), x) && qm31_valid_at(
            old(dsl).mem(),
            y,
        ) && cm31_norm(qm31_value(old(dsl).mem(), y).1).0 != 0),
        functions_ready(old(dsl).functions@) && table_at(old(dsl).mem(), table) && qm31_valid_at(
            old(dsl).mem(),
            x,
        ) && qm31_valid_at(old(dsl).mem(), y) && cm31_norm(qm31_value(old(dsl).mem(), y).1).0 != 0 ==> ({
            let m = old(dsl).mem();
            let p = prepared_pair_vanishing(qm31_value(m, x), qm31_value(m, y));
            &&& m.len() + 12 <= usize::MAX
            &&& r == Ok::<(usize, usize), DslError>(((m.len() + 5) as usize, (m.len() + 11) as usize))
            &&& final(dsl).mem().len() == m.len() + 12
            &&& final(dsl).hint_v().len() == old(dsl).hint_v().len() + 14
            &&& final(dsl).mem()[m.len() + 5int] == cm31_entry(p.0)
            &&& final(dsl).mem()[m.len() + 11int] == cm31_entry(p.1)
        }),
{
    let ghost m = dsl.mem();
    let ghost ready = functions_ready(dsl.functions@);
    let ghost xv = qm31_value(m, x);
    let ghost yv = qm31_value(m, y);
    let ghost inv = cm31_inverse(yv.1);
    let ghost d = cm31_mul(xv.1, inv);
    let ghost ok = ready && table_at(m, table) && qm31_valid_at(m, x) && qm31_valid_at(m, y);
    proof {
        lemma_cm31_mul_quotients_len();
        lemma_m31_ops_wf();
        if ready && indices_in(m, seq![table, x, y]) {
            assert(seq![table, x, y][0] < m.len());
            assert(seq![table, x, y][1] < m.len());
            assert(seq![table, x, y][2] < m.len());
        }
        let nx = nums(m[x as int].1);
        let ny = nums(m[y as int].1);
        if nx.len() == 4 {
            lemma_cm31_i32_limbs(seq![nx[0], nx[1]]);
        }
        if ny.len() == 4 {
            lemma_cm31_i32_limbs(seq![ny[0], ny[1]]);
            lemma_cm31_i32_limbs(seq![ny[2], ny[3]]);
        }
        lemma_cm31_ops_wf(yv.1, yv.1, inv_m(cm31_norm(yv.1)));
        lemma_cm31_ops_wf(xv.1, inv, M31(0));
        lemma_cm31_ops_wf(d, yv.0, M31(0));
        lemma_cm31_ops_wf(cm31_mul(d, yv.0), xv.0, M31(0));
        lemma_cm31_limbs_roundtrip(inv);
        lemma_cm31_limbs_roundtrip(d);
        lemma_cm31_i32_limbs(cm31_elem(d));
    }
    let y_imag = call_qm31_second(dsl, y)?;
    let y_imag_limbs = call_cm31_to_limbs(dsl, y_imag)?;
    let y_imag_inv_limbs = call_cm31_limbs_inverse(dsl, table, y_imag_limbs)?;
    let x_imag = call_qm31_second(dsl, x)?;
    let x_imag_limbs = call_cm31_to_limbs(dsl, x_imag)?;
    let ghost m5 = dsl.mem();
    let x_imag_div_y_imag = call_cm31_limbs_mul(dsl, table, x_imag_limbs, y_imag_inv_limbs)?;
    proof {
        if ok && cm31_norm(yv.1).0 != 0 {
            lemma_cm31_entry(m5, d);
        }
    }
    let x_imag_div_y_imag_limbs = call_cm31_to_limbs(dsl, x_imag_div_y_imag)?;
    let y_real = call_qm31_first(dsl, y)?;
    let y_real_limbs = call_cm31_to_limbs(dsl, y_real)?;
    let ghost m9 = dsl.mem();
    let cross_term = call_cm31_limbs_mul(dsl, table, x_imag_div_y_imag_limbs, y_real_limbs)?;
    proof {
        if ok && cm31_norm(yv.1).0 != 0 {
            lemma_cm31_entry(m9, cm31_mul(d, yv.0));
        }
    }
    let x_real = call_qm31_first(dsl, x)?;
    let cross_term = call_cm31_sub(dsl, cross_term, x_real)?;
    Ok((x_imag_div_y_imag, cross_term))
}

/// The line coefficients `(a, b)` of a column with value `e` at the point
/// with `y` coordinate `y`: `a = Im(e) / Im(y)` and
/// `b = Im(e) Re(y) / Im(y) - Re(e)`.
pub open spec fn line_coeffs(y: QM31, e: QM31) -> (CM31, CM31) {
    let inv = cm31_inverse(y.1);
    (cm31_mul(e.1, inv), cm31_sub(cm31_mul(e.1, cm31_mul(y.0, inv)), e.0))
}

/// Every index of `idx` holds a degree-4 element.
pub open spec fn all_qm31_valid(m: Seq<EntryV>, idx: Seq<usize>) -> bool {
    forall|k: int| 0 <= k < idx.len() ==> #[trigger] qm31_valid_at(m, idx[k])
}

/// Prepares the point with `y` coordinate at `y` for line coefficients:
/// gives the indices of the limbs of `1 / Im(y)` and of `Re(y) / Im(y)`.
#[verifier::spinoff_prover]
#[verifier::rlimit(40)]
fn line_coeffs_prefix(dsl: &mut DSL, table: usize, y: usize) -> (r: Result<(usize, usize)>)
    ensures
        final(dsl).extends(old(dsl)),
        functions_ready(old(dsl).functions@) && indices_in(old(dsl).mem(), seq![table, y]) ==> (r is Ok
            <==> table_at(old(dsl).mem(), table) && qm31_valid_at(old(dsl).mem(), y) && cm31_norm(
            qm31_value(old(dsl).mem(), y).1,
        ).0 != 0),
        functions_ready(old(dsl).functions@) && table_at(old(dsl).mem(), table) && qm31_valid_at(
            old(dsl).mem(),
            y,
        ) && cm31_norm(qm31_value(old(dsl).mem(), y).1).0 != 0 ==> ({
            let m = old(dsl).mem();
            let yv = qm31_value(m, y);
            let inv = cm31_inverse(yv.1);
            &&& m.len() + 7 <= usize::MAX
            &&& r == Ok::<(usize, usize), DslError>(((m.len() + 2) as usize, (m.len() + 6) as usize))
            &&& final(dsl).mem().len() == m.len() + 7
            &&& cm31_limbs_valid_at(final(dsl).mem(), (m.len() + 2) as usize)
            &&& cm31_of_limbs(nums(final(dsl).mem()[m.len() + 2int].1)) == inv
            &&& cm31_limbs_valid_at(final(dsl).mem(), (m.len() + 6) as usize)
            &&& cm31_of_limbs(nums(final(dsl).mem()[m.len() + 6int].1)) == cm31_mul(yv.0, inv)
        }),
{
    let ghost m = dsl.mem();
    let ghost ready = functions_ready(dsl.functions@);
    let ghost yv = qm31_value(m, y);
    let ghost inv = cm31_inverse(yv.1);
    let ghost ryi = cm31_mul(yv.0, inv);
    let ghost pre = ready && table_at(m, table) && qm31_valid_at(m, y) && cm31_norm(yv.1).0 != 0;
    proof {
        lemma_m31_ops_wf();
        if ready && indices_in(m, seq![table, y]) {
            assert(seq![table, y][0] < m.len());
            assert(seq![table, y][1] < m.len());
        }
        let ny = nums(m[y as int].1);
        if ny.len() == 4 {
            lemma_cm31_i32_limbs(seq![ny[0], ny[1]]);
            lemma_cm31_i32_limbs(seq![ny[2], ny[3]]);
        }
        lemma_cm31_ops_wf(yv.1, yv.1, inv_m(cm31_norm(yv.1)));
        lemma_cm31_ops_wf(yv.0, inv, M31(0));
        lemma_cm31_limbs_roundtrip(inv);
        lemma_cm31_limbs_roundtrip(ryi);
        lemma_cm31_i32_limbs(cm31_elem(ryi));
    }
    let y_imag = call_qm31_second(dsl, y)?;
    let y_imag_limbs = call_cm31_to_limbs(dsl, y_imag)?;
    let y_imag_inv_limbs = call_cm31_limbs_inverse(dsl, table, y_imag_limbs)?;
    let y_real = call_qm31_first(dsl, y)?;
    let y_real_limbs = call_cm31_to_limbs(dsl, y_real)?;
    let ghost m5 = dsl.mem();
    let y_real_times_y_imag_inv = call_cm31_limbs_mul(dsl, table, y_real_limbs, y_imag_inv_limbs)?;
    proof {
        if pre {
            lemma_cm31_entry(m5, ryi);
        }
    }
    let y_real_times_y_imag_inv_limbs = call_cm31_to_limbs(dsl, y_real_times_y_imag_inv)?;
    Ok((y_imag_inv_limbs, y_real_times_y_imag_inv_limbs))
}

/// Computes the line coefficients of one column from its value at `eval`,
/// given the limbs of `1 / Im(y)` at `inv` and of `Re(y) / Im(y)` at `ryi`.
#[verifier::spinoff_prover]
#[verifier::rlimit(40)]
fn line_coeffs_step(dsl: &mut DSL, table: usize, eval: usize, inv: usize, ryi: usize) -> (r: Result<(usize, usize)>)
    ensures
        final(dsl).extends(old(dsl)),
        functions_ready(old(dsl).functions@) && table_at(old(dsl).mem(), table) && cm31_limbs_valid_at(
            old(dsl).mem(),
            inv,
        ) && cm31_limbs_valid_at(old(dsl).mem(), ryi) ==> (r is Ok <==> qm31_valid_at(old(dsl).mem(), eval)),
        functions_ready(old(dsl).functions@) && table_at(old(dsl).mem(), table) && cm31_limbs_valid_at(
            old(dsl).mem(),
            inv,
        ) && cm31_limbs_valid_at(old(dsl).mem(), ryi) && qm31_valid_at(old(dsl).mem(), eval) ==> ({
            let m = old(dsl).mem();
            let e = qm31_value(m, eval);
            let iv = cm31_of_limbs(nums(m[inv as int].1));
            let rv = cm31_of_limbs(nums(m[ryi as int].1));
            &&& m.len() + 6 <= usize::MAX
            &&& r == Ok::<(usize, usize), DslError>(((m.len() + 3) as usize, (m.len() + 5) as usize))
            &&& final(dsl).mem().len() == m.len() + 6
            &&& final(dsl).mem()[m.len() + 3int] == cm31_entry(cm31_mul(e.1, iv))
            &&& final(dsl).mem()[m.len() + 5int] == cm31_entry(cm31_sub(cm31_mul(e.1, rv), e.0))
        }),
{
    let ghost m = dsl.mem();
    let ghost ready = functions_ready(dsl.functions@);
    let ghost e = qm31_value(m, eval);
    let ghost rv = cm31_of_limbs(nums(m[ryi as int].1));
    let ghost ok = ready && table_at(m, table) && cm31_limbs_valid_at(m, inv) && cm31_limbs_valid_at(m, ryi)
        && qm31_valid_at(m, eval);
    proof {
        lemma_m31_ops_wf();
        let ne = nums(m[eval as int].1);
        if ne.len() == 4 {
            lemma_cm31_i32_limbs(seq![ne[0], ne[1]]);
        }
        lemma_cm31_ops_wf(e.1, rv, M31(0));
        lemma_cm31_ops_wf(cm31_mul(e.1, rv), e.0, M31(0));
    }
    let eval_imag = call_qm31_second(dsl, eval)?;
    let eval_imag_limbs = call_cm31_to_limbs(dsl, eval_imag)?;
    let eval_real = call_qm31_first(dsl, eval)?;
    let a = call_cm31_limbs_mul(dsl, table, eval_imag_limbs, inv)?;
    let ghost m4 = dsl.mem();
    let b = call_cm31_limbs_mul(dsl, table, eval_imag_limbs, ryi)?;
    proof {
        if ok {
            lemma_cm31_entry(m4, cm31_mul(e.1, rv));
        }
    }
    let b = call_cm31_sub(dsl, b, eval_real)?;
    Ok((a, b))
}

/// Pair `k` of `ab` indexes the line coefficients of `e`, placed after the
/// prefix at `base`.
#[verifier::opaque]
pub open spec fn line_coeffs_at(mem: Seq<EntryV>, base: int, ab: Seq<(usize, usize)>, y: QM31, e: QM31, k: int) -> bool {
    let c = line_coeffs(y, e);
    &&& ab[k] == ((base + 10 + 6 * k) as usize, (base + 12 + 6 * k) as usize)
    &&& mem[base + 10 + 6 * k] == cm31_entry(c.0)
    &&& mem[base + 12 + 6 * k] == cm31_entry(c.1)
}

/// Computes the line coefficients `(a, b)` of the columns whose values at
/// the point with `y` coordinate at `y` are at `evals`, and gives their
/// indices in the order of `evals`.
#[verifier::spinoff_prover]
#[verifier::rlimit(100)]
pub fn column_line_coeffs(dsl: &mut DSL, table: usize, y: usize, evals: &[usize]) -> (r: Result<Vec<(usize, usize)>>)
    ensures
        final(dsl).extends(old(dsl)),
        functions_ready(old(dsl).functions@) && indices_in(old(dsl).mem(), seq![table, y] + evals@) ==> (r is Ok
            <==> table_at(old(dsl).mem(), table) && qm31_valid_at(old(dsl).mem(), y) && cm31_norm(
            qm31_value(old(dsl).mem(), y).1,
        ).0 != 0 && all_qm31_valid(old(dsl).mem(), evals@)),
        functions_ready(old(dsl).functions@) && table_at(old(dsl).mem(), table) && qm31_valid_at(
            old(dsl).mem(),
            y,
        ) && cm31_norm(qm31_value(old(dsl).mem(), y).1).0 != 0 && all_qm31_valid(old(dsl).mem(), evals@)
            ==> ({
            let m = old(dsl).mem();
            &&& r matches Ok(ab) && ab@.len() == evals@.len() && forall|k: int|
                0 <= k < evals@.len() ==> #[trigger] line_coeffs_at(
                    final(dsl).mem(),
                    m.len() as int,
                    ab@,
                    qm31_value(m, y),
                    qm31_value(m, evals@[k]),
                    k,
                )
            &&& final(dsl).mem().len() == m.len() + 7 + 6 * evals@.len()
        }),
{
    let ghost m = dsl.mem();
    let ghost ready = functions_ready(dsl.functions@);
    let ghost yv = qm31_value(m, y);
    let ghost pre = ready && table_at(m, table) && qm31_valid_at(m, y) && cm31_norm(yv.1).0 != 0;
    let ghost inr = ready && indices_in(m, seq![table, y] + evals@);
    let ghost good = pre && all_qm31_valid(m, evals@);
    proof {
        if inr {
            assert((seq![table, y] + evals@)[0] < m.len());
            assert((seq![table, y] + evals@)[1] < m.len());
            assert(indices_in(m, seq![table, y]));
            assert forall|k: int| 0 <= k < evals@.len() implies #[trigger] evals@[k] < m.len() by {
                assert((seq![table, y] + evals@)[k + 2] < m.len());
            }
        }
    }
    let (inv, ryi) = line_coeffs_prefix(dsl, table, y)?;
    let mut ab: Vec<(usize, usize)> = Vec::new();
    let mut i: usize = 0;
    while i < evals.len()
        invariant
            0 <= i <= evals@.len(),
            dsl.extends(old(dsl)),
            m == old(dsl).mem(),
            ready == functions_ready(old(dsl).functions@),
            yv == qm31_value(m, y),
            pre == (ready && table_at(m, table) && qm31_valid_at(m, y) && cm31_norm(yv.1).0 != 0),
            inr == (ready && indices_in(m, seq![table, y] + evals@)),
            good == (pre && all_qm31_valid(m, evals@)),
            inr ==> forall|k: int| 0 <= k < evals@.len() ==> #[trigger] evals@[k] < m.len(),
            pre ==> {
                &&& inv == m.len() + 2
                &&& ryi == m.len() + 6
                &&& dsl.mem().len() == m.len() + 7 + 6 * i
                &&& table_at(dsl.mem(), table)
                &&& cm31_limbs_valid_at(dsl.mem(), inv)
                &&& cm31_of_limbs(nums(dsl.mem()[inv as int].1)) == cm31_inverse(yv.1)
                &&& cm31_limbs_valid_at(dsl.mem(), ryi)
                &&& cm31_of_limbs(nums(dsl.mem()[ryi as int].1)) == cm31_mul(yv.0, cm31_inverse(yv.1))
                &&& ab@.len() == i
            },
            pre && inr ==> all_qm31_valid(m, evals@.subrange(0, i as int)),
            good ==> forall|k: int|
                0 <= k < i ==> #[trigger] line_coeffs_at(dsl.mem(), m.len() as int, ab@, yv, qm31_value(m, evals@[k]), k),
        decreases evals@.len() - i,
    {
        let eval = evals[i];
        let ghost mi = dsl.mem();
        proof {
            if good {
                assert(qm31_valid_at(m, evals@[i as int]));
                assert(mi[eval as int] == m[eval as int]);
                assert(qm31_valid_at(mi, eval));
                assert(qm31_value(mi, eval) == qm31_value(m, eval));
            }
            if inr {
                assert(eval < m.len());
                if pre {
                    assert(mi[eval as int] == m[eval as int]);
                    assert(qm31_valid_at(mi, eval) == qm31_valid_at(m, eval));
                }
            }
        }
        let (a, b) = line_coeffs_step(dsl, table, eval, inv, ryi)?;
        let ghost ab_prev = ab@;
        ab.push((a, b));
        proof {
            if pre && inr {
                assert(qm31_valid_at(m, eval));
                assert(evals@.subrange(0, i + 1) =~= evals@.subrange(0, i as int).push(eval));
            }
            if good {
                assert forall|k: int| 0 <= k < i + 1 implies #[trigger] line_coeffs_at(
                    dsl.mem(),
                    m.len() as int,
                    ab@,
                    yv,
                    qm31_value(m, evals@[k]),
                    k,
                ) by {
                    reveal(line_coeffs_at);
                    if k < i {
                        assert(line_coeffs_at(mi, m.len() as int, ab_prev, yv, qm31_value(m, evals@[k]), k));
                        assert(ab@[k] == ab_prev[k]);
                        assert(dsl.mem()[m.len() + 10 + 6 * k] == mi[m.len() + 10 + 6 * k]);
                        assert(dsl.mem()[m.len() + 12 + 6 * k] == mi[m.len() + 12 + 6 * k]);
                    } else {
                        assert(ab@[k] == (a, b));
                        assert(mi.len() == m.len() + 7 + 6 * i);
                    }
                }
            }
        }
        i = i + 1;
    }
    proof {
        if pre && inr {
            assert(evals@.subrange(0, evals@.len() as int) =~= evals@);
        }
    }
    Ok(ab)
}

/// The line with the coefficients `(a, b)` of the value `e` at the point
/// with `y` coordinate `y` passes through the sample: `a Re(y) - b == Re(e)`
/// and `a Im(y) == Im(e)`, that is `a y - b == e`.
pub proof fn lemma_line_coeffs_interpolate(y: QM31, e: QM31)
    requires
        y.wf(),
        e.wf(),
        cm31_norm(y.1).0 != 0,
    ensures
        cm31_sub(cm31_mul(line_coeffs(y, e).0, y.0), line_coeffs(y, e).1) == e.0,
        cm31_mul(line_coeffs(y, e).0, y.1) == e.1,
{
    let inv = cm31_inverse(y.1);
    lemma_cm31_inverse(y.1);
    lemma_cm31_mul_assoc(e.1, inv, y.1);
    lemma_cm31_mul_comm(inv, y.1);
    lemma_cm31_mul_one(e.1);
    lemma_cm31_mul_assoc(e.1, inv, y.0);
    lemma_cm31_mul_comm(inv, y.0);
    let t = cm31_mul(e.1, cm31_mul(y.0, inv));
    lemma_cm31_ops_wf(e.1, cm31_mul(y.0, inv), M31(0));
    lemma_cm31_sub_sub(t, e.0);
}

/// The prepared values of the point `(x, y)` are the line coefficients of the
/// value `x` at the point with `y` coordinate `y`.
pub proof fn lemma_prepared_pair_vanishing_is_line(x: QM31, y: QM31)
    requires
        x.wf(),
        y.wf(),
        cm31_norm(y.1).0 != 0,
    ensures
        prepared_pair_vanishing(x, y) == line_coeffs(y, x),
{
    let inv = cm31_inverse(y.1);
    lemma_cm31_inverse(y.1);
    lemma_cm31_mul_assoc(x.1, inv, y.0);
    lemma_cm31_mul_comm(inv, y.0);
}

/// The values that `power_alpha_six` computes are the powers
/// `alpha^6, alpha^5, ..., alpha^1`.
pub proof fn lemma_alpha_powers(a: QM31)
    requires
        a.wf(),
    ensures
        alpha_powers(a) == seq![
            qm31_pow(a, 6),
            qm31_pow(a, 5),
            qm31_pow(a, 4),
            qm31_pow(a, 3),
            qm31_pow(a, 2),
            qm31_pow(a, 1),
        ],
{
    let a2 = qm31_mul(a, a);
    let a4 = qm31_mul(a2, a2);
    lemma_qm31_ops_wf(a, a, M31(0));
    lemma_qm31_ops_wf(a2, a2, M31(0));
    lemma_qm31_mul_one(a);
    assert(qm31_pow(a, 0) == qm31_one());
    assert(qm31_pow(a, 1) == a);
    assert(qm31_pow(a, 2) == a2);
    assert(qm31_pow(a, 3) == qm31_mul(a, a2));
    lemma_qm31_mul_assoc(a, a, a2);
    assert(qm31_pow(a, 4) == a4);
    assert(qm31_pow(a, 5) == qm31_mul(a, a4));
    lemma_qm31_mul_assoc(a, a, a4);
    assert(qm31_pow(a, 6) == qm31_mul(a2, a4));
    assert(alpha_powers(a) =~= seq![
        qm31_pow(a, 6),
        qm31_pow(a, 5),
        qm31_pow(a, 4),
        qm31_pow(a, 3),
        qm31_pow(a, 2),
        qm31_pow(a, 1),
    ]);
}

} // verus!
