use crate::dsl::functions_ready;
use crate::dsl::building_blocks::qm31::qm31_mul_m31_limbs;
use crate::dsl::compose::{
    call_m31_to_limbs, call_qm31_add, call_qm31_sub, indices_in, lemma_m31_ops_wf, lemma_qm31_entry,
    lemma_qm31_ops_wf, m31_valid_at, m31_value, num, nums, qm31_entry, qm31_valid_at, qm31_value,
    table_at,
};
use crate::dsl::framework::{DSL, DslError, Result};
use crate::dsl::values::lemma_i32_limbs_valid;
use crate::field::m31::M31;
use crate::field::qm31::{QM31, qm31_add, qm31_mul_m31, qm31_sub};
use crate::limbs::limbs_value;
use vstd::prelude::*;

verus! {

/// The inverse butterfly: `(v0 + v1, (v0 - v1) t)` for the twiddle `t`.
pub open spec fn ibutterfly_value(v0: QM31, v1: QM31, t: M31) -> (QM31, QM31) {
    (qm31_add(v0, v1), qm31_mul_m31(qm31_sub(v0, v1), t))
}

/// The inverse butterfly of the elements at `v0` and `v1` with the twiddle
/// at `itwid`: their sum, and their difference times the twiddle.
#[verifier::spinoff_prover]
#[verifier::rlimit(40)]
pub fn ibutterfly(dsl: &mut DSL, table: usize, v0: usize, v1: usize, itwid: usize) -> (r: Result<(usize, usize)>)
    ensures
        final(dsl).extends(old(dsl)),
        functions_ready(old(dsl).functions@) && indices_in(old(dsl).mem(), seq![table, v0, v1, itwid]) ==> (r is Ok
            <==> table_at(old(dsl).mem(), table) && qm31_valid_at(old(dsl).mem(), v0) && qm31_valid_at(
            old(dsl).mem(),
            v1,
        ) && m31_valid_at(old(dsl).mem(), itwid)),
        functions_ready(old(dsl).functions@) && table_at(old(dsl).mem(), table) && qm31_valid_at(
            old(dsl).mem(),
            v0,
        ) && qm31_valid_at(old(dsl).mem(), v1) && m31_valid_at(old(dsl).mem(), itwid) ==> ({
            let m = old(dsl).mem();
            let res = ibutterfly_value(qm31_value(m, v0), qm31_value(m, v1), m31_value(m, itwid));
            &&& m.len() + 20 <= usize::MAX
            &&& r == Ok::<(usize, usize), DslError>((m.len() as usize, (m.len() + 19) as usize))
            &&& final(dsl).mem().len() == m.len() + 20
            &&& final(dsl).hint_v().len() == old(dsl).hint_v().len() + 9
            &&& final(dsl).mem()[m.len() as int] == qm31_entry(res.0)
            &&& final(dsl).mem()[m.len() + 19int] == qm31_entry(res.1)
        }),
{
    let ghost m = dsl.mem();
    let ghost ready = functions_ready(dsl.functions@);
    let ghost a = qm31_value(m, v0);
    let ghost b = qm31_value(m, v1);
    let ghost t = num(m[itwid as int].1);
    proof {
        lemma_m31_ops_wf();
        lemma_qm31_ops_wf(a, b, M31(0));
        lemma_i32_limbs_valid(t);
        if ready && indices_in(m, seq![table, v0, v1, itwid]) {
            assert(seq![table, v0, v1, itwid][0] < m.len());
            assert(seq![table, v0, v1, itwid][1] < m.len());
            assert(seq![table, v0, v1, itwid][2] < m.len());
            assert(seq![table, v0, v1, itwid][3] < m.len());
        }
    }
    let new_v0 = call_qm31_add(dsl, v0, v1)?;
    let ghost m1 = dsl.mem();
    proof {
        if ready && qm31_valid_at(m, v0) && qm31_valid_at(m, v1) {
            lemma_qm31_entry(m, qm31_add(a, b));
        }
    }
    let diff = call_qm31_sub(dsl, v0, v1)?;
    let ghost m2 = dsl.mem();
    proof {
        if ready && qm31_valid_at(m, v0) && qm31_valid_at(m, v1) {
            lemma_qm31_entry(m1, qm31_sub(a, b));
        }
    }
    let itwid_limbs = call_m31_to_limbs(dsl, itwid)?;
    let ghost m3 = dsl.mem();
    proof {
        if ready && indices_in(m, seq![table, v0, v1, itwid]) {
            assert(seq![table, diff, itwid_limbs][0] < m3.len());
            assert(seq![table, diff, itwid_limbs][1] < m3.len());
            assert(seq![table, diff, itwid_limbs][2] < m3.len());
            assert(indices_in(m3, seq![table, diff, itwid_limbs]));
        }
    }
    let new_v1 = qm31_mul_m31_limbs(dsl, table, diff, itwid_limbs)?;
    proof {
        if ready && table_at(m, table) && qm31_valid_at(m, v0) && qm31_valid_at(m, v1) && m31_valid_at(m, itwid) {
            assert(limbs_value(nums(m3[itwid_limbs as int].1)) == t);
        }
    }
    Ok((new_v0, new_v1))
}

} // verus!
