use crate::field::algebra::{
    cm31_of_ints, lemma_cm31_add4, lemma_cm31_canonical, lemma_cm31_distributive,
    lemma_cm31_of_ints_ops, lemma_cm31_results_wf, lemma_qm31_mul_assoc, lemma_qm31_mul_comm,
    lemma_qm31_results_wf,
};
use crate::field::cm31::{cm31_add, cm31_mul, cm31_neg, CM31};
use crate::field::qm31::{qm31_add, qm31_mul, qm31_neg, r_const, QM31};
use vstd::prelude::*;

verus! {

/// The degree-4 element whose four coordinates are the residues of `a`, `b`,
/// `c` and `d`.
pub open spec fn qm31_of_ints(a: int, b: int, c: int, d: int) -> QM31 {
    QM31(cm31_of_ints(a, b), cm31_of_ints(c, d))
}

/// A canonical degree-4 element is made of the residues of its coordinates.
pub proof fn lemma_qm31_canonical(x: QM31)
    requires
        x.wf(),
    ensures
        q4(coords4(x)) == x,
{
    lemma_cm31_canonical(x.0);
    lemma_cm31_canonical(x.1);
}

/// Four integers, the coordinates of a degree-4 element before reduction.
pub type Ints4 = (int, int, int, int);

/// The degree-4 element of the residues of `a`.
pub open spec fn q4(a: Ints4) -> QM31 {
    qm31_of_ints(a.0, a.1, a.2, a.3)
}

/// Coordinate-wise sum.
pub open spec fn add4(a: Ints4, b: Ints4) -> Ints4 {
    (a.0 + b.0, a.1 + b.1, a.2 + b.2, a.3 + b.3)
}

/// Coordinate-wise negation.
pub open spec fn neg4(a: Ints4) -> Ints4 {
    (-a.0, -a.1, -a.2, -a.3)
}

/// The integer coordinates of `x`.
pub open spec fn coords4(x: QM31) -> Ints4 {
    (x.0.0.val(), x.0.1.val(), x.1.0.val(), x.1.1.val())
}

/// The sum of residues is the residue of the sum.
pub proof fn lemma_q4_add(a: Ints4, b: Ints4)
    ensures
        qm31_add(q4(a), q4(b)) == q4(add4(a, b)),
{
    reveal(qm31_add);
    lemma_cm31_of_ints_ops(a.0, a.1, b.0, b.1);
    lemma_cm31_of_ints_ops(a.2, a.3, b.2, b.3);
}

/// The negation of residues is the residue of the negation.
pub proof fn lemma_q4_neg(a: Ints4)
    ensures
        qm31_neg(q4(a)) == q4(neg4(a)),
{
    reveal(qm31_neg);
    lemma_cm31_of_ints_ops(a.0, a.1, 0, 0);
    lemma_cm31_of_ints_ops(a.2, a.3, 0, 0);
}

/// A product with a negated complex element is the negated product.
proof fn lemma_cm31_mul_neg(x: CM31, y: CM31)
    requires
        x.wf(),
        y.wf(),
    ensures
        cm31_mul(x, cm31_neg(y)) == cm31_neg(cm31_mul(x, y)),
{
    let (x0, x1, y0, y1) = (x.0.val(), x.1.val(), y.0.val(), y.1.val());
    lemma_cm31_canonical(x);
    lemma_cm31_canonical(y);
    lemma_cm31_of_ints_ops(y0, y1, 0, 0);
    lemma_cm31_of_ints_ops(x0, x1, -y0, -y1);
    lemma_cm31_of_ints_ops(x0, x1, y0, y1);
    lemma_cm31_of_ints_ops(x0 * y0 - x1 * y1, x0 * y1 + x1 * y0, 0, 0);
    assert(x0 * (-y0) - x1 * (-y1) == -(x0 * y0 - x1 * y1) && x0 * (-y1) + x1 * (-y0) == -(x0 * y1
        + x1 * y0)) by (nonlinear_arith);
}

/// The sum of two negated complex elements is the negated sum.
proof fn lemma_cm31_add_neg(a: CM31, b: CM31)
    requires
        a.wf(),
        b.wf(),
    ensures
        cm31_add(cm31_neg(a), cm31_neg(b)) == cm31_neg(cm31_add(a, b)),
{
    let (a0, a1, b0, b1) = (a.0.val(), a.1.val(), b.0.val(), b.1.val());
    lemma_cm31_canonical(a);
    lemma_cm31_canonical(b);
    lemma_cm31_of_ints_ops(a0, a1, b0, b1);
    lemma_cm31_of_ints_ops(b0, b1, 0, 0);
    lemma_cm31_of_ints_ops(a0, a1, 0, 0);
    lemma_cm31_of_ints_ops(-a0, -a1, -b0, -b1);
    lemma_cm31_of_ints_ops(a0 + b0, a1 + b1, 0, 0);
}

/// Multiplication of degree-4 elements distributes over addition, on both
/// sides.
#[verifier::spinoff_prover]
#[verifier::rlimit(40)]
pub proof fn lemma_qm31_distributive(x: QM31, y: QM31, z: QM31)
    requires
        x.wf(),
        y.wf(),
        z.wf(),
    ensures
        qm31_mul(x, qm31_add(y, z)) == qm31_add(qm31_mul(x, y), qm31_mul(x, z)),
        qm31_mul(qm31_add(y, z), x) == qm31_add(qm31_mul(y, x), qm31_mul(z, x)),
{
    reveal(qm31_mul);
    reveal(qm31_add);
    let rx1 = cm31_mul(r_const(), x.1);
    lemma_cm31_results_wf(r_const(), x.1);
    lemma_cm31_distributive(x.0, y.0, z.0);
    lemma_cm31_distributive(rx1, y.1, z.1);
    lemma_cm31_distributive(x.0, y.1, z.1);
    lemma_cm31_distributive(x.1, y.0, z.0);
    lemma_cm31_results_wf(x.0, y.0);
    lemma_cm31_results_wf(x.0, z.0);
    lemma_cm31_results_wf(rx1, y.1);
    lemma_cm31_results_wf(rx1, z.1);
    lemma_cm31_results_wf(x.0, y.1);
    lemma_cm31_results_wf(x.0, z.1);
    lemma_cm31_results_wf(x.1, y.0);
    lemma_cm31_results_wf(x.1, z.0);
    lemma_cm31_add4(cm31_mul(x.0, y.0), cm31_mul(x.0, z.0), cm31_mul(rx1, y.1), cm31_mul(rx1, z.1));
    lemma_cm31_add4(cm31_mul(x.0, y.1), cm31_mul(x.0, z.1), cm31_mul(x.1, y.0), cm31_mul(x.1, z.0));
    assert(qm31_add(y, z).wf()) by {
        lemma_qm31_results_wf(y, z);
    }
    lemma_qm31_mul_comm(x, qm31_add(y, z));
    lemma_qm31_mul_comm(y, x);
    lemma_qm31_mul_comm(z, x);
}

/// A product with a negated degree-4 element is the negated product.
#[verifier::spinoff_prover]
#[verifier::rlimit(30)]
pub proof fn lemma_qm31_mul_neg(x: QM31, y: QM31)
    requires
        x.wf(),
        y.wf(),
    ensures
        qm31_mul(x, qm31_neg(y)) == qm31_neg(qm31_mul(x, y)),
{
    reveal(qm31_mul);
    reveal(qm31_neg);
    let rx1 = cm31_mul(r_const(), x.1);
    lemma_cm31_results_wf(r_const(), x.1);
    lemma_cm31_mul_neg(x.0, y.0);
    lemma_cm31_mul_neg(rx1, y.1);
    lemma_cm31_mul_neg(x.0, y.1);
    lemma_cm31_mul_neg(x.1, y.0);
    lemma_cm31_results_wf(x.0, y.0);
    lemma_cm31_results_wf(rx1, y.1);
    lemma_cm31_results_wf(x.0, y.1);
    lemma_cm31_results_wf(x.1, y.0);
    lemma_cm31_add_neg(cm31_mul(x.0, y.0), cm31_mul(rx1, y.1));
    lemma_cm31_add_neg(cm31_mul(x.0, y.1), cm31_mul(x.1, y.0));
}

/// `(a b) (a b) == (a a) (b b)`.
pub proof fn lemma_qm31_square_of_product(a: QM31, b: QM31)
    requires
        a.wf(),
        b.wf(),
    ensures
        qm31_mul(qm31_mul(a, b), qm31_mul(a, b)) == qm31_mul(qm31_mul(a, a), qm31_mul(b, b)),
{
    let ab = qm31_mul(a, b);
    let bb = qm31_mul(b, b);
    lemma_qm31_results_wf(a, b);
    lemma_qm31_results_wf(b, b);
    lemma_qm31_results_wf(b, a);
    lemma_qm31_mul_assoc(a, b, ab);
    lemma_qm31_mul_assoc(b, a, b);
    lemma_qm31_mul_comm(b, a);
    lemma_qm31_mul_assoc(a, b, b);
    lemma_qm31_mul_assoc(a, a, bb);
}

} // verus!
