use crate::field::cm31::{
    cm31_add, cm31_add_m31, cm31_inverse_with, cm31_mul, cm31_mul_m31, cm31_neg, cm31_norm,
    cm31_sub, CM31,
};
use crate::field::algebra::lemma_qm31_mul_inverse_with;
use crate::field::squares::lemma_qm31_invertible_iff_nonzero;
use crate::field::m31::{inv_m, neg_m, M31, P};
use vstd::prelude::*;

verus! {

/// An element `a + b u` of the degree-4 extension `CM31[u] / (u^2 - (2 + i))`.
#[derive(Clone, Copy, Debug, PartialEq, Eq, Structural)]
pub struct QM31(pub CM31, pub CM31);

/// The constant `2 + i`, the square of `u`.
pub open spec fn r_const() -> CM31 {
    CM31(M31(2), M31(1))
}

#[verifier::opaque]
pub open spec fn qm31_add(a: QM31, b: QM31) -> QM31 {
    QM31(cm31_add(a.0, b.0), cm31_add(a.1, b.1))
}

#[verifier::opaque]
pub open spec fn qm31_sub(a: QM31, b: QM31) -> QM31 {
    QM31(cm31_sub(a.0, b.0), cm31_sub(a.1, b.1))
}

#[verifier::opaque]
pub open spec fn qm31_neg(a: QM31) -> QM31 {
    QM31(cm31_neg(a.0), cm31_neg(a.1))
}

/// Product `(a + b u)(c + d u) = (a c + (2 + i) b d) + (a d + b c) u`.
#[verifier::opaque]
pub open spec fn qm31_mul(x: QM31, y: QM31) -> QM31 {
    QM31(
        cm31_add(cm31_mul(x.0, y.0), cm31_mul(cm31_mul(r_const(), x.1), y.1)),
        cm31_add(cm31_mul(x.0, y.1), cm31_mul(x.1, y.0)),
    )
}

/// Product with a complex element.
#[verifier::opaque]
pub open spec fn qm31_mul_cm31(x: QM31, c: CM31) -> QM31 {
    QM31(cm31_mul(x.0, c), cm31_mul(x.1, c))
}

/// Product with a base field element.
#[verifier::opaque]
pub open spec fn qm31_mul_m31(x: QM31, m: M31) -> QM31 {
    QM31(cm31_mul_m31(x.0, m), cm31_mul_m31(x.1, m))
}

/// Sum with a base field element (added to the real part of the first half).
#[verifier::opaque]
pub open spec fn qm31_add_m31(x: QM31, m: M31) -> QM31 {
    QM31(cm31_add_m31(x.0, m), x.1)
}

pub open spec fn qm31_zero() -> QM31 {
    QM31(CM31(M31(0), M31(0)), CM31(M31(0), M31(0)))
}

/// The base field element `m` seen in the degree-4 extension.
pub open spec fn qm31_of_m31(m: M31) -> QM31 {
    QM31(CM31(m, M31(0)), CM31(M31(0), M31(0)))
}

pub open spec fn qm31_one() -> QM31 {
    QM31(CM31(M31(1), M31(0)), CM31(M31(0), M31(0)))
}

/// Builds the element with the four coordinates `(a, b, c, d)`, i.e.
/// `(a + b i) + (c + d i) u`.
pub open spec fn qm31_from(a: u32, b: u32, c: u32, d: u32) -> QM31 {
    QM31(CM31(M31(a), M31(b)), CM31(M31(c), M31(d)))
}

/// The denominator `a^2 - (2 + i) b^2` of the inverse of `a + b u`.
pub open spec fn qm31_denom(x: QM31) -> CM31 {
    let b2 = cm31_mul(x.1, x.1);
    let ib2 = CM31(neg_m(b2.1), b2.0);
    cm31_sub(cm31_mul(x.0, x.0), cm31_add(cm31_add(b2, b2), ib2))
}

/// The inverse `(a - b u) / (a^2 - (2 + i) b^2)`, given the inverse `d` of the
/// denominator.
pub open spec fn qm31_inverse_with(x: QM31, d: CM31) -> QM31 {
    QM31(cm31_mul(x.0, d), cm31_mul(cm31_neg(x.1), d))
}

/// The inverse of `x` when its denominator is invertible.
pub open spec fn qm31_inverse(x: QM31) -> QM31 {
    let den = qm31_denom(x);
    qm31_inverse_with(x, cm31_inverse_with(den, inv_m(cm31_norm(den))))
}

/// `x` has an inverse computed by `QM31::inverse`.
pub open spec fn qm31_invertible(x: QM31) -> bool {
    cm31_norm(qm31_denom(x)).0 != 0
}

impl QM31 {
    pub open spec fn wf(self) -> bool {
        self.0.wf() && self.1.wf()
    }

    pub fn zero() -> (r: QM31)
        ensures
            r.wf(),
            r == qm31_zero(),
    {
        QM31(CM31::zero(), CM31::zero())
    }

    pub fn one() -> (r: QM31)
        ensures
            r.wf(),
            r == qm31_one(),
    {
        QM31(CM31::one(), CM31::zero())
    }

    /// Builds `(a + b i) + (c + d i) u` from values the caller promises are
    /// reduced.
    pub fn from_u32_unchecked(a: u32, b: u32, c: u32, d: u32) -> (r: QM31)
        requires
            a < P,
            b < P,
            c < P,
            d < P,
        ensures
            r.wf(),
            r == qm31_from(a, b, c, d),
    {
        QM31(CM31::from_u32_unchecked(a, b), CM31::from_u32_unchecked(c, d))
    }

    /// The four coordinates `[a, b, c, d]`.
    pub fn to_m31_array(self) -> (r: [M31; 4])
        ensures
            r@ == seq![self.0.0, self.0.1, self.1.0, self.1.1],
    {
        [self.0.0, self.0.1, self.1.0, self.1.1]
    }

    pub fn add(self, rhs: QM31) -> (r: QM31)
        requires
            self.wf(),
            rhs.wf(),
        ensures
            r.wf(),
            r == qm31_add(self, rhs),
    {
        reveal(qm31_add);
        QM31(self.0.add(rhs.0), self.1.add(rhs.1))
    }

    pub fn sub(self, rhs: QM31) -> (r: QM31)
        requires
            self.wf(),
            rhs.wf(),
        ensures
            r.wf(),
            r == qm31_sub(self, rhs),
    {
        reveal(qm31_sub);
        QM31(self.0.sub(rhs.0), self.1.sub(rhs.1))
    }

    pub fn neg(self) -> (r: QM31)
        requires
            self.wf(),
        ensures
            r.wf(),
            r == qm31_neg(self),
    {
        reveal(qm31_neg);
        QM31(self.0.neg(), self.1.neg())
    }

    pub fn double(self) -> (r: QM31)
        requires
            self.wf(),
        ensures
            r.wf(),
            r == qm31_add(self, self),
    {
        self.add(self)
    }

    pub fn mul(self, rhs: QM31) -> (r: QM31)
        requires
            self.wf(),
            rhs.wf(),
        ensures
            r.wf(),
            r == qm31_mul(self, rhs),
    {
        reveal(qm31_mul);
        let r_c = CM31(M31(2), M31(1));
        QM31(
            self.0.mul(rhs.0).add(r_c.mul(self.1).mul(rhs.1)),
            self.0.mul(rhs.1).add(self.1.mul(rhs.0)),
        )
    }

    pub fn square(self) -> (r: QM31)
        requires
            self.wf(),
        ensures
            r.wf(),
            r == qm31_mul(self, self),
    {
        self.mul(self)
    }

    pub fn mul_cm31(self, rhs: CM31) -> (r: QM31)
        requires
            self.wf(),
            rhs.wf(),
        ensures
            r.wf(),
            r == qm31_mul_cm31(self, rhs),
    {
        reveal(qm31_mul_cm31);
        QM31(self.0.mul(rhs), self.1.mul(rhs))
    }

    pub fn mul_m31(self, rhs: M31) -> (r: QM31)
        requires
            self.wf(),
            rhs.wf(),
        ensures
            r.wf(),
            r == qm31_mul_m31(self, rhs),
    {
        reveal(qm31_mul_m31);
        QM31(self.0.mul_m31(rhs), self.1.mul_m31(rhs))
    }

    pub fn add_m31(self, rhs: M31) -> (r: QM31)
        requires
            self.wf(),
            rhs.wf(),
        ensures
            r.wf(),
            r == qm31_add_m31(self, rhs),
    {
        reveal(qm31_add_m31);
        QM31(self.0.add_m31(rhs), self.1)
    }

    /// The inverse `(a - b u) / (a^2 - (2 + i) b^2)`; `None` exactly when that
    /// denominator has no inverse in `CM31`, which happens only for zero.
    pub fn inverse(self) -> (r: Option<QM31>)
        requires
            self.wf(),
        ensures
            r is Some <==> qm31_invertible(self),
            r is None <==> self == qm31_zero(),
            r matches Some(w) ==> w.wf() && w == qm31_inverse(self),
            r matches Some(w) ==> qm31_mul(self, w) == qm31_one(),
    {
        proof {
            lemma_qm31_invertible_iff_nonzero(self);
        }
        let b2 = self.1.square();
        let ib2 = CM31(b2.1.neg(), b2.0);
        let denom = self.0.square().sub(b2.add(b2).add(ib2));
        match denom.inverse() {
            None => None,
            Some(d) => {
                proof {
                    lemma_qm31_mul_inverse_with(self, d);
                }
                Some(QM31(self.0.mul(d), self.1.neg().mul(d)))
            },
        }
    }
}

} // verus!
