use crate::field::algebra::lemma_cm31_mul_inverse_with;
use crate::field::squares::lemma_cm31_norm_zero;
use crate::field::m31::{add_m, inv_m, mul_m, neg_m, sub_m, M31, P};
use vstd::prelude::*;

verus! {

/// An element `a + b i` of the complex extension `M31[i] / (i^2 + 1)`.
#[derive(Clone, Copy, Debug, PartialEq, Eq, Structural)]
pub struct CM31(pub M31, pub M31);

/// Sum of two complex elements.
#[verifier::opaque]
pub open spec fn cm31_add(a: CM31, b: CM31) -> CM31 {
    CM31(add_m(a.0, b.0), add_m(a.1, b.1))
}

/// Difference of two complex elements.
#[verifier::opaque]
pub open spec fn cm31_sub(a: CM31, b: CM31) -> CM31 {
    CM31(sub_m(a.0, b.0), sub_m(a.1, b.1))
}

/// Negation of a complex element.
#[verifier::opaque]
pub open spec fn cm31_neg(a: CM31) -> CM31 {
    CM31(neg_m(a.0), neg_m(a.1))
}

/// Product `(a0 + a1 i)(b0 + b1 i) = (a0 b0 - a1 b1) + (a0 b1 + a1 b0) i`.
#[verifier::opaque]
pub open spec fn cm31_mul(a: CM31, b: CM31) -> CM31 {
    CM31(sub_m(mul_m(a.0, b.0), mul_m(a.1, b.1)), add_m(mul_m(a.0, b.1), mul_m(a.1, b.0)))
}

/// Product of a complex element with a base field element.
#[verifier::opaque]
pub open spec fn cm31_mul_m31(a: CM31, b: M31) -> CM31 {
    CM31(mul_m(a.0, b), mul_m(a.1, b))
}

/// Sum of a complex element and a base field element (added to the real part).
#[verifier::opaque]
pub open spec fn cm31_add_m31(a: CM31, b: M31) -> CM31 {
    CM31(add_m(a.0, b), a.1)
}

/// The norm `a0^2 + a1^2`, whose inverse gives the inverse of `a`.
#[verifier::opaque]
pub open spec fn cm31_norm(a: CM31) -> M31 {
    add_m(mul_m(a.0, a.0), mul_m(a.1, a.1))
}

/// The inverse `(a0 - a1 i) / (a0^2 + a1^2)`, given the inverse `d` of the norm.
#[verifier::opaque]
pub open spec fn cm31_inverse_with(a: CM31, d: M31) -> CM31 {
    CM31(mul_m(a.0, d), mul_m(neg_m(a.1), d))
}

pub open spec fn cm31_zero() -> CM31 {
    CM31(M31(0), M31(0))
}

pub open spec fn cm31_one() -> CM31 {
    CM31(M31(1), M31(0))
}

impl CM31 {
    /// Both parts are canonical.
    pub open spec fn wf(self) -> bool {
        self.0.wf() && self.1.wf()
    }

    pub fn zero() -> (r: CM31)
        ensures
            r.wf(),
            r == cm31_zero(),
    {
        CM31(M31(0), M31(0))
    }

    pub fn one() -> (r: CM31)
        ensures
            r.wf(),
            r == cm31_one(),
    {
        CM31(M31(1), M31(0))
    }

    /// Builds `re + im i` from values the caller promises are reduced.
    pub fn from_u32_unchecked(re: u32, im: u32) -> (r: CM31)
        requires
            re < P,
            im < P,
        ensures
            r.wf(),
            r == CM31(M31(re), M31(im)),
    {
        CM31(M31(re), M31(im))
    }

    pub fn add(self, rhs: CM31) -> (r: CM31)
        requires
            self.wf(),
            rhs.wf(),
        ensures
            r.wf(),
            r == cm31_add(self, rhs),
    {
        reveal(cm31_add);
        CM31(self.0.add(rhs.0), self.1.add(rhs.1))
    }

    pub fn sub(self, rhs: CM31) -> (r: CM31)
        requires
            self.wf(),
            rhs.wf(),
        ensures
            r.wf(),
            r == cm31_sub(self, rhs),
    {
        reveal(cm31_sub);
        CM31(self.0.sub(rhs.0), self.1.sub(rhs.1))
    }

    pub fn neg(self) -> (r: CM31)
        requires
            self.wf(),
        ensures
            r.wf(),
            r == cm31_neg(self),
    {
        reveal(cm31_neg);
        CM31(self.0.neg(), self.1.neg())
    }

    pub fn mul(self, rhs: CM31) -> (r: CM31)
        requires
            self.wf(),
            rhs.wf(),
        ensures
            r.wf(),
            r == cm31_mul(self, rhs),
    {
        reveal(cm31_mul);
        CM31(
            self.0.mul(rhs.0).sub(self.1.mul(rhs.1)),
            self.0.mul(rhs.1).add(self.1.mul(rhs.0)),
        )
    }

    pub fn mul_m31(self, rhs: M31) -> (r: CM31)
        requires
            self.wf(),
            rhs.wf(),
        ensures
            r.wf(),
            r == cm31_mul_m31(self, rhs),
    {
        reveal(cm31_mul_m31);
        CM31(self.0.mul(rhs), self.1.mul(rhs))
    }

    pub fn add_m31(self, rhs: M31) -> (r: CM31)
        requires
            self.wf(),
            rhs.wf(),
        ensures
            r.wf(),
            r == cm31_add_m31(self, rhs),
    {
        reveal(cm31_add_m31);
        CM31(self.0.add(rhs), self.1)
    }

    pub fn square(self) -> (r: CM31)
        requires
            self.wf(),
        ensures
            r.wf(),
            r == cm31_mul(self, self),
    {
        self.mul(self)
    }

    /// The inverse `(a0 - a1 i) / (a0^2 + a1^2)`; `None` exactly when the norm
    /// `a0^2 + a1^2` is zero, which happens only for zero.
    pub fn inverse(self) -> (r: Option<CM31>)
        requires
            self.wf(),
        ensures
            cm31_norm(self).0 == 0 <==> r is None,
            r is None <==> self == cm31_zero(),
            r matches Some(w) ==> w.wf() && w == cm31_inverse_with(self, inv_m(cm31_norm(self))),
            r matches Some(w) ==> cm31_mul(self, w) == cm31_one(),
    {
        proof {
            lemma_cm31_norm_zero(self);
        }
        reveal(cm31_norm);
        reveal(cm31_inverse_with);
        let norm = self.0.square().add(self.1.square());
        if norm.0 == 0 {
            None
        } else {
            let d = norm.inverse();
            proof {
                lemma_cm31_mul_inverse_with(self, d);
            }
            Some(CM31(self.0.mul(d), self.1.neg().mul(d)))
        }
    }
}

} // verus!
