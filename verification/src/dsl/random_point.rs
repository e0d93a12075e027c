use crate::dsl::compose::{
    alloc_qm31_hint, call_qm31_1add, call_qm31_1sub, call_qm31_add, call_qm31_equalverify,
    call_qm31_limbs_mul, call_qm31_neg, call_qm31_to_limbs, dsl_ready, indices_in,
    lemma_qm31_entry, lemma_qm31_entry_at, lemma_qm31_i32_limbs, nums, qm31_entry,
    qm31_limbs_valid_at, qm31_valid_at, qm31_value, table_at,
};
use crate::dsl::framework::{lemma_extends_trans, DslError, ElementV, EntryV, Result, DSL};
use crate::dsl::functions_ready;
use crate::dsl::building_blocks::qm31::qm31_mul_quotients;
use crate::dsl::values::{get_qm31, i32_limbs, qm31_at, qm31_elem};
use crate::field::algebra::{
    lemma_circle_point_checks, lemma_qm31_inverse, lemma_qm31_mul_comm, lemma_qm31_mul_one,
    lemma_qm31_results_wf,
};
use crate::field::qm31::{
    qm31_add, qm31_inverse, qm31_invertible, qm31_mul, qm31_neg, qm31_one, qm31_sub, QM31,
};
use crate::field::m31::P;
use crate::field::ring::{
    add4, coords4, lemma_q4_add, lemma_q4_neg, lemma_qm31_canonical, lemma_qm31_distributive,
    lemma_qm31_mul_neg, lemma_qm31_square_of_product, neg4, q4, Ints4,
};
use crate::limbs::qm31_of_limbs;
use vstd::arithmetic::div_mod::lemma_small_mod;
use vstd::prelude::*;

verus! {

/// The point `((1 - t^2) / (1 + t^2), 2 t / (1 + t^2))` of the circle that
/// the element `t` stands for.
pub open spec fn circle_point_from(t: QM31) -> (QM31, QM31) {
    let tt = qm31_mul(t, t);
    let inv = qm31_inverse(qm31_add(tt, qm31_one()));
    (qm31_mul(qm31_add(qm31_one(), qm31_neg(tt)), inv), qm31_mul(qm31_add(t, t), inv))
}

/// `1 + t^2`, whose inverse scales the point of `t`.
pub open spec fn one_plus_square(t: QM31) -> QM31 {
    qm31_add(qm31_mul(t, t), qm31_one())
}

/// What `circle_check_x` needs to succeed.
pub open spec fn circle_x_ready(d: &DSL, table: usize, x_var: usize, sp1: usize, sm1: usize, t: QM31) -> bool {
    let m = d.mem();
    &&& dsl_ready(d)
    &&& table_at(m, table)
    &&& t.wf()
    &&& qm31_invertible(one_plus_square(t))
    &&& x_var < m.len() && sp1 < m.len() && sm1 < m.len()
    &&& m[x_var as int] == qm31_entry(circle_point_from(t).0)
    &&& m[sp1 as int] == qm31_entry(one_plus_square(t))
    &&& m[sm1 as int] == qm31_entry(qm31_sub(qm31_mul(t, t), qm31_one()))
}

/// Checks the `x` coordinate at `x_var` against `t`: `-(x (t^2 + 1))` equals
/// `t^2 - 1`, with `t^2 + 1` at `sp1` and `t^2 - 1` at `sm1`; gives the index
/// of the limbs of `t^2 + 1`.
#[verifier::spinoff_prover]
#[verifier::rlimit(40)]
fn circle_check_x(
    dsl: &mut DSL,
    table: usize,
    x_var: usize,
    sp1: usize,
    sm1: usize,
    Ghost(t): Ghost<QM31>,
) -> (r: Result<usize>)
    ensures
        final(dsl).extends(old(dsl)),
        circle_x_ready(old(dsl), table, x_var, sp1, sm1, t) ==> (r matches Ok(sl) && sl < final(dsl).mem().len()
            && qm31_limbs_valid_at(final(dsl).mem(), sl)
            && qm31_of_limbs(nums(final(dsl).mem()[sl as int].1)) == one_plus_square(t)),
{
    let ghost m = dsl.mem();
    let ghost tt = qm31_mul(t, t);
    let ghost s = one_plus_square(t);
    let ghost x = circle_point_from(t).0;
    let ghost ok = circle_x_ready(dsl, table, x_var, sp1, sm1, t);
    proof {
        if ok {
            lemma_qm31_results_wf(t, t);
            lemma_qm31_results_wf(tt, qm31_one());
            lemma_qm31_results_wf(qm31_add(qm31_one(), qm31_neg(tt)), qm31_inverse(s));
            lemma_qm31_results_wf(s, s);
            lemma_qm31_results_wf(qm31_one(), qm31_neg(tt));
            lemma_qm31_results_wf(x, s);
            lemma_qm31_results_wf(qm31_mul(x, s), s);
            lemma_qm31_entry_at(m, x_var, x);
            lemma_qm31_entry_at(m, sp1, s);
            lemma_qm31_i32_limbs(qm31_elem(x));
            lemma_qm31_i32_limbs(qm31_elem(s));
            lemma_circle_point_checks(t);
        }
    }
    let x_limbs = call_qm31_to_limbs(dsl, x_var)?;
    let s_limbs = call_qm31_to_limbs(dsl, sp1)?;
    let ghost m2 = dsl.mem();
    proof {
        if ok {
            assert(m2[table as int] == m[table as int]);
            assert(m2[x_limbs as int] == m2[m.len() as int]);
        }
    }
    let sb = call_qm31_limbs_mul(dsl, table, x_limbs, s_limbs)?;
    let ghost m3 = dsl.mem();
    proof {
        if ok {
            lemma_qm31_entry(m2, qm31_mul(x, s));
        }
    }
    let neg = call_qm31_neg(dsl, sb)?;
    let ghost m4 = dsl.mem();
    proof {
        if ok {
            assert(m4[sm1 as int] == m[sm1 as int]);
            assert(m4[neg as int] == qm31_entry(qm31_neg(qm31_mul(x, s))));
            assert(m4[s_limbs as int] == m2[s_limbs as int]);
        }
    }
    call_qm31_equalverify(dsl, neg, sm1)?;
    Ok(s_limbs)
}

/// What `circle_check_y` needs to succeed.
pub open spec fn circle_y_ready(d: &DSL, table: usize, y_var: usize, s_limbs: usize, t_var: usize, t: QM31) -> bool {
    let m = d.mem();
    &&& dsl_ready(d)
    &&& table_at(m, table)
    &&& t.wf()
    &&& qm31_invertible(one_plus_square(t))
    &&& y_var < m.len() && s_limbs < m.len()
    &&& m[y_var as int] == qm31_entry(circle_point_from(t).1)
    &&& qm31_limbs_valid_at(m, s_limbs)
    &&& qm31_of_limbs(nums(m[s_limbs as int].1)) == one_plus_square(t)
    &&& qm31_valid_at(m, t_var)
    &&& qm31_value(m, t_var) == t
}

/// What `circle_check_y` checks: the entries it reads hold a table, an
/// element `y` at `y_var`, the limbs of an element `s` at `s_limbs` and an
/// element `t` at `t_var`, and `y s == t + t`.
pub open spec fn circle_y_check(m: Seq<EntryV>, table: usize, y_var: usize, s_limbs: usize, t_var: usize) -> bool {
    &&& table_at(m, table)
    &&& qm31_valid_at(m, y_var)
    &&& qm31_limbs_valid_at(m, s_limbs)
    &&& qm31_valid_at(m, t_var)
    &&& qm31_mul(qm31_value(m, y_var), qm31_of_limbs(nums(m[s_limbs as int].1))) == qm31_add(
        qm31_value(m, t_var),
        qm31_value(m, t_var),
    )
}

/// The entries that `circle_check_y` appends: the limbs of `y` (also a hint,
/// followed by the reduction hints of the product), the product `y s` and the
/// sum `t + t`.
pub open spec fn circle_y_entries(m: Seq<EntryV>, y_var: usize, s_limbs: usize, t_var: usize) -> Seq<EntryV> {
    let n = nums(m[y_var as int].1);
    seq![
        ("qm31_limbs"@, ElementV::ManyNum(i32_limbs(n[3]) + i32_limbs(n[2]) + i32_limbs(n[1]) + i32_limbs(n[0]))),
        qm31_entry(qm31_mul(qm31_value(m, y_var), qm31_of_limbs(nums(m[s_limbs as int].1)))),
        qm31_entry(qm31_add(qm31_value(m, t_var), qm31_value(m, t_var))),
    ]
}

/// Checks the `y` coordinate at `y_var` against `t` at `t_var`:
/// `y (t^2 + 1)` equals `t + t`, with the limbs of `t^2 + 1` at `s_limbs`.
#[verifier::spinoff_prover]
#[verifier::rlimit(60)]
fn circle_check_y(
    dsl: &mut DSL,
    table: usize,
    y_var: usize,
    s_limbs: usize,
    t_var: usize,
    Ghost(t): Ghost<QM31>,
) -> (r: Result<()>)
    ensures
        final(dsl).extends(old(dsl)),
        circle_y_ready(old(dsl), table, y_var, s_limbs, t_var, t) ==> r is Ok,
        functions_ready(old(dsl).functions@) && indices_in(old(dsl).mem(), seq![table, y_var, s_limbs, t_var])
            ==> (r is Ok <==> circle_y_check(old(dsl).mem(), table, y_var, s_limbs, t_var)),
        functions_ready(old(dsl).functions@) && indices_in(old(dsl).mem(), seq![table, y_var, s_limbs, t_var])
            && r is Ok ==> {
            let e = circle_y_entries(old(dsl).mem(), y_var, s_limbs, t_var);
            &&& final(dsl).mem() == old(dsl).mem() + e
            &&& final(dsl).hint_v() == old(dsl).hint_v().push(e[0]) + qm31_mul_quotients(
                qm31_value(old(dsl).mem(), y_var),
                qm31_of_limbs(nums(old(dsl).mem()[s_limbs as int].1)),
            )
        },
{
    let ghost m = dsl.mem();
    let ghost h = dsl.hint_v();
    let ghost s = one_plus_square(t);
    let ghost y = circle_point_from(t).1;
    let ghost ok = circle_y_ready(dsl, table, y_var, s_limbs, t_var, t);
    let ghost fr = functions_ready(dsl.functions@);
    let ghost idx = seq![table, y_var, s_limbs, t_var];
    let ghost inside = fr && indices_in(m, idx);
    let ghost e = circle_y_entries(m, y_var, s_limbs, t_var);
    proof {
        if inside {
            assert(idx[0] < m.len() && idx[1] < m.len() && idx[2] < m.len() && idx[3] < m.len());
        }
        if m[y_var as int].1 is ManyNum && nums(m[y_var as int].1).len() == 4 {
            lemma_qm31_i32_limbs(nums(m[y_var as int].1));
        }
        if ok {
            lemma_qm31_results_wf(t, t);
            lemma_qm31_results_wf(qm31_mul(t, t), qm31_one());
            lemma_qm31_results_wf(qm31_add(t, t), qm31_inverse(s));
            lemma_qm31_results_wf(y, s);
            lemma_qm31_entry_at(m, y_var, y);
            lemma_qm31_i32_limbs(qm31_elem(y));
            lemma_circle_point_checks(t);
        }
    }
    let y_limbs = call_qm31_to_limbs(dsl, y_var)?;
    let ghost m1 = dsl.mem();
    proof {
        if inside {
            assert(m1[table as int] == m[table as int]);
            assert(m1[s_limbs as int] == m[s_limbs as int]);
            assert(m1[t_var as int] == m[t_var as int]);
            assert(m1[y_limbs as int] == e[0]);
        }
    }
    let sb = call_qm31_limbs_mul(dsl, table, y_limbs, s_limbs)?;
    let ghost m2 = dsl.mem();
    let ghost yv = qm31_value(m, y_var);
    let ghost sv = qm31_of_limbs(nums(m[s_limbs as int].1));
    let ghost tv = qm31_value(m, t_var);
    proof {
        if inside {
            lemma_qm31_results_wf(yv, sv);
            lemma_qm31_results_wf(tv, tv);
            lemma_qm31_entry(m1, qm31_mul(yv, sv));
            assert(m2[t_var as int] == m[t_var as int]);
        }
        if ok {
            lemma_qm31_entry(m1, qm31_mul(y, s));
        }
    }
    let dt = call_qm31_add(dsl, t_var, t_var)?;
    let ghost m3 = dsl.mem();
    proof {
        if inside {
            assert(m3[sb as int] == m2[sb as int]);
            assert(m3[sb as int] == e[1]);
            assert(m3[dt as int] == e[2]);
            assert(m3 =~= m + e);
        }
    }
    call_qm31_equalverify(dsl, sb, dt)?;
    Ok(())
}

/// From the element `t` at `t_var`, computes the point
/// `((1 - t^2) / (1 + t^2), 2 t / (1 + t^2))` of the circle, hands its
/// coordinates to the script as hints and checks them there: it gives the
/// indices of the coordinates.
#[verifier::spinoff_prover]
#[verifier::rlimit(60)]
pub fn random_point_from_felt(dsl: &mut DSL, table: usize, t_var: usize) -> (r: Result<(usize, usize)>)
    requires
        qm31_at(old(dsl).mem(), t_var as int) matches Ok(v) ==> qm31_invertible(one_plus_square(v)),
    ensures
        final(dsl).extends(old(dsl)),
        dsl_ready(old(dsl)) && indices_in(old(dsl).mem(), seq![table, t_var]) ==> (r is Ok
            <==> table_at(old(dsl).mem(), table) && qm31_valid_at(old(dsl).mem(), t_var)),
        dsl_ready(old(dsl)) && table_at(old(dsl).mem(), table) && qm31_valid_at(old(dsl).mem(), t_var)
            ==> ({
            let m = old(dsl).mem();
            let h = old(dsl).hint_v();
            let p = circle_point_from(qm31_value(m, t_var));
            &&& r == Ok::<(usize, usize), DslError>((m.len() as usize, (m.len() + 1) as usize))
            &&& final(dsl).mem()[m.len() as int] == qm31_entry(p.0)
            &&& final(dsl).mem()[m.len() + 1int] == qm31_entry(p.1)
            &&& final(dsl).hint_v()[h.len() as int] == qm31_entry(p.0)
            &&& final(dsl).hint_v()[h.len() + 1int] == qm31_entry(p.1)
        }),
{
    let ghost d0: DSL = *dsl;
    let ghost m = dsl.mem();
    let ghost ready = dsl_ready(dsl);
    let ghost idx = seq![table, t_var];
    proof {
        if ready && indices_in(m, idx) {
            assert(idx[0] < m.len() && idx[1] < m.len());
        }
    }
    let t = get_qm31(dsl, t_var)?;
    let ghost ok = ready && table_at(m, table) && qm31_valid_at(m, t_var);
    let s = t.square().add(QM31::one());
    let inv = match s.inverse() {
        Some(v) => v,
        None => {
            return Err(DslError::NotInvertible);
        },
    };
    let x = QM31::one().add(t.square().neg()).mul(inv);
    let y = t.double().mul(inv);
    proof {
        if ok {
            assert(qm31_value(m, t_var) == t);
        }
    }
    let x_var = alloc_qm31_hint(dsl, x)?;
    let y_var = alloc_qm31_hint(dsl, y)?;
    let ghost m2 = dsl.mem();
    let ghost h2 = dsl.hint_v();
    proof {
        if ready && indices_in(m, idx) {
            assert(m2[t_var as int] == m[t_var as int]);
            assert(m2[table as int] == m[table as int]);
        }
        if m[t_var as int].1 is ManyNum && nums(m[t_var as int].1).len() == 4 {
            lemma_qm31_i32_limbs(nums(m[t_var as int].1));
        }
        lemma_qm31_results_wf(t, t);
    }
    let t_limbs = call_qm31_to_limbs(dsl, t_var)?;
    let ghost m3 = dsl.mem();
    let t_sq = call_qm31_limbs_mul(dsl, table, t_limbs, t_limbs)?;
    let ghost m4 = dsl.mem();
    proof {
        if ok {
            lemma_qm31_entry(m3, qm31_mul(t, t));
        }
    }
    let t_sq_m1 = call_qm31_1sub(dsl, t_sq)?;
    let ghost m5 = dsl.mem();
    proof {
        if ok {
            lemma_qm31_results_wf(qm31_mul(t, t), qm31_one());
            lemma_qm31_entry(m4, qm31_sub(qm31_mul(t, t), qm31_one()));
            assert(m5[t_sq as int] == m4[t_sq as int]);
        }
    }
    let t_sq_p1 = call_qm31_1add(dsl, t_sq)?;
    let ghost m6 = dsl.mem();
    let ghost h6 = dsl.hint_v();
    proof {
        if ok {
            lemma_qm31_entry(m5, one_plus_square(t));
            assert(m6[x_var as int] == m2[x_var as int]);
            assert(m6[t_sq_m1 as int] == m5[t_sq_m1 as int]);
            assert(m6[table as int] == m[table as int]);
        }
    }
    let s_limbs = circle_check_x(dsl, table, x_var, t_sq_p1, t_sq_m1, Ghost(t))?;
    let ghost m7 = dsl.mem();
    proof {
        if ok {
            assert(m7[y_var as int] == m2[y_var as int]);
            assert(m7[t_var as int] == m[t_var as int]);
            assert(m7[table as int] == m[table as int]);
        }
    }
    circle_check_y(dsl, table, y_var, s_limbs, t_var, Ghost(t))?;
    proof {
        if ok {
            assert(dsl.mem()[x_var as int] == m2[x_var as int]);
            assert(dsl.mem()[y_var as int] == m2[y_var as int]);
            assert(dsl.hint_v()[h2.len() - 2] == h2[h2.len() - 2]);
            assert(dsl.hint_v()[h2.len() - 1] == h2[h2.len() - 1]);
        }
    }
    Ok((x_var, y_var))
}

/// `(1 - t^2)^2`, `(t + t)^2` and `(t^2 + 1)^2` written as sums of `1`,
/// `t^2` and `t^4`.
proof fn lemma_square_expansions(t: QM31)
    requires
        t.wf(),
    ensures
        ({
            let (o, tt) = (qm31_one(), qm31_mul(t, t));
            let t4 = qm31_mul(tt, tt);
            let u = qm31_add(o, qm31_neg(tt));
            let w = qm31_add(t, t);
            let s = qm31_add(tt, o);
            &&& qm31_mul(u, u) == qm31_add(u, qm31_neg(qm31_add(tt, qm31_neg(t4))))
            &&& qm31_mul(w, w) == qm31_add(qm31_add(tt, tt), qm31_add(tt, tt))
            &&& qm31_mul(s, s) == qm31_add(qm31_add(t4, tt), s)
        }),
{
    let o = qm31_one();
    let tt = qm31_mul(t, t);
    let u = qm31_add(o, qm31_neg(tt));
    let w = qm31_add(t, t);
    let s = qm31_add(tt, o);
    assert(o.wf());
    lemma_qm31_results_wf(t, t);
    lemma_qm31_results_wf(tt, tt);
    lemma_qm31_results_wf(o, qm31_neg(tt));
    lemma_qm31_results_wf(tt, o);
    lemma_qm31_distributive(u, o, qm31_neg(tt));
    lemma_qm31_mul_one(u);
    lemma_qm31_mul_neg(u, tt);
    lemma_qm31_mul_comm(u, tt);
    lemma_qm31_distributive(tt, o, qm31_neg(tt));
    lemma_qm31_mul_one(tt);
    lemma_qm31_mul_neg(tt, tt);
    lemma_qm31_distributive(w, t, t);
    lemma_qm31_mul_comm(w, t);
    lemma_qm31_distributive(t, t, t);
    lemma_qm31_distributive(s, tt, o);
    lemma_qm31_mul_one(s);
    lemma_qm31_mul_comm(s, tt);
    lemma_qm31_distributive(tt, tt, o);
}

/// `(1 - a) - (a - b) + 4 a == (b + a) + (a + 1)` for canonical `a` and `b`.
proof fn lemma_square_sum_linear(a: QM31, b: QM31)
    requires
        a.wf(),
        b.wf(),
    ensures
        ({
            let o = qm31_one();
            let u = qm31_add(o, qm31_neg(a));
            qm31_add(
                qm31_add(u, qm31_neg(qm31_add(a, qm31_neg(b)))),
                qm31_add(qm31_add(a, a), qm31_add(a, a)),
            ) == qm31_add(qm31_add(b, a), qm31_add(a, o))
        }),
{
    let (c, e) = (coords4(a), coords4(b));
    let one4: Ints4 = (1, 0, 0, 0);
    lemma_qm31_canonical(a);
    lemma_qm31_canonical(b);
    lemma_small_mod(1, P as nat);
    lemma_small_mod(0, P as nat);
    assert(qm31_one() == q4(one4));
    lemma_q4_neg(e);
    lemma_q4_add(c, neg4(e));
    lemma_q4_neg(add4(c, neg4(e)));
    lemma_q4_neg(c);
    lemma_q4_add(one4, neg4(c));
    lemma_q4_add(add4(one4, neg4(c)), neg4(add4(c, neg4(e))));
    lemma_q4_add(c, c);
    lemma_q4_add(add4(c, c), add4(c, c));
    lemma_q4_add(add4(add4(one4, neg4(c)), neg4(add4(c, neg4(e)))), add4(add4(c, c), add4(c, c)));
    lemma_q4_add(e, c);
    lemma_q4_add(c, one4);
    lemma_q4_add(add4(e, c), add4(c, one4));
    assert(add4(add4(add4(one4, neg4(c)), neg4(add4(c, neg4(e)))), add4(add4(c, c), add4(c, c)))
        == add4(add4(e, c), add4(c, one4)));
}

/// `(1 - t^2)^2 + (t + t)^2 == (t^2 + 1)^2`.
proof fn lemma_square_sum(t: QM31)
    requires
        t.wf(),
    ensures
        ({
            let tt = qm31_mul(t, t);
            let u = qm31_add(qm31_one(), qm31_neg(tt));
            let w = qm31_add(t, t);
            let s = qm31_add(tt, qm31_one());
            qm31_add(qm31_mul(u, u), qm31_mul(w, w)) == qm31_mul(s, s)
        }),
{
    let tt = qm31_mul(t, t);
    lemma_qm31_results_wf(t, t);
    lemma_qm31_results_wf(tt, tt);
    lemma_square_expansions(t);
    lemma_square_sum_linear(tt, qm31_mul(tt, tt));
}

/// The point that an element `t` stands for lies on the circle:
/// `x^2 + y^2 == 1`, for every `t` with `1 + t^2` invertible.
pub proof fn lemma_random_point_on_circle(t: QM31)
    requires
        t.wf(),
        qm31_invertible(one_plus_square(t)),
    ensures
        qm31_add(
            qm31_mul(circle_point_from(t).0, circle_point_from(t).0),
            qm31_mul(circle_point_from(t).1, circle_point_from(t).1),
        ) == qm31_one(),
{
    let o = qm31_one();
    let tt = qm31_mul(t, t);
    let u = qm31_add(o, qm31_neg(tt));
    let w = qm31_add(t, t);
    let s = qm31_add(tt, o);
    let inv = qm31_inverse(s);
    assert(o.wf());
    lemma_qm31_results_wf(t, t);
    lemma_qm31_results_wf(tt, tt);
    lemma_qm31_results_wf(o, qm31_neg(tt));
    lemma_qm31_results_wf(tt, o);
    lemma_qm31_results_wf(s, s);
    lemma_qm31_results_wf(inv, inv);
    lemma_qm31_results_wf(u, u);
    lemma_qm31_results_wf(w, w);
    lemma_qm31_square_of_product(u, inv);
    lemma_qm31_square_of_product(w, inv);
    lemma_qm31_square_of_product(s, inv);
    lemma_qm31_distributive(qm31_mul(inv, inv), qm31_mul(u, u), qm31_mul(w, w));
    lemma_square_sum(t);
    lemma_qm31_inverse(s);
    lemma_qm31_mul_one(o);
}

} // verus!
