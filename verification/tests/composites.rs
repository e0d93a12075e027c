#![allow(dead_code)]
use rand::{Rng, RngCore, SeedableRng};
use rand_chacha::ChaCha20Rng;
use stark_dsl::dsl::constraints::{
    boundary_constraint_evaluation, coset_vanishing, step_constraint_denominator_inverse_evaluation,
    step_constraint_numerator_evaluation,
};
use stark_dsl::dsl::fiat_shamir::{eval_from_partial_evals, pair_vanishing_with_constant_m31_points};
use stark_dsl::dsl::fold::ibutterfly;
use stark_dsl::dsl::framework::{Element, DSL};
use stark_dsl::dsl::point::{
    add_constant_m31_point, add_constant_m31_point_x_only, point_add_x_only, point_double_x, CirclePoint,
};
use stark_dsl::dsl::prepare::{column_line_coeffs, power_alpha_six, prepare_pair_vanishing};
use stark_dsl::dsl::random_point::random_point_from_felt;
use stark_dsl::dsl::quotients::{
    aggregation, apply_twin, denominator_inverse_limbs_from_prepared, DenominatorInversesIndices,
    NominatorsIndices,
};
use stark_dsl::dsl::{load_data_types, load_functions};
use stark_dsl::field::m31::M31;

// Plain integer arithmetic modulo 2^31 - 1, written independently of the
// library, to compute the expected values.

const P: u64 = 2147483647;

fn ma(a: u32, b: u32) -> u32 {
    ((a as u64 + b as u64) % P) as u32
}

fn ms(a: u32, b: u32) -> u32 {
    ((a as u64 + P - b as u64) % P) as u32
}

fn mm(a: u32, b: u32) -> u32 {
    ((a as u64 * b as u64) % P) as u32
}

fn mpow(a: u32, mut e: u64) -> u32 {
    let mut base = a;
    let mut acc = 1u32;
    while e > 0 {
        if e & 1 == 1 {
            acc = mm(acc, base);
        }
        base = mm(base, base);
        e >>= 1;
    }
    acc
}

fn minv(a: u32) -> u32 {
    mpow(a, P - 2)
}

// [real, imag]
fn cmul(a: [u32; 2], b: [u32; 2]) -> [u32; 2] {
    [ms(mm(a[0], b[0]), mm(a[1], b[1])), ma(mm(a[0], b[1]), mm(a[1], b[0]))]
}

fn cadd(a: [u32; 2], b: [u32; 2]) -> [u32; 2] {
    [ma(a[0], b[0]), ma(a[1], b[1])]
}

fn csub(a: [u32; 2], b: [u32; 2]) -> [u32; 2] {
    [ms(a[0], b[0]), ms(a[1], b[1])]
}

fn cinv(a: [u32; 2]) -> [u32; 2] {
    let n = minv(ma(mm(a[0], a[0]), mm(a[1], a[1])));
    [mm(a[0], n), mm(ms(0, a[1]), n)]
}

// (a + b i) + (c + d i) u with u^2 = 2 + i
fn qparts(q: [u32; 4]) -> ([u32; 2], [u32; 2]) {
    ([q[0], q[1]], [q[2], q[3]])
}

fn qjoin(x: [u32; 2], y: [u32; 2]) -> [u32; 4] {
    [x[0], x[1], y[0], y[1]]
}

fn qmul(a: [u32; 4], b: [u32; 4]) -> [u32; 4] {
    let (a0, a1) = qparts(a);
    let (b0, b1) = qparts(b);
    let first = cadd(cmul(a0, b0), cmul([2, 1], cmul(a1, b1)));
    let second = cadd(cmul(a0, b1), cmul(a1, b0));
    qjoin(first, second)
}

fn qadd(a: [u32; 4], b: [u32; 4]) -> [u32; 4] {
    [ma(a[0], b[0]), ma(a[1], b[1]), ma(a[2], b[2]), ma(a[3], b[3])]
}

fn qsub(a: [u32; 4], b: [u32; 4]) -> [u32; 4] {
    [ms(a[0], b[0]), ms(a[1], b[1]), ms(a[2], b[2]), ms(a[3], b[3])]
}

fn qinv(a: [u32; 4]) -> [u32; 4] {
    let (a0, a1) = qparts(a);
    let den = csub(cmul(a0, a0), cmul([2, 1], cmul(a1, a1)));
    let d = cinv(den);
    qjoin(cmul(a0, d), cmul(csub([0, 0], a1), d))
}

fn q_elem(q: [u32; 4]) -> Vec<i32> {
    vec![q[3] as i32, q[2] as i32, q[1] as i32, q[0] as i32]
}

fn c_elem(c: [u32; 2]) -> Vec<i32> {
    vec![c[1] as i32, c[0] as i32]
}

fn bytes_of(v: u32) -> Vec<i32> {
    vec![(v & 0xff) as i32, ((v >> 8) & 0xff) as i32, ((v >> 16) & 0xff) as i32, (v >> 24) as i32]
}

fn c_bytes(c: [u32; 2]) -> Vec<i32> {
    let mut r = bytes_of(c[0]);
    r.extend(bytes_of(c[1]));
    r
}

fn q_bytes(q: [u32; 4]) -> Vec<i32> {
    let mut r = c_bytes([q[0], q[1]]);
    r.extend(c_bytes([q[2], q[3]]));
    r
}

fn reduce(v: u64) -> u32 {
    (v % P) as u32
}

fn rand_m31(prng: &mut ChaCha20Rng) -> u32 {
    prng.gen_range(0u32..((1 << 31) - 1))
}

fn rand_qm31(prng: &mut ChaCha20Rng) -> [u32; 4] {
    [reduce(prng.next_u64()), reduce(prng.next_u64()), reduce(prng.next_u64()), reduce(prng.next_u64())]
}

fn ready_dsl() -> DSL {
    let mut dsl = DSL::new();
    load_data_types(&mut dsl).unwrap();
    load_functions(&mut dsl).unwrap();
    dsl
}

fn qpow(a: [u32; 4], e: u32) -> [u32; 4] {
    let mut r = [1, 0, 0, 0];
    for _ in 0..e {
        r = qmul(r, a);
    }
    r
}

fn qmulm(a: [u32; 4], m: u32) -> [u32; 4] {
    [mm(a[0], m), mm(a[1], m), mm(a[2], m), mm(a[3], m)]
}

fn qmulc(a: [u32; 4], c: [u32; 2]) -> [u32; 4] {
    let (a0, a1) = qparts(a);
    qjoin(cmul(a0, c), cmul(a1, c))
}

// The generator of the circle group over the base field.
const GEN: (u32, u32) = (2, 1268011823);

fn m31_point_mul(k: u64) -> (u32, u32) {
    let mut acc = (1u32, 0u32);
    let mut base = GEN;
    let mut e = k;
    while e > 0 {
        if e & 1 == 1 {
            acc = (ms(mm(acc.0, base.0), mm(acc.1, base.1)), ma(mm(acc.0, base.1), mm(acc.1, base.0)));
        }
        base = (ms(mm(base.0, base.0), mm(base.1, base.1)), ma(mm(base.0, base.1), mm(base.1, base.0)));
        e >>= 1;
    }
    acc
}

// A point of the circle over the degree-4 extension, from the rational
// parametrization `((1 - t^2) / (1 + t^2), 2 t / (1 + t^2))`.
fn qm31_circle_point(t: [u32; 4]) -> ([u32; 4], [u32; 4]) {
    let t2 = qmul(t, t);
    let inv = qinv(qadd([1, 0, 0, 0], t2));
    (qmul(qsub([1, 0, 0, 0], t2), inv), qmul(qadd(t, t), inv))
}

fn on_circle(p: ([u32; 4], [u32; 4])) -> bool {
    qadd(qmul(p.0, p.0), qmul(p.1, p.1)) == [1, 0, 0, 0]
}

fn point_add(a: ([u32; 4], [u32; 4]), b: ([u32; 4], [u32; 4])) -> ([u32; 4], [u32; 4]) {
    (qsub(qmul(a.0, b.0), qmul(a.1, b.1)), qadd(qmul(a.0, b.1), qmul(a.1, b.0)))
}

fn embed(m: u32) -> [u32; 4] {
    [m, 0, 0, 0]
}

fn circle_point(p: (u32, u32)) -> CirclePoint {
    CirclePoint { x: M31::from_u32_unchecked(p.0), y: M31::from_u32_unchecked(p.1) }
}

#[test]
fn fiat_shamir_test_eval_from_partial_evals() {
    let mut prng = ChaCha20Rng::seed_from_u64(0);
    let a = rand_qm31(&mut prng);
    let b = rand_qm31(&mut prng);
    let c = rand_qm31(&mut prng);
    let d = rand_qm31(&mut prng);
    let mut res = a;
    res = qadd(res, qmul(b, [0, 1, 0, 0]));
    res = qadd(res, qmul(c, [0, 0, 1, 0]));
    res = qadd(res, qmul(d, [0, 0, 0, 1]));

    let mut dsl = ready_dsl();
    let a_var = dsl.alloc_input("qm31", Element::ManyNum(q_elem(a))).unwrap();
    let b_var = dsl.alloc_input("qm31", Element::ManyNum(q_elem(b))).unwrap();
    let c_var = dsl.alloc_input("qm31", Element::ManyNum(q_elem(c))).unwrap();
    let d_var = dsl.alloc_input("qm31", Element::ManyNum(q_elem(d))).unwrap();
    let res_var = eval_from_partial_evals(&mut dsl, a_var, b_var, c_var, d_var).unwrap();

    assert_eq!(dsl.get_many_num(res_var).unwrap(), q_elem(res).as_slice());
    dsl.set_program_output("qm31", res_var).unwrap();
}

#[test]
fn fiat_shamir_test_pair_vanishing() {
    let mut prng = ChaCha20Rng::seed_from_u64(0);
    let z = qm31_circle_point(rand_qm31(&mut prng));
    assert!(on_circle(z));
    let excluded0 = m31_point_mul(prng.gen::<u32>() as u64);
    let excluded1 = m31_point_mul(prng.gen::<u32>() as u64);
    let expected = qadd(
        qadd(qmulm(z.0, ms(excluded0.1, excluded1.1)), qmulm(z.1, ms(excluded1.0, excluded0.0))),
        embed(ms(mm(excluded0.0, excluded1.1), mm(excluded0.1, excluded1.0))),
    );

    let mut dsl = ready_dsl();
    let z_x_var = dsl.alloc_input("qm31", Element::ManyNum(q_elem(z.0))).unwrap();
    let z_y_var = dsl.alloc_input("qm31", Element::ManyNum(q_elem(z.1))).unwrap();
    let table = dsl.execute("push_table", &[]).unwrap()[0];
    let res = pair_vanishing_with_constant_m31_points(
        &mut dsl,
        table,
        z_x_var,
        z_y_var,
        circle_point(excluded0),
        circle_point(excluded1),
    )
    .unwrap();

    assert_eq!(dsl.get_many_num(res).unwrap(), q_elem(expected).as_slice());
    dsl.set_program_output("qm31", res).unwrap();
}

#[test]
fn pair_vanishing_is_zero_at_the_excluded_points() {
    let e0 = m31_point_mul(12345);
    let e1 = m31_point_mul(678910);
    let mut dsl = ready_dsl();
    let table = dsl.execute("push_table", &[]).unwrap()[0];
    for e in [e0, e1] {
        let x = dsl.alloc_input("qm31", Element::ManyNum(q_elem(embed(e.0)))).unwrap();
        let y = dsl.alloc_input("qm31", Element::ManyNum(q_elem(embed(e.1)))).unwrap();
        let res =
            pair_vanishing_with_constant_m31_points(&mut dsl, table, x, y, circle_point(e0), circle_point(e1))
                .unwrap();
        assert_eq!(dsl.get_many_num(res).unwrap(), &[0, 0, 0, 0]);
    }
}

#[test]
fn test_ibutterfly() {
    let mut prng = ChaCha20Rng::seed_from_u64(0);
    let v0 = rand_qm31(&mut prng);
    let v1 = rand_qm31(&mut prng);
    let itwid = reduce(prng.next_u64());
    let expected = (qadd(v0, v1), qmulm(qsub(v0, v1), itwid));

    let mut dsl = ready_dsl();
    let v0_var = dsl.alloc_input("qm31", Element::ManyNum(q_elem(v0))).unwrap();
    let v1_var = dsl.alloc_input("qm31", Element::ManyNum(q_elem(v1))).unwrap();
    let itwid_var = dsl.alloc_input("m31", Element::Num(itwid as i32)).unwrap();
    let table = dsl.execute("push_table", &[]).unwrap()[0];
    let (new_v0, new_v1) = ibutterfly(&mut dsl, table, v0_var, v1_var, itwid_var).unwrap();

    assert_eq!(dsl.get_many_num(new_v0).unwrap(), q_elem(expected.0).as_slice());
    assert_eq!(dsl.get_many_num(new_v1).unwrap(), q_elem(expected.1).as_slice());
    dsl.set_program_output("qm31", new_v0).unwrap();
    dsl.set_program_output("qm31", new_v1).unwrap();
}

#[test]
fn test_column_line_coeffs() {
    let mut prng = ChaCha20Rng::seed_from_u64(0);
    let y = rand_qm31(&mut prng);
    let evals: Vec<[u32; 4]> = (0..4).map(|_| rand_qm31(&mut prng)).collect();
    let (y_real, y_imag) = qparts(y);
    let y_imag_inverse = cinv(y_imag);
    let expected: Vec<([u32; 2], [u32; 2])> = evals
        .iter()
        .map(|&eval| {
            let (eval_real, eval_imag) = qparts(eval);
            let a = cmul(eval_imag, y_imag_inverse);
            (a, csub(cmul(y_real, a), eval_real))
        })
        .collect();

    let mut dsl = ready_dsl();
    let y_var = dsl.alloc_input("qm31", Element::ManyNum(q_elem(y))).unwrap();
    let mut evals_vars = vec![];
    for &eval in evals.iter() {
        evals_vars.push(dsl.alloc_input("qm31", Element::ManyNum(q_elem(eval))).unwrap());
    }
    let table = dsl.execute("push_table", &[]).unwrap()[0];
    let res = column_line_coeffs(&mut dsl, table, y_var, &evals_vars).unwrap();

    assert_eq!(res.len(), 4);
    // each line passes through its sample: a Re(y) - b == Re(e), a Im(y) == Im(e)
    for ((a, b), &eval) in expected.iter().zip(evals.iter()) {
        let (eval_real, eval_imag) = qparts(eval);
        assert_eq!(csub(cmul(*a, y_real), *b), eval_real);
        assert_eq!(cmul(*a, y_imag), eval_imag);
    }
    for (res_entry, expected_entry) in res.iter().zip(expected.iter()) {
        assert_eq!(dsl.get_many_num(res_entry.0).unwrap(), c_elem(expected_entry.0).as_slice());
        assert_eq!(dsl.get_many_num(res_entry.1).unwrap(), c_elem(expected_entry.1).as_slice());
        dsl.set_program_output("cm31", res_entry.0).unwrap();
        dsl.set_program_output("cm31", res_entry.1).unwrap();
    }
}

#[test]
fn test_prepare_pair_vanishing() {
    let mut prng = ChaCha20Rng::seed_from_u64(0);
    let x = rand_qm31(&mut prng);
    let y = rand_qm31(&mut prng);
    let (x0, x1) = qparts(x);
    let (y0, y1) = qparts(y);
    let x_imag_div_y_imag = cmul(x1, cinv(y1));
    let cross_term = csub(cmul(x_imag_div_y_imag, y0), x0);

    let mut dsl = ready_dsl();
    let x_var = dsl.alloc_input("qm31", Element::ManyNum(q_elem(x))).unwrap();
    let y_var = dsl.alloc_input("qm31", Element::ManyNum(q_elem(y))).unwrap();
    let table = dsl.execute("push_table", &[]).unwrap()[0];
    let res = prepare_pair_vanishing(&mut dsl, table, x_var, y_var).unwrap();
    // the prepared values are the line coefficients of x at y
    let line = column_line_coeffs(&mut dsl, table, y_var, &[x_var]).unwrap();
    assert_eq!(dsl.get_many_num(line[0].0).unwrap(), dsl.get_many_num(res.0).unwrap());
    assert_eq!(dsl.get_many_num(line[0].1).unwrap(), dsl.get_many_num(res.1).unwrap());

    assert_eq!(dsl.get_many_num(res.0).unwrap(), c_elem(x_imag_div_y_imag).as_slice());
    assert_eq!(dsl.get_many_num(res.1).unwrap(), c_elem(cross_term).as_slice());
    dsl.set_program_output("cm31", res.0).unwrap();
    dsl.set_program_output("cm31", res.1).unwrap();
}

#[test]
fn test_power_alpha_six() {
    let mut prng = ChaCha20Rng::seed_from_u64(0);
    let alpha = rand_qm31(&mut prng);
    let expected =
        [qpow(alpha, 6), qpow(alpha, 5), qpow(alpha, 4), qpow(alpha, 3), qpow(alpha, 2), alpha];

    let mut dsl = ready_dsl();
    let alpha_var = dsl.alloc_input("qm31", Element::ManyNum(q_elem(alpha))).unwrap();
    let table = dsl.execute("push_table", &[]).unwrap()[0];
    let alpha_powers = power_alpha_six(&mut dsl, table, alpha_var).unwrap();

    assert_eq!(alpha_powers.len(), 6);
    for (&alpha_power, expected_entry) in alpha_powers.iter().zip(expected.iter()) {
        assert_eq!(dsl.get_many_num(alpha_power).unwrap(), q_elem(*expected_entry).as_slice());
        dsl.set_program_output("qm31", alpha_power).unwrap();
    }
}

#[test]
fn test_aggregation() {
    let mut prng = ChaCha20Rng::seed_from_u64(0);
    let rand_cm31 = |prng: &mut ChaCha20Rng| [reduce(prng.next_u64()), reduce(prng.next_u64())];
    let u: Vec<[u32; 2]> = (0..4).map(|_| rand_cm31(&mut prng)).collect();
    let a: Vec<[u32; 2]> = (0..3).map(|_| rand_cm31(&mut prng)).collect();
    let c: Vec<[u32; 2]> = (0..4).map(|_| rand_cm31(&mut prng)).collect();
    let alpha = rand_qm31(&mut prng);
    let expected = qadd(
        qadd(
            qadd(qmulc(qpow(alpha, 6), cmul(u[0], a[0])), qmulc(qpow(alpha, 5), cmul(u[1], a[1]))),
            qmulc(qpow(alpha, 4), cmul(u[2], a[2])),
        ),
        qmulc(
            qadd(
                qadd(qadd(qmulc(qpow(alpha, 3), c[0]), qmulc(qpow(alpha, 2), c[1])), qmulc(alpha, c[2])),
                [c[3][0], c[3][1], 0, 0],
            ),
            u[3],
        ),
    );

    let mut dsl = ready_dsl();
    let alloc = |dsl: &mut DSL, v: [u32; 2]| dsl.alloc_input("cm31", Element::ManyNum(c_elem(v))).unwrap();
    let u_vars: Vec<usize> = u.iter().map(|&v| alloc(&mut dsl, v)).collect();
    let a_vars: Vec<usize> = a.iter().map(|&v| alloc(&mut dsl, v)).collect();
    let c_vars: Vec<usize> = c.iter().map(|&v| alloc(&mut dsl, v)).collect();
    let denominator_inverses_indices =
        DenominatorInversesIndices { u1: u_vars[0], u2: u_vars[1], u3: u_vars[2], u4: u_vars[3] };
    let nominators_indices = NominatorsIndices {
        a1: a_vars[0],
        a2: a_vars[1],
        a3: a_vars[2],
        c1: c_vars[0],
        c2: c_vars[1],
        c3: c_vars[2],
        c4: c_vars[3],
    };
    let mut powers = vec![];
    for e in [6, 5, 4, 3, 2, 1] {
        powers.push(dsl.alloc_input("qm31", Element::ManyNum(q_elem(qpow(alpha, e)))).unwrap());
    }
    let table = dsl.execute("push_table", &[]).unwrap()[0];
    let res = aggregation(&mut dsl, table, &denominator_inverses_indices, &nominators_indices, &powers).unwrap();

    assert_eq!(dsl.get_many_num(res).unwrap(), q_elem(expected).as_slice());
    dsl.set_program_output("qm31", res).unwrap();
}

#[test]
fn test_denominator_inverse_from_prepared() {
    let mut prng = ChaCha20Rng::seed_from_u64(0);
    let point = qm31_circle_point(rand_qm31(&mut prng));
    let (x0, x1) = qparts(point.0);
    let (y0, y1) = qparts(point.1);
    let x_imag_div_y_imag = cmul(x1, cinv(y1));
    let cross_term = csub(cmul(x_imag_div_y_imag, y0), x0);
    let z = m31_point_mul(prng.gen::<u32>() as u64);
    let shifted = cadd(cross_term, [z.0, 0]);
    let t = [mm(x_imag_div_y_imag[0], z.1), mm(x_imag_div_y_imag[1], z.1)];
    let expected = (cinv(csub(shifted, t)), cinv(cadd(shifted, t)));

    let mut dsl = ready_dsl();
    let x_imag_div_y_imag_var = dsl.alloc_input("cm31", Element::ManyNum(c_elem(x_imag_div_y_imag))).unwrap();
    let cross_term_var = dsl.alloc_input("cm31", Element::ManyNum(c_elem(cross_term))).unwrap();
    let z_x = dsl.alloc_input("m31", Element::Num(z.0 as i32)).unwrap();
    let z_y = dsl.alloc_input("m31", Element::Num(z.1 as i32)).unwrap();
    let table = dsl.execute("push_table", &[]).unwrap()[0];
    let res =
        denominator_inverse_limbs_from_prepared(&mut dsl, table, x_imag_div_y_imag_var, cross_term_var, z_x, z_y)
            .unwrap();

    assert_eq!(dsl.get_many_num(res.0).unwrap(), c_bytes(expected.0).as_slice());
    assert_eq!(dsl.get_many_num(res.1).unwrap(), c_bytes(expected.1).as_slice());
    dsl.set_program_output("cm31_limbs", res.0).unwrap();
    dsl.set_program_output("cm31_limbs", res.1).unwrap();
}

#[test]
fn test_apply_twin() {
    let mut prng = ChaCha20Rng::seed_from_u64(0);
    let sample_point = qm31_circle_point(rand_qm31(&mut prng));
    let sample_value = rand_qm31(&mut prng);
    let (y0, y1) = qparts(sample_point.1);
    let (e0, e1) = qparts(sample_value);
    let a = cmul(e1, cinv(y1));
    let cross_term = csub(cmul(y0, a), e0);
    let b = csub([0, 0], cross_term);
    let query_point = m31_point_mul(prng.gen::<u32>() as u64);
    let query_value_left = reduce(prng.next_u64());
    let query_value_right = reduce(prng.next_u64());
    let t = [mm(a[0], query_point.1), mm(a[1], query_point.1)];
    let expected_left = cadd(csub(b, t), [query_value_left, 0]);
    let expected_right = cadd(cadd(b, t), [query_value_right, 0]);

    let mut dsl = ready_dsl();
    let z_y_var = dsl.alloc_input("m31", Element::Num(query_point.1 as i32)).unwrap();
    let left_var = dsl.alloc_input("m31", Element::Num(query_value_left as i32)).unwrap();
    let right_var = dsl.alloc_input("m31", Element::Num(query_value_right as i32)).unwrap();
    let a_var = dsl.alloc_input("cm31", Element::ManyNum(c_elem(a))).unwrap();
    let b_var = dsl.alloc_input("cm31", Element::ManyNum(c_elem(b))).unwrap();
    let table = dsl.execute("push_table", &[]).unwrap()[0];
    let res = apply_twin(&mut dsl, table, z_y_var, left_var, right_var, a_var, b_var).unwrap();

    assert_eq!(dsl.get_many_num(res.0).unwrap(), c_elem(expected_left).as_slice());
    assert_eq!(dsl.get_many_num(res.1).unwrap(), c_elem(expected_right).as_slice());
    dsl.set_program_output("cm31", res.0).unwrap();
    dsl.set_program_output("cm31", res.1).unwrap();
}

#[test]
fn test_add_constant_m31_point() {
    let mut prng = ChaCha20Rng::seed_from_u64(0);
    let current_point = qm31_circle_point(rand_qm31(&mut prng));
    let constant_point = m31_point_mul(prng.gen::<u32>() as u64);
    let expected = point_add(current_point, (embed(constant_point.0), embed(constant_point.1)));
    assert!(on_circle(expected));

    let mut dsl = ready_dsl();
    let x = dsl.alloc_input("qm31", Element::ManyNum(q_elem(current_point.0))).unwrap();
    let y = dsl.alloc_input("qm31", Element::ManyNum(q_elem(current_point.1))).unwrap();
    let table = dsl.execute("push_table", &[]).unwrap()[0];
    let (res_x, res_y) = add_constant_m31_point(&mut dsl, table, x, y, circle_point(constant_point)).unwrap();
    let res_x_only = add_constant_m31_point_x_only(&mut dsl, table, x, y, circle_point(constant_point)).unwrap();

    assert_eq!(dsl.get_many_num(res_x).unwrap(), q_elem(expected.0).as_slice());
    assert_eq!(dsl.get_many_num(res_y).unwrap(), q_elem(expected.1).as_slice());
    assert_eq!(dsl.get_many_num(res_x_only).unwrap(), q_elem(expected.0).as_slice());
    dsl.set_program_output("qm31", res_x).unwrap();
    dsl.set_program_output("qm31", res_y).unwrap();
}

#[test]
fn test_point_add_x_only() {
    let mut prng = ChaCha20Rng::seed_from_u64(0);
    let point_a = qm31_circle_point(rand_qm31(&mut prng));
    let point_b = qm31_circle_point(rand_qm31(&mut prng));
    let point_c = point_add(point_a, point_b);

    let mut dsl = ready_dsl();
    let a_x = dsl.alloc_input("qm31", Element::ManyNum(q_elem(point_a.0))).unwrap();
    let a_y = dsl.alloc_input("qm31", Element::ManyNum(q_elem(point_a.1))).unwrap();
    let b_x = dsl.alloc_input("qm31", Element::ManyNum(q_elem(point_b.0))).unwrap();
    let b_y = dsl.alloc_input("qm31", Element::ManyNum(q_elem(point_b.1))).unwrap();
    let table = dsl.execute("push_table", &[]).unwrap()[0];
    let res = point_add_x_only(&mut dsl, table, a_x, a_y, b_x, b_y).unwrap();

    assert_eq!(dsl.get_many_num(res).unwrap(), q_elem(point_c.0).as_slice());
    dsl.set_program_output("qm31", res).unwrap();
}

#[test]
fn test_point_double_x() {
    let mut prng = ChaCha20Rng::seed_from_u64(0);
    let point = qm31_circle_point(rand_qm31(&mut prng));
    let point_double = point_add(point, point);

    let mut dsl = ready_dsl();
    let x = dsl.alloc_input("qm31", Element::ManyNum(q_elem(point.0))).unwrap();
    let y = dsl.alloc_input("qm31", Element::ManyNum(q_elem(point.1))).unwrap();
    let table = dsl.execute("push_table", &[]).unwrap()[0];
    let res = point_double_x(&mut dsl, table, x).unwrap();
    // on the circle, doubling agrees with adding the point to itself
    let res_add = point_add_x_only(&mut dsl, table, x, y, x, y).unwrap();

    assert_eq!(dsl.get_many_num(res).unwrap(), q_elem(point_double.0).as_slice());
    assert_eq!(dsl.get_many_num(res_add).unwrap(), q_elem(point_double.0).as_slice());
    dsl.set_program_output("qm31", res).unwrap();
}

#[test]
fn composites_refuse_inputs_of_the_wrong_shape() {
    let mut dsl = ready_dsl();
    let table = dsl.execute("push_table", &[]).unwrap()[0];
    let m = dsl.alloc_input("m31", Element::Num(5)).unwrap();
    let q = dsl.alloc_input("qm31", Element::ManyNum(vec![1, 2, 3, 4])).unwrap();
    // an m31 where a qm31 is expected
    assert!(point_double_x(&mut dsl, table, m).is_err());
    // a qm31 where the table is expected
    assert!(point_double_x(&mut dsl, q, q).is_err());
    // an index past the memory
    assert!(eval_from_partial_evals(&mut dsl, q, q, q, 1000).is_err());
    // a twiddle that is not a base field element
    assert!(ibutterfly(&mut dsl, table, q, q, q).is_err());
}

fn pair_vanishing_ref(z: ([u32; 4], [u32; 4]), e0: (u32, u32), e1: (u32, u32)) -> [u32; 4] {
    qadd(
        qadd(qmulm(z.0, ms(e0.1, e1.1)), qmulm(z.1, ms(e1.0, e0.0))),
        embed(ms(mm(e0.0, e1.1), mm(e0.1, e1.0))),
    )
}

#[test]
fn test_coset_vanishing() {
    let mut prng = ChaCha20Rng::seed_from_u64(0);
    let z = qm31_circle_point(rand_qm31(&mut prng));
    let shift = m31_point_mul(prng.gen::<u32>() as u64);
    let log_size = 10;
    let mut expected = point_add(z, (embed(shift.0), embed(shift.1))).0;
    for _ in 1..log_size {
        expected = qsub(qadd(qmul(expected, expected), qmul(expected, expected)), [1, 0, 0, 0]);
    }

    let mut dsl = ready_dsl();
    let z_x = dsl.alloc_input("qm31", Element::ManyNum(q_elem(z.0))).unwrap();
    let z_y = dsl.alloc_input("qm31", Element::ManyNum(q_elem(z.1))).unwrap();
    let table = dsl.execute("push_table", &[]).unwrap()[0];
    let before = dsl.memory.len();
    let res = coset_vanishing(&mut dsl, table, z_x, z_y, circle_point(shift), log_size).unwrap();
    assert_eq!(dsl.memory.len(), before + 37 + 4 * 9);
    assert_eq!(res, dsl.memory.len() - 1);
    assert_eq!(dsl.get_many_num(res).unwrap(), q_elem(expected).as_slice());

    let inv = step_constraint_denominator_inverse_evaluation(&mut dsl, table, z_x, z_y, circle_point(shift), log_size)
        .unwrap();
    assert_eq!(dsl.get_many_num(inv).unwrap(), q_bytes(qinv(expected)).as_slice());

    // a coset of one point is the sum with the shift alone
    let single = coset_vanishing(&mut dsl, table, z_x, z_y, circle_point(shift), 0).unwrap();
    assert_eq!(
        dsl.get_many_num(single).unwrap(),
        q_elem(point_add(z, (embed(shift.0), embed(shift.1))).0).as_slice()
    );
}

#[test]
fn step_constraint_numerator_matches_its_formula() {
    let mut prng = ChaCha20Rng::seed_from_u64(3);
    let f = [rand_qm31(&mut prng), rand_qm31(&mut prng), rand_qm31(&mut prng)];
    let z = qm31_circle_point(rand_qm31(&mut prng));
    let e0 = m31_point_mul(1022);
    let e1 = m31_point_mul(1023);
    let poly = qsub(qadd(qmul(f[0], f[0]), qmul(f[1], f[1])), f[2]);
    let expected = qmul(poly, pair_vanishing_ref(z, e0, e1));

    let mut dsl = ready_dsl();
    let vars: Vec<usize> = f.iter().map(|&v| dsl.alloc_input("qm31", Element::ManyNum(q_elem(v))).unwrap()).collect();
    let z_x = dsl.alloc_input("qm31", Element::ManyNum(q_elem(z.0))).unwrap();
    let z_y = dsl.alloc_input("qm31", Element::ManyNum(q_elem(z.1))).unwrap();
    let table = dsl.execute("push_table", &[]).unwrap()[0];
    let res = step_constraint_numerator_evaluation(
        &mut dsl,
        table,
        vars[0],
        vars[1],
        vars[2],
        z_x,
        z_y,
        circle_point(e0),
        circle_point(e1),
    )
    .unwrap();
    assert_eq!(dsl.get_many_num(res).unwrap(), q_elem(expected).as_slice());
}

#[test]
fn boundary_constraint_matches_its_formula() {
    let mut prng = ChaCha20Rng::seed_from_u64(4);
    let f_z = rand_qm31(&mut prng);
    let z = qm31_circle_point(rand_qm31(&mut prng));
    let p = m31_point_mul(777);
    let claim = reduce(prng.next_u64());
    let c = mm(ms(claim, 1), minv(p.1));
    let numerator = qsub(f_z, qadd(qmulm(z.1, c), [1, 0, 0, 0]));
    let expected = qmul(numerator, qinv(pair_vanishing_ref(z, p, (1, 0))));

    let mut dsl = ready_dsl();
    let f_var = dsl.alloc_input("qm31", Element::ManyNum(q_elem(f_z))).unwrap();
    let z_x = dsl.alloc_input("qm31", Element::ManyNum(q_elem(z.0))).unwrap();
    let z_y = dsl.alloc_input("qm31", Element::ManyNum(q_elem(z.1))).unwrap();
    let table = dsl.execute("push_table", &[]).unwrap()[0];
    let res = boundary_constraint_evaluation(
        &mut dsl,
        table,
        f_var,
        z_x,
        z_y,
        circle_point(p),
        M31::from_u32_unchecked(claim),
    )
    .unwrap();
    assert_eq!(dsl.get_many_num(res).unwrap(), q_elem(expected).as_slice());
}

#[test]
fn random_point_from_felt_lies_on_the_circle() {
    let mut prng = ChaCha20Rng::seed_from_u64(5);
    let t = rand_qm31(&mut prng);
    let expected = qm31_circle_point(t);
    assert!(on_circle(expected));

    let mut dsl = ready_dsl();
    let t_var = dsl.alloc_input("qm31", Element::ManyNum(q_elem(t))).unwrap();
    let table = dsl.execute("push_table", &[]).unwrap()[0];
    let hints_before = dsl.hints.len();
    let (x, y) = random_point_from_felt(&mut dsl, table, t_var).unwrap();
    assert_eq!(dsl.get_many_num(x).unwrap(), q_elem(expected.0).as_slice());
    assert_eq!(dsl.get_many_num(y).unwrap(), q_elem(expected.1).as_slice());
    // the coordinates are the first new hints
    assert_eq!(dsl.hints.len() > hints_before + 1, true);
    assert_eq!(dsl.memory[x].data_type, "qm31");
    assert_eq!(dsl.hints[hints_before].data_type, "qm31");
    assert_eq!(dsl.hints[hints_before + 1].data_type, "qm31");
}
