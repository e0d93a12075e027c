use rand::{Rng, RngCore, SeedableRng};
use rand_chacha::ChaCha20Rng;
use sha2::{Digest, Sha256};
use stark_dsl::dsl::framework::{Element, Options, DSL};
use stark_dsl::dsl::values::{reformat_cm31_to_dsl_element, reformat_qm31_to_dsl_element};
use stark_dsl::dsl::{load_data_types, load_functions};
use stark_dsl::field::cm31::CM31;
use stark_dsl::field::qm31::QM31;
use stark_dsl::limbs::{convert_cm31_to_limbs, convert_m31_to_limbs, convert_qm31_to_limbs};

// Plain integer arithmetic modulo 2^31 - 1, written independently of the
// library, to compute the expected values.

const P: u64 = 2147483647;

fn ma(a: u32, b: u32) -> u32 {
    ((a as u64 + b as u64) % P) as u32
}

fn ms(a: u32, b: u32) -> u32 {
    ((a as u64 + P - b as u64) % P) as u32
}

fn mm(a: u32, b: u32) -> u32 {
    ((a as u64 * b as u64) % P) as u32
}

fn mpow(a: u32, mut e: u64) -> u32 {
    let mut base = a;
    let mut acc = 1u32;
    while e > 0 {
        if e & 1 == 1 {
            acc = mm(acc, base);
        }
        base = mm(base, base);
        e >>= 1;
    }
    acc
}

fn minv(a: u32) -> u32 {
    mpow(a, P - 2)
}

// [real, imag]
fn cmul(a: [u32; 2], b: [u32; 2]) -> [u32; 2] {
    [ms(mm(a[0], b[0]), mm(a[1], b[1])), ma(mm(a[0], b[1]), mm(a[1], b[0]))]
}

fn cadd(a: [u32; 2], b: [u32; 2]) -> [u32; 2] {
    [ma(a[0], b[0]), ma(a[1], b[1])]
}

fn csub(a: [u32; 2], b: [u32; 2]) -> [u32; 2] {
    [ms(a[0], b[0]), ms(a[1], b[1])]
}

fn cinv(a: [u32; 2]) -> [u32; 2] {
    let n = minv(ma(mm(a[0], a[0]), mm(a[1], a[1])));
    [mm(a[0], n), mm(ms(0, a[1]), n)]
}

// (a + b i) + (c + d i) u with u^2 = 2 + i
fn qparts(q: [u32; 4]) -> ([u32; 2], [u32; 2]) {
    ([q[0], q[1]], [q[2], q[3]])
}

fn qjoin(x: [u32; 2], y: [u32; 2]) -> [u32; 4] {
    [x[0], x[1], y[0], y[1]]
}

fn qmul(a: [u32; 4], b: [u32; 4]) -> [u32; 4] {
    let (a0, a1) = qparts(a);
    let (b0, b1) = qparts(b);
    let first = cadd(cmul(a0, b0), cmul([2, 1], cmul(a1, b1)));
    let second = cadd(cmul(a0, b1), cmul(a1, b0));
    qjoin(first, second)
}

fn qadd(a: [u32; 4], b: [u32; 4]) -> [u32; 4] {
    [ma(a[0], b[0]), ma(a[1], b[1]), ma(a[2], b[2]), ma(a[3], b[3])]
}

fn qsub(a: [u32; 4], b: [u32; 4]) -> [u32; 4] {
    [ms(a[0], b[0]), ms(a[1], b[1]), ms(a[2], b[2]), ms(a[3], b[3])]
}

fn qinv(a: [u32; 4]) -> [u32; 4] {
    let (a0, a1) = qparts(a);
    let den = csub(cmul(a0, a0), cmul([2, 1], cmul(a1, a1)));
    let d = cinv(den);
    qjoin(cmul(a0, d), cmul(csub([0, 0], a1), d))
}

fn q_elem(q: [u32; 4]) -> Vec<i32> {
    vec![q[3] as i32, q[2] as i32, q[1] as i32, q[0] as i32]
}

fn c_elem(c: [u32; 2]) -> Vec<i32> {
    vec![c[1] as i32, c[0] as i32]
}

fn bytes_of(v: u32) -> Vec<i32> {
    vec![(v & 0xff) as i32, ((v >> 8) & 0xff) as i32, ((v >> 16) & 0xff) as i32, (v >> 24) as i32]
}

fn c_bytes(c: [u32; 2]) -> Vec<i32> {
    let mut r = bytes_of(c[0]);
    r.extend(bytes_of(c[1]));
    r
}

fn q_bytes(q: [u32; 4]) -> Vec<i32> {
    let mut r = c_bytes([q[0], q[1]]);
    r.extend(c_bytes([q[2], q[3]]));
    r
}

fn reduce(v: u64) -> u32 {
    (v % P) as u32
}

fn rand_m31(prng: &mut ChaCha20Rng) -> u32 {
    prng.gen_range(0u32..((1 << 31) - 1))
}

fn rand_qm31(prng: &mut ChaCha20Rng) -> [u32; 4] {
    [reduce(prng.next_u64()), reduce(prng.next_u64()), reduce(prng.next_u64()), reduce(prng.next_u64())]
}

fn to_qm31(q: [u32; 4]) -> QM31 {
    QM31::from_u32_unchecked(q[0], q[1], q[2], q[3])
}

fn to_cm31(c: [u32; 2]) -> CM31 {
    CM31::from_u32_unchecked(c[0], c[1])
}

fn ready_dsl() -> DSL {
    let mut dsl = DSL::new();
    load_data_types(&mut dsl).unwrap();
    load_functions(&mut dsl).unwrap();
    dsl
}

#[test]
fn m31_test_m31_to_limbs() {
    let mut prng = ChaCha20Rng::seed_from_u64(0);
    let a_val = prng.gen_range(0..((1i64 << 31) - 1)) as i32;

    let mut dsl = ready_dsl();
    let a = dsl.alloc_constant("m31", Element::Num(a_val)).unwrap();
    let res = dsl.execute("m31_to_limbs", &[a]).unwrap();

    assert_eq!(res.len(), 1);
    assert_eq!(dsl.get_many_num(res[0]).unwrap(), convert_m31_to_limbs(a_val as u32));
    assert_eq!(dsl.get_many_num(res[0]).unwrap(), bytes_of(a_val as u32).as_slice());
    dsl.set_program_output("m31_limbs", res[0]).unwrap();

    let b = dsl.alloc_constant("m31", Element::Num(a_val)).unwrap();
    assert!(dsl.execute("m31_equalverify", &[a, b]).unwrap().is_empty());
}

#[test]
fn test_m31_limbs_mul() {
    let mut prng = ChaCha20Rng::seed_from_u64(0);
    let a = rand_m31(&mut prng);
    let b = rand_m31(&mut prng);
    let r = (a as u64) * (b as u64) % ((1 << 31) - 1);

    let mut dsl = ready_dsl();
    let a = dsl.alloc_input("m31_limbs", Element::ManyNum(convert_m31_to_limbs(a).to_vec())).unwrap();
    let b = dsl.alloc_input("m31_limbs", Element::ManyNum(convert_m31_to_limbs(b).to_vec())).unwrap();
    let table = dsl.execute("push_table", &[]).unwrap()[0];
    let res = dsl.execute("m31_limbs_mul", &[table, a, b]).unwrap();

    assert_eq!(res.len(), 1);
    assert_eq!(dsl.get_num(res[0]).unwrap(), r as i32);
    dsl.set_program_output("m31", res[0]).unwrap();
}

#[test]
fn test_m31_limbs_inverse() {
    let mut prng = ChaCha20Rng::seed_from_u64(0);
    let a = rand_m31(&mut prng);
    let inv = minv(a);

    let mut dsl = ready_dsl();
    let a = dsl.alloc_input("m31_limbs", Element::ManyNum(convert_m31_to_limbs(a).to_vec())).unwrap();
    let table = dsl.execute("push_table", &[]).unwrap()[0];
    let res = dsl.execute("m31_limbs_inverse", &[table, a]).unwrap();

    assert_eq!(res.len(), 1);
    assert_eq!(dsl.get_many_num(res[0]).unwrap(), bytes_of(inv).as_slice());
    dsl.set_program_output("m31_limbs", res[0]).unwrap();
}

#[test]
fn test_cm31_to_limbs() {
    let mut prng = ChaCha20Rng::seed_from_u64(0);
    let a_real = rand_m31(&mut prng);
    let a_imag = rand_m31(&mut prng);

    let mut dsl = ready_dsl();
    let a = dsl.alloc_constant("cm31", Element::ManyNum(vec![a_imag as i32, a_real as i32])).unwrap();
    let res = dsl.execute("cm31_to_limbs", &[a]).unwrap();

    assert_eq!(res.len(), 1);
    assert_eq!(dsl.get_many_num(res[0]).unwrap(), convert_cm31_to_limbs(to_cm31([a_real, a_imag])));
    assert_eq!(dsl.get_many_num(res[0]).unwrap(), c_bytes([a_real, a_imag]).as_slice());
    dsl.set_program_output("cm31_limbs", res[0]).unwrap();
}

#[test]
fn test_cm31_limbs_mul() {
    let mut prng = ChaCha20Rng::seed_from_u64(0);
    let a = [rand_m31(&mut prng), rand_m31(&mut prng)];
    let b = [rand_m31(&mut prng), rand_m31(&mut prng)];
    let expected = cmul(a, b);

    let mut dsl = ready_dsl();
    let a = dsl.alloc_input("cm31_limbs", Element::ManyNum(c_bytes(a))).unwrap();
    let b = dsl.alloc_input("cm31_limbs", Element::ManyNum(c_bytes(b))).unwrap();
    let table = dsl.execute("push_table", &[]).unwrap()[0];
    let res = dsl.execute("cm31_limbs_mul", &[table, a, b]).unwrap();

    assert_eq!(res.len(), 1);
    assert_eq!(dsl.get_many_num(res[0]).unwrap(), &[expected[1] as i32, expected[0] as i32]);
    dsl.set_program_output("cm31", res[0]).unwrap();
}

#[test]
fn test_cm31_limbs_inverse() {
    let mut prng = ChaCha20Rng::seed_from_u64(0);
    let a = [rand_m31(&mut prng), rand_m31(&mut prng)];
    let inv = cinv(a);

    let mut dsl = ready_dsl();
    let a = dsl.alloc_input("cm31_limbs", Element::ManyNum(c_bytes(a))).unwrap();
    let table = dsl.execute("push_table", &[]).unwrap()[0];
    let res = dsl.execute("cm31_limbs_inverse", &[table, a]).unwrap();

    assert_eq!(res.len(), 1);
    assert_eq!(dsl.get_many_num(res[0]).unwrap(), c_bytes(inv).as_slice());
    dsl.set_program_output("cm31_limbs", res[0]).unwrap();
}

#[test]
fn test_cm31_limbs_real_and_imag() {
    let mut prng = ChaCha20Rng::seed_from_u64(0);
    let a = [rand_m31(&mut prng), rand_m31(&mut prng)];

    let mut dsl = ready_dsl();
    let a_var = dsl.alloc_input("cm31_limbs", Element::ManyNum(c_bytes(a))).unwrap();
    let a_real = dsl.execute("cm31_limbs_real", &[a_var]).unwrap()[0];
    let a_imag = dsl.execute("cm31_limbs_imag", &[a_var]).unwrap()[0];

    assert_eq!(dsl.get_many_num(a_real).unwrap(), bytes_of(a[0]).as_slice());
    assert_eq!(dsl.get_many_num(a_imag).unwrap(), bytes_of(a[1]).as_slice());
    dsl.set_program_output("m31_limbs", a_real).unwrap();
    dsl.set_program_output("m31_limbs", a_imag).unwrap();
}

#[test]
fn test_cm31_real_and_imag() {
    let mut prng = ChaCha20Rng::seed_from_u64(0);
    let a = [rand_m31(&mut prng), rand_m31(&mut prng)];

    let mut dsl = ready_dsl();
    let a_var = dsl.alloc_input("cm31", Element::ManyNum(reformat_cm31_to_dsl_element(to_cm31(a)))).unwrap();
    let a_real = dsl.execute("cm31_real", &[a_var]).unwrap()[0];
    let a_imag = dsl.execute("cm31_imag", &[a_var]).unwrap()[0];

    assert_eq!(dsl.get_num(a_real).unwrap(), a[0] as i32);
    assert_eq!(dsl.get_num(a_imag).unwrap(), a[1] as i32);
    dsl.set_program_output("m31", a_real).unwrap();
    dsl.set_program_output("m31", a_imag).unwrap();
}

#[test]
fn test_cm31_from_real_and_imag() {
    let mut prng = ChaCha20Rng::seed_from_u64(0);
    let a = [rand_m31(&mut prng), rand_m31(&mut prng)];

    let mut dsl = ready_dsl();
    let re = dsl.alloc_input("m31", Element::Num(a[0] as i32)).unwrap();
    let im = dsl.alloc_input("m31", Element::Num(a[1] as i32)).unwrap();
    let cm31 = dsl.execute("cm31_from_real_and_imag", &[re, im]).unwrap()[0];

    assert_eq!(dsl.get_many_num(cm31).unwrap(), c_elem(a).as_slice());
    dsl.set_program_output("cm31", cm31).unwrap();
}

#[test]
fn test_cm31_mul_m31_limbs() {
    let mut prng = ChaCha20Rng::seed_from_u64(0);
    let c = [rand_m31(&mut prng), rand_m31(&mut prng)];
    let m = reduce(prng.next_u64());
    let expected = [mm(c[0], m), mm(c[1], m)];

    let mut dsl = ready_dsl();
    let cm31_var = dsl.alloc_input("cm31", Element::ManyNum(c_elem(c))).unwrap();
    let m31_limbs_var = dsl.alloc_input("m31_limbs", Element::ManyNum(bytes_of(m))).unwrap();
    let table = dsl.execute("push_table", &[]).unwrap()[0];
    let res = stark_dsl::dsl::building_blocks::cm31::cm31_mul_m31_limbs(&mut dsl, table, cm31_var, m31_limbs_var)
        .unwrap();

    assert_eq!(dsl.get_many_num(res).unwrap(), c_elem(expected).as_slice());
    dsl.set_program_output("cm31", res).unwrap();
}

#[test]
fn qm31_test_qm31_to_limbs() {
    let mut prng = ChaCha20Rng::seed_from_u64(0);
    let a = [rand_m31(&mut prng), rand_m31(&mut prng), rand_m31(&mut prng), rand_m31(&mut prng)];

    let mut dsl = ready_dsl();
    let a_var = dsl.alloc_constant("qm31", Element::ManyNum(reformat_qm31_to_dsl_element(to_qm31(a)))).unwrap();
    let res = dsl.execute("qm31_to_limbs", &[a_var]).unwrap();

    assert_eq!(res.len(), 1);
    assert_eq!(dsl.get_many_num(res[0]).unwrap(), convert_qm31_to_limbs(to_qm31(a)));
    assert_eq!(dsl.get_many_num(res[0]).unwrap(), q_bytes(a).as_slice());
    dsl.set_program_output("qm31_limbs", res[0]).unwrap();
}

#[test]
fn qm31_test_qm31_limbs_mul() {
    let mut prng = ChaCha20Rng::seed_from_u64(0);
    let a = [rand_m31(&mut prng), rand_m31(&mut prng), rand_m31(&mut prng), rand_m31(&mut prng)];
    let b = [rand_m31(&mut prng), rand_m31(&mut prng), rand_m31(&mut prng), rand_m31(&mut prng)];
    let expected = qmul(a, b);

    let mut dsl = ready_dsl();
    let a = dsl.alloc_input("qm31_limbs", Element::ManyNum(q_bytes(a))).unwrap();
    let b = dsl.alloc_input("qm31_limbs", Element::ManyNum(q_bytes(b))).unwrap();
    let table = dsl.execute("push_table", &[]).unwrap()[0];
    let res = dsl.execute("qm31_limbs_mul", &[table, a, b]).unwrap();

    assert_eq!(res.len(), 1);
    assert_eq!(
        dsl.get_many_num(res[0]).unwrap(),
        &[expected[3] as i32, expected[2] as i32, expected[1] as i32, expected[0] as i32]
    );
    dsl.set_program_output("qm31", res[0]).unwrap();
}

#[test]
fn test_qm31_limbs_first_and_second() {
    let mut prng = ChaCha20Rng::seed_from_u64(0);
    let a = [rand_m31(&mut prng), rand_m31(&mut prng), rand_m31(&mut prng), rand_m31(&mut prng)];

    let mut dsl = ready_dsl();
    let a_var = dsl.alloc_input("qm31_limbs", Element::ManyNum(q_bytes(a))).unwrap();
    let a_first = dsl.execute("qm31_limbs_first", &[a_var]).unwrap()[0];
    let a_second = dsl.execute("qm31_limbs_second", &[a_var]).unwrap()[0];

    assert_eq!(dsl.get_many_num(a_first).unwrap(), c_bytes([a[0], a[1]]).as_slice());
    assert_eq!(dsl.get_many_num(a_second).unwrap(), c_bytes([a[2], a[3]]).as_slice());
    dsl.set_program_output("cm31_limbs", a_first).unwrap();
    dsl.set_program_output("cm31_limbs", a_second).unwrap();
}

#[test]
fn test_qm31_first_and_second() {
    let mut prng = ChaCha20Rng::seed_from_u64(0);
    let a = [rand_m31(&mut prng), rand_m31(&mut prng), rand_m31(&mut prng), rand_m31(&mut prng)];

    let mut dsl = ready_dsl();
    let a_var = dsl.alloc_input("qm31", Element::ManyNum(reformat_qm31_to_dsl_element(to_qm31(a)))).unwrap();
    let a_first = dsl.execute("qm31_first", &[a_var]).unwrap()[0];
    let a_second = dsl.execute("qm31_second", &[a_var]).unwrap()[0];

    assert_eq!(dsl.get_many_num(a_first).unwrap(), c_elem([a[0], a[1]]).as_slice());
    assert_eq!(dsl.get_many_num(a_second).unwrap(), c_elem([a[2], a[3]]).as_slice());
    dsl.set_program_output("cm31", a_first).unwrap();
    dsl.set_program_output("cm31", a_second).unwrap();

    // joining the halves again gives the element back
    let joined = dsl.execute("qm31_from_first_and_second", &[a_first, a_second]).unwrap()[0];
    assert_eq!(dsl.get_many_num(joined).unwrap(), q_elem(a).as_slice());
}

#[test]
fn test_qm31_1add_1sub_neg() {
    let mut prng = ChaCha20Rng::seed_from_u64(0);
    let a = [rand_m31(&mut prng), rand_m31(&mut prng), rand_m31(&mut prng), rand_m31(&mut prng)];
    let one = [1, 0, 0, 0];

    let mut dsl = ready_dsl();
    let a_var = dsl.alloc_input("qm31", Element::ManyNum(q_elem(a))).unwrap();
    let a_1add = dsl.execute("qm31_1add", &[a_var]).unwrap()[0];
    let a_1sub = dsl.execute("qm31_1sub", &[a_var]).unwrap()[0];
    let a_neg = dsl.execute("qm31_neg", &[a_var]).unwrap()[0];

    assert_eq!(dsl.get_many_num(a_1add).unwrap(), q_elem(qadd(a, one)).as_slice());
    assert_eq!(dsl.get_many_num(a_1sub).unwrap(), q_elem(qsub(a, one)).as_slice());
    assert_eq!(dsl.get_many_num(a_neg).unwrap(), q_elem(qsub([0, 0, 0, 0], a)).as_slice());
    dsl.set_program_output("qm31", a_1add).unwrap();
    dsl.set_program_output("qm31", a_1sub).unwrap();
    dsl.set_program_output("qm31", a_neg).unwrap();
}

#[test]
fn test_qm31_add_sub() {
    let mut prng = ChaCha20Rng::seed_from_u64(0);
    let a = [rand_m31(&mut prng), rand_m31(&mut prng), rand_m31(&mut prng), rand_m31(&mut prng)];
    let b = [rand_m31(&mut prng), rand_m31(&mut prng), rand_m31(&mut prng), rand_m31(&mut prng)];

    let mut dsl = ready_dsl();
    let a_var = dsl.alloc_input("qm31", Element::ManyNum(q_elem(a))).unwrap();
    let b_var = dsl.alloc_input("qm31", Element::ManyNum(q_elem(b))).unwrap();
    let res_var = dsl.execute("qm31_add", &[a_var, b_var]).unwrap()[0];
    assert_eq!(dsl.get_many_num(res_var).unwrap(), q_elem(qadd(a, b)).as_slice());
    let res2_var = dsl.execute("qm31_sub", &[a_var, b_var]).unwrap()[0];
    assert_eq!(dsl.get_many_num(res2_var).unwrap(), q_elem(qsub(a, b)).as_slice());
    dsl.set_program_output("qm31", res_var).unwrap();
    dsl.set_program_output("qm31", res2_var).unwrap();
}

#[test]
fn test_qm31_mul_m31_limbs() {
    let mut prng = ChaCha20Rng::seed_from_u64(0);
    let q = rand_qm31(&mut prng);
    let m = reduce(prng.next_u64());
    let expected = [mm(q[0], m), mm(q[1], m), mm(q[2], m), mm(q[3], m)];

    let mut dsl = ready_dsl();
    let qm31_var = dsl.alloc_input("qm31", Element::ManyNum(q_elem(q))).unwrap();
    let m31_limbs_var = dsl.alloc_input("m31_limbs", Element::ManyNum(bytes_of(m))).unwrap();
    let table = dsl.execute("push_table", &[]).unwrap()[0];
    let res = stark_dsl::dsl::building_blocks::qm31::qm31_mul_m31_limbs(&mut dsl, table, qm31_var, m31_limbs_var)
        .unwrap();

    assert_eq!(dsl.get_many_num(res).unwrap(), q_elem(expected).as_slice());
    dsl.set_program_output("qm31", res).unwrap();
}

#[test]
fn test_qm31_mul_cm31_limbs() {
    let mut prng = ChaCha20Rng::seed_from_u64(0);
    let q = rand_qm31(&mut prng);
    let c = [reduce(prng.next_u64()), reduce(prng.next_u64())];
    let (q0, q1) = qparts(q);
    let expected = qjoin(cmul(q0, c), cmul(q1, c));

    let mut dsl = ready_dsl();
    let qm31_var = dsl.alloc_input("qm31", Element::ManyNum(q_elem(q))).unwrap();
    let cm31_limbs_var = dsl.alloc_input("cm31_limbs", Element::ManyNum(c_bytes(c))).unwrap();
    let table = dsl.execute("push_table", &[]).unwrap()[0];
    let res = stark_dsl::dsl::building_blocks::qm31::qm31_mul_cm31_limbs(&mut dsl, table, qm31_var, cm31_limbs_var)
        .unwrap();

    assert_eq!(dsl.get_many_num(res).unwrap(), q_elem(expected).as_slice());
    dsl.set_program_output("qm31", res).unwrap();
}

#[test]
fn test_qm31_add_cm31() {
    let mut prng = ChaCha20Rng::seed_from_u64(0);
    let q = rand_qm31(&mut prng);
    let c = [reduce(prng.next_u64()), reduce(prng.next_u64())];
    let expected = qadd(q, [c[0], c[1], 0, 0]);

    let mut dsl = ready_dsl();
    let qm31_var = dsl.alloc_input("qm31", Element::ManyNum(q_elem(q))).unwrap();
    let cm31_var = dsl.alloc_input("cm31", Element::ManyNum(c_elem(c))).unwrap();
    let res = dsl.execute("qm31_add_cm31", &[qm31_var, cm31_var]).unwrap()[0];

    assert_eq!(dsl.get_many_num(res).unwrap(), q_elem(expected).as_slice());
    dsl.set_program_output("qm31", res).unwrap();
}

#[test]
fn test_qm31_add_m31() {
    let mut prng = ChaCha20Rng::seed_from_u64(0);
    let q = rand_qm31(&mut prng);
    let m = reduce(prng.next_u64());
    let expected = qadd(q, [m, 0, 0, 0]);

    let mut dsl = ready_dsl();
    let qm31_var = dsl.alloc_input("qm31", Element::ManyNum(q_elem(q))).unwrap();
    let m31_var = dsl.alloc_input("m31", Element::Num(m as i32)).unwrap();
    let res = dsl.execute("qm31_add_m31", &[qm31_var, m31_var]).unwrap()[0];

    assert_eq!(dsl.get_many_num(res).unwrap(), q_elem(expected).as_slice());
    dsl.set_program_output("qm31", res).unwrap();
}

#[test]
fn test_qm31_shift_by_i_j_ij() {
    let mut prng = ChaCha20Rng::seed_from_u64(0);
    let q = rand_qm31(&mut prng);

    let mut dsl = ready_dsl();
    let qm31_var = dsl.alloc_input("qm31", Element::ManyNum(q_elem(q))).unwrap();
    let by_i = dsl.execute("qm31_shift_by_i", &[qm31_var]).unwrap()[0];
    let by_j = dsl.execute("qm31_shift_by_j", &[qm31_var]).unwrap()[0];
    let by_ij = dsl.execute("qm31_shift_by_ij", &[qm31_var]).unwrap()[0];

    assert_eq!(dsl.get_many_num(by_i).unwrap(), q_elem(qmul(q, [0, 1, 0, 0])).as_slice());
    assert_eq!(dsl.get_many_num(by_j).unwrap(), q_elem(qmul(q, [0, 0, 1, 0])).as_slice());
    assert_eq!(dsl.get_many_num(by_ij).unwrap(), q_elem(qmul(q, [0, 0, 0, 1])).as_slice());
    dsl.set_program_output("qm31", by_i).unwrap();
    dsl.set_program_output("qm31", by_j).unwrap();
    dsl.set_program_output("qm31", by_ij).unwrap();
}

#[test]
fn test_qm31_limbs_inverse() {
    let mut prng = ChaCha20Rng::seed_from_u64(0);
    let a = rand_qm31(&mut prng);
    let inv = qinv(a);
    assert_eq!(qmul(a, inv), [1, 0, 0, 0]);

    let mut dsl = ready_dsl();
    let a_var = dsl.alloc_input("qm31_limbs", Element::ManyNum(q_bytes(a))).unwrap();
    let table = dsl.execute("push_table", &[]).unwrap()[0];
    let res = dsl.execute("qm31_limbs_inverse", &[table, a_var]).unwrap();

    assert_eq!(res.len(), 1);
    assert_eq!(dsl.get_many_num(res[0]).unwrap(), q_bytes(inv).as_slice());
    dsl.set_program_output("qm31_limbs", res[0]).unwrap();
}

#[test]
fn test_qm31_conditional_swap() {
    let mut prng = ChaCha20Rng::seed_from_u64(0);
    let a = rand_qm31(&mut prng);
    let b = rand_qm31(&mut prng);

    let mut dsl = ready_dsl();
    let a_var = dsl.alloc_input("qm31", Element::ManyNum(q_elem(a))).unwrap();
    let b_var = dsl.alloc_input("qm31", Element::ManyNum(q_elem(b))).unwrap();
    let bit_0_var = dsl.alloc_input("position", Element::Num(0)).unwrap();
    let bit_1_var = dsl.alloc_input("position", Element::Num(1)).unwrap();
    let res1 = dsl.execute("qm31_conditional_swap", &[a_var, b_var, bit_0_var]).unwrap();
    let res2 = dsl.execute("qm31_conditional_swap", &[a_var, b_var, bit_1_var]).unwrap();

    assert_eq!(dsl.get_many_num(res1[0]).unwrap(), q_elem(a).as_slice());
    assert_eq!(dsl.get_many_num(res1[1]).unwrap(), q_elem(b).as_slice());
    assert_eq!(dsl.get_many_num(res2[0]).unwrap(), q_elem(b).as_slice());
    assert_eq!(dsl.get_many_num(res2[1]).unwrap(), q_elem(a).as_slice());
    dsl.set_program_output("qm31", res1[0]).unwrap();
    dsl.set_program_output("qm31", res1[1]).unwrap();
    dsl.set_program_output("qm31", res2[0]).unwrap();
    dsl.set_program_output("qm31", res2[1]).unwrap();
}

#[test]
fn test_decompose_positions_to_5() {
    let mut prng = ChaCha20Rng::seed_from_u64(0);
    let num: i32 = prng.gen_range(0..=1023);
    let expected = vec![num >> 2, num >> 3, num >> 4, num >> 5, num >> 6];

    let mut dsl = ready_dsl();
    let num_var = dsl.alloc_input("position", Element::Num(num)).unwrap();
    let res = dsl.execute("decompose_positions_to_5", &[num_var]).unwrap();
    assert_eq!(res.len(), 5);
    for (&a, &b) in expected.iter().zip(res.iter()) {
        assert_eq!(a, dsl.get_num(b).unwrap());
        dsl.set_program_output("position", b).unwrap();
    }
}

#[test]
fn test_select_among_eight() {
    let mut prng = ChaCha20Rng::seed_from_u64(0);
    let hashes: Vec<Vec<u8>> = (0..8)
        .map(|_| {
            let mut bytes = [0u8; 32];
            prng.fill_bytes(&mut bytes);
            bytes.to_vec()
        })
        .collect();

    let mut dsl = ready_dsl();
    let mut hashes_vars = vec![];
    for hash in hashes.iter() {
        hashes_vars.push(dsl.alloc_input("hash", Element::Str(hash.clone())).unwrap());
    }
    for i in 0..8 {
        let selected = dsl
            .execute_with_options("select_among_eight", &hashes_vars, &Options::new().with_u32("pick", i as u32))
            .unwrap()[0];
        assert_eq!(dsl.get_str(selected).unwrap(), hashes[i].as_slice());
        dsl.set_program_output("hash", selected).unwrap();
    }
}

#[test]
fn test_mix_digest() {
    let mut prng = ChaCha20Rng::seed_from_u64(0);
    let mut init_state = [0u8; 32];
    init_state.iter_mut().for_each(|v| *v = prng.gen());
    let mut elem = [0u8; 32];
    elem.iter_mut().for_each(|v| *v = prng.gen());
    let mut hasher = Sha256::new();
    hasher.update(elem);
    hasher.update(init_state);
    let new_hash = hasher.finalize().to_vec();

    let mut dsl = ready_dsl();
    let old_channel_digest = dsl.alloc_input("hash", Element::Str(init_state.to_vec())).unwrap();
    let elem = dsl.alloc_input("hash", Element::Str(elem.to_vec())).unwrap();
    let res = dsl.execute("mix_digest", &[old_channel_digest, elem]).unwrap()[0];

    assert_eq!(dsl.get_str(res).unwrap(), new_hash.as_slice());
    dsl.set_program_output("hash", res).unwrap();
}

#[test]
fn limb_level_m31_to_limbs_and_equalverify() {
    let mut prng = ChaCha20Rng::seed_from_u64(0);
    let a_val = prng.gen_range(0..((1i64 << 31) - 1)) as i32;

    let mut dsl = ready_dsl();
    let a = dsl.alloc_constant("m31", Element::Num(a_val)).unwrap();
    let out = stark_dsl::dsl::m31::m31_to_limbs(&mut dsl, &[a]).unwrap();
    assert_eq!(out.new_elements.len(), 1);
    assert_eq!(out.new_hints.len(), 1);
    assert_eq!(out.new_elements[0].data_type, "m31_limbs");
    assert!(matches!(&out.new_elements[0].data, Element::ManyNum(v) if *v == bytes_of(a_val as u32)));

    let l1 = dsl.alloc_constant("m31_limbs", Element::ManyNum(bytes_of(a_val as u32))).unwrap();
    let l2 = dsl.alloc_constant("m31_limbs", Element::ManyNum(bytes_of(a_val as u32))).unwrap();
    let mut other = bytes_of(a_val as u32);
    other[0] = (other[0] + 1) % 256;
    let l3 = dsl.alloc_constant("m31_limbs", Element::ManyNum(other)).unwrap();
    assert!(stark_dsl::dsl::m31::m31_equalverify(&mut dsl, &[l1, l2]).is_ok());
    assert!(stark_dsl::dsl::m31::m31_equalverify(&mut dsl, &[l1, l3]).is_err());

    let g = stark_dsl::dsl::m31::m31_equalverify_gadget(&[]).unwrap();
    assert_eq!(g.as_bytes(), &[0x54, 0x7a, 0x88, 0x53, 0x7a, 0x88, 0x7b, 0x88, 0x88]);
    let t = stark_dsl::dsl::m31::m31_to_limbs_gadget(&[]).unwrap();
    let t2 = stark_dsl::dsl::building_blocks::m31::m31_to_limbs_gadget(&[]).unwrap();
    assert_eq!(t.as_bytes(), t2.as_bytes());
}

#[test]
fn test_qm31_limbs_get_first_and_second() {
    let mut prng = ChaCha20Rng::seed_from_u64(0);
    let a: Vec<u32> = (0..4).map(|_| prng.gen_range(0u32..((1 << 31) - 1))).collect();
    let a_qm31 = QM31::from_u32_unchecked(a[0], a[1], a[2], a[3]);
    let a_limbs = convert_qm31_to_limbs(a_qm31);
    let a_first_limbs = convert_cm31_to_limbs(a_qm31.0);
    let a_second_limbs = convert_cm31_to_limbs(a_qm31.1);

    let mut dsl = ready_dsl();
    let a = dsl.alloc_input("qm31_limbs", Element::ManyNum(a_limbs.to_vec())).unwrap();
    let a_first = dsl.execute("qm31_limbs_first", &[a]).unwrap()[0];
    let a_second = dsl.execute("qm31_limbs_second", &[a]).unwrap()[0];
    assert_eq!(dsl.get_many_num(a_first).unwrap(), a_first_limbs);
    assert_eq!(dsl.get_many_num(a_second).unwrap(), a_second_limbs);

    // the aliases give the same halves
    let first = stark_dsl::dsl::qm31::qm31_limbs_get_first(&mut dsl, &[a]).unwrap();
    let second = stark_dsl::dsl::qm31::qm31_limbs_get_second(&mut dsl, &[a]).unwrap();
    assert!(matches!(&first.new_elements[0].data, Element::ManyNum(v) if v.as_slice() == a_first_limbs));
    assert!(matches!(&second.new_elements[0].data, Element::ManyNum(v) if v.as_slice() == a_second_limbs));
    assert_eq!(first.new_elements[0].data_type, "cm31_limbs");

    dsl.set_program_output("cm31_limbs", a_first).unwrap();
    dsl.set_program_output("cm31_limbs", a_second).unwrap();
}

#[test]
fn test_qm31_get_first_and_second() {
    let mut prng = ChaCha20Rng::seed_from_u64(0);
    let a: Vec<u32> = (0..4).map(|_| prng.gen_range(0u32..((1 << 31) - 1))).collect();
    let a_qm31 = QM31::from_u32_unchecked(a[0], a[1], a[2], a[3]);

    let mut dsl = ready_dsl();
    let a = dsl.alloc_input("qm31", Element::ManyNum(reformat_qm31_to_dsl_element(a_qm31))).unwrap();
    let a_first = dsl.execute("qm31_first", &[a]).unwrap()[0];
    let a_second = dsl.execute("qm31_second", &[a]).unwrap()[0];
    assert_eq!(dsl.get_many_num(a_first).unwrap(), reformat_cm31_to_dsl_element(a_qm31.0));
    assert_eq!(dsl.get_many_num(a_second).unwrap(), reformat_cm31_to_dsl_element(a_qm31.1));

    let first = stark_dsl::dsl::qm31::qm31_first(&mut dsl, &[a]).unwrap();
    let second = stark_dsl::dsl::qm31::qm31_second(&mut dsl, &[a]).unwrap();
    assert!(matches!(&first.new_elements[0].data, Element::ManyNum(v) if *v == reformat_cm31_to_dsl_element(a_qm31.0)));
    assert!(matches!(&second.new_elements[0].data, Element::ManyNum(v) if *v == reformat_cm31_to_dsl_element(a_qm31.1)));

    dsl.set_program_output("cm31", a_first).unwrap();
    dsl.set_program_output("cm31", a_second).unwrap();
}

#[test]
fn cm31_equalverify_compares_elements() {
    let mut dsl = ready_dsl();
    let a = dsl.alloc_constant("cm31", Element::ManyNum(vec![5, 7])).unwrap();
    let b = dsl.alloc_constant("cm31", Element::ManyNum(vec![5, 7])).unwrap();
    let c = dsl.alloc_constant("cm31", Element::ManyNum(vec![7, 5])).unwrap();
    assert!(dsl.execute("cm31_equalverify", &[a, b]).unwrap().is_empty());
    assert!(dsl.execute("cm31_equalverify", &[a, c]).is_err());
    assert!(stark_dsl::dsl::building_blocks::cm31::cm31_equalverify(&mut dsl, &[a, b]).is_ok());
    assert!(stark_dsl::dsl::building_blocks::qm31::qm31_equalverify(&mut dsl, &[a, c]).is_err());
    let l1 = dsl.alloc_constant("cm31_limbs", Element::ManyNum(vec![1, 2, 3, 4, 5, 6, 7, 8])).unwrap();
    let l2 = dsl.alloc_constant("cm31_limbs", Element::ManyNum(vec![1, 2, 3, 4, 5, 6, 7, 9])).unwrap();
    assert!(stark_dsl::dsl::building_blocks::cm31::cm31_limbs_equalverify(&mut dsl, &[l1, l1]).is_ok());
    assert!(stark_dsl::dsl::building_blocks::cm31::cm31_limbs_equalverify(&mut dsl, &[l1, l2]).is_err());
}

fn hint_nums(out: &stark_dsl::dsl::framework::FunctionOutput, from: usize) -> Vec<(String, i32)> {
    out.new_hints[from..]
        .iter()
        .map(|e| match &e.data {
            Element::Num(v) => (e.data_type.clone(), *v),
            _ => panic!("not a number"),
        })
        .collect()
}

#[test]
fn multiplications_give_their_reduction_hints() {
    let p: i64 = (1 << 31) - 1;
    let mut dsl = ready_dsl();
    let table = dsl.execute("push_table", &[]).unwrap()[0];

    // (p - 1)^2 == (p - 2) p + 1
    let a = dsl.alloc_input("m31_limbs", Element::ManyNum(vec![254, 255, 255, 127])).unwrap();
    let out = stark_dsl::dsl::building_blocks::m31::m31_limbs_mul(&mut dsl, &[table, a, a]).unwrap();
    assert!(matches!(&out.new_elements[0].data, Element::Num(1)));
    assert_eq!(hint_nums(&out, 0), vec![("m31".to_string(), (p - 2) as i32)]);

    // i i == -1: the three quotients of 1 * 1, 1 * 1 and 0 * 0 are 0
    let i = dsl.alloc_input("cm31_limbs", Element::ManyNum(vec![0, 0, 0, 0, 1, 0, 0, 0])).unwrap();
    let out = stark_dsl::dsl::building_blocks::cm31::cm31_limbs_mul(&mut dsl, &[table, i, i]).unwrap();
    assert!(matches!(&out.new_elements[0].data, Element::ManyNum(v) if *v == vec![0, (p - 1) as i32]));
    assert_eq!(hint_nums(&out, 0), vec![("m31".to_string(), 0); 3]);

    // a complex product with large parts: (p - 1 + (p - 1) i)^2
    let big = dsl.alloc_input("cm31_limbs", Element::ManyNum(vec![254, 255, 255, 127, 254, 255, 255, 127])).unwrap();
    let out = stark_dsl::dsl::building_blocks::cm31::cm31_limbs_mul(&mut dsl, &[table, big, big]).unwrap();
    // the sums of the parts are 2p - 2 = p - 2 modulo p
    let q_sum = ((p - 2) * (p - 2) / p) as i32;
    let q_part = ((p - 1) * (p - 1) / p) as i32;
    assert_eq!(
        hint_nums(&out, 0),
        vec![("m31".to_string(), q_sum), ("m31".to_string(), q_part), ("m31".to_string(), q_part)]
    );

    // u u == 2 + i, with nine hints of type qm31
    let u = dsl.alloc_input("qm31_limbs", Element::ManyNum(vec![0, 0, 0, 0, 0, 0, 0, 0, 1, 0, 0, 0, 0, 0, 0, 0])).unwrap();
    let out = stark_dsl::dsl::building_blocks::qm31::qm31_limbs_mul(&mut dsl, &[table, u, u]).unwrap();
    assert!(matches!(&out.new_elements[0].data, Element::ManyNum(v) if *v == vec![0, 0, 1, 2]));
    assert_eq!(hint_nums(&out, 0), vec![("qm31".to_string(), 0); 9]);
}

#[test]
fn inverses_give_their_reduction_hints() {
    let p: i64 = (1 << 31) - 1;
    let mut dsl = ready_dsl();
    let table = dsl.execute("push_table", &[]).unwrap()[0];

    // 2^-1 == 2^30, and 2 * 2^30 == p + 1 has quotient 1
    let two = dsl.alloc_input("m31_limbs", Element::ManyNum(vec![2, 0, 0, 0])).unwrap();
    let out = stark_dsl::dsl::building_blocks::m31::m31_limbs_inverse(&mut dsl, &[table, two]).unwrap();
    assert_eq!(out.new_hints.len(), 2);
    assert_eq!(hint_nums(&out, 1), vec![("m31".to_string(), 1)]);

    let two_c = dsl.alloc_input("cm31_limbs", Element::ManyNum(vec![2, 0, 0, 0, 0, 0, 0, 0])).unwrap();
    let out = stark_dsl::dsl::building_blocks::cm31::cm31_limbs_inverse(&mut dsl, &[table, two_c]).unwrap();
    assert_eq!(out.new_hints.len(), 4);
    // sums (2)(2^30), imaginary parts 0 * 0, real parts 2 * 2^30
    assert_eq!(hint_nums(&out, 1), vec![("m31".to_string(), 1), ("m31".to_string(), 0), ("m31".to_string(), 1)]);

    let two_q = dsl.alloc_input("qm31_limbs", Element::ManyNum(vec![2, 0, 0, 0, 0, 0, 0, 0, 0, 0, 0, 0, 0, 0, 0, 0])).unwrap();
    let out = stark_dsl::dsl::building_blocks::qm31::qm31_limbs_inverse(&mut dsl, &[table, two_q]).unwrap();
    assert!(matches!(&out.new_elements[0].data, Element::ManyNum(v) if *v == vec![0, 0, 0, 64, 0, 0, 0, 0, 0, 0, 0, 0, 0, 0, 0, 0]));
    assert_eq!(out.new_hints.len(), 10);
    let expected: Vec<(String, i32)> = [1, 0, 1, 0, 0, 0, 1, 0, 1].iter().map(|&q| ("qm31".to_string(), q)).collect();
    assert_eq!(hint_nums(&out, 1), expected);
    let _ = p;
}
