use rand::{Rng, SeedableRng};
use rand_chacha::ChaCha20Rng;
use stark_dsl::field::cm31::CM31;
use stark_dsl::field::m31::M31;
use stark_dsl::field::qm31::QM31;
use stark_dsl::limbs::{
    convert_cm31_from_limbs, convert_cm31_to_limbs, convert_m31_from_limbs, convert_m31_to_limbs,
    convert_qm31_from_limbs, convert_qm31_to_limbs,
};
use stark_dsl::dsl::building_blocks::table::push_table_gadget;
use stark_dsl::table::{generate_table, get_table};

const P: u32 = 2147483647;

#[test]
fn test_hypothesis() {
    let mut prng = ChaCha20Rng::seed_from_u64(0);
    let table = get_table();
    for _ in 0..100 {
        let mut a = prng.gen_range(0usize..(1 << 8));
        let mut b = prng.gen_range(0usize..(1 << 8));
        let expected = (a * b) as i64;
        if b > a {
            std::mem::swap(&mut a, &mut b);
        }
        let a_plus_b_squared_div_4 = table.index(a + b);
        let a_minus_b_squared_div_4 = table.index(a - b);
        assert_eq!(expected, a_plus_b_squared_div_4 - a_minus_b_squared_div_4);
    }
}

#[test]
fn table_holds_quarter_squares() {
    let table = get_table();
    assert_eq!(table.data.len(), 513);
    assert_eq!(table.index(0), 0);
    assert_eq!(table.index(1), 0);
    assert_eq!(table.index(3), 2);
    assert_eq!(table.index(255), 16256);
    assert_eq!(table.index(512), 65536);
    let small = generate_table::<4>();
    assert_eq!(small.data, vec![0, 0, 1, 2, 4, 6, 9, 12, 16, 20, 25, 30, 36, 42, 49, 56, 64]);
}

#[test]
fn test_recompose_m31() {
    let mut prng = ChaCha20Rng::seed_from_u64(0);
    for _ in 0..100 {
        let a: u32 = prng.gen_range(0..((1 << 31) - 1));
        let a_limbs = convert_m31_to_limbs(a);
        assert_eq!(convert_m31_from_limbs(&a_limbs), a);
    }
}

#[test]
fn test_recompose_cm31() {
    let mut prng = ChaCha20Rng::seed_from_u64(0);
    for _ in 0..100 {
        let a_real: u32 = prng.gen_range(0..((1 << 31) - 1));
        let a_imag: u32 = prng.gen_range(0..((1 << 31) - 1));
        let a = CM31::from_u32_unchecked(a_real, a_imag);
        assert_eq!(convert_cm31_from_limbs(&convert_cm31_to_limbs(a)), a);
    }
}

#[test]
fn test_recompose_qm31() {
    let mut prng = ChaCha20Rng::seed_from_u64(0);
    for _ in 0..100 {
        let v: Vec<u32> = (0..4).map(|_| prng.gen_range(0..((1 << 31) - 1))).collect();
        let a = QM31::from_u32_unchecked(v[0], v[1], v[2], v[3]);
        assert_eq!(convert_qm31_from_limbs(&convert_qm31_to_limbs(a)), a);
    }
}

#[test]
fn limbs_are_little_endian_bytes() {
    assert_eq!(convert_m31_to_limbs(0x12345678), [0x78, 0x56, 0x34, 0x12]);
    assert_eq!(convert_m31_to_limbs(P - 1), [0xfe, 0xff, 0xff, 0x7f]);
    assert_eq!(convert_m31_from_limbs(&[1, 2, 3, 4]), 0x04030201);
    let c = CM31::from_u32_unchecked(1, 256);
    assert_eq!(convert_cm31_to_limbs(c), [1, 0, 0, 0, 0, 1, 0, 0]);
    let q = QM31::from_u32_unchecked(1, 2, 3, 4);
    assert_eq!(convert_qm31_to_limbs(q), [1, 0, 0, 0, 2, 0, 0, 0, 3, 0, 0, 0, 4, 0, 0, 0]);
}

#[test]
fn m31_arithmetic_wraps_modulo_p() {
    let a = M31::from_u32_unchecked(P - 1);
    let two = M31::from_u32_unchecked(2);
    assert_eq!(a.add(two).0, 1);
    assert_eq!(M31::from_u32_unchecked(1).sub(two).0, P - 1);
    assert_eq!(M31::zero().neg().0, 0);
    assert_eq!(two.neg().0, P - 2);
    assert_eq!(a.mul(a).0, 1);
    assert_eq!(M31::from_u32_unchecked(65536).square().0, 2);
    assert_eq!(two.double().0, 4);
    assert_eq!(M31::reduce(u64::MAX).0, (u64::MAX % (P as u64)) as u32);
    assert_eq!(M31::reduce(P as u64).0, 0);
    assert!(M31::reduce(P as u64).is_zero());
}

#[test]
fn m31_inverse_is_exact() {
    assert_eq!(M31::from_u32_unchecked(2).inverse().0, 1073741824);
    assert_eq!(M31::one().inverse().0, 1);
    let mut prng = ChaCha20Rng::seed_from_u64(1);
    for _ in 0..20 {
        let a = M31::from_u32_unchecked(prng.gen_range(1..P));
        assert_eq!(a.mul(a.inverse()).0, 1);
    }
}

#[test]
fn cm31_arithmetic_and_inverse() {
    let i = CM31::from_u32_unchecked(0, 1);
    assert_eq!(i.mul(i), CM31::from_u32_unchecked(P - 1, 0));
    let a = CM31::from_u32_unchecked(3, 4);
    // (3 + 4i)(3 - 4i) == 25
    assert_eq!(a.mul(CM31::from_u32_unchecked(3, P - 4)), CM31::from_u32_unchecked(25, 0));
    let inv = a.inverse().unwrap();
    assert_eq!(a.mul(inv), CM31::one());
    assert_eq!(CM31::zero().inverse(), None);
    assert_eq!(a.add(a.neg()), CM31::zero());
    assert_eq!(a.sub(a), CM31::zero());
    assert_eq!(a.mul_m31(M31::from_u32_unchecked(2)), CM31::from_u32_unchecked(6, 8));
    assert_eq!(a.add_m31(M31::from_u32_unchecked(2)), CM31::from_u32_unchecked(5, 4));
    assert_eq!(a.square(), a.mul(a));
}

#[test]
fn qm31_arithmetic_and_inverse() {
    let u = QM31::from_u32_unchecked(0, 0, 1, 0);
    // u^2 == 2 + i
    assert_eq!(u.mul(u), QM31::from_u32_unchecked(2, 1, 0, 0));
    let mut prng = ChaCha20Rng::seed_from_u64(2);
    for _ in 0..10 {
        let v: Vec<u32> = (0..4).map(|_| prng.gen_range(0..P)).collect();
        let a = QM31::from_u32_unchecked(v[0], v[1], v[2], v[3]);
        let inv = a.inverse().unwrap();
        assert_eq!(a.mul(inv), QM31::one());
        // subtracting what was added gives the element back
        let b = QM31::from_u32_unchecked(v[3], v[2], v[1], v[0]);
        assert_eq!(a.add(b).sub(b), a);
    }
    assert_eq!(QM31::zero().inverse(), None);
    let a = QM31::from_u32_unchecked(1, 2, 3, 4);
    assert_eq!(a.to_m31_array().map(|m| m.0), [1, 2, 3, 4]);
    assert_eq!(a.double(), a.add(a));
    assert_eq!(a.square(), a.mul(a));
    assert_eq!(a.neg().add(a), QM31::zero());
    assert_eq!(a.mul_m31(M31::from_u32_unchecked(2)), QM31::from_u32_unchecked(2, 4, 6, 8));
    assert_eq!(a.add_m31(M31::from_u32_unchecked(2)), QM31::from_u32_unchecked(3, 2, 3, 4));
    assert_eq!(a.mul_cm31(CM31::from_u32_unchecked(0, 1)), a.mul(QM31::from_u32_unchecked(0, 1, 0, 0)));
}

#[test]
fn every_nonzero_element_is_invertible() {
    // elements with zero parts, whose norms or denominators could vanish if
    // -1 or 2 + i had square roots
    for (re, im) in [(0, 1), (1, 0), (1, 1), (P - 1, 1), (2, P - 1), (0, P - 1)] {
        let a = CM31::from_u32_unchecked(re, im);
        let inv = a.inverse().unwrap();
        assert_eq!(a.mul(inv), CM31::one());
    }
    for c in [[0, 0, 0, 1], [0, 0, 1, 0], [1, 0, 0, 0], [2, 1, 1, 0], [0, 1, 0, 1], [P - 2, P - 1, 1, 0]] {
        let a = QM31::from_u32_unchecked(c[0], c[1], c[2], c[3]);
        let inv = a.inverse().unwrap();
        assert_eq!(a.mul(inv), QM31::one());
    }
}

/// The numbers that a script of pushes puts on the stack, in order.
fn decode_pushes(bytes: &[u8]) -> Vec<i64> {
    let mut out = Vec::new();
    let mut i = 0;
    while i < bytes.len() {
        let op = bytes[i];
        i += 1;
        match op {
            0x00 => out.push(0),
            0x4f => out.push(-1),
            0x51..=0x60 => out.push(op as i64 - 0x50),
            0x01..=0x4b => {
                let data = &bytes[i..i + op as usize];
                i += op as usize;
                let mut v: i64 = 0;
                for (k, &b) in data.iter().enumerate() {
                    let b = if k + 1 == data.len() { b & 0x7f } else { b };
                    v |= (b as i64) << (8 * k);
                }
                if data[data.len() - 1] & 0x80 != 0 {
                    v = -v;
                }
                out.push(v);
            }
            _ => panic!("not a push: {:#x}", op),
        }
    }
    out
}

#[test]
fn test_pushable() {
    let table = get_table();
    let script = push_table_gadget(&[]).unwrap();
    let pushed = decode_pushes(script.as_bytes());
    // the 256 double drops and the single drop of the original remove exactly
    // what the table script pushes: 513 items, largest index first
    assert_eq!(pushed.len(), 256 * 2 + 1);
    let expected: Vec<i64> = table.data.iter().rev().cloned().collect();
    assert_eq!(pushed, expected);
}
