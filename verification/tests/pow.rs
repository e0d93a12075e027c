use stark_dsl::dsl::building_blocks::pow::nonce_le_bytes;
use stark_dsl::dsl::framework::{DslError, Element, Options, DSL};
use stark_dsl::dsl::{load_data_types, load_functions};

fn ready_dsl() -> DSL {
    let mut dsl = DSL::new();
    load_data_types(&mut dsl).unwrap();
    load_functions(&mut dsl).unwrap();
    dsl
}

/// The options of a proof-of-work check whose channel results are given.
fn pow_options(nonce: u64, n_bits: u32, digest: Vec<u8>, zeros: u32, msb: Vec<u8>) -> Options {
    Options::new()
        .with_u64("nonce", nonce)
        .with_u32("n_bits", n_bits)
        .with_binary("channel_digest", digest)
        .with_u32("trailing_zeros", zeros)
        .with_binary("prefix", vec![7u8; 30])
        .with_binary("msb", msb)
}

/// The bytes of hint `i`.
fn hint_bytes(dsl: &DSL, i: usize) -> Vec<u8> {
    match &dsl.hints[i].data {
        Element::Str(v) => v.clone(),
        other => panic!("not a byte string: {:?}", other),
    }
}

#[test]
fn test_verify_pow() {
    let mut dsl = ready_dsl();
    let init_state: Vec<u8> = (0..32u8).collect();
    let expected: Vec<u8> = (100..132u8).collect();
    let old_channel_digest = dsl.alloc_input("hash", Element::Str(init_state)).unwrap();
    let new_channel_digest = dsl
        .execute_with_options(
            "verify_pow",
            &[old_channel_digest],
            &pow_options(0x0102_0304_0506_0708, 10, expected.clone(), 12, vec![0x15]),
        )
        .unwrap()[0];
    assert_eq!(dsl.get_str(new_channel_digest).unwrap(), expected.as_slice());
    assert_eq!(dsl.hints.len(), 3);
    assert_eq!(hint_bytes(&dsl, 0), vec![8, 7, 6, 5, 4, 3, 2, 1]);
    assert_eq!(hint_bytes(&dsl, 1), vec![7u8; 30]);
    assert_eq!(hint_bytes(&dsl, 2), vec![0x15]);
}

#[test]
fn missing_msb_still_leaves_a_hint() {
    let mut dsl = ready_dsl();
    let d = dsl.alloc_input("hash", Element::Str(vec![1u8; 32])).unwrap();
    dsl.execute_with_options("verify_pow", &[d], &pow_options(5, 8, vec![2u8; 32], 8, vec![]))
        .unwrap();
    assert_eq!(hint_bytes(&dsl, 2), vec![0]);
    assert_eq!(hint_bytes(&dsl, 0), vec![5, 0, 0, 0, 0, 0, 0, 0]);
}

#[test]
fn too_few_trailing_zeros_is_refused() {
    let mut dsl = ready_dsl();
    let d = dsl.alloc_input("hash", Element::Str(vec![1u8; 32])).unwrap();
    let r = dsl.execute_with_options("verify_pow", &[d], &pow_options(5, 10, vec![2u8; 32], 9, vec![]));
    assert_eq!(r, Err(DslError::InvalidProof));
    assert_eq!(dsl.hints.len(), 0);
}

#[test]
fn malformed_pow_inputs_are_refused() {
    let mut dsl = ready_dsl();
    let short = dsl.alloc_input("hash", Element::Str(vec![1u8; 31])).unwrap();
    let good = dsl.alloc_input("hash", Element::Str(vec![1u8; 32])).unwrap();
    let opts = pow_options(5, 8, vec![2u8; 32], 8, vec![]);
    assert_eq!(dsl.execute_with_options("verify_pow", &[short], &opts), Err(DslError::MalformedElement));
    let bad_digest = pow_options(5, 8, vec![2u8; 31], 8, vec![]);
    assert_eq!(dsl.execute_with_options("verify_pow", &[good], &bad_digest), Err(DslError::MalformedElement));
    let bad_msb = pow_options(5, 8, vec![2u8; 32], 8, vec![1, 2]);
    assert_eq!(dsl.execute_with_options("verify_pow", &[good], &bad_msb), Err(DslError::MalformedElement));
    let no_nonce = Options::new().with_u32("n_bits", 8);
    assert_eq!(dsl.execute_with_options("verify_pow", &[good], &no_nonce), Err(DslError::InvalidOption));
}

#[test]
fn nonces_are_laid_out_little_endian() {
    assert_eq!(nonce_le_bytes(0), vec![0; 8]);
    assert_eq!(nonce_le_bytes(258), vec![2, 1, 0, 0, 0, 0, 0, 0]);
    assert_eq!(nonce_le_bytes(u64::MAX), vec![255; 8]);
}
