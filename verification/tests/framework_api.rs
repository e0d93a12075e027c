use stark_dsl::dsl::building_blocks::{cm31, m31, merkle_tree, pow, qm31, sha256, utils};
use stark_dsl::dsl::framework::{DslError, Element, ElementType, Options, DSL};
use stark_dsl::dsl::values::{
    reformat_cm31_from_dsl_element, reformat_cm31_to_dsl_element, reformat_qm31_from_dsl_element,
    reformat_qm31_to_dsl_element,
};
use stark_dsl::dsl::{load_data_types, load_functions};
use stark_dsl::field::cm31::CM31;
use stark_dsl::field::qm31::QM31;

fn ready_dsl() -> DSL {
    let mut dsl = DSL::new();
    load_data_types(&mut dsl).unwrap();
    load_functions(&mut dsl).unwrap();
    dsl
}

#[test]
fn loading_twice_is_refused() {
    let mut dsl = ready_dsl();
    assert_eq!(load_data_types(&mut dsl), Err(DslError::DuplicateDataType));
    assert_eq!(load_functions(&mut dsl), Err(DslError::DuplicateFunction));
    assert_eq!(dsl.add_data_type("m31", ElementType::Num), Err(DslError::DuplicateDataType));
    assert_eq!(dsl.add_data_type("fresh", ElementType::Num), Ok(()));
    let x = dsl.alloc_input("fresh", Element::Num(3)).unwrap();
    assert_eq!(dsl.get_num(x), Ok(3));
}

#[test]
fn allocations_read_back() {
    let mut dsl = ready_dsl();
    let a = dsl.alloc_input("m31", Element::Num(7)).unwrap();
    let b = dsl.alloc_constant("qm31", Element::ManyNum(vec![1, 2, 3, 4])).unwrap();
    let c = dsl.alloc_hint("hash", Element::Str(vec![9; 32])).unwrap();
    assert_eq!((a, b, c), (0, 1, 2));
    assert_eq!(dsl.get_num(a), Ok(7));
    assert_eq!(dsl.get_many_num(b).unwrap(), &[1, 2, 3, 4]);
    assert_eq!(dsl.get_str(c).unwrap(), &[9u8; 32][..]);
    assert_eq!(dsl.input_indices, vec![0]);
    assert_eq!(dsl.hints.len(), 1);
    // later calls leave earlier elements as they were
    dsl.execute("qm31_neg", &[b]).unwrap();
    assert_eq!(dsl.get_num(a), Ok(7));
    assert_eq!(dsl.get_many_num(b).unwrap(), &[1, 2, 3, 4]);
}

#[test]
fn reading_refuses_wrong_shapes_and_indices() {
    let mut dsl = ready_dsl();
    let a = dsl.alloc_input("m31", Element::Num(7)).unwrap();
    let b = dsl.alloc_input("cm31", Element::ManyNum(vec![1, 2])).unwrap();
    assert_eq!(dsl.get_num(b), Err(DslError::WrongElement));
    assert_eq!(dsl.get_many_num(a).err(), Some(DslError::WrongElement));
    assert_eq!(dsl.get_str(a).err(), Some(DslError::WrongElement));
    assert_eq!(dsl.get_num(5), Err(DslError::IndexOutOfRange));
}

#[test]
fn allocation_checks_the_data_type() {
    let mut dsl = ready_dsl();
    assert_eq!(dsl.alloc_input("nothing", Element::Num(1)), Err(DslError::UnknownDataType));
    assert_eq!(dsl.alloc_input("qm31", Element::ManyNum(vec![1, 2])), Err(DslError::WrongElement));
    assert_eq!(dsl.alloc_constant("m31", Element::Str(vec![])), Err(DslError::WrongElement));
    assert_eq!(dsl.alloc_hint("hash", Element::Num(0)), Err(DslError::WrongElement));
    assert!(dsl.memory.is_empty());
    assert!(dsl.input_indices.is_empty());
}

#[test]
fn execute_reports_each_error() {
    let mut dsl = ready_dsl();
    let m = dsl.alloc_input("m31", Element::Num(5)).unwrap();
    let other = dsl.alloc_input("m31", Element::Num(6)).unwrap();
    let q = dsl.alloc_input("qm31", Element::ManyNum(vec![1, 2, 3, 4])).unwrap();
    let too_big = dsl.alloc_input("m31_limbs", Element::ManyNum(vec![0, 0, 0, 255])).unwrap();
    let zero_limbs = dsl.alloc_input("m31_limbs", Element::ManyNum(vec![0, 0, 0, 0])).unwrap();
    let zero_cm31 = dsl.alloc_input("cm31_limbs", Element::ManyNum(vec![0; 8])).unwrap();
    let zero_qm31 = dsl.alloc_input("qm31_limbs", Element::ManyNum(vec![0; 16])).unwrap();
    let table = dsl.execute("push_table", &[]).unwrap()[0];
    let before = dsl.memory.len();

    assert_eq!(dsl.execute("no_such_function", &[m]), Err(DslError::UnknownFunction));
    assert_eq!(dsl.execute("m31_to_limbs", &[m, m]), Err(DslError::WrongNumberOfInputs));
    assert_eq!(dsl.execute("m31_to_limbs", &[q]), Err(DslError::TypeMismatch));
    assert_eq!(dsl.execute("m31_to_limbs", &[100]), Err(DslError::IndexOutOfRange));
    assert_eq!(dsl.execute("m31_limbs_mul", &[table, too_big, zero_limbs]), Err(DslError::MalformedElement));
    assert_eq!(dsl.execute("m31_equalverify", &[m, other]), Err(DslError::EqualverifyFails));
    assert_eq!(dsl.execute("m31_limbs_inverse", &[table, zero_limbs]), Err(DslError::NotInvertible));
    assert_eq!(dsl.execute("cm31_limbs_inverse", &[table, zero_cm31]), Err(DslError::NotInvertible));
    assert_eq!(dsl.execute("qm31_limbs_inverse", &[table, zero_qm31]), Err(DslError::NotInvertible));
    // a refused call leaves the memory as it was
    assert_eq!(dsl.memory.len(), before);
    assert_eq!(dsl.execute("m31_equalverify", &[m, m]), Ok(vec![]));
}

#[test]
fn select_among_eight_needs_a_pick_below_eight() {
    let mut dsl = ready_dsl();
    let hashes: Vec<usize> =
        (0..8u8).map(|i| dsl.alloc_input("hash", Element::Str(vec![i; 32])).unwrap()).collect();
    assert_eq!(dsl.execute("select_among_eight", &hashes), Err(DslError::InvalidOption));
    let opts = Options::new().with_u32("pick", 8);
    assert_eq!(dsl.execute_with_options("select_among_eight", &hashes, &opts), Err(DslError::InvalidOption));
    let opts = Options::new().with_u32("pick", 5);
    let r = dsl.execute_with_options("select_among_eight", &hashes, &opts).unwrap();
    assert_eq!(dsl.get_str(r[0]).unwrap(), &[5u8; 32][..]);
}

#[test]
fn options_give_back_what_was_set() {
    let opts = Options::new().with_u32("a", 1).with_u32("b", 2);
    assert_eq!(opts.get_u32("a"), Ok(1));
    assert_eq!(opts.get_u32("b"), Ok(2));
    assert_eq!(opts.get_u32("c"), Err(DslError::InvalidOption));
}

#[test]
fn mix_digest_needs_two_digests() {
    let mut dsl = ready_dsl();
    let short = dsl.alloc_input("hash", Element::Str(vec![1, 2, 3])).unwrap();
    let full = dsl.alloc_input("hash", Element::Str(vec![0; 32])).unwrap();
    assert_eq!(dsl.execute("mix_digest", &[full, short]), Err(DslError::MalformedElement));
    let r = dsl.execute("mix_digest", &[full, full]).unwrap();
    // the digest differs from both of its inputs
    assert_ne!(dsl.get_str(r[0]).unwrap(), &[0u8; 32][..]);
    assert_eq!(dsl.get_str(r[0]).unwrap().len(), 32);
}

#[test]
fn program_outputs_must_match_the_type() {
    let mut dsl = ready_dsl();
    let a = dsl.alloc_input("m31", Element::Num(7)).unwrap();
    assert_eq!(dsl.set_program_output("qm31", a), Err(DslError::TypeMismatch));
    assert_eq!(dsl.set_program_output("m31", 9), Err(DslError::IndexOutOfRange));
    assert_eq!(dsl.set_program_output("m31", a), Ok(()));
    assert_eq!(dsl.output_indices, vec![a]);
}

#[test]
fn element_layouts() {
    let c = CM31::from_u32_unchecked(5, 6);
    assert_eq!(reformat_cm31_to_dsl_element(c), vec![6, 5]);
    assert_eq!(reformat_cm31_from_dsl_element(&[6, 5]), c);
    let q = QM31::from_u32_unchecked(1, 2, 3, 4);
    assert_eq!(reformat_qm31_to_dsl_element(q), vec![4, 3, 2, 1]);
    assert_eq!(reformat_qm31_from_dsl_element(&[4, 3, 2, 1]), q);
}

#[test]
fn building_blocks_register_on_their_own() {
    let mut dsl = DSL::new();
    load_data_types(&mut dsl).unwrap();
    qm31::load_functions(&mut dsl).unwrap();
    assert_eq!(dsl.functions.len(), 21);
    let names: Vec<&str> = dsl.functions.iter().map(|f| f.0.as_str()).collect();
    assert!(names.contains(&"qm31_limbs_mul"));
    assert!(names.contains(&"qm31_conditional_swap"));
    let swap = dsl.functions.iter().find(|f| f.0 == "qm31_conditional_swap").unwrap();
    assert_eq!(swap.1.input, vec!["qm31", "qm31", "position"]);
    assert_eq!(swap.1.output, vec!["qm31", "qm31"]);
    assert_eq!(qm31::load_functions(&mut dsl), Err(DslError::DuplicateFunction));
    assert_eq!(dsl.functions.len(), 21);
    m31::load_functions(&mut dsl).unwrap();
    cm31::load_functions(&mut dsl).unwrap();
    sha256::load_functions(&mut dsl).unwrap();
    utils::load_functions(&mut dsl).unwrap();
    merkle_tree::load_functions(&mut dsl).unwrap();
    pow::load_functions(&mut dsl).unwrap();
    assert_eq!(dsl.functions.len(), 49);
    let pow_check = dsl.functions.iter().find(|f| f.0 == "verify_pow").unwrap();
    assert_eq!(pow_check.1.input, vec!["hash"]);
    assert_eq!(pow_check.1.output, vec!["hash"]);
    let twin = dsl.functions.iter().find(|f| f.0 == "merkle_twin_tree_4").unwrap();
    assert_eq!(twin.1.input, vec!["hash", "position"]);
    assert_eq!(twin.1.output.len(), 8);
    // the full registration adds the table, then stops at the first name taken
    assert_eq!(load_functions(&mut dsl), Err(DslError::DuplicateFunction));
    assert_eq!(dsl.functions.len(), 50);
    assert_eq!(dsl.functions[49].0, "push_table");
}

#[test]
fn registered_signatures_name_registered_types() {
    let dsl = ready_dsl();
    let types: Vec<&str> = dsl.data_types.iter().map(|t| t.0.as_str()).collect();
    assert_eq!(types.len(), 10);
    for (_, f) in dsl.functions.iter() {
        for name in f.input.iter() {
            let bare = name.strip_prefix('&').unwrap_or(name);
            assert!(types.contains(&bare), "input {}", name);
        }
        for name in f.output.iter() {
            assert!(!name.starts_with('&'), "output {}", name);
            assert!(types.contains(name), "output {}", name);
        }
    }
}

#[test]
fn registered_widths_are_the_produced_lengths() {
    let mut dsl = ready_dsl();
    let width = |dsl: &DSL, name: &str| dsl.data_types.iter().find(|t| t.0 == name).unwrap().1;
    let table = dsl.execute("push_table", &[]).unwrap()[0];
    assert_eq!(width(&dsl, "table"), ElementType::ManyNum(dsl.get_many_num(table).unwrap().len()));
    let q = dsl.alloc_input("qm31", Element::ManyNum(vec![1, 2, 3, 4])).unwrap();
    let limbs = dsl.execute("qm31_to_limbs", &[q]).unwrap()[0];
    assert_eq!(width(&dsl, "qm31_limbs"), ElementType::ManyNum(dsl.get_many_num(limbs).unwrap().len()));
    let first = dsl.execute("qm31_limbs_first", &[limbs]).unwrap()[0];
    assert_eq!(width(&dsl, "cm31_limbs"), ElementType::ManyNum(dsl.get_many_num(first).unwrap().len()));
    let half = dsl.execute("qm31_first", &[q]).unwrap()[0];
    assert_eq!(width(&dsl, "cm31"), ElementType::ManyNum(dsl.get_many_num(half).unwrap().len()));
    assert_eq!(width(&dsl, "qm31"), ElementType::ManyNum(4));
    assert_eq!(width(&dsl, "m31_limbs"), ElementType::ManyNum(4));
}
