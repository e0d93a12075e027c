use stark_dsl::dsl::building_blocks::merkle_tree::{
    merkle_twin_tree_position, query_and_verify_merkle_twin_tree, query_and_verify_precomputed_merkle_tree,
    query_and_verify_raw_merkle_tree, raw_merkle_tree_position,
};
use stark_dsl::dsl::framework::{DslError, Element, MemoryEntry, Options, DSL};
use stark_dsl::dsl::{load_data_types, load_functions};

const P: u32 = 2147483647;

fn ready_dsl() -> DSL {
    let mut dsl = DSL::new();
    load_data_types(&mut dsl).unwrap();
    load_functions(&mut dsl).unwrap();
    dsl
}

fn num(e: &MemoryEntry) -> i32 {
    match &e.data {
        Element::Num(v) => *v,
        _ => panic!("not a number"),
    }
}

fn bytes(e: &MemoryEntry) -> Vec<u8> {
    match &e.data {
        Element::Str(v) => v.clone(),
        _ => panic!("not a byte string"),
    }
}

#[test]
fn twin_tree_positions_round_down_to_even() {
    assert_eq!(merkle_twin_tree_position(5), 4);
    assert_eq!(merkle_twin_tree_position(4), 4);
    assert_eq!(merkle_twin_tree_position(0), 0);
    assert_eq!(merkle_twin_tree_position(-3), -3);
    assert_eq!(raw_merkle_tree_position(13, 2), 3);
}

#[test]
fn twin_tree_query_gives_the_leaves_and_the_path() {
    let mut dsl = ready_dsl();
    let root = dsl.alloc_input("hash", Element::Str(vec![0; 32])).unwrap();
    let pos = dsl.alloc_input("position", Element::Num(3)).unwrap();
    let options = Options::new()
        .with_multi_u32("left", vec![1, 2])
        .with_multi_u32("right", vec![3, 4])
        .with_multi_binary("path", vec![vec![7; 32], vec![8; 32]]);
    let out = query_and_verify_merkle_twin_tree(&mut dsl, &[root, pos], &options, 2, true).unwrap();
    assert_eq!(out.new_elements.iter().map(num).collect::<Vec<_>>(), vec![1, 2, 3, 4]);
    assert!(out.new_elements.iter().all(|e| e.data_type == "m31"));
    assert_eq!(out.new_hints.len(), 6);
    assert_eq!(out.new_hints[..4].iter().map(num).collect::<Vec<_>>(), vec![1, 2, 3, 4]);
    assert_eq!(bytes(&out.new_hints[4]), vec![7; 32]);
    assert_eq!(bytes(&out.new_hints[5]), vec![8; 32]);
    assert_eq!(out.new_hints[5].data_type, "internal");

    assert_eq!(
        query_and_verify_merkle_twin_tree(&mut dsl, &[root, pos], &options, 2, false).err(),
        Some(DslError::InvalidProof)
    );
    assert_eq!(
        query_and_verify_merkle_twin_tree(&mut dsl, &[root, pos], &options, 4, true).err(),
        Some(DslError::MalformedElement)
    );
    let missing = Options::new().with_multi_u32("left", vec![1]);
    assert_eq!(
        query_and_verify_merkle_twin_tree(&mut dsl, &[root, pos], &missing, 1, true).err(),
        Some(DslError::InvalidOption)
    );
    assert_eq!(
        query_and_verify_merkle_twin_tree(&mut dsl, &[pos, pos], &options, 2, true).err(),
        Some(DslError::WrongElement)
    );
}

#[test]
fn raw_tree_query_checks_the_path_length() {
    let mut dsl = ready_dsl();
    let root = dsl.alloc_input("hash", Element::Str(vec![0; 32])).unwrap();
    let leaf = dsl.alloc_input("hash", Element::Str(vec![1; 32])).unwrap();
    let pos = dsl.alloc_input("position", Element::Num(13)).unwrap();
    let path = vec![vec![2; 32], vec![3; 32], vec![4; 32]];
    let options = Options::new().with_multi_binary("path", path.clone()).with_u32("logn", 4).with_u32("shift", 1);
    let out = query_and_verify_raw_merkle_tree(&mut dsl, &[root, leaf, pos], &options, true).unwrap();
    assert!(out.new_elements.is_empty());
    assert_eq!(out.new_hints.iter().map(bytes).collect::<Vec<_>>(), path);

    let no_shift = Options::new().with_multi_binary("path", path.clone()).with_u32("logn", 4).with_u32("shift", 0);
    assert_eq!(
        query_and_verify_raw_merkle_tree(&mut dsl, &[root, leaf, pos], &no_shift, true).err(),
        Some(DslError::InvalidOption)
    );
    let too_long = Options::new().with_multi_binary("path", path).with_u32("logn", 4).with_u32("shift", 2);
    assert_eq!(
        query_and_verify_raw_merkle_tree(&mut dsl, &[root, leaf, pos], &too_long, true).err(),
        Some(DslError::MalformedElement)
    );
    assert_eq!(
        query_and_verify_raw_merkle_tree(&mut dsl, &[root, leaf, pos], &options, false).err(),
        Some(DslError::InvalidProof)
    );
}

#[test]
fn precomputed_tree_query_orders_its_hints() {
    let mut dsl = ready_dsl();
    let pos = dsl.alloc_input("position", Element::Num(6)).unwrap();
    let options = Options::new()
        .with_binary("root_hash", vec![9; 32])
        .with_u32("circle_point_x", 10)
        .with_u32("circle_point_y", 11)
        .with_multi_u32("twiddles", vec![P + 3, 7, 8])
        .with_multi_binary("siblings", vec![vec![1; 32], vec![2; 32], vec![3; 32]]);
    let out = query_and_verify_precomputed_merkle_tree(&mut dsl, &[pos], &options, 3, true).unwrap();
    assert_eq!(
        out.new_elements.iter().map(num).collect::<Vec<_>>(),
        vec![(P + 3) as i32, 7, 8, 10, 11]
    );
    let h = &out.new_hints;
    assert_eq!(h.len(), 8);
    assert_eq!((num(&h[0]), num(&h[1]), num(&h[2])), (10, 11, 8));
    assert_eq!(num(&h[3]), 7);
    assert_eq!(bytes(&h[4]), vec![1; 32]);
    assert_eq!(num(&h[5]), 3);
    assert_eq!(bytes(&h[6]), vec![2; 32]);
    assert_eq!(bytes(&h[7]), vec![3; 32]);

    assert_eq!(
        query_and_verify_precomputed_merkle_tree(&mut dsl, &[pos], &options, 2, true).err(),
        Some(DslError::MalformedElement)
    );
    assert_eq!(
        query_and_verify_precomputed_merkle_tree(&mut dsl, &[pos], &options, 3, false).err(),
        Some(DslError::InvalidProof)
    );
    assert_eq!(
        query_and_verify_precomputed_merkle_tree(&mut dsl, &[pos], &Options::new(), 3, true).err(),
        Some(DslError::InvalidOption)
    );
}

fn twin_tree_test(n: usize, name: &str) {
    let logn = 5;
    let left: Vec<u32> = (0..n as u32).map(|k| 1000 + k).collect();
    let right: Vec<u32> = (0..n as u32).map(|k| 2000 + k).collect();
    let path: Vec<Vec<u8>> = (0..(logn - 1) as u8).map(|k| vec![k; 32]).collect();

    let mut dsl = ready_dsl();
    let root = dsl.alloc_input("hash", Element::Str(vec![7; 32])).unwrap();
    let pos = dsl.alloc_input("position", Element::Num(6)).unwrap();
    let options = Options::new()
        .with_multi_u32("left", left.clone())
        .with_multi_u32("right", right.clone())
        .with_multi_binary("path", path.clone())
        .with_u32("proof_is_valid", 1);
    let hints_before = dsl.hints.len();
    let res = dsl.execute_with_options(name, &[root, pos], &options).unwrap();
    assert_eq!(res.len(), 2 * n);
    for (&idx, expected) in res.iter().zip(left.iter().chain(right.iter())) {
        assert_eq!(dsl.get_num(idx).unwrap(), *expected as i32);
    }
    // the leaf values, then the path, are hints
    assert_eq!(dsl.hints.len(), hints_before + 2 * n + path.len());
    for &idx in res.iter() {
        dsl.set_program_output("m31", idx).unwrap();
    }

    // without a verdict of a valid proof, the query is refused
    let no_verdict = Options::new()
        .with_multi_u32("left", left.clone())
        .with_multi_u32("right", right.clone())
        .with_multi_binary("path", path.clone());
    assert_eq!(dsl.execute_with_options(name, &[root, pos], &no_verdict).err(), Some(DslError::InvalidProof));
}

#[test]
fn test_merkle_twin_tree_4() {
    twin_tree_test(4, "merkle_twin_tree_4");
}

#[test]
fn test_merkle_twin_tree_1() {
    twin_tree_test(1, "merkle_twin_tree_1");
}

#[test]
fn test_merkle_tree() {
    for (raw_position, logn, shift) in [(100, 12, 1), (200, 13, 2)] {
        let path: Vec<Vec<u8>> = (0..(logn - shift) as u8).map(|k| vec![k; 32]).collect();
        let mut dsl = ready_dsl();
        let root = dsl.alloc_input("hash", Element::Str(vec![7; 32])).unwrap();
        let leaf = dsl.alloc_input("hash", Element::Str(vec![8; 32])).unwrap();
        let pos = dsl.alloc_input("position", Element::Num(raw_position)).unwrap();
        let options = Options::new()
            .with_multi_binary("path", path.clone())
            .with_u32("logn", logn)
            .with_u32("shift", shift)
            .with_u32("proof_is_valid", 1);
        let hints_before = dsl.hints.len();
        let res = dsl.execute_with_options("raw_merkle_tree", &[root, leaf, pos], &options).unwrap();
        assert!(res.is_empty());
        assert_eq!(dsl.hints.len(), hints_before + path.len());
        assert_eq!(raw_merkle_tree_position(raw_position, shift), 50);
    }
    // a shift of 0 is refused, and so is a shift beyond logn
    let mut dsl = ready_dsl();
    let root = dsl.alloc_input("hash", Element::Str(vec![7; 32])).unwrap();
    let leaf = dsl.alloc_input("hash", Element::Str(vec![8; 32])).unwrap();
    let pos = dsl.alloc_input("position", Element::Num(100)).unwrap();
    let zero_shift = Options::new()
        .with_multi_binary("path", vec![])
        .with_u32("logn", 12)
        .with_u32("shift", 0)
        .with_u32("proof_is_valid", 1);
    assert_eq!(dsl.execute_with_options("raw_merkle_tree", &[root, leaf, pos], &zero_shift).err(), Some(DslError::InvalidOption));
    let too_far = Options::new()
        .with_multi_binary("path", vec![])
        .with_u32("logn", 2)
        .with_u32("shift", 3)
        .with_u32("proof_is_valid", 1);
    assert_eq!(dsl.execute_with_options("raw_merkle_tree", &[root, leaf, pos], &too_far).err(), Some(DslError::InvalidOption));
}

#[test]
fn test_precomputed_merkle_tree() {
    for n in [14usize, 15] {
        let name = if n == 14 { "precomputed_merkle_tree_14" } else { "precomputed_merkle_tree_15" };
        let twiddles: Vec<u32> = (0..n as u32).map(|k| 300 + k).collect();
        let siblings: Vec<Vec<u8>> = (0..n as u8).map(|k| vec![k; 32]).collect();
        let mut dsl = ready_dsl();
        let pos = dsl.alloc_input("position", Element::Num(9)).unwrap();
        let options = Options::new()
            .with_binary("root_hash", vec![5; 32])
            .with_u32("circle_point_x", 10)
            .with_u32("circle_point_y", 11)
            .with_multi_u32("twiddles", twiddles.clone())
            .with_multi_binary("siblings", siblings.clone())
            .with_u32("proof_is_valid", 1);
        let hints_before = dsl.hints.len();
        let res = dsl.execute_with_options(name, &[pos], &options).unwrap();
        assert_eq!(res.len(), n + 2);
        for k in 0..n {
            assert_eq!(dsl.get_num(res[k]).unwrap(), twiddles[k] as i32);
        }
        assert_eq!(dsl.get_num(res[n]).unwrap(), 10);
        assert_eq!(dsl.get_num(res[n + 1]).unwrap(), 11);
        assert_eq!(dsl.hints.len(), hints_before + 3 + 2 * (n - 1) + 1);

        // a sibling that is not a 32-byte digest is refused
        let mut short = siblings.clone();
        short[3] = vec![1; 31];
        let bad = Options::new()
            .with_binary("root_hash", vec![5; 32])
            .with_u32("circle_point_x", 10)
            .with_u32("circle_point_y", 11)
            .with_multi_u32("twiddles", twiddles.clone())
            .with_multi_binary("siblings", short)
            .with_u32("proof_is_valid", 1);
        assert_eq!(dsl.execute_with_options(name, &[pos], &bad).err(), Some(DslError::MalformedElement));
    }
}

#[test]
fn doubled_position_with_a_larger_shift_picks_the_same_leaf() {
    for (p, shift) in [(100i32, 1u32), (7, 3), (12345, 5), (0x3fff_ffff, 30)] {
        assert_eq!(
            raw_merkle_tree_position(2 * p, shift + 1),
            raw_merkle_tree_position(p, shift),
        );
    }
    assert_eq!(raw_merkle_tree_position(100, 1), 50);
    assert_eq!(raw_merkle_tree_position(200, 2), 50);
}
