use stark_dsl::dsl::building_blocks::m31::{m31_equalverify_gadget, m31_to_limbs_gadget};
use stark_dsl::limbs::DecomposeGadget;
use stark_dsl::dsl::building_blocks::table::push_table_gadget;
use stark_dsl::dsl::framework::{Element, MemoryEntry};
use stark_dsl::dsl::witness::hints_witness;
use stark_dsl::script::{Script, OP_EQUALVERIFY};
use stark_dsl::table::{generate_table, get_table};

#[test]
fn numbers_are_pushed_minimally() {
    let cases: Vec<(i64, Vec<u8>)> = vec![
        (0, vec![0x00]),
        (-1, vec![0x4f]),
        (1, vec![0x51]),
        (16, vec![0x60]),
        (17, vec![0x01, 0x11]),
        (127, vec![0x01, 0x7f]),
        (128, vec![0x02, 0x80, 0x00]),
        (1000, vec![0x02, 0xe8, 0x03]),
        (40000, vec![0x03, 0x40, 0x9c, 0x00]),
        (8388607, vec![0x03, 0xff, 0xff, 0x7f]),
    ];
    for (n, bytes) in cases {
        let mut s = Script::new();
        s.push_int(n);
        assert_eq!(s.as_bytes(), bytes.as_slice(), "push of {}", n);
    }
}

#[test]
fn negative_and_wide_numbers_carry_their_sign_in_the_top_byte() {
    let cases: Vec<(i64, Vec<u8>)> = vec![
        (-2, vec![0x01, 0x82]),
        (-17, vec![0x01, 0x91]),
        (-127, vec![0x01, 0xff]),
        (-128, vec![0x02, 0x80, 0x80]),
        (-255, vec![0x02, 0xff, 0x80]),
        (-1000, vec![0x02, 0xe8, 0x83]),
        (8388608, vec![0x04, 0x00, 0x00, 0x80, 0x00]),
        (2147483647, vec![0x04, 0xff, 0xff, 0xff, 0x7f]),
        (-2147483648, vec![0x05, 0x00, 0x00, 0x00, 0x80, 0x80]),
        (
            i64::MAX,
            vec![0x08, 0xff, 0xff, 0xff, 0xff, 0xff, 0xff, 0xff, 0x7f],
        ),
        (
            i64::MIN + 1,
            vec![0x08, 0xff, 0xff, 0xff, 0xff, 0xff, 0xff, 0xff, 0xff],
        ),
    ];
    for (n, bytes) in cases {
        let mut s = Script::new();
        s.push_int(n);
        assert_eq!(s.as_bytes(), bytes.as_slice(), "push of {}", n);
    }
}

#[test]
fn scripts_concatenate() {
    let mut a = Script::new();
    a.push_opcode(OP_EQUALVERIFY);
    let mut b = Script::new();
    b.push_int(5);
    b.append(&a);
    assert_eq!(b.as_bytes(), &[0x55, 0x88]);
    assert_eq!(b.len(), 2);
}

#[test]
fn gadgets_are_scripts() {
    assert_eq!(m31_equalverify_gadget(&[]).unwrap().as_bytes(), &[OP_EQUALVERIFY]);
    assert!(m31_to_limbs_gadget(&[]).unwrap().len() > 0);
}

fn times_256() -> Vec<u8> {
    [0x76u8, 0x93].repeat(8)
}

#[test]
fn recompose_scripts_check_and_join_the_limbs() {
    let below_128 = vec![0x76, 0x02, 0x80, 0x00, 0x9f, 0x69];
    let below_256 = vec![0x76, 0x02, 0x00, 0x01, 0x9f, 0x69];
    let mut expected = below_128.clone();
    for _ in 0..3 {
        expected.extend(times_256());
        expected.push(0x7c);
        expected.extend(below_256.clone());
        expected.push(0x93);
    }
    let m31 = DecomposeGadget::recompose_m31();
    assert_eq!(m31.as_bytes(), expected.as_slice());
    let mut cm31 = expected.clone();
    cm31.push(0x6b);
    cm31.extend(expected);
    cm31.extend([0x6c, 0x7c]);
    assert_eq!(DecomposeGadget::recompose_cm31().as_bytes(), cm31.as_slice());
}

#[test]
fn decompose_and_recompose_gadgets() {
    let g = stark_dsl::dsl::building_blocks::cm31::cm31_recompose_gadget(&[]).unwrap();
    assert_eq!(g.as_bytes(), DecomposeGadget::recompose_cm31().as_bytes());
    // the position decomposition takes a hint (OP_DEPTH OP_1SUB OP_ROLL) and
    // checks it against 0..=3: OP_DUP 0 OP_GREATERTHANOREQUAL OP_VERIFY OP_DUP 3
    // OP_LESSTHANOREQUAL OP_VERIFY
    let d = stark_dsl::dsl::building_blocks::utils::decompose_positions_to_5_gadget(&[]).unwrap();
    assert_eq!(
        &d.as_bytes()[0..11],
        &[0x74, 0x8c, 0x7a, 0x76, 0x00, 0xa2, 0x69, 0x76, 0x53, 0xa1, 0x69]
    );
}

#[test]
fn recompose_qm31_joins_two_complex_recompositions() {
    let c = DecomposeGadget::recompose_cm31();
    let mut expected = c.as_bytes().to_vec();
    expected.extend([0x6b, 0x6b]);
    expected.extend(c.as_bytes());
    expected.extend([0x6c, 0x6c, 0x72]);
    assert_eq!(DecomposeGadget::recompose_qm31().as_bytes(), expected.as_slice());
}

#[test]
fn hints_become_minimal_witness_items() {
    let hints = vec![
        MemoryEntry::new("m31", Element::Num(0)),
        MemoryEntry::new("m31", Element::Num(-1)),
        MemoryEntry::new("cm31", Element::ManyNum(vec![128, 5])),
        MemoryEntry::new("internal", Element::Str(vec![1, 2])),
        MemoryEntry::new("m31", Element::Num(2147483646)),
    ];
    let w = hints_witness(&hints);
    let expected: Vec<Vec<u8>> = vec![
        vec![],
        vec![0x81],
        vec![0x80, 0x00],
        vec![0x05],
        vec![1, 2],
        vec![0xfe, 0xff, 0xff, 0x7f],
    ];
    assert_eq!(w, expected);
}

#[test]
fn any_table_pushes_its_entries_last_first() {
    let small = generate_table::<2>();
    assert_eq!(small.data, vec![0, 0, 1, 2, 4]);
    assert_eq!(small.push_script().as_bytes(), &[0x54, 0x52, 0x51, 0x00, 0x00]);
    let full = get_table();
    let gadget = push_table_gadget(&[]).unwrap();
    assert_eq!(full.push_script().as_bytes(), gadget.as_bytes());
}
