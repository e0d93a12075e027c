pub mod building_blocks;
pub mod framework;
pub mod compose;
pub mod fiat_shamir;
pub mod fold;
pub mod point;
pub mod prepare;
pub mod quotients;
pub mod runner;
pub mod values;
pub mod constraints;
pub mod random_point;
pub mod m31;
pub mod qm31;
pub mod witness;

use crate::dsl::framework::{
    has_name, DslError, ElementType, FunctionMetadata, Result, TraceGenerator, DSL,
};
use crate::dsl::framework::first_named;
use crate::dsl::runner::type_names;
use vstd::prelude::*;

verus! {

/// The data types that every program registers, in order.
pub open spec fn standard_data_types() -> Seq<(Seq<char>, ElementType)> {
    seq![
        ("table"@, ElementType::ManyNum(513)),
        ("m31_limbs"@, ElementType::ManyNum(4)),
        ("cm31_limbs"@, ElementType::ManyNum(8)),
        ("qm31_limbs"@, ElementType::ManyNum(16)),
        ("m31"@, ElementType::Num),
        ("cm31"@, ElementType::ManyNum(2)),
        ("qm31"@, ElementType::ManyNum(4)),
        ("hash"@, ElementType::Str),
        ("position"@, ElementType::Num),
        ("internal"@, ElementType::Str),
    ]
}

/// The widths registered for the data types are the lengths that the
/// functions produce: the table has as many entries as the multiplication
/// table, the limb types hold four bytes per base-field number, and the two
/// extension types two and four numbers.
pub proof fn lemma_data_type_widths()
    ensures
        standard_data_types()[0].1 == ElementType::ManyNum(
            crate::dsl::building_blocks::table::table_elem().len() as usize,
        ),
        forall|v: int|
            standard_data_types()[1].1 == ElementType::ManyNum(
                (#[trigger] crate::limbs::m31_limbs(v)).len() as usize,
            ),
        forall|c: crate::field::cm31::CM31|
            standard_data_types()[2].1 == ElementType::ManyNum(
                (#[trigger] crate::limbs::cm31_limbs(c)).len() as usize,
            ),
        forall|q: crate::field::qm31::QM31|
            standard_data_types()[3].1 == ElementType::ManyNum(
                (#[trigger] crate::limbs::qm31_limbs(q)).len() as usize,
            ),
        forall|c: crate::field::cm31::CM31|
            standard_data_types()[5].1 == ElementType::ManyNum(
                (#[trigger] crate::dsl::values::cm31_elem(c)).len() as usize,
            ),
        forall|q: crate::field::qm31::QM31|
            standard_data_types()[6].1 == ElementType::ManyNum(
                (#[trigger] crate::dsl::values::qm31_elem(q)).len() as usize,
            ),
{
}

/// The data types of `dsl` are those of `old` followed by the standard ones.
pub open spec fn data_types_extended(dsl: &DSL, old: &DSL) -> bool {
    let n = old.data_types@.len();
    let std = standard_data_types();
    &&& dsl.data_types@.len() == n + std.len()
    &&& dsl.data_types@.subrange(0, n as int) == old.data_types@
    &&& forall|k: int|
        0 <= k < std.len() ==> (#[trigger] dsl.data_types@[n + k]).0@ == std[k].0
            && dsl.data_types@[n + k].1 == std[k].1
}

/// The names of the entries are pairwise different.
pub open spec fn names_distinct<T>(s: Seq<(Seq<char>, T)>) -> bool {
    forall|i: int, j: int| 0 <= i < j < s.len() ==> #[trigger] s[i].0 != #[trigger] s[j].0
}

proof fn lemma_standard_data_types_distinct()
    ensures
        names_distinct(standard_data_types()),
{
    reveal_strlit("table");
    reveal_strlit("m31_limbs");
    reveal_strlit("cm31_limbs");
    reveal_strlit("qm31_limbs");
    reveal_strlit("m31");
    reveal_strlit("cm31");
    reveal_strlit("qm31");
    reveal_strlit("hash");
    reveal_strlit("position");
    reveal_strlit("internal");
    let s = standard_data_types();
    assert forall|i: int, j: int| 0 <= i < j < s.len() implies #[trigger] s[i].0 != #[trigger] s[j].0 by {
        if s[i].0 == s[j].0 {
            assert(s[i].0.len() == s[j].0.len());
            assert(s[i].0[0] == s[j].0[0]);
            assert(s[i].0[1] == s[j].0[1]);
        }
    }
}

/// Every standard data type is registered, as the first data type of its
/// name.
#[verifier::opaque]
pub open spec fn data_types_ready(data_types: Seq<(String, ElementType)>) -> bool {
    forall|k: int| 0 <= k < standard_data_types().len() ==> #[trigger] standard_type_registered(data_types, k)
}

/// Standard data type `k` is registered as the first data type of its name.
pub open spec fn standard_type_registered(data_types: Seq<(String, ElementType)>, k: int) -> bool {
    exists|i: int|
        first_named(data_types, standard_data_types()[k].0, i) && (#[trigger] data_types[i]).1
            == standard_data_types()[k].1
}

proof fn lemma_data_types_extended_ready(dsl: &DSL, old: &DSL)
    requires
        data_types_extended(dsl, old),
        forall|k: int|
            0 <= k < standard_data_types().len() ==> !has_name(
                old.data_types@,
                #[trigger] standard_data_types()[k].0,
            ),
    ensures
        data_types_ready(dsl.data_types@),
{
    reveal(data_types_ready);
    lemma_standard_data_types_distinct();
    let std = standard_data_types();
    let n = old.data_types@.len();
    let f = dsl.data_types@;
    assert forall|k: int| 0 <= k < std.len() implies #[trigger] standard_type_registered(f, k) by {
        assert(f[n + k].0@ == std[k].0 && f[n + k].1 == std[k].1);
        assert forall|j: int| 0 <= j < n + k implies #[trigger] f[j].0@ != std[k].0 by {
            if j < n {
                assert(f.subrange(0, n as int)[j] == f[j]);
                if f[j].0@ == std[k].0 {
                    assert(old.data_types@[j].0@ == std[k].0);
                    assert(has_name(old.data_types@, std[k].0));
                }
            } else {
                assert(f[n + (j - n)].0@ == std[j - n].0);
                assert(std[j - n].0 != std[k].0);
            }
        }
        assert(first_named(f, std[k].0, n + k));
    }
}

/// Registers the data types of the building blocks: the multiplication table,
/// limbs of the three fields, the three fields, hashes, positions and internal
/// byte strings.
pub fn load_data_types(dsl: &mut DSL) -> (r: Result<()>)
    ensures
        r is Ok <==> forall|k: int|
            0 <= k < standard_data_types().len() ==> !has_name(
                old(dsl).data_types@,
                #[trigger] standard_data_types()[k].0,
            ),
        r matches Err(e) ==> e == DslError::DuplicateDataType,
        r is Ok ==> data_types_extended(final(dsl), old(dsl)),
        r is Ok ==> data_types_ready(final(dsl).data_types@),
        final(dsl).functions@ == old(dsl).functions@,
        final(dsl).memory@ == old(dsl).memory@,
        final(dsl).hints@ == old(dsl).hints@,
        final(dsl).input_indices@ == old(dsl).input_indices@,
        final(dsl).output_indices@ == old(dsl).output_indices@,
{
    proof {
        assert(1usize << 9 == 512) by (bit_vector);
        lemma_standard_data_types_distinct();
    }
    let names: [&str; 10] = [
        "table",
        "m31_limbs",
        "cm31_limbs",
        "qm31_limbs",
        "m31",
        "cm31",
        "qm31",
        "hash",
        "position",
        "internal",
    ];
    let types: [ElementType; 10] = [
        ElementType::ManyNum((1 << 9) + 1),
        ElementType::ManyNum(4),
        ElementType::ManyNum(8),
        ElementType::ManyNum(16),
        ElementType::Num,
        ElementType::ManyNum(2),
        ElementType::ManyNum(4),
        ElementType::Str,
        ElementType::Num,
        ElementType::Str,
    ];
    let ghost std = standard_data_types();
    assert(forall|k: int| 0 <= k < 10 ==> #[trigger] names@[k]@ == std[k].0 && types@[k] == std[k].1);
    let ghost n = old(dsl).data_types@.len();
    let mut i: usize = 0;
    while i < 10
        invariant
            0 <= i <= 10,
            std == standard_data_types(),
            names_distinct(std),
            forall|k: int| 0 <= k < 10 ==> #[trigger] names@[k]@ == std[k].0 && types@[k] == std[k].1,
            n == old(dsl).data_types@.len(),
            dsl.data_types@.len() == n + i,
            dsl.data_types@.subrange(0, n as int) == old(dsl).data_types@,
            forall|k: int|
                0 <= k < i ==> (#[trigger] dsl.data_types@[n + k]).0@ == std[k].0
                    && dsl.data_types@[n + k].1 == std[k].1,
            forall|k: int| 0 <= k < i ==> !has_name(old(dsl).data_types@, #[trigger] std[k].0),
            dsl.functions@ == old(dsl).functions@,
            dsl.memory@ == old(dsl).memory@,
            dsl.hints@ == old(dsl).hints@,
            dsl.input_indices@ == old(dsl).input_indices@,
            dsl.output_indices@ == old(dsl).output_indices@,
        decreases 10 - i,
    {
        let ghost before = dsl.data_types@;
        let res = dsl.add_data_type(names[i], types[i]);
        match res {
            Err(e) => {
                proof {
                    let w = choose|j: int| 0 <= j < before.len() && #[trigger] before[j].0@ == std[i as int].0;
                    if w >= n {
                        let k = w - n;
                        assert(before[n + k].0@ == std[k].0);
                        assert(std[k].0 != std[i as int].0);
                    } else {
                        assert(before.subrange(0, n as int)[w] == before[w]);
                        assert(has_name(old(dsl).data_types@, std[i as int].0));
                    }
                }
                return Err(e);
            },
            Ok(()) => {
                proof {
                    assert(!has_name(old(dsl).data_types@, std[i as int].0)) by {
                        if has_name(old(dsl).data_types@, std[i as int].0) {
                            let w = choose|j: int| 0 <= j < n && #[trigger] old(dsl).data_types@[j].0@ == std[i as int].0;
                            assert(before.subrange(0, n as int)[w] == before[w]);
                        }
                    }
                    assert(dsl.data_types@.subrange(0, n as int) =~= old(dsl).data_types@) by {
                        assert forall|j: int| 0 <= j < n implies dsl.data_types@[j] == old(dsl).data_types@[j] by {
                            assert(before.subrange(0, n as int)[j] == before[j]);
                        }
                    }
                }
            },
        }
        i = i + 1;
    }
    proof {
        lemma_data_types_extended_ready(dsl, old(dsl));
    }
    Ok(())
}

} // verus!

verus! {

/// The functions that every program registers, in order: their names, their
/// generators, and the names of the data types of their inputs and outputs.
pub open spec fn standard_functions() -> Seq<(Seq<char>, TraceGenerator, Seq<Seq<char>>, Seq<Seq<char>>)> {
    seq![
        ("push_table"@, TraceGenerator::PushTable, seq![], seq!["table"@]),
        ("m31_to_limbs"@, TraceGenerator::M31ToLimbs, seq!["m31"@], seq!["m31_limbs"@]),
        ("m31_limbs_equalverify"@, TraceGenerator::M31LimbsEqualverify, seq!["m31_limbs"@, "m31_limbs"@], seq![]),
        ("m31_limbs_mul"@, TraceGenerator::M31LimbsMul, seq!["&table"@, "m31_limbs"@, "m31_limbs"@], seq!["m31"@]),
        ("m31_limbs_inverse"@, TraceGenerator::M31LimbsInverse, seq!["&table"@, "m31_limbs"@], seq!["m31_limbs"@]),
        ("m31_equalverify"@, TraceGenerator::M31Equalverify, seq!["m31"@, "m31"@], seq![]),
        ("cm31_to_limbs"@, TraceGenerator::Cm31ToLimbs, seq!["cm31"@], seq!["cm31_limbs"@]),
        ("cm31_limbs_equalverify"@, TraceGenerator::Cm31LimbsEqualverify, seq!["cm31_limbs"@, "cm31_limbs"@], seq![]),
        ("cm31_limbs_mul"@, TraceGenerator::Cm31LimbsMul, seq!["&table"@, "cm31_limbs"@, "cm31_limbs"@], seq!["cm31"@]),
        ("cm31_limbs_inverse"@, TraceGenerator::Cm31LimbsInverse, seq!["&table"@, "cm31_limbs"@], seq!["cm31_limbs"@]),
        ("cm31_recompose"@, TraceGenerator::Cm31Recompose, seq!["cm31_limbs"@], seq!["cm31"@]),
        ("cm31_equalverify"@, TraceGenerator::Cm31Equalverify, seq!["cm31"@, "cm31"@], seq![]),
        ("cm31_add"@, TraceGenerator::Cm31Add, seq!["cm31"@, "cm31"@], seq!["cm31"@]),
        ("cm31_add_m31"@, TraceGenerator::Cm31AddM31, seq!["cm31"@, "m31"@], seq!["cm31"@]),
        ("cm31_sub"@, TraceGenerator::Cm31Sub, seq!["cm31"@, "cm31"@], seq!["cm31"@]),
        ("cm31_limbs_real"@, TraceGenerator::Cm31LimbsReal, seq!["&cm31_limbs"@], seq!["m31_limbs"@]),
        ("cm31_limbs_imag"@, TraceGenerator::Cm31LimbsImag, seq!["&cm31_limbs"@], seq!["m31_limbs"@]),
        ("cm31_real"@, TraceGenerator::Cm31Real, seq!["&cm31"@], seq!["m31"@]),
        ("cm31_imag"@, TraceGenerator::Cm31Imag, seq!["&cm31"@], seq!["m31"@]),
        ("cm31_from_real_and_imag"@, TraceGenerator::Cm31FromRealAndImag, seq!["m31"@, "m31"@], seq!["cm31"@]),
        ("qm31_to_limbs"@, TraceGenerator::Qm31ToLimbs, seq!["qm31"@], seq!["qm31_limbs"@]),
        ("qm31_limbs_equalverify"@, TraceGenerator::Qm31LimbsEqualverify, seq!["qm31_limbs"@, "qm31_limbs"@], seq![]),
        ("qm31_limbs_mul"@, TraceGenerator::Qm31LimbsMul, seq!["&table"@, "qm31_limbs"@, "qm31_limbs"@], seq!["qm31"@]),
        ("qm31_limbs_first"@, TraceGenerator::Qm31LimbsFirst, seq!["&qm31_limbs"@], seq!["cm31_limbs"@]),
        ("qm31_limbs_second"@, TraceGenerator::Qm31LimbsSecond, seq!["&qm31_limbs"@], seq!["cm31_limbs"@]),
        ("qm31_equalverify"@, TraceGenerator::Qm31Equalverify, seq!["qm31"@, "qm31"@], seq![]),
        ("qm31_first"@, TraceGenerator::Qm31First, seq!["&qm31"@], seq!["cm31"@]),
        ("qm31_second"@, TraceGenerator::Qm31Second, seq!["&qm31"@], seq!["cm31"@]),
        ("qm31_1add"@, TraceGenerator::Qm31OneAdd, seq!["qm31"@], seq!["qm31"@]),
        ("qm31_1sub"@, TraceGenerator::Qm31OneSub, seq!["qm31"@], seq!["qm31"@]),
        ("qm31_neg"@, TraceGenerator::Qm31Neg, seq!["qm31"@], seq!["qm31"@]),
        ("qm31_add"@, TraceGenerator::Qm31Add, seq!["qm31"@, "qm31"@], seq!["qm31"@]),
        ("qm31_sub"@, TraceGenerator::Qm31Sub, seq!["qm31"@, "qm31"@], seq!["qm31"@]),
        ("qm31_from_first_and_second"@, TraceGenerator::Qm31FromFirstAndSecond, seq!["cm31"@, "cm31"@], seq!["qm31"@]),
        ("qm31_add_cm31"@, TraceGenerator::Qm31AddCm31, seq!["qm31"@, "cm31"@], seq!["qm31"@]),
        ("qm31_add_m31"@, TraceGenerator::Qm31AddM31, seq!["qm31"@, "m31"@], seq!["qm31"@]),
        ("qm31_shift_by_i"@, TraceGenerator::Qm31ShiftByI, seq!["qm31"@], seq!["qm31"@]),
        ("qm31_shift_by_j"@, TraceGenerator::Qm31ShiftByJ, seq!["qm31"@], seq!["qm31"@]),
        ("qm31_shift_by_ij"@, TraceGenerator::Qm31ShiftByIj, seq!["qm31"@], seq!["qm31"@]),
        ("qm31_limbs_inverse"@, TraceGenerator::Qm31LimbsInverse, seq!["&table"@, "qm31_limbs"@], seq!["qm31_limbs"@]),
        ("qm31_conditional_swap"@, TraceGenerator::Qm31ConditionalSwap, seq!["qm31"@, "qm31"@, "position"@], seq!["qm31"@, "qm31"@]),
        ("mix_digest"@, TraceGenerator::MixDigest, seq!["hash"@, "hash"@], seq!["hash"@]),
        ("decompose_positions_to_5"@, TraceGenerator::DecomposePositionsTo5, seq!["position"@], seq!["position"@, "position"@, "position"@, "position"@, "position"@]),
        ("select_among_eight"@, TraceGenerator::SelectAmongEight, seq!["hash"@, "hash"@, "hash"@, "hash"@, "hash"@, "hash"@, "hash"@, "hash"@], seq!["hash"@]),
        ("merkle_twin_tree_1"@, TraceGenerator::MerkleTwinTree1, seq!["hash"@, "position"@], seq!["m31"@, "m31"@]),
        ("merkle_twin_tree_4"@, TraceGenerator::MerkleTwinTree4, seq!["hash"@, "position"@], seq!["m31"@, "m31"@, "m31"@, "m31"@, "m31"@, "m31"@, "m31"@, "m31"@]),
        ("raw_merkle_tree"@, TraceGenerator::RawMerkleTree, seq!["hash"@, "hash"@, "position"@], seq![]),
        ("precomputed_merkle_tree_14"@, TraceGenerator::PrecomputedMerkleTree14, seq!["position"@], seq!["m31"@, "m31"@, "m31"@, "m31"@, "m31"@, "m31"@, "m31"@, "m31"@, "m31"@, "m31"@, "m31"@, "m31"@, "m31"@, "m31"@, "m31"@, "m31"@]),
        ("precomputed_merkle_tree_15"@, TraceGenerator::PrecomputedMerkleTree15, seq!["position"@], seq!["m31"@, "m31"@, "m31"@, "m31"@, "m31"@, "m31"@, "m31"@, "m31"@, "m31"@, "m31"@, "m31"@, "m31"@, "m31"@, "m31"@, "m31"@, "m31"@, "m31"@]),
        ("verify_pow"@, TraceGenerator::VerifyPow, seq!["hash"@], seq!["hash"@]),
    ]
}

/// The functions of `dsl` are those of `old` followed by the standard ones.
pub open spec fn functions_extended(dsl: &DSL, old: &DSL) -> bool {
    let n = old.functions@.len();
    let std = standard_functions();
    &&& dsl.functions@.len() == n + std.len()
    &&& dsl.functions@.subrange(0, n as int) == old.functions@
    &&& forall|k: int| 0 <= k < std.len() ==> registered_as(#[trigger] dsl.functions@[n + k], std[k])
}

/// A registered function carries the name, generator and types of `f`.
pub open spec fn registered_as(
    e: (String, FunctionMetadata),
    f: (Seq<char>, TraceGenerator, Seq<Seq<char>>, Seq<Seq<char>>),
) -> bool {
    &&& e.0@ == f.0
    &&& e.1.trace_generator == f.1
    &&& type_names(e.1.input@) == f.2
    &&& type_names(e.1.output@) == f.3
}

proof fn lemma_standard_functions_distinct()
    ensures
        forall|i: int, j: int|
            0 <= i < j < standard_functions().len() ==> #[trigger] standard_functions()[i].0
                != #[trigger] standard_functions()[j].0,
{
    reveal_strlit("&cm31");
    reveal_strlit("&cm31_limbs");
    reveal_strlit("&qm31");
    reveal_strlit("&qm31_limbs");
    reveal_strlit("&table");
    reveal_strlit("cm31");
    reveal_strlit("cm31_add");
    reveal_strlit("cm31_add_m31");
    reveal_strlit("cm31_equalverify");
    reveal_strlit("cm31_from_real_and_imag");
    reveal_strlit("cm31_imag");
    reveal_strlit("cm31_limbs");
    reveal_strlit("cm31_limbs_equalverify");
    reveal_strlit("cm31_limbs_imag");
    reveal_strlit("cm31_limbs_inverse");
    reveal_strlit("cm31_limbs_mul");
    reveal_strlit("cm31_limbs_real");
    reveal_strlit("cm31_real");
    reveal_strlit("cm31_recompose");
    reveal_strlit("cm31_sub");
    reveal_strlit("cm31_to_limbs");
    reveal_strlit("decompose_positions_to_5");
    reveal_strlit("hash");
    reveal_strlit("m31");
    reveal_strlit("m31_equalverify");
    reveal_strlit("m31_limbs");
    reveal_strlit("m31_limbs_equalverify");
    reveal_strlit("m31_limbs_inverse");
    reveal_strlit("m31_limbs_mul");
    reveal_strlit("m31_to_limbs");
    reveal_strlit("mix_digest");
    reveal_strlit("position");
    reveal_strlit("push_table");
    reveal_strlit("qm31");
    reveal_strlit("qm31_1add");
    reveal_strlit("qm31_1sub");
    reveal_strlit("qm31_add");
    reveal_strlit("qm31_add_cm31");
    reveal_strlit("qm31_add_m31");
    reveal_strlit("qm31_conditional_swap");
    reveal_strlit("qm31_equalverify");
    reveal_strlit("qm31_first");
    reveal_strlit("qm31_from_first_and_second");
    reveal_strlit("qm31_limbs");
    reveal_strlit("qm31_limbs_equalverify");
    reveal_strlit("qm31_limbs_first");
    reveal_strlit("qm31_limbs_inverse");
    reveal_strlit("qm31_limbs_mul");
    reveal_strlit("qm31_limbs_second");
    reveal_strlit("qm31_neg");
    reveal_strlit("qm31_second");
    reveal_strlit("qm31_shift_by_i");
    reveal_strlit("qm31_shift_by_ij");
    reveal_strlit("qm31_shift_by_j");
    reveal_strlit("qm31_sub");
    reveal_strlit("qm31_to_limbs");
    reveal_strlit("merkle_twin_tree_1");
    reveal_strlit("merkle_twin_tree_4");
    reveal_strlit("raw_merkle_tree");
    reveal_strlit("precomputed_merkle_tree_14");
    reveal_strlit("precomputed_merkle_tree_15");
    reveal_strlit("select_among_eight");
    reveal_strlit("table");
    reveal_strlit("verify_pow");
    let s = standard_functions();
    assert forall|i: int, j: int| 0 <= i < j < s.len() implies #[trigger] s[i].0 != #[trigger] s[j].0 by {
        if s[i].0 == s[j].0 {
            assert(s[i].0.len() == s[j].0.len());
            assert(s[i].0[0] == s[j].0[0]);
            assert(s[i].0[1] == s[j].0[1]);
            assert(s[i].0[5] == s[j].0[5]);
            assert(s[i].0[6] == s[j].0[6]);
            assert(s[i].0[11] == s[j].0[11]);
            assert(s[i].0[14] == s[j].0[14]);
            assert(s[i].0[17] == s[j].0[17]);
            assert(s[i].0[25] == s[j].0[25]);
        }
    }
}

} // verus!

verus! {

/// The name and metadata of standard function `k`.
fn standard_function(k: usize) -> (r: (&'static str, FunctionMetadata))
    requires
        k < 50,
    ensures
        r.0@ == standard_functions()[k as int].0,
        r.1.trace_generator == standard_functions()[k as int].1,
        type_names(r.1.input@) == standard_functions()[k as int].2,
        type_names(r.1.output@) == standard_functions()[k as int].3,
{
    proof {
        reveal_strlit("&cm31");
        reveal_strlit("&cm31_limbs");
        reveal_strlit("&qm31");
        reveal_strlit("&qm31_limbs");
        reveal_strlit("&table");
        reveal_strlit("cm31");
        reveal_strlit("cm31_add");
        reveal_strlit("cm31_add_m31");
        reveal_strlit("cm31_equalverify");
        reveal_strlit("cm31_from_real_and_imag");
        reveal_strlit("cm31_imag");
        reveal_strlit("cm31_limbs");
        reveal_strlit("cm31_limbs_equalverify");
        reveal_strlit("cm31_limbs_imag");
        reveal_strlit("cm31_limbs_inverse");
        reveal_strlit("cm31_limbs_mul");
        reveal_strlit("cm31_limbs_real");
        reveal_strlit("cm31_real");
        reveal_strlit("cm31_recompose");
        reveal_strlit("cm31_sub");
        reveal_strlit("cm31_to_limbs");
        reveal_strlit("decompose_positions_to_5");
        reveal_strlit("hash");
        reveal_strlit("m31");
        reveal_strlit("m31_equalverify");
        reveal_strlit("m31_limbs");
        reveal_strlit("m31_limbs_equalverify");
        reveal_strlit("m31_limbs_inverse");
        reveal_strlit("m31_limbs_mul");
        reveal_strlit("m31_to_limbs");
        reveal_strlit("mix_digest");
        reveal_strlit("position");
        reveal_strlit("push_table");
        reveal_strlit("qm31");
        reveal_strlit("qm31_1add");
        reveal_strlit("qm31_1sub");
        reveal_strlit("qm31_add");
        reveal_strlit("qm31_add_cm31");
        reveal_strlit("qm31_add_m31");
        reveal_strlit("qm31_conditional_swap");
        reveal_strlit("qm31_equalverify");
        reveal_strlit("qm31_first");
        reveal_strlit("qm31_from_first_and_second");
        reveal_strlit("qm31_limbs");
        reveal_strlit("qm31_limbs_equalverify");
        reveal_strlit("qm31_limbs_first");
        reveal_strlit("qm31_limbs_inverse");
        reveal_strlit("qm31_limbs_mul");
        reveal_strlit("qm31_limbs_second");
        reveal_strlit("qm31_neg");
        reveal_strlit("qm31_second");
        reveal_strlit("qm31_shift_by_i");
        reveal_strlit("qm31_shift_by_ij");
        reveal_strlit("qm31_shift_by_j");
        reveal_strlit("qm31_sub");
        reveal_strlit("qm31_to_limbs");
        reveal_strlit("merkle_twin_tree_1");
        reveal_strlit("merkle_twin_tree_4");
        reveal_strlit("raw_merkle_tree");
        reveal_strlit("precomputed_merkle_tree_14");
        reveal_strlit("precomputed_merkle_tree_15");
        reveal_strlit("merkle_twin_tree_1");
    reveal_strlit("merkle_twin_tree_4");
    reveal_strlit("raw_merkle_tree");
    reveal_strlit("precomputed_merkle_tree_14");
    reveal_strlit("precomputed_merkle_tree_15");
    reveal_strlit("select_among_eight");
        reveal_strlit("table");
        reveal_strlit("verify_pow");
    }
    let r = match k {
        0 => ("push_table", FunctionMetadata {
            trace_generator: TraceGenerator::PushTable,
            input: vec![],
            output: vec!["table"],
        }),
        1 => ("m31_to_limbs", FunctionMetadata {
            trace_generator: TraceGenerator::M31ToLimbs,
            input: vec!["m31"],
            output: vec!["m31_limbs"],
        }),
        2 => ("m31_limbs_equalverify", FunctionMetadata {
            trace_generator: TraceGenerator::M31LimbsEqualverify,
            input: vec!["m31_limbs", "m31_limbs"],
            output: vec![],
        }),
        3 => ("m31_limbs_mul", FunctionMetadata {
            trace_generator: TraceGenerator::M31LimbsMul,
            input: vec!["&table", "m31_limbs", "m31_limbs"],
            output: vec!["m31"],
        }),
        4 => ("m31_limbs_inverse", FunctionMetadata {
            trace_generator: TraceGenerator::M31LimbsInverse,
            input: vec!["&table", "m31_limbs"],
            output: vec!["m31_limbs"],
        }),
        5 => ("m31_equalverify", FunctionMetadata {
            trace_generator: TraceGenerator::M31Equalverify,
            input: vec!["m31", "m31"],
            output: vec![],
        }),
        6 => ("cm31_to_limbs", FunctionMetadata {
            trace_generator: TraceGenerator::Cm31ToLimbs,
            input: vec!["cm31"],
            output: vec!["cm31_limbs"],
        }),
        7 => ("cm31_limbs_equalverify", FunctionMetadata {
            trace_generator: TraceGenerator::Cm31LimbsEqualverify,
            input: vec!["cm31_limbs", "cm31_limbs"],
            output: vec![],
        }),
        8 => ("cm31_limbs_mul", FunctionMetadata {
            trace_generator: TraceGenerator::Cm31LimbsMul,
            input: vec!["&table", "cm31_limbs", "cm31_limbs"],
            output: vec!["cm31"],
        }),
        9 => ("cm31_limbs_inverse", FunctionMetadata {
            trace_generator: TraceGenerator::Cm31LimbsInverse,
            input: vec!["&table", "cm31_limbs"],
            output: vec!["cm31_limbs"],
        }),
        10 => ("cm31_recompose", FunctionMetadata {
            trace_generator: TraceGenerator::Cm31Recompose,
            input: vec!["cm31_limbs"],
            output: vec!["cm31"],
        }),
        11 => ("cm31_equalverify", FunctionMetadata {
            trace_generator: TraceGenerator::Cm31Equalverify,
            input: vec!["cm31", "cm31"],
            output: vec![],
        }),
        12 => ("cm31_add", FunctionMetadata {
            trace_generator: TraceGenerator::Cm31Add,
            input: vec!["cm31", "cm31"],
            output: vec!["cm31"],
        }),
        13 => ("cm31_add_m31", FunctionMetadata {
            trace_generator: TraceGenerator::Cm31AddM31,
            input: vec!["cm31", "m31"],
            output: vec!["cm31"],
        }),
        14 => ("cm31_sub", FunctionMetadata {
            trace_generator: TraceGenerator::Cm31Sub,
            input: vec!["cm31", "cm31"],
            output: vec!["cm31"],
        }),
        15 => ("cm31_limbs_real", FunctionMetadata {
            trace_generator: TraceGenerator::Cm31LimbsReal,
            input: vec!["&cm31_limbs"],
            output: vec!["m31_limbs"],
        }),
        16 => ("cm31_limbs_imag", FunctionMetadata {
            trace_generator: TraceGenerator::Cm31LimbsImag,
            input: vec!["&cm31_limbs"],
            output: vec!["m31_limbs"],
        }),
        17 => ("cm31_real", FunctionMetadata {
            trace_generator: TraceGenerator::Cm31Real,
            input: vec!["&cm31"],
            output: vec!["m31"],
        }),
        18 => ("cm31_imag", FunctionMetadata {
            trace_generator: TraceGenerator::Cm31Imag,
            input: vec!["&cm31"],
            output: vec!["m31"],
        }),
        19 => ("cm31_from_real_and_imag", FunctionMetadata {
            trace_generator: TraceGenerator::Cm31FromRealAndImag,
            input: vec!["m31", "m31"],
            output: vec!["cm31"],
        }),
        20 => ("qm31_to_limbs", FunctionMetadata {
            trace_generator: TraceGenerator::Qm31ToLimbs,
            input: vec!["qm31"],
            output: vec!["qm31_limbs"],
        }),
        21 => ("qm31_limbs_equalverify", FunctionMetadata {
            trace_generator: TraceGenerator::Qm31LimbsEqualverify,
            input: vec!["qm31_limbs", "qm31_limbs"],
            output: vec![],
        }),
        22 => ("qm31_limbs_mul", FunctionMetadata {
            trace_generator: TraceGenerator::Qm31LimbsMul,
            input: vec!["&table", "qm31_limbs", "qm31_limbs"],
            output: vec!["qm31"],
        }),
        23 => ("qm31_limbs_first", FunctionMetadata {
            trace_generator: TraceGenerator::Qm31LimbsFirst,
            input: vec!["&qm31_limbs"],
            output: vec!["cm31_limbs"],
        }),
        24 => ("qm31_limbs_second", FunctionMetadata {
            trace_generator: TraceGenerator::Qm31LimbsSecond,
            input: vec!["&qm31_limbs"],
            output: vec!["cm31_limbs"],
        }),
        25 => ("qm31_equalverify", FunctionMetadata {
            trace_generator: TraceGenerator::Qm31Equalverify,
            input: vec!["qm31", "qm31"],
            output: vec![],
        }),
        26 => ("qm31_first", FunctionMetadata {
            trace_generator: TraceGenerator::Qm31First,
            input: vec!["&qm31"],
            output: vec!["cm31"],
        }),
        27 => ("qm31_second", FunctionMetadata {
            trace_generator: TraceGenerator::Qm31Second,
            input: vec!["&qm31"],
            output: vec!["cm31"],
        }),
        28 => ("qm31_1add", FunctionMetadata {
            trace_generator: TraceGenerator::Qm31OneAdd,
            input: vec!["qm31"],
            output: vec!["qm31"],
        }),
        29 => ("qm31_1sub", FunctionMetadata {
            trace_generator: TraceGenerator::Qm31OneSub,
            input: vec!["qm31"],
            output: vec!["qm31"],
        }),
        30 => ("qm31_neg", FunctionMetadata {
            trace_generator: TraceGenerator::Qm31Neg,
            input: vec!["qm31"],
            output: vec!["qm31"],
        }),
        31 => ("qm31_add", FunctionMetadata {
            trace_generator: TraceGenerator::Qm31Add,
            input: vec!["qm31", "qm31"],
            output: vec!["qm31"],
        }),
        32 => ("qm31_sub", FunctionMetadata {
            trace_generator: TraceGenerator::Qm31Sub,
            input: vec!["qm31", "qm31"],
            output: vec!["qm31"],
        }),
        33 => ("qm31_from_first_and_second", FunctionMetadata {
            trace_generator: TraceGenerator::Qm31FromFirstAndSecond,
            input: vec!["cm31", "cm31"],
            output: vec!["qm31"],
        }),
        34 => ("qm31_add_cm31", FunctionMetadata {
            trace_generator: TraceGenerator::Qm31AddCm31,
            input: vec!["qm31", "cm31"],
            output: vec!["qm31"],
        }),
        35 => ("qm31_add_m31", FunctionMetadata {
            trace_generator: TraceGenerator::Qm31AddM31,
            input: vec!["qm31", "m31"],
            output: vec!["qm31"],
        }),
        36 => ("qm31_shift_by_i", FunctionMetadata {
            trace_generator: TraceGenerator::Qm31ShiftByI,
            input: vec!["qm31"],
            output: vec!["qm31"],
        }),
        37 => ("qm31_shift_by_j", FunctionMetadata {
            trace_generator: TraceGenerator::Qm31ShiftByJ,
            input: vec!["qm31"],
            output: vec!["qm31"],
        }),
        38 => ("qm31_shift_by_ij", FunctionMetadata {
            trace_generator: TraceGenerator::Qm31ShiftByIj,
            input: vec!["qm31"],
            output: vec!["qm31"],
        }),
        39 => ("qm31_limbs_inverse", FunctionMetadata {
            trace_generator: TraceGenerator::Qm31LimbsInverse,
            input: vec!["&table", "qm31_limbs"],
            output: vec!["qm31_limbs"],
        }),
        40 => ("qm31_conditional_swap", FunctionMetadata {
            trace_generator: TraceGenerator::Qm31ConditionalSwap,
            input: vec!["qm31", "qm31", "position"],
            output: vec!["qm31", "qm31"],
        }),
        41 => ("mix_digest", FunctionMetadata {
            trace_generator: TraceGenerator::MixDigest,
            input: vec!["hash", "hash"],
            output: vec!["hash"],
        }),
        42 => ("decompose_positions_to_5", FunctionMetadata {
            trace_generator: TraceGenerator::DecomposePositionsTo5,
            input: vec!["position"],
            output: vec!["position", "position", "position", "position", "position"],
        }),
        43 => ("select_among_eight", FunctionMetadata {
            trace_generator: TraceGenerator::SelectAmongEight,
            input: vec!["hash", "hash", "hash", "hash", "hash", "hash", "hash", "hash"],
            output: vec!["hash"],
        }),
        44 => ("merkle_twin_tree_1", FunctionMetadata {
            trace_generator: TraceGenerator::MerkleTwinTree1,
            input: vec!["hash", "position"],
            output: vec!["m31", "m31"],
        }),
        45 => ("merkle_twin_tree_4", FunctionMetadata {
            trace_generator: TraceGenerator::MerkleTwinTree4,
            input: vec!["hash", "position"],
            output: vec!["m31", "m31", "m31", "m31", "m31", "m31", "m31", "m31"],
        }),
        46 => ("raw_merkle_tree", FunctionMetadata {
            trace_generator: TraceGenerator::RawMerkleTree,
            input: vec!["hash", "hash", "position"],
            output: vec![],
        }),
        47 => ("precomputed_merkle_tree_14", FunctionMetadata {
            trace_generator: TraceGenerator::PrecomputedMerkleTree14,
            input: vec!["position"],
            output: vec!["m31", "m31", "m31", "m31", "m31", "m31", "m31", "m31", "m31", "m31", "m31", "m31", "m31", "m31", "m31", "m31"],
        }),
        48 => ("precomputed_merkle_tree_15", FunctionMetadata {
            trace_generator: TraceGenerator::PrecomputedMerkleTree15,
            input: vec!["position"],
            output: vec!["m31", "m31", "m31", "m31", "m31", "m31", "m31", "m31", "m31", "m31", "m31", "m31", "m31", "m31", "m31", "m31", "m31"],
        }),
        _ => ("verify_pow", FunctionMetadata {
            trace_generator: TraceGenerator::VerifyPow,
            input: vec!["hash"],
            output: vec!["hash"],
        }),
    };
    assert(type_names(r.1.input@) =~= standard_functions()[k as int].2);
    assert(type_names(r.1.output@) =~= standard_functions()[k as int].3);
    r
}

} // verus!

verus! {

/// Every standard function is registered, as the first function of its name.
#[verifier::opaque]
pub open spec fn functions_ready(functions: Seq<(String, FunctionMetadata)>) -> bool {
    forall|k: int| 0 <= k < standard_functions().len() ==> #[trigger] standard_registered(functions, k)
}

/// Standard function `k` is registered as the first function of its name.
pub open spec fn standard_registered(functions: Seq<(String, FunctionMetadata)>, k: int) -> bool {
    exists|i: int|
        first_named(functions, standard_functions()[k].0, i) && registered_as(
            #[trigger] functions[i],
            standard_functions()[k],
        )
}

proof fn lemma_extended_ready(dsl: &DSL, old: &DSL)
    requires
        functions_extended(dsl, old),
        forall|k: int|
            0 <= k < standard_functions().len() ==> !has_name(
                old.functions@,
                #[trigger] standard_functions()[k].0,
            ),
    ensures
        functions_ready(dsl.functions@),
{
    reveal(functions_ready);
    lemma_standard_functions_distinct();
    let std = standard_functions();
    let n = old.functions@.len();
    let f = dsl.functions@;
    assert forall|k: int| 0 <= k < std.len() implies #[trigger] standard_registered(f, k) by {
        assert(registered_as(f[n + k], std[k]));
        assert forall|j: int| 0 <= j < n + k implies #[trigger] f[j].0@ != std[k].0 by {
            if j < n {
                assert(f.subrange(0, n as int)[j] == f[j]);
                if f[j].0@ == std[k].0 {
                    assert(old.functions@[j].0@ == std[k].0);
                    assert(has_name(old.functions@, std[k].0));
                }
            } else {
                assert(registered_as(f[n + (j - n)], std[j - n]));
                assert(std[j - n].0 != std[k].0);
            }
        }
        assert(first_named(f, std[k].0, n + k));
    }
}

/// After a registration of the standard functions `lo..hi`: each was added,
/// in order, behind the functions that were there before.
pub open spec fn functions_extended_by(dsl: &DSL, old: &DSL, lo: int, hi: int) -> bool {
    let n = old.functions@.len();
    let std = standard_functions();
    &&& dsl.functions@.len() == n + (hi - lo)
    &&& dsl.functions@.subrange(0, n as int) == old.functions@
    &&& forall|k: int| 0 <= k < hi - lo ==> registered_as(#[trigger] dsl.functions@[n + k], std[lo + k])
}

/// None of the standard functions `lo..hi` has a name that is registered.
pub open spec fn range_names_free(functions: Seq<(String, FunctionMetadata)>, lo: int, hi: int) -> bool {
    forall|k: int| lo <= k < hi ==> !has_name(functions, #[trigger] standard_functions()[k].0)
}

/// Registers the standard functions `lo..hi`, in order; the first whose name
/// is already taken stops the registration with `DuplicateFunction`, the
/// ones before it staying registered.
pub fn load_standard_functions(dsl: &mut DSL, lo: usize, hi: usize) -> (r: Result<()>)
    requires
        lo <= hi <= 50,
    ensures
        r is Ok <==> range_names_free(old(dsl).functions@, lo as int, hi as int),
        r matches Err(e) ==> e == DslError::DuplicateFunction,
        r is Ok ==> functions_extended_by(final(dsl), old(dsl), lo as int, hi as int),
        old(dsl).functions@.len() <= final(dsl).functions@.len(),
        final(dsl).functions@.subrange(0, old(dsl).functions@.len() as int) == old(dsl).functions@,
        final(dsl).data_types@ == old(dsl).data_types@,
        final(dsl).memory@ == old(dsl).memory@,
        final(dsl).hints@ == old(dsl).hints@,
        final(dsl).input_indices@ == old(dsl).input_indices@,
        final(dsl).output_indices@ == old(dsl).output_indices@,
{
    proof {
        lemma_standard_functions_distinct();
    }
    let ghost std = standard_functions();
    let ghost n = old(dsl).functions@.len();
    let mut i: usize = lo;
    while i < hi
        invariant
            lo <= i <= hi <= 50,
            std == standard_functions(),
            std.len() == 50,
            forall|a: int, b: int| 0 <= a < b < std.len() ==> #[trigger] std[a].0 != #[trigger] std[b].0,
            n == old(dsl).functions@.len(),
            dsl.functions@.len() == n + (i - lo),
            dsl.functions@.subrange(0, n as int) == old(dsl).functions@,
            forall|k: int| 0 <= k < i - lo ==> registered_as(#[trigger] dsl.functions@[n + k], std[lo + k]),
            forall|k: int| lo <= k < i ==> !has_name(old(dsl).functions@, #[trigger] std[k].0),
            dsl.data_types@ == old(dsl).data_types@,
            dsl.memory@ == old(dsl).memory@,
            dsl.hints@ == old(dsl).hints@,
            dsl.input_indices@ == old(dsl).input_indices@,
            dsl.output_indices@ == old(dsl).output_indices@,
        decreases hi - i,
    {
        let ghost before = dsl.functions@;
        let (name, metadata) = standard_function(i);
        let res = dsl.add_function(name, metadata);
        match res {
            Err(e) => {
                proof {
                    let w = choose|j: int| 0 <= j < before.len() && #[trigger] before[j].0@ == std[i as int].0;
                    if w >= n {
                        let k = w - n;
                        assert(registered_as(before[n + k], std[lo + k]));
                        assert(std[lo + k].0 != std[i as int].0);
                    } else {
                        assert(before.subrange(0, n as int)[w] == before[w]);
                        assert(has_name(old(dsl).functions@, std[i as int].0));
                    }
                }
                return Err(e);
            },
            Ok(()) => {
                proof {
                    assert(!has_name(old(dsl).functions@, std[i as int].0)) by {
                        if has_name(old(dsl).functions@, std[i as int].0) {
                            let w = choose|j: int| 0 <= j < n && #[trigger] old(dsl).functions@[j].0@ == std[i as int].0;
                            assert(before.subrange(0, n as int)[w] == before[w]);
                        }
                    }
                    assert(dsl.functions@.drop_last() == before);
                    assert forall|k: int| 0 <= k <= i - lo implies registered_as(#[trigger] dsl.functions@[n + k], std[lo + k]) by {
                        if k < i - lo {
                            assert(before[n + k] == dsl.functions@.drop_last()[n + k]);
                        }
                    }
                    assert(dsl.functions@.subrange(0, n as int) =~= old(dsl).functions@) by {
                        assert forall|j: int| 0 <= j < n implies dsl.functions@[j] == old(dsl).functions@[j] by {
                            assert(before.subrange(0, n as int)[j] == before[j]);
                            assert(before[j] == dsl.functions@.drop_last()[j]);
                        }
                    }
                }
            },
        }
        i = i + 1;
    }
    Ok(())
}

/// Registers the functions of the building blocks: the multiplication table,
/// the operations on the three fields and their limbs, the channel digest
/// mixing, the position and hash utilities, the Merkle queries and the
/// proof-of-work check.
pub fn load_functions(dsl: &mut DSL) -> (r: Result<()>)
    ensures
        r is Ok <==> forall|k: int|
            0 <= k < standard_functions().len() ==> !has_name(
                old(dsl).functions@,
                #[trigger] standard_functions()[k].0,
            ),
        r matches Err(e) ==> e == DslError::DuplicateFunction,
        r is Ok ==> functions_extended(final(dsl), old(dsl)),
        r is Ok ==> functions_ready(final(dsl).functions@),
        old(dsl).functions@.len() <= final(dsl).functions@.len(),
        final(dsl).functions@.subrange(0, old(dsl).functions@.len() as int) == old(dsl).functions@,
        final(dsl).data_types@ == old(dsl).data_types@,
        final(dsl).memory@ == old(dsl).memory@,
        final(dsl).hints@ == old(dsl).hints@,
        final(dsl).input_indices@ == old(dsl).input_indices@,
        final(dsl).output_indices@ == old(dsl).output_indices@,
{
    proof {
        lemma_standard_functions_distinct();
    }
    let r = load_standard_functions(dsl, 0, 50);
    if r.is_ok() {
        proof {
            assert(functions_extended(dsl, old(dsl))) by {
                assert forall|k: int| 0 <= k < 50 implies registered_as(
                    #[trigger] dsl.functions@[old(dsl).functions@.len() + k],
                    standard_functions()[k],
                ) by {
                    assert(standard_functions()[0 + k] == standard_functions()[k]);
                }
            }
            lemma_extended_ready(dsl, old(dsl));
        }
    }
    r
}

/// `name` is the name of one of the standard data types.
pub open spec fn is_data_type_name(name: Seq<char>) -> bool {
    exists|j: int| 0 <= j < standard_data_types().len() && #[trigger] standard_data_types()[j].0 == name
}

/// `name` begins with `&`: an input that a function reads in place.
pub open spec fn starts_with_ref(name: Seq<char>) -> bool {
    name.len() > 0 && name[0] == '&'
}

/// `name` with a leading `&` taken off.
pub open spec fn strip_ref(name: Seq<char>) -> Seq<char> {
    if starts_with_ref(name) { name.drop_first() } else { name }
}

proof fn lemma_type_name_literals()
    ensures
        is_data_type_name("table"@),
        !starts_with_ref("table"@),
        strip_ref("table"@) == "table"@,
        is_data_type_name("m31_limbs"@),
        !starts_with_ref("m31_limbs"@),
        strip_ref("m31_limbs"@) == "m31_limbs"@,
        is_data_type_name("cm31_limbs"@),
        !starts_with_ref("cm31_limbs"@),
        strip_ref("cm31_limbs"@) == "cm31_limbs"@,
        is_data_type_name("qm31_limbs"@),
        !starts_with_ref("qm31_limbs"@),
        strip_ref("qm31_limbs"@) == "qm31_limbs"@,
        is_data_type_name("m31"@),
        !starts_with_ref("m31"@),
        strip_ref("m31"@) == "m31"@,
        is_data_type_name("cm31"@),
        !starts_with_ref("cm31"@),
        strip_ref("cm31"@) == "cm31"@,
        is_data_type_name("qm31"@),
        !starts_with_ref("qm31"@),
        strip_ref("qm31"@) == "qm31"@,
        is_data_type_name("hash"@),
        !starts_with_ref("hash"@),
        strip_ref("hash"@) == "hash"@,
        is_data_type_name("position"@),
        !starts_with_ref("position"@),
        strip_ref("position"@) == "position"@,
        is_data_type_name("internal"@),
        !starts_with_ref("internal"@),
        strip_ref("internal"@) == "internal"@,
        strip_ref("&table"@) == "table"@,
        strip_ref("&cm31_limbs"@) == "cm31_limbs"@,
        strip_ref("&cm31"@) == "cm31"@,
        strip_ref("&qm31_limbs"@) == "qm31_limbs"@,
        strip_ref("&qm31"@) == "qm31"@,
{
    reveal_strlit("table");
    reveal_strlit("m31_limbs");
    reveal_strlit("cm31_limbs");
    reveal_strlit("qm31_limbs");
    reveal_strlit("m31");
    reveal_strlit("cm31");
    reveal_strlit("qm31");
    reveal_strlit("hash");
    reveal_strlit("position");
    reveal_strlit("internal");
    reveal_strlit("&table");
    reveal_strlit("&cm31_limbs");
    reveal_strlit("&cm31");
    reveal_strlit("&qm31_limbs");
    reveal_strlit("&qm31");
    let d = standard_data_types();
    assert(d[0].0 == "table"@);
    assert(d[1].0 == "m31_limbs"@);
    assert(d[2].0 == "cm31_limbs"@);
    assert(d[3].0 == "qm31_limbs"@);
    assert(d[4].0 == "m31"@);
    assert(d[5].0 == "cm31"@);
    assert(d[6].0 == "qm31"@);
    assert(d[7].0 == "hash"@);
    assert(d[8].0 == "position"@);
    assert(d[9].0 == "internal"@);
    assert(strip_ref("&table"@) =~= "table"@);
    assert(strip_ref("&cm31_limbs"@) =~= "cm31_limbs"@);
    assert(strip_ref("&cm31"@) =~= "cm31"@);
    assert(strip_ref("&qm31_limbs"@) =~= "qm31_limbs"@);
    assert(strip_ref("&qm31"@) =~= "qm31"@);
}

/// Every input of a standard function names a standard data type, either
/// as it stands or behind a `&` (an input read in place), and every output
/// names a standard data type, with no `&`.
pub proof fn lemma_standard_signatures_use_standard_types()
    ensures
        forall|k: int, i: int|
            0 <= k < standard_functions().len() && 0 <= i < standard_functions()[k].2.len()
                ==> is_data_type_name(strip_ref(#[trigger] standard_functions()[k].2[i])),
        forall|k: int, i: int|
            0 <= k < standard_functions().len() && 0 <= i < standard_functions()[k].3.len()
                ==> is_data_type_name(#[trigger] standard_functions()[k].3[i])
                    && !starts_with_ref(standard_functions()[k].3[i]),
{
    lemma_type_name_literals();
}

} // verus!
