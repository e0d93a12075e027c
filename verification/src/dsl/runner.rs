use crate::dsl::building_blocks::cm31 as bcm;
use crate::dsl::building_blocks::m31 as bm;
use crate::dsl::building_blocks::qm31 as bqm;
use crate::dsl::building_blocks::merkle_tree as mt;
use crate::dsl::building_blocks::pow;
use crate::dsl::building_blocks::sha256::{mix_digest, mix_digest_spec};
use crate::dsl::building_blocks::table::{push_table, push_table_spec};
use crate::dsl::building_blocks::utils::{
    decompose_positions_to_5, decompose_positions_to_5_spec, select_among_eight,
    select_among_eight_spec,
};
use crate::dsl::framework::{
    entries_v, find_named, first_named, has_name, DslError, EntryV, FunctionMetadata,
    FunctionOutput, MemoryEntry, OptionValue, Options, OutputV, Result, TraceGenerator, DSL,
};
use crate::dsl::values::result_v;
use vstd::prelude::*;
use vstd::string::StrSliceExecFns;

verus! {

/// The number of inputs that a generator reads.
pub open spec fn generator_arity(g: TraceGenerator) -> nat {
    match g {
        TraceGenerator::PushTable => 0,
        TraceGenerator::M31ToLimbs => 1,
        TraceGenerator::M31LimbsEqualverify => 2,
        TraceGenerator::M31LimbsMul => 3,
        TraceGenerator::M31LimbsInverse => 2,
        TraceGenerator::M31Equalverify => 2,
        TraceGenerator::Cm31ToLimbs => 1,
        TraceGenerator::Cm31LimbsEqualverify => 2,
        TraceGenerator::Cm31LimbsMul => 3,
        TraceGenerator::Cm31LimbsInverse => 2,
        TraceGenerator::Cm31Recompose => 1,
        TraceGenerator::Cm31Equalverify => 2,
        TraceGenerator::Cm31Add => 2,
        TraceGenerator::Cm31AddM31 => 2,
        TraceGenerator::Cm31Sub => 2,
        TraceGenerator::Cm31LimbsReal => 1,
        TraceGenerator::Cm31LimbsImag => 1,
        TraceGenerator::Cm31Real => 1,
        TraceGenerator::Cm31Imag => 1,
        TraceGenerator::Cm31FromRealAndImag => 2,
        TraceGenerator::Qm31ToLimbs => 1,
        TraceGenerator::Qm31LimbsEqualverify => 2,
        TraceGenerator::Qm31LimbsMul => 3,
        TraceGenerator::Qm31LimbsFirst => 1,
        TraceGenerator::Qm31LimbsSecond => 1,
        TraceGenerator::Qm31Equalverify => 2,
        TraceGenerator::Qm31First => 1,
        TraceGenerator::Qm31Second => 1,
        TraceGenerator::Qm31OneAdd => 1,
        TraceGenerator::Qm31OneSub => 1,
        TraceGenerator::Qm31Neg => 1,
        TraceGenerator::Qm31Add => 2,
        TraceGenerator::Qm31Sub => 2,
        TraceGenerator::Qm31FromFirstAndSecond => 2,
        TraceGenerator::Qm31AddCm31 => 2,
        TraceGenerator::Qm31AddM31 => 2,
        TraceGenerator::Qm31ShiftByI => 1,
        TraceGenerator::Qm31ShiftByJ => 1,
        TraceGenerator::Qm31ShiftByIj => 1,
        TraceGenerator::Qm31LimbsInverse => 2,
        TraceGenerator::Qm31ConditionalSwap => 3,
        TraceGenerator::DecomposePositionsTo5 => 1,
        TraceGenerator::SelectAmongEight => 8,
        TraceGenerator::MixDigest => 2,
        TraceGenerator::MerkleTwinTree1 => 2,
        TraceGenerator::MerkleTwinTree4 => 2,
        TraceGenerator::RawMerkleTree => 3,
        TraceGenerator::PrecomputedMerkleTree14 => 1,
        TraceGenerator::PrecomputedMerkleTree15 => 1,
        TraceGenerator::VerifyPow => 1,
    }
}

/// What generator `g` gives for the memory `mem`, the inputs and the options,
/// once the number of inputs is right.
#[verifier::opaque]
pub open spec fn generator_body_spec(
    g: TraceGenerator,
    mem: Seq<EntryV>,
    inputs: Seq<usize>,
    opts: Seq<(String, OptionValue)>,
) -> Result<OutputV> {
    match g {
        TraceGenerator::PushTable => push_table_spec(),
        TraceGenerator::M31ToLimbs => bm::m31_to_limbs_spec(mem, inputs),
        TraceGenerator::M31LimbsEqualverify => bm::many_equalverify_spec(mem, inputs),
        TraceGenerator::M31LimbsMul => bm::m31_limbs_mul_spec(mem, inputs),
        TraceGenerator::M31LimbsInverse => bm::m31_limbs_inverse_spec(mem, inputs),
        TraceGenerator::M31Equalverify => bm::num_equalverify_spec(mem, inputs),
        TraceGenerator::Cm31ToLimbs => bcm::cm31_to_limbs_spec(mem, inputs),
        TraceGenerator::Cm31LimbsEqualverify => bm::many_equalverify_spec(mem, inputs),
        TraceGenerator::Cm31LimbsMul => bcm::cm31_limbs_mul_spec(mem, inputs),
        TraceGenerator::Cm31LimbsInverse => bcm::cm31_limbs_inverse_spec(mem, inputs),
        TraceGenerator::Cm31Recompose => bcm::cm31_recompose_spec(mem, inputs),
        TraceGenerator::Cm31Equalverify => bm::many_equalverify_spec(mem, inputs),
        TraceGenerator::Cm31Add => bcm::cm31_add_spec(mem, inputs),
        TraceGenerator::Cm31AddM31 => bcm::cm31_add_m31_spec(mem, inputs),
        TraceGenerator::Cm31Sub => bcm::cm31_sub_spec(mem, inputs),
        TraceGenerator::Cm31LimbsReal => bcm::cm31_limbs_part_spec(mem, inputs, 0),
        TraceGenerator::Cm31LimbsImag => bcm::cm31_limbs_part_spec(mem, inputs, 4),
        TraceGenerator::Cm31Real => bcm::cm31_part_spec(mem, inputs, 1),
        TraceGenerator::Cm31Imag => bcm::cm31_part_spec(mem, inputs, 0),
        TraceGenerator::Cm31FromRealAndImag => bcm::cm31_from_real_and_imag_spec(mem, inputs),
        TraceGenerator::Qm31ToLimbs => bqm::qm31_to_limbs_spec(mem, inputs),
        TraceGenerator::Qm31LimbsEqualverify => bm::many_equalverify_spec(mem, inputs),
        TraceGenerator::Qm31LimbsMul => bqm::qm31_limbs_mul_spec(mem, inputs),
        TraceGenerator::Qm31LimbsFirst => bqm::qm31_limbs_part_spec(mem, inputs, 0),
        TraceGenerator::Qm31LimbsSecond => bqm::qm31_limbs_part_spec(mem, inputs, 8),
        TraceGenerator::Qm31Equalverify => bm::many_equalverify_spec(mem, inputs),
        TraceGenerator::Qm31First => bqm::qm31_part_spec(mem, inputs, 2),
        TraceGenerator::Qm31Second => bqm::qm31_part_spec(mem, inputs, 0),
        TraceGenerator::Qm31OneAdd => bqm::qm31_1add_spec(mem, inputs),
        TraceGenerator::Qm31OneSub => bqm::qm31_1sub_spec(mem, inputs),
        TraceGenerator::Qm31Neg => bqm::qm31_neg_spec(mem, inputs),
        TraceGenerator::Qm31Add => bqm::qm31_add_spec(mem, inputs),
        TraceGenerator::Qm31Sub => bqm::qm31_sub_spec(mem, inputs),
        TraceGenerator::Qm31FromFirstAndSecond => bqm::qm31_from_first_and_second_spec(mem, inputs),
        TraceGenerator::Qm31AddCm31 => bqm::qm31_add_cm31_spec(mem, inputs),
        TraceGenerator::Qm31AddM31 => bqm::qm31_add_m31_spec(mem, inputs),
        TraceGenerator::Qm31ShiftByI => bqm::qm31_shift_by_i_spec(mem, inputs),
        TraceGenerator::Qm31ShiftByJ => bqm::qm31_shift_by_j_spec(mem, inputs),
        TraceGenerator::Qm31ShiftByIj => bqm::qm31_shift_by_ij_spec(mem, inputs),
        TraceGenerator::Qm31LimbsInverse => bqm::qm31_limbs_inverse_spec(mem, inputs),
        TraceGenerator::Qm31ConditionalSwap => bqm::qm31_conditional_swap_spec(mem, inputs),
        TraceGenerator::DecomposePositionsTo5 => decompose_positions_to_5_spec(mem, inputs),
        TraceGenerator::SelectAmongEight => select_among_eight_spec(mem, inputs, opts),
        TraceGenerator::MixDigest => mix_digest_spec(mem, inputs),
        TraceGenerator::MerkleTwinTree1 => mt::merkle_twin_tree_registered_spec(mem, inputs, opts, 1),
        TraceGenerator::MerkleTwinTree4 => mt::merkle_twin_tree_registered_spec(mem, inputs, opts, 4),
        TraceGenerator::RawMerkleTree => mt::raw_merkle_tree_registered_spec(mem, inputs, opts),
        TraceGenerator::PrecomputedMerkleTree14 => mt::precomputed_merkle_tree_registered_spec(mem, inputs, opts, 14),
        TraceGenerator::PrecomputedMerkleTree15 => mt::precomputed_merkle_tree_registered_spec(mem, inputs, opts, 15),
        TraceGenerator::VerifyPow => pow::verify_pow_spec(mem, inputs, opts),
    }
}

/// What generator `g` gives: an error if the number of inputs is not its own.
pub open spec fn generator_spec(
    g: TraceGenerator,
    mem: Seq<EntryV>,
    inputs: Seq<usize>,
    opts: Seq<(String, OptionValue)>,
) -> Result<OutputV> {
    if inputs.len() != generator_arity(g) {
        Err(DslError::WrongNumberOfInputs)
    } else {
        generator_body_spec(g, mem, inputs, opts)
    }
}

/// Runs generator `g` on the inputs.
pub fn run_generator(dsl: &mut DSL, g: TraceGenerator, inputs: &[usize], options: &Options) -> (r: Result<FunctionOutput>)
    ensures
        *final(dsl) == *old(dsl),
        result_v(r) == generator_spec(g, old(dsl).mem(), inputs@, options.entries@),
{
    reveal(generator_body_spec);
    let n = inputs.len();
    match g {
        TraceGenerator::PushTable => if n != 0 { Err(DslError::WrongNumberOfInputs) } else { push_table(dsl, inputs) },
        TraceGenerator::M31ToLimbs => if n != 1 { Err(DslError::WrongNumberOfInputs) } else { bm::m31_to_limbs(dsl, inputs) },
        TraceGenerator::M31LimbsEqualverify => if n != 2 { Err(DslError::WrongNumberOfInputs) } else { bm::m31_limbs_equalverify(dsl, inputs) },
        TraceGenerator::M31LimbsMul => if n != 3 { Err(DslError::WrongNumberOfInputs) } else { bm::m31_limbs_mul(dsl, inputs) },
        TraceGenerator::M31LimbsInverse => if n != 2 { Err(DslError::WrongNumberOfInputs) } else { bm::m31_limbs_inverse(dsl, inputs) },
        TraceGenerator::M31Equalverify => if n != 2 { Err(DslError::WrongNumberOfInputs) } else { bm::m31_equalverify(dsl, inputs) },
        TraceGenerator::Cm31ToLimbs => if n != 1 { Err(DslError::WrongNumberOfInputs) } else { bcm::cm31_to_limbs(dsl, inputs) },
        TraceGenerator::Cm31LimbsEqualverify => if n != 2 { Err(DslError::WrongNumberOfInputs) } else { bcm::cm31_limbs_equalverify(dsl, inputs) },
        TraceGenerator::Cm31LimbsMul => if n != 3 { Err(DslError::WrongNumberOfInputs) } else { bcm::cm31_limbs_mul(dsl, inputs) },
        TraceGenerator::Cm31LimbsInverse => if n != 2 { Err(DslError::WrongNumberOfInputs) } else { bcm::cm31_limbs_inverse(dsl, inputs) },
        TraceGenerator::Cm31Recompose => if n != 1 { Err(DslError::WrongNumberOfInputs) } else { bcm::cm31_recompose(dsl, inputs) },
        TraceGenerator::Cm31Equalverify => if n != 2 { Err(DslError::WrongNumberOfInputs) } else { bcm::cm31_equalverify(dsl, inputs) },
        TraceGenerator::Cm31Add => if n != 2 { Err(DslError::WrongNumberOfInputs) } else { bcm::cm31_add(dsl, inputs) },
        TraceGenerator::Cm31AddM31 => if n != 2 { Err(DslError::WrongNumberOfInputs) } else { bcm::cm31_add_m31(dsl, inputs) },
        TraceGenerator::Cm31Sub => if n != 2 { Err(DslError::WrongNumberOfInputs) } else { bcm::cm31_sub(dsl, inputs) },
        TraceGenerator::Cm31LimbsReal => if n != 1 { Err(DslError::WrongNumberOfInputs) } else { bcm::cm31_limbs_real(dsl, inputs) },
        TraceGenerator::Cm31LimbsImag => if n != 1 { Err(DslError::WrongNumberOfInputs) } else { bcm::cm31_limbs_imag(dsl, inputs) },
        TraceGenerator::Cm31Real => if n != 1 { Err(DslError::WrongNumberOfInputs) } else { bcm::cm31_real(dsl, inputs) },
        TraceGenerator::Cm31Imag => if n != 1 { Err(DslError::WrongNumberOfInputs) } else { bcm::cm31_imag(dsl, inputs) },
        TraceGenerator::Cm31FromRealAndImag => if n != 2 { Err(DslError::WrongNumberOfInputs) } else { bcm::cm31_from_real_and_imag(dsl, inputs) },
        TraceGenerator::Qm31ToLimbs => if n != 1 { Err(DslError::WrongNumberOfInputs) } else { bqm::qm31_to_limbs(dsl, inputs) },
        TraceGenerator::Qm31LimbsEqualverify => if n != 2 { Err(DslError::WrongNumberOfInputs) } else { bqm::qm31_limbs_equalverify(dsl, inputs) },
        TraceGenerator::Qm31LimbsMul => if n != 3 { Err(DslError::WrongNumberOfInputs) } else { bqm::qm31_limbs_mul(dsl, inputs) },
        TraceGenerator::Qm31LimbsFirst => if n != 1 { Err(DslError::WrongNumberOfInputs) } else { bqm::qm31_limbs_first(dsl, inputs) },
        TraceGenerator::Qm31LimbsSecond => if n != 1 { Err(DslError::WrongNumberOfInputs) } else { bqm::qm31_limbs_second(dsl, inputs) },
        TraceGenerator::Qm31Equalverify => if n != 2 { Err(DslError::WrongNumberOfInputs) } else { bqm::qm31_equalverify(dsl, inputs) },
        TraceGenerator::Qm31First => if n != 1 { Err(DslError::WrongNumberOfInputs) } else { bqm::qm31_first(dsl, inputs) },
        TraceGenerator::Qm31Second => if n != 1 { Err(DslError::WrongNumberOfInputs) } else { bqm::qm31_second(dsl, inputs) },
        TraceGenerator::Qm31OneAdd => if n != 1 { Err(DslError::WrongNumberOfInputs) } else { bqm::qm31_1add(dsl, inputs) },
        TraceGenerator::Qm31OneSub => if n != 1 { Err(DslError::WrongNumberOfInputs) } else { bqm::qm31_1sub(dsl, inputs) },
        TraceGenerator::Qm31Neg => if n != 1 { Err(DslError::WrongNumberOfInputs) } else { bqm::qm31_neg(dsl, inputs) },
        TraceGenerator::Qm31Add => if n != 2 { Err(DslError::WrongNumberOfInputs) } else { bqm::qm31_add(dsl, inputs) },
        TraceGenerator::Qm31Sub => if n != 2 { Err(DslError::WrongNumberOfInputs) } else { bqm::qm31_sub(dsl, inputs) },
        TraceGenerator::Qm31FromFirstAndSecond => if n != 2 { Err(DslError::WrongNumberOfInputs) } else { bqm::qm31_from_first_and_second(dsl, inputs) },
        TraceGenerator::Qm31AddCm31 => if n != 2 { Err(DslError::WrongNumberOfInputs) } else { bqm::qm31_add_cm31(dsl, inputs) },
        TraceGenerator::Qm31AddM31 => if n != 2 { Err(DslError::WrongNumberOfInputs) } else { bqm::qm31_add_m31(dsl, inputs) },
        TraceGenerator::Qm31ShiftByI => if n != 1 { Err(DslError::WrongNumberOfInputs) } else { bqm::qm31_shift_by_i(dsl, inputs) },
        TraceGenerator::Qm31ShiftByJ => if n != 1 { Err(DslError::WrongNumberOfInputs) } else { bqm::qm31_shift_by_j(dsl, inputs) },
        TraceGenerator::Qm31ShiftByIj => if n != 1 { Err(DslError::WrongNumberOfInputs) } else { bqm::qm31_shift_by_ij(dsl, inputs) },
        TraceGenerator::Qm31LimbsInverse => if n != 2 { Err(DslError::WrongNumberOfInputs) } else { bqm::qm31_limbs_inverse(dsl, inputs) },
        TraceGenerator::Qm31ConditionalSwap => if n != 3 { Err(DslError::WrongNumberOfInputs) } else { bqm::qm31_conditional_swap(dsl, inputs) },
        TraceGenerator::DecomposePositionsTo5 => if n != 1 { Err(DslError::WrongNumberOfInputs) } else { decompose_positions_to_5(dsl, inputs) },
        TraceGenerator::SelectAmongEight => if n != 8 { Err(DslError::WrongNumberOfInputs) } else { select_among_eight(dsl, inputs, options) },
        TraceGenerator::MixDigest => if n != 2 { Err(DslError::WrongNumberOfInputs) } else { mix_digest(dsl, inputs) },
        TraceGenerator::MerkleTwinTree1 => if n != 2 { Err(DslError::WrongNumberOfInputs) } else { mt::merkle_twin_tree(dsl, inputs, options, 1) },
        TraceGenerator::MerkleTwinTree4 => if n != 2 { Err(DslError::WrongNumberOfInputs) } else { mt::merkle_twin_tree(dsl, inputs, options, 4) },
        TraceGenerator::RawMerkleTree => if n != 3 { Err(DslError::WrongNumberOfInputs) } else { mt::raw_merkle_tree(dsl, inputs, options) },
        TraceGenerator::PrecomputedMerkleTree14 => if n != 1 { Err(DslError::WrongNumberOfInputs) } else { mt::precomputed_merkle_tree(dsl, inputs, options, 14) },
        TraceGenerator::PrecomputedMerkleTree15 => if n != 1 { Err(DslError::WrongNumberOfInputs) } else { mt::precomputed_merkle_tree(dsl, inputs, options, 15) },
        TraceGenerator::VerifyPow => if n != 1 { Err(DslError::WrongNumberOfInputs) } else { pow::verify_pow(dsl, inputs, options) },
    }
}

} // verus!

verus! {

/// The data type that a declared input names: a leading `&` marks an input
/// that stays in place and is not part of the name.
pub open spec fn declared_type(d: Seq<char>) -> Seq<char> {
    if d.len() > 0 && d[0] == '&' {
        d.subrange(1, d.len() as int)
    } else {
        d
    }
}

/// The names that a list of declared types holds.
pub open spec fn type_names(decl: Seq<&'static str>) -> Seq<Seq<char>> {
    decl.map_values(|s: &'static str| s@)
}

/// Input `idx` is in the memory and holds the declared type `d`.
pub open spec fn input_check_at(mem: Seq<EntryV>, idx: usize, d: Seq<char>) -> Result<()> {
    if idx >= mem.len() {
        Err(DslError::IndexOutOfRange)
    } else if mem[idx as int].0 != declared_type(d) {
        Err(DslError::TypeMismatch)
    } else {
        Ok(())
    }
}

/// The inputs from position `k` on are checked in order; the first that
/// fails gives the error.
pub open spec fn inputs_check_from(mem: Seq<EntryV>, inputs: Seq<usize>, decl: Seq<Seq<char>>, k: int) -> Result<()>
    decreases inputs.len() - k,
{
    if k >= inputs.len() || k < 0 {
        Ok(())
    } else {
        match input_check_at(mem, inputs[k], decl[k]) {
            Err(e) => Err(e),
            Ok(_) => inputs_check_from(mem, inputs, decl, k + 1),
        }
    }
}

/// The new elements carry the declared output types, in order.
pub open spec fn outputs_match(els: Seq<EntryV>, decl: Seq<Seq<char>>) -> bool {
    &&& els.len() == decl.len()
    &&& forall|k: int| 0 <= k < els.len() ==> #[trigger] els[k].0 == decl[k]
}

/// What calling the function `name` gives: the function is looked up by name,
/// the inputs are checked against its declared types, its generator runs, and
/// what the generator gives must carry the declared output types.
pub open spec fn call_spec(
    functions: Seq<(String, FunctionMetadata)>,
    mem: Seq<EntryV>,
    name: Seq<char>,
    inputs: Seq<usize>,
    opts: Seq<(String, OptionValue)>,
) -> Result<OutputV> {
    if !has_name(functions, name) {
        Err(DslError::UnknownFunction)
    } else {
        let i = choose|i: int| first_named(functions, name, i);
        let meta = functions[i].1;
        let ins = type_names(meta.input@);
        if inputs.len() != ins.len() {
            Err(DslError::WrongNumberOfInputs)
        } else {
            match inputs_check_from(mem, inputs, ins, 0) {
                Err(e) => Err(e),
                Ok(_) => match generator_spec(meta.trace_generator, mem, inputs, opts) {
                    Err(e) => Err(e),
                    Ok(o) => if outputs_match(o.0, type_names(meta.output@)) {
                        Ok(o)
                    } else {
                        Err(DslError::TypeMismatch)
                    },
                },
            }
        }
    }
}

/// The indices `start, start + 1, ..., start + n - 1`.
pub open spec fn fresh_indices(start: int, n: nat) -> Seq<usize> {
    Seq::new(n, |k: int| (start + k) as usize)
}

/// At most one entry is the first of a name.
pub proof fn lemma_first_named_unique<T>(s: Seq<(String, T)>, name: Seq<char>, i: int, j: int)
    requires
        first_named(s, name, i),
        first_named(s, name, j),
    ensures
        i == j,
{
    if i < j {
        assert(s[i].0@ != name);
    } else if j < i {
        assert(s[j].0@ != name);
    }
}

/// The data type named by a declared input.
fn declared_type_of(d: &str) -> (r: &str)
    ensures
        r@ == declared_type(d@),
{
    let n = d.unicode_len();
    if n > 0 && d.get_char(0) == '&' {
        d.substring_char(1, n)
    } else {
        d
    }
}

/// Checks the inputs against the declared input types of a function.
fn check_inputs(mem: &Vec<MemoryEntry>, decl: &Vec<&'static str>, inputs: &[usize]) -> (r: Result<()>)
    requires
        inputs@.len() == decl@.len(),
    ensures
        r == inputs_check_from(entries_v(mem@), inputs@, type_names(decl@), 0),
{
    let ghost m = entries_v(mem@);
    let ghost ins = type_names(decl@);
    let mut k: usize = 0;
    while k < inputs.len()
        invariant
            0 <= k <= inputs@.len(),
            inputs@.len() == decl@.len(),
            m == entries_v(mem@),
            ins == type_names(decl@),
            inputs_check_from(m, inputs@, ins, 0) == inputs_check_from(m, inputs@, ins, k as int),
        decreases inputs@.len() - k,
    {
        let idx = inputs[k];
        if idx >= mem.len() {
            return Err(DslError::IndexOutOfRange);
        }
        let d: &str = decl[k];
        let t = declared_type_of(d).to_owned();
        if mem[idx].data_type != t {
            return Err(DslError::TypeMismatch);
        }
        k = k + 1;
    }
    Ok(())
}

/// Checks that new elements carry the declared output types.
fn check_outputs(els: &Vec<MemoryEntry>, decl: &Vec<&'static str>) -> (r: bool)
    ensures
        r == outputs_match(entries_v(els@), type_names(decl@)),
{
    if els.len() != decl.len() {
        return false;
    }
    let ghost outs = type_names(decl@);
    let mut k: usize = 0;
    while k < els.len()
        invariant
            0 <= k <= els@.len(),
            els@.len() == outs.len(),
            outs == type_names(decl@),
            forall|j: int| 0 <= j < k ==> #[trigger] entries_v(els@)[j].0 == outs[j],
        decreases els@.len() - k,
    {
        let d: &str = decl[k];
        let t = d.to_owned();
        if els[k].data_type != t {
            assert(entries_v(els@)[k as int].0 != outs[k as int]);
            return false;
        }
        k = k + 1;
    }
    true
}

/// Appends copies of `add` to `v`.
fn append_entries(v: &mut Vec<MemoryEntry>, add: &Vec<MemoryEntry>)
    ensures
        entries_v(final(v)@) == entries_v(old(v)@) + entries_v(add@),
        final(v)@.len() == old(v)@.len() + add@.len(),
{
    let ghost a = entries_v(add@);
    let mut k: usize = 0;
    while k < add.len()
        invariant
            0 <= k <= add@.len(),
            a == entries_v(add@),
            entries_v(v@) == entries_v(old(v)@) + a.subrange(0, k as int),
            v@.len() == old(v)@.len() + k,
        decreases add@.len() - k,
    {
        let ghost before = v@;
        let e = add[k].clone();
        v.push(e);
        k = k + 1;
        assert(entries_v(v@) =~= entries_v(before).push(a[k - 1]));
        assert(entries_v(v@) =~= entries_v(old(v)@) + a.subrange(0, k as int));
    }
    assert(a.subrange(0, a.len() as int) =~= a);
}

impl DSL {
    /// Calls the function `name` on the elements at `inputs`, with `options`:
    /// the new elements go to the memory, the hints to the hints, and the
    /// indices of the new elements come back.
    pub fn execute_with_options(&mut self, name: &str, inputs: &[usize], options: &Options) -> (r: Result<Vec<usize>>)
        ensures
            match call_spec(old(self).functions@, old(self).mem(), name@, inputs@, options.entries@) {
                Err(e) => r == Err::<Vec<usize>, DslError>(e) && *final(self) == *old(self),
                Ok(o) => {
                    &&& r matches Ok(idxs) && idxs@ == fresh_indices(old(self).mem().len() as int, o.0.len())
                    &&& final(self).mem() == old(self).mem() + o.0
                    &&& final(self).hint_v() == old(self).hint_v() + o.1
                    &&& final(self).data_types@ == old(self).data_types@
                    &&& final(self).functions@ == old(self).functions@
                    &&& final(self).input_indices@ == old(self).input_indices@
                    &&& final(self).output_indices@ == old(self).output_indices@
                },
            },
    {
        let fi = match find_named(&self.functions, name) {
            None => {
                return Err(DslError::UnknownFunction);
            },
            Some(i) => i,
        };
        proof {
            let c = choose|i: int| first_named(old(self).functions@, name@, i);
            lemma_first_named_unique(old(self).functions@, name@, c, fi as int);
        }
        if inputs.len() != self.functions[fi].1.input.len() {
            return Err(DslError::WrongNumberOfInputs);
        }
        check_inputs(&self.memory, &self.functions[fi].1.input, inputs)?;
        let g = self.functions[fi].1.trace_generator;
        let out = run_generator(self, g, inputs, options)?;
        if !check_outputs(&out.new_elements, &self.functions[fi].1.output) {
            return Err(DslError::TypeMismatch);
        }
        let start = self.memory.len();
        append_entries(&mut self.memory, &out.new_elements);
        let end = self.memory.len();
        let mut idxs: Vec<usize> = Vec::new();
        let mut k: usize = start;
        while k < end
            invariant
                start <= k <= end,
                idxs@ == fresh_indices(start as int, (k - start) as nat),
            decreases end - k,
        {
            idxs.push(k);
            k = k + 1;
            assert(idxs@ =~= fresh_indices(start as int, (k - start) as nat));
        }
        append_entries(&mut self.hints, &out.new_hints);
        assert(idxs@ == fresh_indices(old(self).mem().len() as int, entries_v(out.new_elements@).len()));
        Ok(idxs)
    }

    /// Calls the function `name` on the elements at `inputs`, with no options.
    pub fn execute(&mut self, name: &str, inputs: &[usize]) -> (r: Result<Vec<usize>>)
        ensures
            match call_spec(old(self).functions@, old(self).mem(), name@, inputs@, Seq::empty()) {
                Err(e) => r == Err::<Vec<usize>, DslError>(e) && *final(self) == *old(self),
                Ok(o) => {
                    &&& r matches Ok(idxs) && idxs@ == fresh_indices(old(self).mem().len() as int, o.0.len())
                    &&& final(self).mem() == old(self).mem() + o.0
                    &&& final(self).hint_v() == old(self).hint_v() + o.1
                    &&& final(self).data_types@ == old(self).data_types@
                    &&& final(self).functions@ == old(self).functions@
                    &&& final(self).input_indices@ == old(self).input_indices@
                    &&& final(self).output_indices@ == old(self).output_indices@
                },
            },
    {
        let options = Options::new();
        assert(options.entries@ =~= Seq::<(String, OptionValue)>::empty());
        self.execute_with_options(name, inputs, &options)
    }
}

} // verus!
