use crate::dsl::building_blocks::m31 as blocks;
use crate::dsl::building_blocks::m31::{m31_to_limbs_script, m31_to_limbs_spec, many_equalverify_spec};
use crate::dsl::framework::{FunctionOutput, Result, DSL};
use crate::dsl::values::result_v;
use crate::script::Script;
use vstd::prelude::*;

verus! {

// Limb-level aliases of the building blocks; here `m31_equalverify` compares
// two limb sequences, not two numbers.

/// Splits the number at `inputs[0]` into four byte limbs, handed to the
/// script as hints too.
pub fn m31_to_limbs(dsl: &mut DSL, inputs: &[usize]) -> (r: Result<FunctionOutput>)
    requires
        inputs@.len() == 1,
    ensures
        *final(dsl) == *old(dsl),
        result_v(r) == m31_to_limbs_spec(old(dsl).mem(), inputs@),
{
    blocks::m31_to_limbs(dsl, inputs)
}

/// The script of `m31_to_limbs`: reads four limbs from the hints, checks that
/// they recompose to the number on the stack, and leaves them on the stack.
pub fn m31_to_limbs_gadget(inputs: &[usize]) -> (r: Result<Script>)
    ensures
        r matches Ok(s) && s@ == m31_to_limbs_script(),
{
    blocks::m31_to_limbs_gadget(inputs)
}

/// Checks that the limb sequences at `inputs[0]` and `inputs[1]` are equal.
pub fn m31_equalverify(dsl: &mut DSL, inputs: &[usize]) -> (r: Result<FunctionOutput>)
    requires
        inputs@.len() == 2,
    ensures
        *final(dsl) == *old(dsl),
        result_v(r) == many_equalverify_spec(old(dsl).mem(), inputs@),
{
    blocks::many_equalverify(dsl, inputs)
}

/// The script of `m31_equalverify`: the four limbs on top equal the four
/// below them.
pub fn m31_equalverify_gadget(inputs: &[usize]) -> (r: Result<Script>)
    ensures
        r matches Ok(s) && s@ == blocks::m31_limbs_equalverify_script(),
{
    blocks::m31_limbs_equalverify_gadget(inputs)
}

} // verus!
