use crate::dsl::building_blocks::m31::many_equalverify_spec;
use crate::dsl::building_blocks::qm31 as blocks;
use crate::dsl::building_blocks::qm31::{
    qm31_limbs_mul_spec, qm31_limbs_part_spec, qm31_part_spec, qm31_to_limbs_script,
    qm31_to_limbs_spec,
};
use crate::dsl::framework::{FunctionOutput, Result, DSL};
use crate::dsl::values::result_v;
use crate::script::Script;
use vstd::prelude::*;

verus! {

// Aliases of the degree-4 building blocks: `qm31_limbs_get_first` and
// `qm31_limbs_get_second` are `qm31_limbs_first` and `qm31_limbs_second`.

/// Splits the element at `inputs[0]` into sixteen byte limbs, also handed to
/// the script as hints.
pub fn qm31_to_limbs(dsl: &mut DSL, inputs: &[usize]) -> (r: Result<FunctionOutput>)
    requires
        inputs@.len() == 1,
    ensures
        *final(dsl) == *old(dsl),
        result_v(r) == qm31_to_limbs_spec(old(dsl).mem(), inputs@),
{
    blocks::qm31_to_limbs(dsl, inputs)
}

/// The script of `qm31_to_limbs`.
pub fn qm31_to_limbs_gadget(inputs: &[usize]) -> (r: Result<Script>)
    ensures
        r matches Ok(s) && s@ == qm31_to_limbs_script(),
{
    blocks::qm31_to_limbs_gadget(inputs)
}

/// Checks that the limbs at `inputs[0]` and `inputs[1]` are equal.
pub fn qm31_limbs_equalverify(dsl: &mut DSL, inputs: &[usize]) -> (r: Result<FunctionOutput>)
    requires
        inputs@.len() == 2,
    ensures
        *final(dsl) == *old(dsl),
        result_v(r) == many_equalverify_spec(old(dsl).mem(), inputs@),
{
    blocks::qm31_limbs_equalverify(dsl, inputs)
}

/// The script of `qm31_limbs_equalverify`: the sixteen limbs on top equal the
/// sixteen below them.
pub fn qm31_limbs_equalverify_gadget(inputs: &[usize]) -> (r: Result<Script>)
    ensures
        r matches Ok(s) && s@ == blocks::qm31_limbs_equalverify_script(),
{
    blocks::qm31_limbs_equalverify_gadget(inputs)
}

/// Multiplies the elements whose limbs are at `inputs[1]` and `inputs[2]`.
pub fn qm31_limbs_mul(dsl: &mut DSL, inputs: &[usize]) -> (r: Result<FunctionOutput>)
    requires
        inputs@.len() == 3,
    ensures
        *final(dsl) == *old(dsl),
        result_v(r) == qm31_limbs_mul_spec(old(dsl).mem(), inputs@),
{
    blocks::qm31_limbs_mul(dsl, inputs)
}

/// The limbs of the first half of the element whose limbs are at `inputs[0]`.
pub fn qm31_limbs_get_first(dsl: &mut DSL, inputs: &[usize]) -> (r: Result<FunctionOutput>)
    requires
        inputs@.len() == 1,
    ensures
        *final(dsl) == *old(dsl),
        result_v(r) == qm31_limbs_part_spec(old(dsl).mem(), inputs@, 0),
{
    blocks::qm31_limbs_first(dsl, inputs)
}

/// The script of `qm31_limbs_get_first`: copies eight limbs from depth
/// `r[0]`.
pub fn qm31_limbs_get_first_gadget(r: &[usize]) -> (res: Result<Script>)
    requires
        r@.len() >= 1,
        r@[0] <= i64::MAX,
    ensures
        res matches Ok(s) && s@ == blocks::qm31_limbs_first_script(r@[0] as int),
{
    blocks::qm31_limbs_first_gadget(r)
}

/// The limbs of the second half of the element whose limbs are at
/// `inputs[0]`.
pub fn qm31_limbs_get_second(dsl: &mut DSL, inputs: &[usize]) -> (r: Result<FunctionOutput>)
    requires
        inputs@.len() == 1,
    ensures
        *final(dsl) == *old(dsl),
        result_v(r) == qm31_limbs_part_spec(old(dsl).mem(), inputs@, 8),
{
    blocks::qm31_limbs_second(dsl, inputs)
}

/// The script of `qm31_limbs_get_second`: copies eight limbs from depth
/// `r[0] - 8`.
pub fn qm31_limbs_get_second_gadget(r: &[usize]) -> (res: Result<Script>)
    requires
        r@.len() >= 1,
        8 <= r@[0] <= i64::MAX,
    ensures
        res matches Ok(s) && s@ == blocks::qm31_limbs_second_script(r@[0] as int),
{
    blocks::qm31_limbs_second_gadget(r)
}

/// Checks that the elements at `inputs[0]` and `inputs[1]` are equal.
pub fn qm31_equalverify(dsl: &mut DSL, inputs: &[usize]) -> (r: Result<FunctionOutput>)
    requires
        inputs@.len() == 2,
    ensures
        *final(dsl) == *old(dsl),
        result_v(r) == many_equalverify_spec(old(dsl).mem(), inputs@),
{
    blocks::qm31_equalverify(dsl, inputs)
}

/// The first half `a` of `a + b u` at `inputs[0]`, as a complex element.
pub fn qm31_first(dsl: &mut DSL, inputs: &[usize]) -> (r: Result<FunctionOutput>)
    requires
        inputs@.len() == 1,
    ensures
        *final(dsl) == *old(dsl),
        result_v(r) == qm31_part_spec(old(dsl).mem(), inputs@, 2),
{
    blocks::qm31_first(dsl, inputs)
}

/// The script of `qm31_first`: copies two numbers from depth `r[0] - 2`.
pub fn qm31_first_gadget(r: &[usize]) -> (res: Result<Script>)
    requires
        r@.len() >= 1,
        2 <= r@[0] <= i64::MAX,
    ensures
        res matches Ok(s) && s@ == blocks::qm31_first_script(r@[0] as int),
{
    blocks::qm31_first_gadget(r)
}

/// The second half `b` of `a + b u` at `inputs[0]`, as a complex element.
pub fn qm31_second(dsl: &mut DSL, inputs: &[usize]) -> (r: Result<FunctionOutput>)
    requires
        inputs@.len() == 1,
    ensures
        *final(dsl) == *old(dsl),
        result_v(r) == qm31_part_spec(old(dsl).mem(), inputs@, 0),
{
    blocks::qm31_second(dsl, inputs)
}

/// The script of `qm31_second`: copies two numbers from depth `r[0]`.
pub fn qm31_second_gadget(r: &[usize]) -> (res: Result<Script>)
    requires
        r@.len() >= 1,
        r@[0] <= i64::MAX,
    ensures
        res matches Ok(s) && s@ == blocks::qm31_second_script(r@[0] as int),
{
    blocks::qm31_second_gadget(r)
}

} // verus!
