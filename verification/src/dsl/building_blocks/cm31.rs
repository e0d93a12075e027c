use crate::dsl::framework::{
    entries_v, many_at, num_at, DslError, Element, ElementV, EntryV, FunctionOutput, MemoryEntry,
    OutputV, Result, DSL,
};
use crate::dsl::values::{
    cm31_at, cm31_elem, get_cm31, get_m31, i32_limbs, m31_at, no_entries, one_entry, output,
    reformat_cm31_to_dsl_element, result_v, split_i32_limbs,
};
use crate::field::cm31 as fcm;
use crate::field::cm31::{cm31_inverse_with, cm31_mul, cm31_norm, cm31_zero, CM31};
use crate::field::m31::{add_m, inv_m};
use crate::limbs::{
    cm31_limbs, cm31_of_limbs, convert_cm31_from_limbs, convert_cm31_to_limbs, valid_cm31_limbs,
};
use crate::dsl::building_blocks::m31::{
    m31_to_limbs_script, many_equalverify, many_equalverify_spec, mul_quotient, push_m31_to_limbs,
    push_quotient, quotient_entry,
};
use crate::script::{int_push, limbs_equalverify_script, picks, Script, OP_ROLL, OP_SWAP};
use crate::dsl::functions_ready;
use crate::dsl::compose::{
    call_cm31_from_real_and_imag, call_cm31_imag, call_cm31_real, call_m31_limbs_mul,
    call_m31_to_limbs, cm31_entry, cm31_valid_at, cm31_value, indices_in, m31_limbs_valid_at, nums,
    table_at,
};
use crate::dsl::values::lemma_i32_limbs_valid;
use crate::field::cm31::cm31_mul_m31;
use crate::field::m31::{M31, P};
use crate::limbs::{limbs_value, m31_limbs, recompose_cm31_script, DecomposeGadget};
use crate::script_run::{
    complete, lemma_complete_append, lemma_picks_from_element, lemma_run_limbs_equalverify, lemma_run_roll_small,
    lemma_run_then,
    num_items, run, Item, Stacks,
};
use crate::dsl::building_blocks::m31::{lemma_m31_to_limbs_script_complete, lemma_m31_to_limbs_script_splits};
use vstd::prelude::*;

verus! {

/// Splits the complex element `[imag, real]` at `inputs[0]` into eight byte
/// limbs, those of the real part first; the limbs are also hints.
pub open spec fn cm31_to_limbs_spec(mem: Seq<EntryV>, inputs: Seq<usize>) -> Result<OutputV> {
    match many_at(mem, inputs[0] as int) {
        Err(e) => Err(e),
        Ok(n) => if n.len() != 2 {
            Err(DslError::MalformedElement)
        } else {
            let entry = ("cm31_limbs"@, ElementV::ManyNum(i32_limbs(n[1]) + i32_limbs(n[0])));
            output(seq![entry], seq![entry])
        },
    }
}

/// The limbs at index `i`, if they stand for a complex element.
pub open spec fn cm31_limbs_at(mem: Seq<EntryV>, i: int) -> Result<Seq<i32>> {
    match many_at(mem, i) {
        Err(e) => Err(e),
        Ok(a) => if valid_cm31_limbs(a) {
            Ok(a)
        } else {
            Err(DslError::MalformedElement)
        },
    }
}

/// The three reduction hints, of type `t`, of the product of `a` and `b`: the
/// quotients of the product of the sums of the parts, of the imaginary parts
/// and of the real parts.
#[verifier::opaque]
pub open spec fn cm31_mul_quotients(t: Seq<char>, a: CM31, b: CM31) -> Seq<EntryV> {
    seq![
        quotient_entry(t, mul_quotient(add_m(a.0, a.1).val(), add_m(b.0, b.1).val())),
        quotient_entry(t, mul_quotient(a.1.val(), b.1.val())),
        quotient_entry(t, mul_quotient(a.0.val(), b.0.val())),
    ]
}

/// The hint of type `t` that holds the quotient `floor(a b / P)` of the
/// product of two base field elements.
pub open spec fn product_quotient_hint(t: Seq<char>, a: M31, b: M31) -> EntryV {
    (t, ElementV::Num(((a.val() * b.val()) / (P as int)) as i32))
}

/// The three hints of a complex product `a b`, by position: the quotient of
/// the product of the sums of real and imaginary parts, then that of the
/// imaginary parts, then that of the real parts.
pub proof fn lemma_cm31_mul_hint_layout(t: Seq<char>, a: CM31, b: CM31)
    ensures
        cm31_mul_quotients(t, a, b).len() == 3,
        cm31_mul_quotients(t, a, b)[0] == product_quotient_hint(t, add_m(a.0, a.1), add_m(b.0, b.1)),
        cm31_mul_quotients(t, a, b)[1] == product_quotient_hint(t, a.1, b.1),
        cm31_mul_quotients(t, a, b)[2] == product_quotient_hint(t, a.0, b.0),
{
    reveal(cm31_mul_quotients);
}

/// There are three reduction hints.
pub proof fn lemma_cm31_mul_quotients_len()
    ensures
        forall|t: Seq<char>, a: CM31, b: CM31| #[trigger] cm31_mul_quotients(t, a, b).len() == 3,
{
    reveal(cm31_mul_quotients);
}

/// Pushes the three reduction hints of the product of `a` and `b`.
pub fn push_cm31_quotients(hints: &mut Vec<MemoryEntry>, t: &str, a: CM31, b: CM31)
    requires
        a.wf(),
        b.wf(),
    ensures
        entries_v(final(hints)@) == entries_v(old(hints)@) + cm31_mul_quotients(t@, a, b),
{
    let ghost h0 = entries_v(hints@);
    let sa = a.0.add(a.1);
    let sb = b.0.add(b.1);
    push_quotient(hints, t, sa, sb);
    push_quotient(hints, t, a.1, b.1);
    push_quotient(hints, t, a.0, b.0);
    reveal(cm31_mul_quotients);
    assert(entries_v(hints@) =~= h0 + cm31_mul_quotients(t@, a, b));
}

/// Multiplies the complex elements whose limbs are at `inputs[1]` and
/// `inputs[2]` (`inputs[0]` is the table); the reduction hints of the product
/// follow.
pub open spec fn cm31_limbs_mul_spec(mem: Seq<EntryV>, inputs: Seq<usize>) -> Result<OutputV> {
    match (cm31_limbs_at(mem, inputs[1] as int), cm31_limbs_at(mem, inputs[2] as int)) {
        (Err(e), _) => Err(e),
        (Ok(_), Err(e)) => Err(e),
        (Ok(a), Ok(b)) => output(
            seq![
                ("cm31"@, ElementV::ManyNum(cm31_elem(cm31_mul(cm31_of_limbs(a), cm31_of_limbs(b))))),
            ],
            cm31_mul_quotients("m31"@, cm31_of_limbs(a), cm31_of_limbs(b)),
        ),
    }
}

/// Inverts the complex element whose limbs are at `inputs[1]`; the limbs of
/// the inverse are the output and a hint, followed by the reduction hints of
/// the product of the element and its inverse; zero has no inverse.
pub open spec fn cm31_limbs_inverse_spec(mem: Seq<EntryV>, inputs: Seq<usize>) -> Result<OutputV> {
    match cm31_limbs_at(mem, inputs[1] as int) {
        Err(e) => Err(e),
        Ok(a) => {
            let c = cm31_of_limbs(a);
            if c == cm31_zero() {
                Err(DslError::NotInvertible)
            } else {
                let inv = cm31_inverse_with(c, inv_m(cm31_norm(c)));
                let entry = ("cm31_limbs"@, ElementV::ManyNum(cm31_limbs(inv)));
                output(seq![entry], seq![entry] + cm31_mul_quotients("m31"@, c, inv))
            }
        },
    }
}

/// Puts the limbs at `inputs[0]` together into the complex element.
pub open spec fn cm31_recompose_spec(mem: Seq<EntryV>, inputs: Seq<usize>) -> Result<OutputV> {
    match cm31_limbs_at(mem, inputs[0] as int) {
        Err(e) => Err(e),
        Ok(a) => output(seq![("cm31"@, ElementV::ManyNum(cm31_elem(cm31_of_limbs(a))))], seq![]),
    }
}

/// Applies `f` to the complex elements at `inputs[0]` and `inputs[1]`.
pub open spec fn cm31_binop_spec(
    mem: Seq<EntryV>,
    inputs: Seq<usize>,
    f: spec_fn(CM31, CM31) -> CM31,
) -> Result<OutputV> {
    match (cm31_at(mem, inputs[0] as int), cm31_at(mem, inputs[1] as int)) {
        (Err(e), _) => Err(e),
        (Ok(_), Err(e)) => Err(e),
        (Ok(a), Ok(b)) => output(seq![("cm31"@, ElementV::ManyNum(cm31_elem(f(a, b))))], seq![]),
    }
}

/// Adds the complex elements at `inputs[0]` and `inputs[1]`.
pub open spec fn cm31_add_spec(mem: Seq<EntryV>, inputs: Seq<usize>) -> Result<OutputV> {
    cm31_binop_spec(mem, inputs, |a: CM31, b: CM31| fcm::cm31_add(a, b))
}

/// Subtracts the complex element at `inputs[1]` from the one at `inputs[0]`.
pub open spec fn cm31_sub_spec(mem: Seq<EntryV>, inputs: Seq<usize>) -> Result<OutputV> {
    cm31_binop_spec(mem, inputs, |a: CM31, b: CM31| fcm::cm31_sub(a, b))
}

/// Adds the base field element at `inputs[1]` to the complex element at
/// `inputs[0]`.
pub open spec fn cm31_add_m31_spec(mem: Seq<EntryV>, inputs: Seq<usize>) -> Result<OutputV> {
    match (cm31_at(mem, inputs[0] as int), m31_at(mem, inputs[1] as int)) {
        (Err(e), _) => Err(e),
        (Ok(_), Err(e)) => Err(e),
        (Ok(a), Ok(b)) => output(
            seq![("cm31"@, ElementV::ManyNum(cm31_elem(fcm::cm31_add_m31(a, b))))],
            seq![],
        ),
    }
}

/// Copies the limbs `lo..lo + 4` of the complex limbs at `inputs[0]`.
pub open spec fn cm31_limbs_part_spec(mem: Seq<EntryV>, inputs: Seq<usize>, lo: int) -> Result<OutputV> {
    match many_at(mem, inputs[0] as int) {
        Err(e) => Err(e),
        Ok(a) => if a.len() != 8 {
            Err(DslError::MalformedElement)
        } else {
            output(seq![("m31_limbs"@, ElementV::ManyNum(a.subrange(lo, lo + 4)))], seq![])
        },
    }
}

/// Copies number `k` of the complex element `[imag, real]` at `inputs[0]`.
pub open spec fn cm31_part_spec(mem: Seq<EntryV>, inputs: Seq<usize>, k: int) -> Result<OutputV> {
    match many_at(mem, inputs[0] as int) {
        Err(e) => Err(e),
        Ok(a) => if a.len() != 2 {
            Err(DslError::MalformedElement)
        } else {
            output(seq![("m31"@, ElementV::Num(a[k]))], seq![])
        },
    }
}

/// Makes the complex element with the real part at `inputs[0]` and the
/// imaginary part at `inputs[1]`.
pub open spec fn cm31_from_real_and_imag_spec(mem: Seq<EntryV>, inputs: Seq<usize>) -> Result<OutputV> {
    match (num_at(mem, inputs[0] as int), num_at(mem, inputs[1] as int)) {
        (Err(e), _) => Err(e),
        (Ok(_), Err(e)) => Err(e),
        (Ok(a), Ok(b)) => output(seq![("cm31"@, ElementV::ManyNum(seq![b, a]))], seq![]),
    }
}

/// Splits a complex element into limbs.
pub fn cm31_to_limbs(dsl: &mut DSL, inputs: &[usize]) -> (r: Result<FunctionOutput>)
    requires
        inputs@.len() == 1,
    ensures
        *final(dsl) == *old(dsl),
        result_v(r) == cm31_to_limbs_spec(old(dsl).mem(), inputs@),
{
    let num = dsl.get_many_num(inputs[0])?;
    if num.len() != 2 {
        return Err(DslError::MalformedElement);
    }
    let mut limbs = split_i32_limbs(num[1]);
    let mut imag = split_i32_limbs(num[0]);
    limbs.append(&mut imag);
    let new_entry = MemoryEntry::new("cm31_limbs", Element::ManyNum(limbs));
    let hint = new_entry.clone();
    Ok(FunctionOutput { new_elements: one_entry(new_entry), new_hints: one_entry(hint) })
}

/// Reads limbs that stand for a complex element.
fn get_cm31_limbs<'a>(dsl: &'a DSL, idx: usize) -> (r: Result<&'a [i32]>)
    ensures
        match r {
            Ok(a) => cm31_limbs_at(dsl.mem(), idx as int) == Ok::<Seq<i32>, DslError>(a@),
            Err(e) => cm31_limbs_at(dsl.mem(), idx as int) == Err::<Seq<i32>, DslError>(e),
        },
{
    let a = dsl.get_many_num(idx)?;
    if !is_valid_cm31_limbs(a) {
        return Err(DslError::MalformedElement);
    }
    Ok(a)
}

/// Checks the format of the limbs of a complex element.
pub fn is_valid_cm31_limbs(a: &[i32]) -> (b: bool)
    ensures
        b == valid_cm31_limbs(a@),
{
    if a.len() != 8 {
        return false;
    }
    let lo = [a[0], a[1], a[2], a[3]];
    let hi = [a[4], a[5], a[6], a[7]];
    assert(lo@ =~= a@.subrange(0, 4));
    assert(hi@ =~= a@.subrange(4, 8));
    crate::dsl::building_blocks::m31::is_valid_m31_limbs(&lo)
        && crate::dsl::building_blocks::m31::is_valid_m31_limbs(&hi)
}

/// Multiplies two complex elements given by their limbs.
pub fn cm31_limbs_mul(dsl: &mut DSL, inputs: &[usize]) -> (r: Result<FunctionOutput>)
    requires
        inputs@.len() == 3,
    ensures
        *final(dsl) == *old(dsl),
        result_v(r) == cm31_limbs_mul_spec(old(dsl).mem(), inputs@),
{
    let a = get_cm31_limbs(dsl, inputs[1])?;
    let b = get_cm31_limbs(dsl, inputs[2])?;
    let a_cm31 = convert_cm31_from_limbs(a);
    let b_cm31 = convert_cm31_from_limbs(b);
    let expected = a_cm31.mul(b_cm31);
    let mut new_hints = no_entries();
    push_cm31_quotients(&mut new_hints, "m31", a_cm31, b_cm31);
    Ok(FunctionOutput {
        new_elements: one_entry(
            MemoryEntry::new("cm31", Element::ManyNum(reformat_cm31_to_dsl_element(expected))),
        ),
        new_hints,
    })
}

/// Inverts a complex element given by its limbs. Zero has no inverse: it is
/// refused with `NotInvertible`, so the function never panics on it.
pub fn cm31_limbs_inverse(dsl: &mut DSL, inputs: &[usize]) -> (r: Result<FunctionOutput>)
    requires
        inputs@.len() == 2,
    ensures
        *final(dsl) == *old(dsl),
        result_v(r) == cm31_limbs_inverse_spec(old(dsl).mem(), inputs@),
        cm31_limbs_at(old(dsl).mem(), inputs@[1] as int) matches Ok(a) && cm31_of_limbs(a) == cm31_zero()
            ==> r == Err::<FunctionOutput, DslError>(DslError::NotInvertible),
{
    let a = get_cm31_limbs(dsl, inputs[1])?;
    let a_val = convert_cm31_from_limbs(a);
    let inv = match a_val.inverse() {
        None => {
            return Err(DslError::NotInvertible);
        },
        Some(inv) => inv,
    };
    let inv_limbs = convert_cm31_to_limbs(inv);
    let mut lv = Vec::new();
    let mut i: usize = 0;
    while i < 8
        invariant
            0 <= i <= 8,
            inv_limbs@.len() == 8,
            lv@ == inv_limbs@.subrange(0, i as int),
        decreases 8 - i,
    {
        lv.push(inv_limbs[i]);
        i = i + 1;
        assert(lv@ =~= inv_limbs@.subrange(0, i as int));
    }
    assert(lv@ =~= inv_limbs@);
    let output_entry = MemoryEntry::new("cm31_limbs", Element::ManyNum(lv));
    let mut new_hints = one_entry(output_entry.clone());
    push_cm31_quotients(&mut new_hints, "m31", a_val, inv);
    Ok(FunctionOutput { new_elements: one_entry(output_entry), new_hints })
}

/// Puts limbs together into a complex element.
pub fn cm31_recompose(dsl: &mut DSL, inputs: &[usize]) -> (r: Result<FunctionOutput>)
    requires
        inputs@.len() == 1,
    ensures
        *final(dsl) == *old(dsl),
        result_v(r) == cm31_recompose_spec(old(dsl).mem(), inputs@),
{
    let a = get_cm31_limbs(dsl, inputs[0])?;
    let c = convert_cm31_from_limbs(a);
    Ok(FunctionOutput {
        new_elements: one_entry(
            MemoryEntry::new("cm31", Element::ManyNum(reformat_cm31_to_dsl_element(c))),
        ),
        new_hints: no_entries(),
    })
}

/// Adds two complex elements.
pub fn cm31_add(dsl: &mut DSL, inputs: &[usize]) -> (r: Result<FunctionOutput>)
    requires
        inputs@.len() == 2,
    ensures
        *final(dsl) == *old(dsl),
        result_v(r) == cm31_add_spec(old(dsl).mem(), inputs@),
{
    let a = get_cm31(dsl, inputs[0])?;
    let b = get_cm31(dsl, inputs[1])?;
    let res = a.add(b);
    Ok(FunctionOutput {
        new_elements: one_entry(
            MemoryEntry::new("cm31", Element::ManyNum(reformat_cm31_to_dsl_element(res))),
        ),
        new_hints: no_entries(),
    })
}

/// Subtracts two complex elements.
pub fn cm31_sub(dsl: &mut DSL, inputs: &[usize]) -> (r: Result<FunctionOutput>)
    requires
        inputs@.len() == 2,
    ensures
        *final(dsl) == *old(dsl),
        result_v(r) == cm31_sub_spec(old(dsl).mem(), inputs@),
{
    let a = get_cm31(dsl, inputs[0])?;
    let b = get_cm31(dsl, inputs[1])?;
    let res = a.sub(b);
    Ok(FunctionOutput {
        new_elements: one_entry(
            MemoryEntry::new("cm31", Element::ManyNum(reformat_cm31_to_dsl_element(res))),
        ),
        new_hints: no_entries(),
    })
}

/// Adds a base field element to a complex element.
pub fn cm31_add_m31(dsl: &mut DSL, inputs: &[usize]) -> (r: Result<FunctionOutput>)
    requires
        inputs@.len() == 2,
    ensures
        *final(dsl) == *old(dsl),
        result_v(r) == cm31_add_m31_spec(old(dsl).mem(), inputs@),
{
    let a = get_cm31(dsl, inputs[0])?;
    let b = get_m31(dsl, inputs[1])?;
    let res = a.add_m31(b);
    Ok(FunctionOutput {
        new_elements: one_entry(
            MemoryEntry::new("cm31", Element::ManyNum(reformat_cm31_to_dsl_element(res))),
        ),
        new_hints: no_entries(),
    })
}

/// Copies limbs `lo..lo + 4` of complex limbs.
fn cm31_limbs_part(dsl: &mut DSL, inputs: &[usize], lo: usize) -> (r: Result<FunctionOutput>)
    requires
        inputs@.len() == 1,
        lo == 0 || lo == 4,
    ensures
        *final(dsl) == *old(dsl),
        result_v(r) == cm31_limbs_part_spec(old(dsl).mem(), inputs@, lo as int),
{
    let a = dsl.get_many_num(inputs[0])?;
    if a.len() != 8 {
        return Err(DslError::MalformedElement);
    }
    let mut v = Vec::new();
    v.push(a[lo]);
    v.push(a[lo + 1]);
    v.push(a[lo + 2]);
    v.push(a[lo + 3]);
    assert(v@ =~= a@.subrange(lo as int, lo + 4));
    Ok(FunctionOutput {
        new_elements: one_entry(MemoryEntry::new("m31_limbs", Element::ManyNum(v))),
        new_hints: no_entries(),
    })
}

/// The script of `cm31_recompose`: puts the eight limbs on top together into
/// the two numbers of the element.
pub fn cm31_recompose_gadget(_inputs: &[usize]) -> (r: Result<Script>)
    ensures
        r matches Ok(s) && s@ == recompose_cm31_script(),
{
    Ok(DecomposeGadget::recompose_cm31())
}

/// Checks that the limbs at `inputs[0]` and `inputs[1]` are equal.
pub fn cm31_limbs_equalverify(dsl: &mut DSL, inputs: &[usize]) -> (r: Result<FunctionOutput>)
    requires
        inputs@.len() == 2,
    ensures
        *final(dsl) == *old(dsl),
        result_v(r) == many_equalverify_spec(old(dsl).mem(), inputs@),
{
    many_equalverify(dsl, inputs)
}

/// Checks that the complex elements at `inputs[0]` and `inputs[1]` are equal.
pub fn cm31_equalverify(dsl: &mut DSL, inputs: &[usize]) -> (r: Result<FunctionOutput>)
    requires
        inputs@.len() == 2,
    ensures
        *final(dsl) == *old(dsl),
        result_v(r) == many_equalverify_spec(old(dsl).mem(), inputs@),
{
    many_equalverify(dsl, inputs)
}

/// The limbs of the real part of complex limbs.
pub fn cm31_limbs_real(dsl: &mut DSL, inputs: &[usize]) -> (r: Result<FunctionOutput>)
    requires
        inputs@.len() == 1,
    ensures
        *final(dsl) == *old(dsl),
        result_v(r) == cm31_limbs_part_spec(old(dsl).mem(), inputs@, 0),
{
    cm31_limbs_part(dsl, inputs, 0)
}

/// The limbs of the imaginary part of complex limbs.
pub fn cm31_limbs_imag(dsl: &mut DSL, inputs: &[usize]) -> (r: Result<FunctionOutput>)
    requires
        inputs@.len() == 1,
    ensures
        *final(dsl) == *old(dsl),
        result_v(r) == cm31_limbs_part_spec(old(dsl).mem(), inputs@, 4),
{
    cm31_limbs_part(dsl, inputs, 4)
}

/// Copies number `k` of a complex element `[imag, real]`.
fn cm31_part(dsl: &mut DSL, inputs: &[usize], k: usize) -> (r: Result<FunctionOutput>)
    requires
        inputs@.len() == 1,
        k < 2,
    ensures
        *final(dsl) == *old(dsl),
        result_v(r) == cm31_part_spec(old(dsl).mem(), inputs@, k as int),
{
    let a = dsl.get_many_num(inputs[0])?;
    if a.len() != 2 {
        return Err(DslError::MalformedElement);
    }
    Ok(FunctionOutput {
        new_elements: one_entry(MemoryEntry::new("m31", Element::Num(a[k]))),
        new_hints: no_entries(),
    })
}

/// The real part of a complex element.
pub fn cm31_real(dsl: &mut DSL, inputs: &[usize]) -> (r: Result<FunctionOutput>)
    requires
        inputs@.len() == 1,
    ensures
        *final(dsl) == *old(dsl),
        result_v(r) == cm31_part_spec(old(dsl).mem(), inputs@, 1),
{
    cm31_part(dsl, inputs, 1)
}

/// The imaginary part of a complex element.
pub fn cm31_imag(dsl: &mut DSL, inputs: &[usize]) -> (r: Result<FunctionOutput>)
    requires
        inputs@.len() == 1,
    ensures
        *final(dsl) == *old(dsl),
        result_v(r) == cm31_part_spec(old(dsl).mem(), inputs@, 0),
{
    cm31_part(dsl, inputs, 0)
}

/// Makes a complex element from its real and imaginary parts.
pub fn cm31_from_real_and_imag(dsl: &mut DSL, inputs: &[usize]) -> (r: Result<FunctionOutput>)
    requires
        inputs@.len() == 2,
    ensures
        *final(dsl) == *old(dsl),
        result_v(r) == cm31_from_real_and_imag_spec(old(dsl).mem(), inputs@),
{
    let a = dsl.get_num(inputs[0])?;
    let b = dsl.get_num(inputs[1])?;
    let mut v = Vec::new();
    v.push(b);
    v.push(a);
    assert(v@ =~= seq![b, a]);
    Ok(FunctionOutput {
        new_elements: one_entry(MemoryEntry::new("cm31", Element::ManyNum(v))),
        new_hints: no_entries(),
    })
}


/// The script that splits a complex element into limbs: the imaginary part
/// on top is split, the real part rolled over it and split too.
pub open spec fn cm31_to_limbs_script() -> Seq<u8> {
    m31_to_limbs_script() + int_push(4) + seq![OP_ROLL] + m31_to_limbs_script()
}

/// The complex split script is made of whole instructions.
pub proof fn lemma_cm31_to_limbs_script_complete()
    ensures
        complete(cm31_to_limbs_script()),
{
    let e = Seq::<Item>::empty();
    let four = seq![Item::Num(0), Item::Num(0), Item::Num(0), Item::Num(0)];
    lemma_m31_to_limbs_script_complete();
    lemma_run_roll_small(4, e, Item::Num(0), four, e);
    let a = m31_to_limbs_script();
    let p4 = int_push(4) + seq![OP_ROLL];
    lemma_complete_append(p4, a);
    lemma_complete_append(a, p4 + a);
    assert(cm31_to_limbs_script() =~= a + (p4 + a));
}

/// Run on a complex element `[imag, real]` (real on top) with the bytes of
/// the real part, then those of the imaginary part, as hints under the stack,
/// the script of `cm31_to_limbs` checks them and leaves, in place of the
/// element and the hints, the eight bytes in the order of the function's
/// output.
#[verifier::spinoff_prover]
pub proof fn lemma_cm31_to_limbs_script_splits(re: i32, im: i32, rest: Seq<Item>, alt: Seq<Item>)
    requires
        0 <= re,
        0 <= im,
    ensures
        run(
            cm31_to_limbs_script(),
            Stacks {
                main: num_items(i32_limbs(re) + i32_limbs(im)) + rest.push(Item::Num(im as int)).push(Item::Num(re as int)),
                alt,
            },
        ) == Some(Stacks { main: rest + num_items(i32_limbs(re) + i32_limbs(im)), alt }),
{
    let lr = num_items(i32_limbs(re));
    let li = num_items(i32_limbs(im));
    let a = m31_to_limbs_script();
    let p4 = int_push(4) + seq![OP_ROLL];
    assert(num_items(i32_limbs(re) + i32_limbs(im)) =~= lr + li);
    assert(cm31_to_limbs_script() =~= a + (p4 + a));
    lemma_m31_to_limbs_script_complete();
    let r1 = li + rest.push(Item::Num(im as int));
    assert(lr + li + rest.push(Item::Num(im as int)).push(Item::Num(re as int)) =~= lr + r1.push(Item::Num(re as int)));
    lemma_m31_to_limbs_script_splits(re, r1, alt);
    lemma_run_then(a, p4 + a, Stacks { main: lr + r1.push(Item::Num(re as int)), alt }, Stacks { main: r1 + lr, alt });
    assert(r1 + lr =~= (li + rest).push(Item::Num(im as int)) + lr);
    assert(lr.len() == 4);
    lemma_run_roll_small(4, li + rest, Item::Num(im as int), lr, alt);
    lemma_run_then(p4, a, Stacks { main: (li + rest).push(Item::Num(im as int)) + lr, alt }, Stacks { main: (li + rest) + lr.push(Item::Num(im as int)), alt });
    assert((li + rest) + lr.push(Item::Num(im as int)) =~= li + (rest + lr).push(Item::Num(im as int)));
    lemma_m31_to_limbs_script_splits(im, rest + lr, alt);
    assert(rest + lr + li =~= rest + (lr + li));
}

/// Appends the script that splits a complex element into limbs.
pub fn push_cm31_to_limbs(s: &mut Script)
    ensures
        final(s)@ == old(s)@ + cm31_to_limbs_script(),
{
    let ghost s0 = s@;
    push_m31_to_limbs(s);
    s.push_int(4);
    s.push_opcode(OP_ROLL);
    push_m31_to_limbs(s);
    assert(s@ =~= s0 + cm31_to_limbs_script());
}

/// The script of `cm31_to_limbs`.
pub fn cm31_to_limbs_gadget(_inputs: &[usize]) -> (r: Result<Script>)
    ensures
        r matches Ok(s) && s@ == cm31_to_limbs_script(),
{
    let mut s = Script::new();
    push_cm31_to_limbs(&mut s);
    assert(s@ =~= cm31_to_limbs_script());
    Ok(s)
}

/// The script of `cm31_limbs_equalverify`: eight limbs against eight.
pub fn cm31_limbs_equalverify_gadget(_inputs: &[usize]) -> (r: Result<Script>)
    ensures
        r matches Ok(s) && s@ == cm31_limbs_equalverify_script(),
{
    let mut s = Script::new();
    s.push_limbs_equalverify(8);
    assert(s@ =~= limbs_equalverify_script(8));
    Ok(s)
}

/// The script of `cm31_limbs_real` for an element whose deepest item lies at
/// `depth`.
pub open spec fn cm31_limbs_real_script(depth: int) -> Seq<u8> {
    picks(depth, 4)
}

/// Run with the limbs `e` of a complex element on the stack, the script
/// copies the four limbs of its real part to the top.
pub proof fn lemma_cm31_limbs_real_script(below: Seq<Item>, e: Seq<Item>, above: Seq<Item>, alt: Seq<Item>)
    requires
        e.len() == 8,
        (below + e + above).len() <= i64::MAX,
    ensures
        run(cm31_limbs_real_script(above.len() + 7int), Stacks { main: below + e + above, alt }) == Some(
            Stacks { main: below + e + above + e.subrange(0, 4), alt },
        ),
{
    lemma_picks_from_element(below, e, above, 0, 4, alt);
}

/// The script of `cm31_limbs_real`: copies the four limbs of the real part,
/// whose deepest limb is `r[0]` items down.
pub fn cm31_limbs_real_gadget(r: &[usize]) -> (res: Result<Script>)
    requires
        r@.len() >= 1,
        r@[0] <= i64::MAX,
    ensures
        res matches Ok(s) && s@ == cm31_limbs_real_script(r@[0] as int),
{
    let mut s = Script::new();
    s.push_picks(r[0] as i64, 4);
    assert(s@ =~= picks(r@[0] as int, 4));
    Ok(s)
}

/// The script of `cm31_limbs_imag` for an element whose deepest item lies at
/// `depth`.
pub open spec fn cm31_limbs_imag_script(depth: int) -> Seq<u8> {
    picks(depth - 4, 4)
}

/// Run with the limbs `e` of a complex element on the stack, the script
/// copies the four limbs of its imaginary part to the top.
pub proof fn lemma_cm31_limbs_imag_script(below: Seq<Item>, e: Seq<Item>, above: Seq<Item>, alt: Seq<Item>)
    requires
        e.len() == 8,
        (below + e + above).len() <= i64::MAX,
    ensures
        run(cm31_limbs_imag_script(above.len() + 7int), Stacks { main: below + e + above, alt }) == Some(
            Stacks { main: below + e + above + e.subrange(4, 8), alt },
        ),
{
    lemma_picks_from_element(below, e, above, 4, 4, alt);
}

/// The script of `cm31_limbs_imag`: copies the four limbs of the imaginary
/// part, four items above the real part.
pub fn cm31_limbs_imag_gadget(r: &[usize]) -> (res: Result<Script>)
    requires
        r@.len() >= 1,
        4 <= r@[0] <= i64::MAX,
    ensures
        res matches Ok(s) && s@ == cm31_limbs_imag_script(r@[0] as int),
{
    let mut s = Script::new();
    s.push_picks((r[0] - 4) as i64, 4);
    assert(s@ =~= picks(r@[0] - 4, 4));
    Ok(s)
}

/// The script of `cm31_real` for an element whose deepest item lies at
/// `depth`.
pub open spec fn cm31_real_script(depth: int) -> Seq<u8> {
    picks(depth - 1, 1)
}

/// Run with a complex element `e = [imag, real]` on the stack, the script
/// copies its real part to the top.
pub proof fn lemma_cm31_real_script(below: Seq<Item>, e: Seq<Item>, above: Seq<Item>, alt: Seq<Item>)
    requires
        e.len() == 2,
        (below + e + above).len() <= i64::MAX,
    ensures
        run(cm31_real_script(above.len() + 1int), Stacks { main: below + e + above, alt }) == Some(
            Stacks { main: below + e + above + e.subrange(1, 2), alt },
        ),
{
    lemma_picks_from_element(below, e, above, 1, 1, alt);
}

/// The script of `cm31_real`: copies the real part, one item above the
/// element's position `r[0]`.
pub fn cm31_real_gadget(r: &[usize]) -> (res: Result<Script>)
    requires
        r@.len() >= 1,
        1 <= r@[0] <= i64::MAX,
    ensures
        res matches Ok(s) && s@ == cm31_real_script(r@[0] as int),
{
    let mut s = Script::new();
    s.push_picks((r[0] - 1) as i64, 1);
    assert(s@ =~= picks(r@[0] - 1, 1));
    Ok(s)
}

/// The script of `cm31_imag` for an element whose deepest item lies at
/// `depth`.
pub open spec fn cm31_imag_script(depth: int) -> Seq<u8> {
    picks(depth, 1)
}

/// Run with a complex element `e = [imag, real]` on the stack, the script
/// copies its imaginary part to the top.
pub proof fn lemma_cm31_imag_script(below: Seq<Item>, e: Seq<Item>, above: Seq<Item>, alt: Seq<Item>)
    requires
        e.len() == 2,
        (below + e + above).len() <= i64::MAX,
    ensures
        run(cm31_imag_script(above.len() + 1int), Stacks { main: below + e + above, alt }) == Some(
            Stacks { main: below + e + above + e.subrange(0, 1), alt },
        ),
{
    lemma_picks_from_element(below, e, above, 0, 1, alt);
}

/// The script of `cm31_imag`: copies the imaginary part at position `r[0]`.
pub fn cm31_imag_gadget(r: &[usize]) -> (res: Result<Script>)
    requires
        r@.len() >= 1,
        r@[0] <= i64::MAX,
    ensures
        res matches Ok(s) && s@ == cm31_imag_script(r@[0] as int),
{
    let mut s = Script::new();
    s.push_picks(r[0] as i64, 1);
    assert(s@ =~= picks(r@[0] as int, 1));
    Ok(s)
}

/// The script of `cm31_limbs_equalverify`.
pub open spec fn cm31_limbs_equalverify_script() -> Seq<u8> {
    limbs_equalverify_script(8)
}

/// The script of `cm31_limbs_equalverify` passes exactly when the eight
/// limbs on top equal the eight under them, and then leaves the rest.
pub proof fn lemma_cm31_limbs_equalverify_script(rest: Seq<Item>, a: Seq<Item>, b: Seq<Item>, alt: Seq<Item>)
    requires
        a.len() == 8,
        b.len() == 8,
    ensures
        run(cm31_limbs_equalverify_script(), Stacks { main: rest + a + b, alt }) == if a == b {
            Some(Stacks { main: rest, alt })
        } else {
            None::<Stacks>
        },
{
    lemma_run_limbs_equalverify(8, rest, a, b, alt);
}

/// The script of `cm31_from_real_and_imag`.
pub open spec fn cm31_from_real_and_imag_script() -> Seq<u8> {
    seq![OP_SWAP]
}

/// Run on the real part and the imaginary part (on top), the script of
/// `cm31_from_real_and_imag` leaves the element as the function gives it,
/// `[imag, real]`.
pub proof fn lemma_cm31_from_real_and_imag_script(rest: Seq<Item>, re: int, im: int, alt: Seq<Item>)
    ensures
        run(cm31_from_real_and_imag_script(), Stacks { main: rest.push(Item::Num(re)).push(Item::Num(im)), alt })
            == Some(Stacks { main: rest.push(Item::Num(im)).push(Item::Num(re)), alt }),
{
    let m = rest.push(Item::Num(re)).push(Item::Num(im));
    assert(m.subrange(0, m.len() - 2) =~= rest);
    reveal_with_fuel(run, 2);
}

/// The script of `cm31_from_real_and_imag`: the imaginary part goes below.
pub fn cm31_from_real_and_imag_gadget(_inputs: &[usize]) -> (r: Result<Script>)
    ensures
        r matches Ok(s) && s@ == cm31_from_real_and_imag_script(),
{
    let mut s = Script::new();
    s.push_opcode(OP_SWAP);
    assert(s@ =~= seq![OP_SWAP]);
    Ok(s)
}

/// The entries that multiplying the complex element `re + im i`, held as
/// `[im, re]`, by the base field element of limb value `mv` adds: both parts,
/// the limbs and product of the real part, those of the imaginary part, and
/// the complex product.
#[verifier::opaque]
pub open spec fn cm31_mul_m31_limbs_entries(re: i32, im: i32, mv: int) -> Seq<EntryV> {
    let re_prod = ((limbs_value(i32_limbs(re)) * mv) % (P as int)) as i32;
    let im_prod = ((limbs_value(i32_limbs(im)) * mv) % (P as int)) as i32;
    seq![
        ("m31"@, ElementV::Num(re)),
        ("m31"@, ElementV::Num(im)),
        ("m31_limbs"@, ElementV::ManyNum(i32_limbs(re))),
        ("m31"@, ElementV::Num(re_prod)),
        ("m31_limbs"@, ElementV::ManyNum(i32_limbs(im))),
        ("m31"@, ElementV::Num(im_prod)),
        ("cm31"@, ElementV::ManyNum(seq![im_prod, re_prod])),
    ]
}

/// The hints that multiplying a complex element by a base field element
/// adds: the limbs of the real part, then of the imaginary part.
#[verifier::opaque]
pub open spec fn cm31_mul_m31_limbs_hints(re: i32, im: i32, mv: int) -> Seq<EntryV> {
    seq![
        ("m31_limbs"@, ElementV::ManyNum(i32_limbs(re))),
        quotient_entry("m31"@, mul_quotient(limbs_value(i32_limbs(re)), mv)),
        ("m31_limbs"@, ElementV::ManyNum(i32_limbs(im))),
        quotient_entry("m31"@, mul_quotient(limbs_value(i32_limbs(im)), mv)),
    ]
}

/// Multiplies the complex element at `cm31` by the base field element whose
/// limbs are at `m31_limbs`, part by part, through the table at `table`.
#[verifier::spinoff_prover]
#[verifier::rlimit(40)]
pub fn cm31_mul_m31_limbs(dsl: &mut DSL, table: usize, cm31: usize, m31_limbs: usize) -> (r: Result<usize>)
    ensures
        final(dsl).extends(old(dsl)),
        functions_ready(old(dsl).functions@) && indices_in(old(dsl).mem(), seq![table, cm31, m31_limbs]) ==> (r is Ok
            <==> table_at(old(dsl).mem(), table) && cm31_valid_at(old(dsl).mem(), cm31)
            && m31_limbs_valid_at(old(dsl).mem(), m31_limbs)),
        functions_ready(old(dsl).functions@) && table_at(old(dsl).mem(), table) && cm31_valid_at(
            old(dsl).mem(),
            cm31,
        ) && m31_limbs_valid_at(old(dsl).mem(), m31_limbs) ==> ({
            let m = old(dsl).mem();
            let n = nums(m[cm31 as int].1);
            let mv = limbs_value(nums(m[m31_limbs as int].1));
            &&& m.len() + 7 <= usize::MAX
            &&& r == Ok::<usize, DslError>((m.len() + 6) as usize)
            &&& final(dsl).mem().len() == m.len() + 7
            &&& final(dsl).hint_v().len() == old(dsl).hint_v().len() + 4
            &&& final(dsl).mem() == m + cm31_mul_m31_limbs_entries(n[1], n[0], mv)
            &&& final(dsl).hint_v() == old(dsl).hint_v() + cm31_mul_m31_limbs_hints(n[1], n[0], mv)
            &&& final(dsl).mem()[m.len() + 6int] == cm31_entry(
                cm31_mul_m31(cm31_value(m, cm31), M31(mv as u32)),
            )
        }),
{
    let ghost m = dsl.mem();
    let ghost h = dsl.hint_v();
    let ghost ready = functions_ready(dsl.functions@);
    let ghost n = nums(m[cm31 as int].1);
    proof {
        if ready && indices_in(m, seq![table, cm31, m31_limbs]) {
            assert(seq![table, cm31, m31_limbs][0] < m.len());
            assert(seq![table, cm31, m31_limbs][1] < m.len());
            assert(seq![table, cm31, m31_limbs][2] < m.len());
        }
        lemma_i32_limbs_valid(n[1]);
        lemma_i32_limbs_valid(n[0]);
    }
    let real_part = call_cm31_real(dsl, cm31)?;
    let imag_part = call_cm31_imag(dsl, cm31)?;
    let real_limbs = call_m31_to_limbs(dsl, real_part)?;
    let real_res = call_m31_limbs_mul(dsl, table, real_limbs, m31_limbs)?;
    let imag_limbs = call_m31_to_limbs(dsl, imag_part)?;
    let imag_res = call_m31_limbs_mul(dsl, table, imag_limbs, m31_limbs)?;
    let res = call_cm31_from_real_and_imag(dsl, real_res, imag_res)?;
    proof {
        if ready && table_at(m, table) && cm31_valid_at(m, cm31) && m31_limbs_valid_at(m, m31_limbs) {
            let mv = limbs_value(nums(m[m31_limbs as int].1));
            reveal(cm31_mul_m31_limbs_entries);
            reveal(cm31_mul_m31_limbs_hints);
            reveal(cm31_mul_m31);
            assert(dsl.mem() =~= m + cm31_mul_m31_limbs_entries(n[1], n[0], mv));
            assert(dsl.hint_v() =~= h + cm31_mul_m31_limbs_hints(n[1], n[0], mv));
        }
    }
    Ok(res)
}

/// Registers the complex-extension functions, in order; a name already taken
/// stops the
/// registration with `DuplicateFunction`.
pub fn load_functions(dsl: &mut crate::dsl::framework::DSL) -> (r: crate::dsl::framework::Result<()>)
    ensures
        r is Ok <==> crate::dsl::range_names_free(old(dsl).functions@, 6, 20),
        r matches Err(e) ==> e == crate::dsl::framework::DslError::DuplicateFunction,
        r is Ok ==> crate::dsl::functions_extended_by(final(dsl), old(dsl), 6, 20),
        final(dsl).functions@.subrange(0, old(dsl).functions@.len() as int) == old(dsl).functions@,
        final(dsl).data_types@ == old(dsl).data_types@,
        final(dsl).memory@ == old(dsl).memory@,
        final(dsl).hints@ == old(dsl).hints@,
{
    crate::dsl::load_standard_functions(dsl, 6, 20)
}

} // verus!
