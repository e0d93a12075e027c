use crate::dsl::building_blocks::cm31::{
    cm31_mul_quotients, is_valid_cm31_limbs, lemma_cm31_mul_quotients_len, push_cm31_quotients,
};
use crate::dsl::building_blocks::m31::{many_equalverify, many_equalverify_spec};
use crate::dsl::framework::{
    entries_v, many_at, num_at, DslError, Element, ElementV, EntryV, FunctionOutput, MemoryEntry,
    OutputV, Result, DSL,
};
use crate::dsl::values::{
    cm31_at, copy_i32s, get_cm31, get_m31, get_qm31, i32_limbs, m31_at, no_entries, one_entry, output,
    push_entry, qm31_at, qm31_elem, reformat_qm31_to_dsl_element, result_v, split_i32_limbs,
};
use crate::field::cm31::{cm31_add, cm31_zero, CM31};
use crate::field::m31::{add_m, M31};
use crate::field::qm31 as fqm;
use crate::field::qm31::{
    qm31_from, qm31_inverse, qm31_invertible, qm31_mul, qm31_one, qm31_zero, QM31,
};
use crate::limbs::{
    convert_qm31_from_limbs, convert_qm31_to_limbs, qm31_limbs, qm31_of_limbs, valid_qm31_limbs,
};
use crate::dsl::building_blocks::cm31::{cm31_to_limbs_script, push_cm31_to_limbs};
use crate::script::{int_push, limbs_equalverify_script, picks, Script, OP_2SWAP, OP_ROLL};
use crate::dsl::functions_ready;
use crate::dsl::building_blocks::cm31::{
    cm31_mul_m31_limbs, cm31_mul_m31_limbs_entries, cm31_mul_m31_limbs_hints,
};
use crate::dsl::compose::{
    call_cm31_limbs_mul, call_cm31_to_limbs, call_qm31_first, call_qm31_from_first_and_second,
    call_qm31_second, cm31_limbs_valid_at, indices_in, lemma_cm31_i32_limbs, lemma_m31_ops_wf,
    m31_limbs_valid_at, nums, qm31_entry, qm31_valid_at, qm31_value, table_at,
};
use crate::field::qm31::{qm31_mul_cm31, qm31_mul_m31};
use crate::limbs::{cm31_limbs, cm31_of_limbs, limbs_value, m31_limbs};
use crate::script_run::{
    lemma_picks_from_element, lemma_run_limbs_equalverify, lemma_run_roll_small, lemma_run_then, num_items,
    run, Item, Stacks,
};
use crate::dsl::building_blocks::cm31::{
    lemma_cm31_to_limbs_script_complete, lemma_cm31_to_limbs_script_splits, product_quotient_hint,
};
use vstd::prelude::*;

verus! {

/// Splits the element at `inputs[0]` into sixteen byte limbs, its coordinates
/// in order (the program holds them in reverse); the limbs are also hints.
pub open spec fn qm31_to_limbs_spec(mem: Seq<EntryV>, inputs: Seq<usize>) -> Result<OutputV> {
    match many_at(mem, inputs[0] as int) {
        Err(e) => Err(e),
        Ok(n) => if n.len() != 4 {
            Err(DslError::MalformedElement)
        } else {
            let entry = (
                "qm31_limbs"@,
                ElementV::ManyNum(
                    i32_limbs(n[3]) + i32_limbs(n[2]) + i32_limbs(n[1]) + i32_limbs(n[0]),
                ),
            );
            output(seq![entry], seq![entry])
        },
    }
}

/// The limbs at index `i`, if they stand for a degree-4 element.
pub open spec fn qm31_limbs_at(mem: Seq<EntryV>, i: int) -> Result<Seq<i32>> {
    match many_at(mem, i) {
        Err(e) => Err(e),
        Ok(a) => if valid_qm31_limbs(a) {
            Ok(a)
        } else {
            Err(DslError::MalformedElement)
        },
    }
}

/// The nine reduction hints of the product of `a + b u` and `c + d u`, each
/// held as a number of type `qm31`: those of the complex products
/// `(a + b)(c + d)`, `b d` and `a c`, in that order.
#[verifier::opaque]
pub open spec fn qm31_mul_quotients(x: QM31, y: QM31) -> Seq<EntryV> {
    cm31_mul_quotients("qm31"@, cm31_add(x.0, x.1), cm31_add(y.0, y.1)) + cm31_mul_quotients(
        "qm31"@,
        x.1,
        y.1,
    ) + cm31_mul_quotients("qm31"@, x.0, y.0)
}

/// The hints of a degree-4 product `x y`, by position: the first three
/// belong to the complex product `(x.0 + x.1)(y.0 + y.1)`, the next three to
/// `x.1 y.1` and the last three to `x.0 y.0`; within each, the quotient of
/// the product of the sums of real and imaginary parts, then of the
/// imaginary parts, then of the real parts.
#[verifier::spinoff_prover]
#[verifier::rlimit(40)]
pub proof fn lemma_qm31_mul_hint_layout(x: QM31, y: QM31)
    ensures
        qm31_mul_quotients(x, y).len() == 9,
        qm31_mul_quotients(x, y)[0] == product_quotient_hint(
            "qm31"@,
            add_m(add_m(x.0.0, x.1.0), add_m(x.0.1, x.1.1)),
            add_m(add_m(y.0.0, y.1.0), add_m(y.0.1, y.1.1)),
        ),
        qm31_mul_quotients(x, y)[1] == product_quotient_hint("qm31"@, add_m(x.0.1, x.1.1), add_m(y.0.1, y.1.1)),
        qm31_mul_quotients(x, y)[2] == product_quotient_hint("qm31"@, add_m(x.0.0, x.1.0), add_m(y.0.0, y.1.0)),
        qm31_mul_quotients(x, y)[3] == product_quotient_hint("qm31"@, add_m(x.1.0, x.1.1), add_m(y.1.0, y.1.1)),
        qm31_mul_quotients(x, y)[4] == product_quotient_hint("qm31"@, x.1.1, y.1.1),
        qm31_mul_quotients(x, y)[5] == product_quotient_hint("qm31"@, x.1.0, y.1.0),
        qm31_mul_quotients(x, y)[6] == product_quotient_hint("qm31"@, add_m(x.0.0, x.0.1), add_m(y.0.0, y.0.1)),
        qm31_mul_quotients(x, y)[7] == product_quotient_hint("qm31"@, x.0.1, y.0.1),
        qm31_mul_quotients(x, y)[8] == product_quotient_hint("qm31"@, x.0.0, y.0.0),
{
    let s = cm31_add(x.0, x.1);
    let t = cm31_add(y.0, y.1);
    let b1 = cm31_mul_quotients("qm31"@, s, t);
    let b2 = cm31_mul_quotients("qm31"@, x.1, y.1);
    let b3 = cm31_mul_quotients("qm31"@, x.0, y.0);
    assert(qm31_mul_quotients(x, y) == b1 + b2 + b3) by {
        reveal(qm31_mul_quotients);
    }
    assert(b1 =~= seq![
        product_quotient_hint("qm31"@, add_m(s.0, s.1), add_m(t.0, t.1)),
        product_quotient_hint("qm31"@, s.1, t.1),
        product_quotient_hint("qm31"@, s.0, t.0),
    ]) by {
        reveal(cm31_mul_quotients);
    }
    assert(b2 =~= seq![
        product_quotient_hint("qm31"@, add_m(x.1.0, x.1.1), add_m(y.1.0, y.1.1)),
        product_quotient_hint("qm31"@, x.1.1, y.1.1),
        product_quotient_hint("qm31"@, x.1.0, y.1.0),
    ]) by {
        reveal(cm31_mul_quotients);
    }
    assert(b3 =~= seq![
        product_quotient_hint("qm31"@, add_m(x.0.0, x.0.1), add_m(y.0.0, y.0.1)),
        product_quotient_hint("qm31"@, x.0.1, y.0.1),
        product_quotient_hint("qm31"@, x.0.0, y.0.0),
    ]) by {
        reveal(cm31_mul_quotients);
    }
    assert(s.0 == add_m(x.0.0, x.1.0) && s.1 == add_m(x.0.1, x.1.1)) by {
        reveal(cm31_add);
    }
    assert(t.0 == add_m(y.0.0, y.1.0) && t.1 == add_m(y.0.1, y.1.1)) by {
        reveal(cm31_add);
    }
    let all = b1 + b2 + b3;
    assert(all.len() == 9);
    assert(all[0] == b1[0] && all[1] == b1[1] && all[2] == b1[2]);
    assert(all[3] == b2[0] && all[4] == b2[1] && all[5] == b2[2]);
    assert(all[6] == b3[0] && all[7] == b3[1] && all[8] == b3[2]);
}

/// There are nine reduction hints.
pub proof fn lemma_qm31_mul_quotients_len()
    ensures
        forall|x: QM31, y: QM31| #[trigger] qm31_mul_quotients(x, y).len() == 9,
{
    reveal(qm31_mul_quotients);
    lemma_cm31_mul_quotients_len();
}

/// Pushes the nine reduction hints of the product of `x` and `y`.
pub fn push_qm31_quotients(hints: &mut Vec<MemoryEntry>, x: QM31, y: QM31)
    requires
        x.wf(),
        y.wf(),
    ensures
        entries_v(final(hints)@) == entries_v(old(hints)@) + qm31_mul_quotients(x, y),
{
    let ghost h0 = entries_v(hints@);
    let sx = x.0.add(x.1);
    let sy = y.0.add(y.1);
    push_cm31_quotients(hints, "qm31", sx, sy);
    push_cm31_quotients(hints, "qm31", x.1, y.1);
    push_cm31_quotients(hints, "qm31", x.0, y.0);
    reveal(qm31_mul_quotients);
    assert(entries_v(hints@) =~= h0 + qm31_mul_quotients(x, y));
}

/// Multiplies the elements whose limbs are at `inputs[1]` and `inputs[2]`
/// (`inputs[0]` is the table); the reduction hints of the product follow.
pub open spec fn qm31_limbs_mul_spec(mem: Seq<EntryV>, inputs: Seq<usize>) -> Result<OutputV> {
    match (qm31_limbs_at(mem, inputs[1] as int), qm31_limbs_at(mem, inputs[2] as int)) {
        (Err(e), _) => Err(e),
        (Ok(_), Err(e)) => Err(e),
        (Ok(a), Ok(b)) => output(
            seq![
                ("qm31"@, ElementV::ManyNum(qm31_elem(qm31_mul(qm31_of_limbs(a), qm31_of_limbs(b))))),
            ],
            qm31_mul_quotients(qm31_of_limbs(a), qm31_of_limbs(b)),
        ),
    }
}

/// Copies the limbs `lo..lo + 8` of the limbs at `inputs[0]`.
pub open spec fn qm31_limbs_part_spec(mem: Seq<EntryV>, inputs: Seq<usize>, lo: int) -> Result<OutputV> {
    match many_at(mem, inputs[0] as int) {
        Err(e) => Err(e),
        Ok(a) => if a.len() != 16 {
            Err(DslError::MalformedElement)
        } else {
            output(seq![("cm31_limbs"@, ElementV::ManyNum(a.subrange(lo, lo + 8)))], seq![])
        },
    }
}

/// Copies numbers `lo` and `lo + 1` of the element at `inputs[0]`.
pub open spec fn qm31_part_spec(mem: Seq<EntryV>, inputs: Seq<usize>, lo: int) -> Result<OutputV> {
    match many_at(mem, inputs[0] as int) {
        Err(e) => Err(e),
        Ok(a) => if a.len() != 4 {
            Err(DslError::MalformedElement)
        } else {
            output(seq![("cm31"@, ElementV::ManyNum(seq![a[lo], a[lo + 1]]))], seq![])
        },
    }
}

/// Applies `f` to the element at `inputs[0]`.
pub open spec fn qm31_unop_spec(mem: Seq<EntryV>, inputs: Seq<usize>, f: spec_fn(QM31) -> QM31) -> Result<OutputV> {
    match qm31_at(mem, inputs[0] as int) {
        Err(e) => Err(e),
        Ok(a) => output(seq![("qm31"@, ElementV::ManyNum(qm31_elem(f(a))))], seq![]),
    }
}

/// Applies `f` to the elements at `inputs[0]` and `inputs[1]`.
pub open spec fn qm31_binop_spec(
    mem: Seq<EntryV>,
    inputs: Seq<usize>,
    f: spec_fn(QM31, QM31) -> QM31,
) -> Result<OutputV> {
    match (qm31_at(mem, inputs[0] as int), qm31_at(mem, inputs[1] as int)) {
        (Err(e), _) => Err(e),
        (Ok(_), Err(e)) => Err(e),
        (Ok(a), Ok(b)) => output(seq![("qm31"@, ElementV::ManyNum(qm31_elem(f(a, b))))], seq![]),
    }
}

/// Adds one to the element at `inputs[0]`.
pub open spec fn qm31_1add_spec(mem: Seq<EntryV>, inputs: Seq<usize>) -> Result<OutputV> {
    qm31_unop_spec(mem, inputs, |a: QM31| fqm::qm31_add(a, qm31_one()))
}

/// Subtracts one from the element at `inputs[0]`.
pub open spec fn qm31_1sub_spec(mem: Seq<EntryV>, inputs: Seq<usize>) -> Result<OutputV> {
    qm31_unop_spec(mem, inputs, |a: QM31| fqm::qm31_sub(a, qm31_one()))
}

/// Negates the element at `inputs[0]`.
pub open spec fn qm31_neg_spec(mem: Seq<EntryV>, inputs: Seq<usize>) -> Result<OutputV> {
    qm31_unop_spec(mem, inputs, |a: QM31| fqm::qm31_neg(a))
}

/// Adds the elements at `inputs[0]` and `inputs[1]`.
pub open spec fn qm31_add_spec(mem: Seq<EntryV>, inputs: Seq<usize>) -> Result<OutputV> {
    qm31_binop_spec(mem, inputs, |a: QM31, b: QM31| fqm::qm31_add(a, b))
}

/// Subtracts the element at `inputs[1]` from the one at `inputs[0]`.
pub open spec fn qm31_sub_spec(mem: Seq<EntryV>, inputs: Seq<usize>) -> Result<OutputV> {
    qm31_binop_spec(mem, inputs, |a: QM31, b: QM31| fqm::qm31_sub(a, b))
}

/// Multiplies the element at `inputs[0]` by `i`.
pub open spec fn qm31_shift_by_i_spec(mem: Seq<EntryV>, inputs: Seq<usize>) -> Result<OutputV> {
    qm31_unop_spec(mem, inputs, |a: QM31| qm31_mul(a, qm31_from(0, 1, 0, 0)))
}

/// Multiplies the element at `inputs[0]` by `u`.
pub open spec fn qm31_shift_by_j_spec(mem: Seq<EntryV>, inputs: Seq<usize>) -> Result<OutputV> {
    qm31_unop_spec(mem, inputs, |a: QM31| qm31_mul(a, qm31_from(0, 0, 1, 0)))
}

/// Multiplies the element at `inputs[0]` by `iu`.
pub open spec fn qm31_shift_by_ij_spec(mem: Seq<EntryV>, inputs: Seq<usize>) -> Result<OutputV> {
    qm31_unop_spec(mem, inputs, |a: QM31| qm31_mul(a, qm31_from(0, 0, 0, 1)))
}

/// Joins the complex elements at `inputs[0]` (first half) and `inputs[1]`
/// (second half).
pub open spec fn qm31_from_first_and_second_spec(mem: Seq<EntryV>, inputs: Seq<usize>) -> Result<OutputV> {
    match (many_at(mem, inputs[0] as int), many_at(mem, inputs[1] as int)) {
        (Err(e), _) => Err(e),
        (Ok(_), Err(e)) => Err(e),
        (Ok(a), Ok(b)) => if a.len() != 2 || b.len() != 2 {
            Err(DslError::MalformedElement)
        } else {
            output(seq![("qm31"@, ElementV::ManyNum(seq![b[0], b[1], a[0], a[1]]))], seq![])
        },
    }
}

/// Adds the complex element at `inputs[1]` to the first half of the element
/// at `inputs[0]`.
pub open spec fn qm31_add_cm31_spec(mem: Seq<EntryV>, inputs: Seq<usize>) -> Result<OutputV> {
    match (qm31_at(mem, inputs[0] as int), cm31_at(mem, inputs[1] as int)) {
        (Err(e), _) => Err(e),
        (Ok(_), Err(e)) => Err(e),
        (Ok(a), Ok(c)) => output(
            seq![("qm31"@, ElementV::ManyNum(qm31_elem(fqm::qm31_add(a, QM31(c, cm31_zero())))))],
            seq![],
        ),
    }
}

/// Adds the base field element at `inputs[1]` to the element at `inputs[0]`.
pub open spec fn qm31_add_m31_spec(mem: Seq<EntryV>, inputs: Seq<usize>) -> Result<OutputV> {
    match (qm31_at(mem, inputs[0] as int), m31_at(mem, inputs[1] as int)) {
        (Err(e), _) => Err(e),
        (Ok(_), Err(e)) => Err(e),
        (Ok(a), Ok(m)) => output(
            seq![("qm31"@, ElementV::ManyNum(qm31_elem(fqm::qm31_add_m31(a, m))))],
            seq![],
        ),
    }
}

/// Inverts the element whose limbs are at `inputs[1]`; the limbs of the
/// inverse are the output and a hint; zero has no inverse.
pub open spec fn qm31_limbs_inverse_spec(mem: Seq<EntryV>, inputs: Seq<usize>) -> Result<OutputV> {
    match qm31_limbs_at(mem, inputs[1] as int) {
        Err(e) => Err(e),
        Ok(a) => {
            let q = qm31_of_limbs(a);
            if q == qm31_zero() {
                Err(DslError::NotInvertible)
            } else {
                let entry = ("qm31_limbs"@, ElementV::ManyNum(qm31_limbs(qm31_inverse(q))));
                output(seq![entry], seq![entry] + qm31_mul_quotients(q, qm31_inverse(q)))
            }
        },
    }
}

/// Orders the elements at `inputs[0]` and `inputs[1]` as the bit at
/// `inputs[2]` says: unchanged for 0, swapped for 1.
pub open spec fn qm31_conditional_swap_spec(mem: Seq<EntryV>, inputs: Seq<usize>) -> Result<OutputV> {
    match (
        many_at(mem, inputs[0] as int),
        many_at(mem, inputs[1] as int),
        num_at(mem, inputs[2] as int),
    ) {
        (Err(e), _, _) => Err(e),
        (Ok(_), Err(e), _) => Err(e),
        (Ok(_), Ok(_), Err(e)) => Err(e),
        (Ok(a), Ok(b), Ok(bit)) => if bit != 0 && bit != 1 {
            Err(DslError::InvalidSwapBit)
        } else if bit == 0 {
            output(seq![("qm31"@, ElementV::ManyNum(a)), ("qm31"@, ElementV::ManyNum(b))], seq![])
        } else {
            output(seq![("qm31"@, ElementV::ManyNum(b)), ("qm31"@, ElementV::ManyNum(a))], seq![])
        },
    }
}

/// The output made of the one element `v`.
fn qm31_output(v: QM31) -> (r: FunctionOutput)
    requires
        v.wf(),
    ensures
        r@ == (seq![("qm31"@, ElementV::ManyNum(qm31_elem(v)))], Seq::<EntryV>::empty()),
{
    FunctionOutput {
        new_elements: one_entry(
            MemoryEntry::new("qm31", Element::ManyNum(reformat_qm31_to_dsl_element(v))),
        ),
        new_hints: no_entries(),
    }
}

/// Splits an element into limbs.
pub fn qm31_to_limbs(dsl: &mut DSL, inputs: &[usize]) -> (r: Result<FunctionOutput>)
    requires
        inputs@.len() == 1,
    ensures
        *final(dsl) == *old(dsl),
        result_v(r) == qm31_to_limbs_spec(old(dsl).mem(), inputs@),
{
    let num = dsl.get_many_num(inputs[0])?;
    if num.len() != 4 {
        return Err(DslError::MalformedElement);
    }
    let mut limbs = split_i32_limbs(num[3]);
    let mut l2 = split_i32_limbs(num[2]);
    let mut l1 = split_i32_limbs(num[1]);
    let mut l0 = split_i32_limbs(num[0]);
    limbs.append(&mut l2);
    limbs.append(&mut l1);
    limbs.append(&mut l0);
    let new_entry = MemoryEntry::new("qm31_limbs", Element::ManyNum(limbs));
    let hint = new_entry.clone();
    Ok(FunctionOutput { new_elements: one_entry(new_entry), new_hints: one_entry(hint) })
}

/// Checks the format of the limbs of an element.
pub fn is_valid_qm31_limbs(a: &[i32]) -> (b: bool)
    ensures
        b == valid_qm31_limbs(a@),
{
    if a.len() != 16 {
        return false;
    }
    let lo = [a[0], a[1], a[2], a[3], a[4], a[5], a[6], a[7]];
    let hi = [a[8], a[9], a[10], a[11], a[12], a[13], a[14], a[15]];
    assert(lo@ =~= a@.subrange(0, 8));
    assert(hi@ =~= a@.subrange(8, 16));
    is_valid_cm31_limbs(&lo) && is_valid_cm31_limbs(&hi)
}

/// Reads limbs that stand for an element.
fn get_qm31_limbs<'a>(dsl: &'a DSL, idx: usize) -> (r: Result<&'a [i32]>)
    ensures
        match r {
            Ok(a) => qm31_limbs_at(dsl.mem(), idx as int) == Ok::<Seq<i32>, DslError>(a@),
            Err(e) => qm31_limbs_at(dsl.mem(), idx as int) == Err::<Seq<i32>, DslError>(e),
        },
{
    let a = dsl.get_many_num(idx)?;
    if !is_valid_qm31_limbs(a) {
        return Err(DslError::MalformedElement);
    }
    Ok(a)
}

/// Multiplies two elements given by their limbs.
pub fn qm31_limbs_mul(dsl: &mut DSL, inputs: &[usize]) -> (r: Result<FunctionOutput>)
    requires
        inputs@.len() == 3,
    ensures
        *final(dsl) == *old(dsl),
        result_v(r) == qm31_limbs_mul_spec(old(dsl).mem(), inputs@),
{
    let a = get_qm31_limbs(dsl, inputs[1])?;
    let b = get_qm31_limbs(dsl, inputs[2])?;
    let a_qm31 = convert_qm31_from_limbs(a);
    let b_qm31 = convert_qm31_from_limbs(b);
    let mut out = qm31_output(a_qm31.mul(b_qm31));
    push_qm31_quotients(&mut out.new_hints, a_qm31, b_qm31);
    Ok(out)
}

/// Copies limbs `lo..lo + 8`.
fn qm31_limbs_part(dsl: &mut DSL, inputs: &[usize], lo: usize) -> (r: Result<FunctionOutput>)
    requires
        inputs@.len() == 1,
        lo == 0 || lo == 8,
    ensures
        *final(dsl) == *old(dsl),
        result_v(r) == qm31_limbs_part_spec(old(dsl).mem(), inputs@, lo as int),
{
    let a = dsl.get_many_num(inputs[0])?;
    if a.len() != 16 {
        return Err(DslError::MalformedElement);
    }
    let mut v = Vec::new();
    let mut i: usize = 0;
    while i < 8
        invariant
            0 <= i <= 8,
            lo == 0 || lo == 8,
            a@.len() == 16,
            v@ == a@.subrange(lo as int, lo + i),
        decreases 8 - i,
    {
        v.push(a[lo + i]);
        i = i + 1;
        assert(v@ =~= a@.subrange(lo as int, lo + i));
    }
    Ok(FunctionOutput {
        new_elements: one_entry(MemoryEntry::new("cm31_limbs", Element::ManyNum(v))),
        new_hints: no_entries(),
    })
}

/// Checks that the limbs at `inputs[0]` and `inputs[1]` are equal.
pub fn qm31_limbs_equalverify(dsl: &mut DSL, inputs: &[usize]) -> (r: Result<FunctionOutput>)
    requires
        inputs@.len() == 2,
    ensures
        *final(dsl) == *old(dsl),
        result_v(r) == many_equalverify_spec(old(dsl).mem(), inputs@),
{
    many_equalverify(dsl, inputs)
}

/// Checks that the elements at `inputs[0]` and `inputs[1]` are equal.
pub fn qm31_equalverify(dsl: &mut DSL, inputs: &[usize]) -> (r: Result<FunctionOutput>)
    requires
        inputs@.len() == 2,
    ensures
        *final(dsl) == *old(dsl),
        result_v(r) == many_equalverify_spec(old(dsl).mem(), inputs@),
{
    many_equalverify(dsl, inputs)
}

/// The limbs of the first half.
pub fn qm31_limbs_first(dsl: &mut DSL, inputs: &[usize]) -> (r: Result<FunctionOutput>)
    requires
        inputs@.len() == 1,
    ensures
        *final(dsl) == *old(dsl),
        result_v(r) == qm31_limbs_part_spec(old(dsl).mem(), inputs@, 0),
{
    qm31_limbs_part(dsl, inputs, 0)
}

/// The limbs of the second half.
pub fn qm31_limbs_second(dsl: &mut DSL, inputs: &[usize]) -> (r: Result<FunctionOutput>)
    requires
        inputs@.len() == 1,
    ensures
        *final(dsl) == *old(dsl),
        result_v(r) == qm31_limbs_part_spec(old(dsl).mem(), inputs@, 8),
{
    qm31_limbs_part(dsl, inputs, 8)
}

/// Copies numbers `lo` and `lo + 1` of an element.
fn qm31_part(dsl: &mut DSL, inputs: &[usize], lo: usize) -> (r: Result<FunctionOutput>)
    requires
        inputs@.len() == 1,
        lo == 0 || lo == 2,
    ensures
        *final(dsl) == *old(dsl),
        result_v(r) == qm31_part_spec(old(dsl).mem(), inputs@, lo as int),
{
    let a = dsl.get_many_num(inputs[0])?;
    if a.len() != 4 {
        return Err(DslError::MalformedElement);
    }
    let mut v = Vec::new();
    v.push(a[lo]);
    v.push(a[lo + 1]);
    assert(v@ =~= seq![a@[lo as int], a@[lo + 1]]);
    Ok(FunctionOutput {
        new_elements: one_entry(MemoryEntry::new("cm31", Element::ManyNum(v))),
        new_hints: no_entries(),
    })
}

/// The first half `a` of `a + b u`, as a complex element.
pub fn qm31_first(dsl: &mut DSL, inputs: &[usize]) -> (r: Result<FunctionOutput>)
    requires
        inputs@.len() == 1,
    ensures
        *final(dsl) == *old(dsl),
        result_v(r) == qm31_part_spec(old(dsl).mem(), inputs@, 2),
{
    qm31_part(dsl, inputs, 2)
}

/// The second half `b` of `a + b u`, as a complex element.
pub fn qm31_second(dsl: &mut DSL, inputs: &[usize]) -> (r: Result<FunctionOutput>)
    requires
        inputs@.len() == 1,
    ensures
        *final(dsl) == *old(dsl),
        result_v(r) == qm31_part_spec(old(dsl).mem(), inputs@, 0),
{
    qm31_part(dsl, inputs, 0)
}

/// Adds one.
pub fn qm31_1add(dsl: &mut DSL, inputs: &[usize]) -> (r: Result<FunctionOutput>)
    requires
        inputs@.len() == 1,
    ensures
        *final(dsl) == *old(dsl),
        result_v(r) == qm31_1add_spec(old(dsl).mem(), inputs@),
{
    let a = get_qm31(dsl, inputs[0])?;
    Ok(qm31_output(a.add(QM31::one())))
}

/// Subtracts one.
pub fn qm31_1sub(dsl: &mut DSL, inputs: &[usize]) -> (r: Result<FunctionOutput>)
    requires
        inputs@.len() == 1,
    ensures
        *final(dsl) == *old(dsl),
        result_v(r) == qm31_1sub_spec(old(dsl).mem(), inputs@),
{
    let a = get_qm31(dsl, inputs[0])?;
    Ok(qm31_output(a.sub(QM31::one())))
}

/// Negates.
pub fn qm31_neg(dsl: &mut DSL, inputs: &[usize]) -> (r: Result<FunctionOutput>)
    requires
        inputs@.len() == 1,
    ensures
        *final(dsl) == *old(dsl),
        result_v(r) == qm31_neg_spec(old(dsl).mem(), inputs@),
{
    let a = get_qm31(dsl, inputs[0])?;
    Ok(qm31_output(a.neg()))
}

/// Adds two elements.
pub fn qm31_add(dsl: &mut DSL, inputs: &[usize]) -> (r: Result<FunctionOutput>)
    requires
        inputs@.len() == 2,
    ensures
        *final(dsl) == *old(dsl),
        result_v(r) == qm31_add_spec(old(dsl).mem(), inputs@),
{
    let a = get_qm31(dsl, inputs[0])?;
    let b = get_qm31(dsl, inputs[1])?;
    Ok(qm31_output(a.add(b)))
}

/// Subtracts two elements.
pub fn qm31_sub(dsl: &mut DSL, inputs: &[usize]) -> (r: Result<FunctionOutput>)
    requires
        inputs@.len() == 2,
    ensures
        *final(dsl) == *old(dsl),
        result_v(r) == qm31_sub_spec(old(dsl).mem(), inputs@),
{
    let a = get_qm31(dsl, inputs[0])?;
    let b = get_qm31(dsl, inputs[1])?;
    Ok(qm31_output(a.sub(b)))
}

/// Joins two complex elements into `first + second u`.
pub fn qm31_from_first_and_second(dsl: &mut DSL, inputs: &[usize]) -> (r: Result<FunctionOutput>)
    requires
        inputs@.len() == 2,
    ensures
        *final(dsl) == *old(dsl),
        result_v(r) == qm31_from_first_and_second_spec(old(dsl).mem(), inputs@),
{
    let a = dsl.get_many_num(inputs[0])?;
    let b = dsl.get_many_num(inputs[1])?;
    if a.len() != 2 || b.len() != 2 {
        return Err(DslError::MalformedElement);
    }
    let mut v = Vec::new();
    v.push(b[0]);
    v.push(b[1]);
    v.push(a[0]);
    v.push(a[1]);
    assert(v@ =~= seq![b@[0], b@[1], a@[0], a@[1]]);
    Ok(FunctionOutput {
        new_elements: one_entry(MemoryEntry::new("qm31", Element::ManyNum(v))),
        new_hints: no_entries(),
    })
}

/// Adds a complex element to the first half.
pub fn qm31_add_cm31(dsl: &mut DSL, inputs: &[usize]) -> (r: Result<FunctionOutput>)
    requires
        inputs@.len() == 2,
    ensures
        *final(dsl) == *old(dsl),
        result_v(r) == qm31_add_cm31_spec(old(dsl).mem(), inputs@),
{
    let q = get_qm31(dsl, inputs[0])?;
    let c = get_cm31(dsl, inputs[1])?;
    Ok(qm31_output(q.add(QM31(c, CM31::zero()))))
}

/// Adds a base field element.
pub fn qm31_add_m31(dsl: &mut DSL, inputs: &[usize]) -> (r: Result<FunctionOutput>)
    requires
        inputs@.len() == 2,
    ensures
        *final(dsl) == *old(dsl),
        result_v(r) == qm31_add_m31_spec(old(dsl).mem(), inputs@),
{
    let q = get_qm31(dsl, inputs[0])?;
    let m = get_m31(dsl, inputs[1])?;
    Ok(qm31_output(q.add_m31(m)))
}

/// Multiplies by `i`.
pub fn qm31_shift_by_i(dsl: &mut DSL, inputs: &[usize]) -> (r: Result<FunctionOutput>)
    requires
        inputs@.len() == 1,
    ensures
        *final(dsl) == *old(dsl),
        result_v(r) == qm31_shift_by_i_spec(old(dsl).mem(), inputs@),
{
    let q = get_qm31(dsl, inputs[0])?;
    Ok(qm31_output(q.mul(QM31::from_u32_unchecked(0, 1, 0, 0))))
}

/// Multiplies by `u`.
pub fn qm31_shift_by_j(dsl: &mut DSL, inputs: &[usize]) -> (r: Result<FunctionOutput>)
    requires
        inputs@.len() == 1,
    ensures
        *final(dsl) == *old(dsl),
        result_v(r) == qm31_shift_by_j_spec(old(dsl).mem(), inputs@),
{
    let q = get_qm31(dsl, inputs[0])?;
    Ok(qm31_output(q.mul(QM31::from_u32_unchecked(0, 0, 1, 0))))
}

/// Multiplies by `i u`.
pub fn qm31_shift_by_ij(dsl: &mut DSL, inputs: &[usize]) -> (r: Result<FunctionOutput>)
    requires
        inputs@.len() == 1,
    ensures
        *final(dsl) == *old(dsl),
        result_v(r) == qm31_shift_by_ij_spec(old(dsl).mem(), inputs@),
{
    let q = get_qm31(dsl, inputs[0])?;
    Ok(qm31_output(q.mul(QM31::from_u32_unchecked(0, 0, 0, 1))))
}

/// Inverts an element given by its limbs. Zero has no inverse: it is
/// refused with `NotInvertible`, so the function never panics on it.
pub fn qm31_limbs_inverse(dsl: &mut DSL, inputs: &[usize]) -> (r: Result<FunctionOutput>)
    requires
        inputs@.len() == 2,
    ensures
        *final(dsl) == *old(dsl),
        result_v(r) == qm31_limbs_inverse_spec(old(dsl).mem(), inputs@),
        qm31_limbs_at(old(dsl).mem(), inputs@[1] as int) matches Ok(a) && qm31_of_limbs(a) == qm31_zero()
            ==> r == Err::<FunctionOutput, DslError>(DslError::NotInvertible),
{
    let a = get_qm31_limbs(dsl, inputs[1])?;
    let a_val = convert_qm31_from_limbs(a);
    let inv = match a_val.inverse() {
        None => {
            return Err(DslError::NotInvertible);
        },
        Some(inv) => inv,
    };
    let inv_limbs = convert_qm31_to_limbs(inv);
    let mut lv = Vec::new();
    let mut i: usize = 0;
    while i < 16
        invariant
            0 <= i <= 16,
            inv_limbs@.len() == 16,
            lv@ == inv_limbs@.subrange(0, i as int),
        decreases 16 - i,
    {
        lv.push(inv_limbs[i]);
        i = i + 1;
        assert(lv@ =~= inv_limbs@.subrange(0, i as int));
    }
    assert(lv@ =~= inv_limbs@);
    let output_entry = MemoryEntry::new("qm31_limbs", Element::ManyNum(lv));
    let mut new_hints = one_entry(output_entry.clone());
    push_qm31_quotients(&mut new_hints, a_val, inv);
    Ok(FunctionOutput { new_elements: one_entry(output_entry), new_hints })
}

/// Swaps two elements when the bit is 1.
pub fn qm31_conditional_swap(dsl: &mut DSL, inputs: &[usize]) -> (r: Result<FunctionOutput>)
    requires
        inputs@.len() == 3,
    ensures
        *final(dsl) == *old(dsl),
        result_v(r) == qm31_conditional_swap_spec(old(dsl).mem(), inputs@),
{
    let a = dsl.get_many_num(inputs[0])?;
    let b = dsl.get_many_num(inputs[1])?;
    let bit = dsl.get_num(inputs[2])?;
    if bit != 0 && bit != 1 {
        return Err(DslError::InvalidSwapBit);
    }
    let (first, second) = if bit == 0 {
        (a, b)
    } else {
        (b, a)
    };
    let fv = copy_i32s(first);
    let sv = copy_i32s(second);
    let e1 = MemoryEntry::new("qm31", Element::ManyNum(fv));
    let e2 = MemoryEntry::new("qm31", Element::ManyNum(sv));
    let ghost (v1, v2) = (e1@, e2@);
    let mut new_elements = one_entry(e1);
    push_entry(&mut new_elements, e2);
    assert(entries_v(new_elements@) =~= seq![v1, v2]);
    Ok(FunctionOutput { new_elements, new_hints: no_entries() })
}


/// The script that splits a degree-4 element into limbs: the half on top is
/// split, the other half rolled over it and split too.
pub open spec fn qm31_to_limbs_script() -> Seq<u8> {
    cm31_to_limbs_script() + int_push(9) + seq![OP_ROLL] + int_push(9) + seq![OP_ROLL]
        + cm31_to_limbs_script()
}

/// Run on a degree-4 element `[n0, n1, n2, n3]` (`n3` on top) with the
/// bytes of `n3, n2, n1, n0` as hints under the stack, the script of
/// `qm31_to_limbs` checks them and leaves, in place of the element and the
/// hints, the sixteen bytes in the order of the function's output.
#[verifier::spinoff_prover]
pub proof fn lemma_qm31_to_limbs_script_splits(
    n0: i32,
    n1: i32,
    n2: i32,
    n3: i32,
    rest: Seq<Item>,
    alt: Seq<Item>,
)
    requires
        0 <= n0,
        0 <= n1,
        0 <= n2,
        0 <= n3,
    ensures
        run(
            qm31_to_limbs_script(),
            Stacks {
                main: num_items(i32_limbs(n3) + i32_limbs(n2) + i32_limbs(n1) + i32_limbs(n0)) + rest.push(
                    Item::Num(n0 as int),
                ).push(Item::Num(n1 as int)).push(Item::Num(n2 as int)).push(Item::Num(n3 as int)),
                alt,
            },
        ) == Some(
            Stacks {
                main: rest + num_items(i32_limbs(n3) + i32_limbs(n2) + i32_limbs(n1) + i32_limbs(n0)),
                alt,
            },
        ),
{
    let hi = i32_limbs(n3) + i32_limbs(n2);
    let lo = i32_limbs(n1) + i32_limbs(n0);
    let c = cm31_to_limbs_script();
    let r9 = int_push(9) + seq![OP_ROLL];
    assert(qm31_to_limbs_script() =~= c + (r9 + (r9 + c)));
    assert(i32_limbs(n3) + i32_limbs(n2) + i32_limbs(n1) + i32_limbs(n0) =~= hi + lo);
    assert(num_items(hi + lo) =~= num_items(hi) + num_items(lo));
    let x0 = Item::Num(n0 as int);
    let x1 = Item::Num(n1 as int);
    lemma_cm31_to_limbs_script_complete();
    // the upper half is split first
    let r1 = num_items(lo) + rest.push(x0).push(x1);
    assert(num_items(hi) + num_items(lo) + rest.push(x0).push(x1).push(Item::Num(n2 as int)).push(Item::Num(n3 as int))
        =~= num_items(hi) + r1.push(Item::Num(n2 as int)).push(Item::Num(n3 as int)));
    lemma_cm31_to_limbs_script_splits(n3, n2, r1, alt);
    let nh = num_items(hi);
    assert(nh.len() == 8);
    lemma_run_then(c, r9 + (r9 + c), Stacks { main: nh + r1.push(Item::Num(n2 as int)).push(Item::Num(n3 as int)), alt }, Stacks { main: r1 + nh, alt });
    // the two numbers of the lower half come up from under the upper bytes
    assert(r1 + nh =~= (num_items(lo) + rest).push(x0).push(x1) + nh);
    assert((num_items(lo) + rest).push(x0).push(x1) + nh =~= (num_items(lo) + rest).push(x0) + (seq![x1] + nh));
    lemma_run_roll_small(9, num_items(lo) + rest, x0, seq![x1] + nh, alt);
    lemma_run_then(r9, r9 + c, Stacks { main: (num_items(lo) + rest).push(x0) + (seq![x1] + nh), alt }, Stacks { main: (num_items(lo) + rest) + (seq![x1] + nh).push(x0), alt });
    assert((num_items(lo) + rest) + (seq![x1] + nh).push(x0) =~= (num_items(lo) + rest).push(x1) + nh.push(x0));
    lemma_run_roll_small(9, num_items(lo) + rest, x1, nh.push(x0), alt);
    lemma_run_then(r9, c, Stacks { main: (num_items(lo) + rest).push(x1) + nh.push(x0), alt }, Stacks { main: (num_items(lo) + rest) + nh.push(x0).push(x1), alt });
    // then the lower half
    assert((num_items(lo) + rest) + nh.push(x0).push(x1) =~= num_items(i32_limbs(n1) + i32_limbs(n0)) + (rest + nh).push(x0).push(x1));
    lemma_cm31_to_limbs_script_splits(n1, n0, rest + nh, alt);
    assert(rest + nh + num_items(lo) =~= rest + (nh + num_items(lo)));
}

/// The script of `qm31_to_limbs`.
pub fn qm31_to_limbs_gadget(_inputs: &[usize]) -> (r: Result<Script>)
    ensures
        r matches Ok(s) && s@ == qm31_to_limbs_script(),
{
    let mut s = Script::new();
    push_cm31_to_limbs(&mut s);
    s.push_int(9);
    s.push_opcode(OP_ROLL);
    s.push_int(9);
    s.push_opcode(OP_ROLL);
    push_cm31_to_limbs(&mut s);
    assert(s@ =~= qm31_to_limbs_script());
    Ok(s)
}

/// The script of `qm31_limbs_equalverify`: sixteen limbs against sixteen.
pub fn qm31_limbs_equalverify_gadget(_inputs: &[usize]) -> (r: Result<Script>)
    ensures
        r matches Ok(s) && s@ == qm31_limbs_equalverify_script(),
{
    let mut s = Script::new();
    s.push_limbs_equalverify(16);
    assert(s@ =~= limbs_equalverify_script(16));
    Ok(s)
}

/// The script of `qm31_limbs_first` for an element whose deepest item lies at
/// `depth`.
pub open spec fn qm31_limbs_first_script(depth: int) -> Seq<u8> {
    picks(depth, 8)
}

/// Run with the limbs `e` of a degree-4 element on the stack, the script
/// copies its first eight limbs, those of the first half, to the top.
pub proof fn lemma_qm31_limbs_first_script(below: Seq<Item>, e: Seq<Item>, above: Seq<Item>, alt: Seq<Item>)
    requires
        e.len() == 16,
        (below + e + above).len() <= i64::MAX,
    ensures
        run(qm31_limbs_first_script(above.len() + 15int), Stacks { main: below + e + above, alt }) == Some(
            Stacks { main: below + e + above + e.subrange(0, 8), alt },
        ),
{
    lemma_picks_from_element(below, e, above, 0, 8, alt);
}

/// The script of `qm31_limbs_first`: copies the eight limbs whose deepest is
/// `r[0]` items down.
pub fn qm31_limbs_first_gadget(r: &[usize]) -> (res: Result<Script>)
    requires
        r@.len() >= 1,
        r@[0] <= i64::MAX,
    ensures
        res matches Ok(s) && s@ == qm31_limbs_first_script(r@[0] as int),
{
    let mut s = Script::new();
    s.push_picks(r[0] as i64, 8);
    assert(s@ =~= picks(r@[0] as int, 8));
    Ok(s)
}

/// The script of `qm31_limbs_second` for an element whose deepest item lies at
/// `depth`.
pub open spec fn qm31_limbs_second_script(depth: int) -> Seq<u8> {
    picks(depth - 8, 8)
}

/// Run with the limbs `e` of a degree-4 element on the stack, the script
/// copies its last eight limbs, those of the second half, to the top.
pub proof fn lemma_qm31_limbs_second_script(below: Seq<Item>, e: Seq<Item>, above: Seq<Item>, alt: Seq<Item>)
    requires
        e.len() == 16,
        (below + e + above).len() <= i64::MAX,
    ensures
        run(qm31_limbs_second_script(above.len() + 15int), Stacks { main: below + e + above, alt }) == Some(
            Stacks { main: below + e + above + e.subrange(8, 16), alt },
        ),
{
    lemma_picks_from_element(below, e, above, 8, 8, alt);
}

/// The script of `qm31_limbs_second`: copies the eight limbs above the first
/// eight.
pub fn qm31_limbs_second_gadget(r: &[usize]) -> (res: Result<Script>)
    requires
        r@.len() >= 1,
        8 <= r@[0] <= i64::MAX,
    ensures
        res matches Ok(s) && s@ == qm31_limbs_second_script(r@[0] as int),
{
    let mut s = Script::new();
    s.push_picks((r[0] - 8) as i64, 8);
    assert(s@ =~= picks(r@[0] - 8, 8));
    Ok(s)
}

/// The script of `qm31_first` for an element whose deepest item lies at
/// `depth`.
pub open spec fn qm31_first_script(depth: int) -> Seq<u8> {
    picks(depth - 2, 2)
}

/// Run with a degree-4 element `e` (as the program holds it) on the stack,
/// the script copies its first half, the numbers `e[2], e[3]`, to the top.
pub proof fn lemma_qm31_first_script(below: Seq<Item>, e: Seq<Item>, above: Seq<Item>, alt: Seq<Item>)
    requires
        e.len() == 4,
        (below + e + above).len() <= i64::MAX,
    ensures
        run(qm31_first_script(above.len() + 3int), Stacks { main: below + e + above, alt }) == Some(
            Stacks { main: below + e + above + e.subrange(2, 4), alt },
        ),
{
    lemma_picks_from_element(below, e, above, 2, 2, alt);
}

/// The script of `qm31_first`: copies the two numbers of the first half.
pub fn qm31_first_gadget(r: &[usize]) -> (res: Result<Script>)
    requires
        r@.len() >= 1,
        2 <= r@[0] <= i64::MAX,
    ensures
        res matches Ok(s) && s@ == qm31_first_script(r@[0] as int),
{
    let mut s = Script::new();
    s.push_picks((r[0] - 2) as i64, 2);
    assert(s@ =~= picks(r@[0] - 2, 2));
    Ok(s)
}

/// The script of `qm31_second` for an element whose deepest item lies at
/// `depth`.
pub open spec fn qm31_second_script(depth: int) -> Seq<u8> {
    picks(depth, 2)
}

/// Run with a degree-4 element `e` (as the program holds it) on the stack,
/// the script copies its second half, the numbers `e[0], e[1]`, to the top.
pub proof fn lemma_qm31_second_script(below: Seq<Item>, e: Seq<Item>, above: Seq<Item>, alt: Seq<Item>)
    requires
        e.len() == 4,
        (below + e + above).len() <= i64::MAX,
    ensures
        run(qm31_second_script(above.len() + 3int), Stacks { main: below + e + above, alt }) == Some(
            Stacks { main: below + e + above + e.subrange(0, 2), alt },
        ),
{
    lemma_picks_from_element(below, e, above, 0, 2, alt);
}

/// The script of `qm31_second`: copies the two numbers of the second half.
pub fn qm31_second_gadget(r: &[usize]) -> (res: Result<Script>)
    requires
        r@.len() >= 1,
        r@[0] <= i64::MAX,
    ensures
        res matches Ok(s) && s@ == qm31_second_script(r@[0] as int),
{
    let mut s = Script::new();
    s.push_picks(r[0] as i64, 2);
    assert(s@ =~= picks(r@[0] as int, 2));
    Ok(s)
}

/// The script of `qm31_limbs_equalverify`.
pub open spec fn qm31_limbs_equalverify_script() -> Seq<u8> {
    limbs_equalverify_script(16)
}

/// The script of `qm31_limbs_equalverify` passes exactly when the sixteen
/// limbs on top equal the sixteen under them, and then leaves the rest.
pub proof fn lemma_qm31_limbs_equalverify_script(rest: Seq<Item>, a: Seq<Item>, b: Seq<Item>, alt: Seq<Item>)
    requires
        a.len() == 16,
        b.len() == 16,
    ensures
        run(qm31_limbs_equalverify_script(), Stacks { main: rest + a + b, alt }) == if a == b {
            Some(Stacks { main: rest, alt })
        } else {
            None::<Stacks>
        },
{
    lemma_run_limbs_equalverify(16, rest, a, b, alt);
}

/// The script of `qm31_from_first_and_second`.
pub open spec fn qm31_from_first_and_second_script() -> Seq<u8> {
    seq![OP_2SWAP]
}

/// Run on the first half `[a0, a1]` and the second half `[b0, b1]` (on top),
/// the script of `qm31_from_first_and_second` leaves the element as the
/// function gives it, `[b0, b1, a0, a1]`.
pub proof fn lemma_qm31_from_first_and_second_script(rest: Seq<Item>, a0: Item, a1: Item, b0: Item, b1: Item, alt: Seq<Item>)
    ensures
        run(qm31_from_first_and_second_script(), Stacks { main: rest + seq![a0, a1, b0, b1], alt }) == Some(
            Stacks { main: rest + seq![b0, b1, a0, a1], alt },
        ),
{
    let m = rest + seq![a0, a1, b0, b1];
    assert(m.subrange(0, m.len() - 4).push(m[m.len() - 2]).push(m[m.len() - 1]).push(m[m.len() - 4]).push(m[m.len() - 3]) =~= rest + seq![b0, b1, a0, a1]);
    reveal_with_fuel(run, 2);
}

/// The script of `qm31_from_first_and_second`: the two halves trade places.
pub fn qm31_from_first_and_second_gadget(_inputs: &[usize]) -> (r: Result<Script>)
    ensures
        r matches Ok(s) && s@ == qm31_from_first_and_second_script(),
{
    let mut s = Script::new();
    s.push_opcode(OP_2SWAP);
    assert(s@ =~= seq![OP_2SWAP]);
    Ok(s)
}

/// The entries that multiplying the degree-4 element held as `n` by the base
/// field element of limb value `mv` adds: the first half and its product,
/// the second half and its product, and the joined result.
#[verifier::opaque]
pub open spec fn qm31_mul_m31_limbs_entries(n: Seq<i32>, mv: int) -> Seq<EntryV> {
    let first = cm31_mul_m31_limbs_entries(n[3], n[2], mv);
    let second = cm31_mul_m31_limbs_entries(n[1], n[0], mv);
    let f = nums(first[6].1);
    let g = nums(second[6].1);
    seq![("cm31"@, ElementV::ManyNum(seq![n[2], n[3]]))] + first + seq![
        ("cm31"@, ElementV::ManyNum(seq![n[0], n[1]])),
    ] + second + seq![("qm31"@, ElementV::ManyNum(seq![g[0], g[1], f[0], f[1]]))]
}

/// Multiplies the degree-4 element at `qm31` by the base field element whose
/// limbs are at `m31_limbs`, half by half.
#[verifier::spinoff_prover]
#[verifier::rlimit(40)]
pub fn qm31_mul_m31_limbs(dsl: &mut DSL, table: usize, qm31: usize, m31_limbs: usize) -> (r: Result<usize>)
    ensures
        final(dsl).extends(old(dsl)),
        functions_ready(old(dsl).functions@) && indices_in(old(dsl).mem(), seq![table, qm31, m31_limbs]) ==> (r is Ok
            <==> table_at(old(dsl).mem(), table) && qm31_valid_at(old(dsl).mem(), qm31)
            && m31_limbs_valid_at(old(dsl).mem(), m31_limbs)),
        functions_ready(old(dsl).functions@) && table_at(old(dsl).mem(), table) && qm31_valid_at(
            old(dsl).mem(),
            qm31,
        ) && m31_limbs_valid_at(old(dsl).mem(), m31_limbs) ==> ({
            let m = old(dsl).mem();
            let n = nums(m[qm31 as int].1);
            let mv = limbs_value(nums(m[m31_limbs as int].1));
            &&& m.len() + 17 <= usize::MAX
            &&& r == Ok::<usize, DslError>((m.len() + 16) as usize)
            &&& final(dsl).mem().len() == m.len() + 17
            &&& final(dsl).hint_v().len() == old(dsl).hint_v().len() + 8
            &&& final(dsl).mem() == m + qm31_mul_m31_limbs_entries(n, mv)
            &&& final(dsl).hint_v() == old(dsl).hint_v() + cm31_mul_m31_limbs_hints(n[3], n[2], mv)
                + cm31_mul_m31_limbs_hints(n[1], n[0], mv)
            &&& final(dsl).mem()[m.len() + 16int] == qm31_entry(
                qm31_mul_m31(qm31_value(m, qm31), M31(mv as u32)),
            )
        }),
{
    let ghost m = dsl.mem();
    let ghost h = dsl.hint_v();
    let ghost ready = functions_ready(dsl.functions@);
    let ghost n = nums(m[qm31 as int].1);
    let ghost mv = limbs_value(nums(m[m31_limbs as int].1));
    proof {
        if ready && indices_in(m, seq![table, qm31, m31_limbs]) {
            assert(seq![table, qm31, m31_limbs][0] < m.len());
            assert(seq![table, qm31, m31_limbs][1] < m.len());
            assert(seq![table, qm31, m31_limbs][2] < m.len());
        }
    }
    let first = call_qm31_first(dsl, qm31)?;
    let ghost m1 = dsl.mem();
    proof {
        if ready && indices_in(m, seq![table, qm31, m31_limbs]) {
            assert(seq![table, first, m31_limbs][0] < m1.len());
            assert(seq![table, first, m31_limbs][1] < m1.len());
            assert(seq![table, first, m31_limbs][2] < m1.len());
            assert(indices_in(m1, seq![table, first, m31_limbs]));
        }
    }
    let first_res = cm31_mul_m31_limbs(dsl, table, first, m31_limbs)?;
    let ghost m2 = dsl.mem();
    let second = call_qm31_second(dsl, qm31)?;
    let ghost m3 = dsl.mem();
    proof {
        if ready && indices_in(m, seq![table, qm31, m31_limbs]) {
            assert(seq![table, second, m31_limbs][0] < m3.len());
            assert(seq![table, second, m31_limbs][1] < m3.len());
            assert(seq![table, second, m31_limbs][2] < m3.len());
            assert(indices_in(m3, seq![table, second, m31_limbs]));
        }
    }
    let second_res = cm31_mul_m31_limbs(dsl, table, second, m31_limbs)?;
    let res = call_qm31_from_first_and_second(dsl, first_res, second_res)?;
    proof {
        if ready && table_at(m, table) && qm31_valid_at(m, qm31) && m31_limbs_valid_at(m, m31_limbs) {
            reveal(qm31_mul_m31_limbs_entries);
            reveal(cm31_mul_m31_limbs_entries);
            reveal(cm31_mul_m31_limbs_hints);
            assert(dsl.mem() =~= m + qm31_mul_m31_limbs_entries(n, mv));
            assert(dsl.hint_v() =~= h + cm31_mul_m31_limbs_hints(n[3], n[2], mv) + cm31_mul_m31_limbs_hints(n[1], n[0], mv));
            reveal(qm31_mul_m31);
        }
    }
    Ok(res)
}

/// Multiplies the degree-4 element at `qm31` by the complex element whose
/// limbs are at `cm31_limbs`, half by half.
#[verifier::spinoff_prover]
#[verifier::rlimit(40)]
pub fn qm31_mul_cm31_limbs(dsl: &mut DSL, table: usize, qm31: usize, cm31_limbs: usize) -> (r: Result<usize>)
    ensures
        final(dsl).extends(old(dsl)),
        functions_ready(old(dsl).functions@) && indices_in(old(dsl).mem(), seq![table, qm31, cm31_limbs]) ==> (r is Ok
            <==> table_at(old(dsl).mem(), table) && qm31_valid_at(old(dsl).mem(), qm31)
            && cm31_limbs_valid_at(old(dsl).mem(), cm31_limbs)),
        functions_ready(old(dsl).functions@) && table_at(old(dsl).mem(), table) && qm31_valid_at(
            old(dsl).mem(),
            qm31,
        ) && cm31_limbs_valid_at(old(dsl).mem(), cm31_limbs) ==> ({
            let m = old(dsl).mem();
            let c = cm31_of_limbs(nums(m[cm31_limbs as int].1));
            &&& m.len() + 7 <= usize::MAX
            &&& r == Ok::<usize, DslError>((m.len() + 6) as usize)
            &&& final(dsl).mem().len() == m.len() + 7
            &&& final(dsl).hint_v().len() == old(dsl).hint_v().len() + 8
            &&& final(dsl).mem()[m.len() + 6int] == qm31_entry(qm31_mul_cm31(qm31_value(m, qm31), c))
        }),
{
    let ghost m = dsl.mem();
    let ghost ready = functions_ready(dsl.functions@);
    let ghost n = nums(m[qm31 as int].1);
    let ghost c = cm31_of_limbs(nums(m[cm31_limbs as int].1));
    let ghost q = qm31_value(m, qm31);
    proof {
        lemma_m31_ops_wf();
        if ready && indices_in(m, seq![table, qm31, cm31_limbs]) {
            assert(seq![table, qm31, cm31_limbs][0] < m.len());
            assert(seq![table, qm31, cm31_limbs][1] < m.len());
            assert(seq![table, qm31, cm31_limbs][2] < m.len());
        }
        if n.len() == 4 {
            lemma_cm31_i32_limbs(seq![n[2], n[3]]);
            lemma_cm31_i32_limbs(seq![n[0], n[1]]);
        }
    }
    let first = call_qm31_first(dsl, qm31)?;
    let second = call_qm31_second(dsl, qm31)?;
    let first_limbs = call_cm31_to_limbs(dsl, first)?;
    let ghost m3 = dsl.mem();
    let first_res = call_cm31_limbs_mul(dsl, table, first_limbs, cm31_limbs)?;
    let ghost m4 = dsl.mem();
    let second_limbs = call_cm31_to_limbs(dsl, second)?;
    let ghost m5 = dsl.mem();
    let second_res = call_cm31_limbs_mul(dsl, table, second_limbs, cm31_limbs)?;
    let ghost m6 = dsl.mem();
    let res = call_qm31_from_first_and_second(dsl, first_res, second_res)?;
    proof {
        if ready && table_at(m, table) && qm31_valid_at(m, qm31) && cm31_limbs_valid_at(m, cm31_limbs) {
            reveal(qm31_mul_cm31);
            assert(cm31_of_limbs(nums(m3[first_limbs as int].1)) == q.0);
            assert(cm31_of_limbs(nums(m5[second_limbs as int].1)) == q.1);
        }
    }
    Ok(res)
}

/// Registers the degree-4 extension functions, in order; a name already taken
/// stops the
/// registration with `DuplicateFunction`.
pub fn load_functions(dsl: &mut crate::dsl::framework::DSL) -> (r: crate::dsl::framework::Result<()>)
    ensures
        r is Ok <==> crate::dsl::range_names_free(old(dsl).functions@, 20, 41),
        r matches Err(e) ==> e == crate::dsl::framework::DslError::DuplicateFunction,
        r is Ok ==> crate::dsl::functions_extended_by(final(dsl), old(dsl), 20, 41),
        final(dsl).functions@.subrange(0, old(dsl).functions@.len() as int) == old(dsl).functions@,
        final(dsl).data_types@ == old(dsl).data_types@,
        final(dsl).memory@ == old(dsl).memory@,
        final(dsl).hints@ == old(dsl).hints@,
{
    crate::dsl::load_standard_functions(dsl, 20, 41)
}

} // verus!
