use crate::dsl::framework::{
    entries_v, many_at, num_at, DslError, Element, ElementV, EntryV, FunctionOutput, MemoryEntry,
    OutputV, Result, DSL,
};
use crate::dsl::values::{
    i32_limbs, no_entries, one_entry, output, push_entry, result_v, split_i32_limbs,
};
use crate::field::m31::{inv_m, lemma_mul_lt_p_squared, M31, P};
use crate::limbs::{
    convert_m31_from_limbs, convert_m31_to_limbs, limbs_value, m31_limbs, valid_m31_limbs,
};
use crate::script::{
    check_limb_format, limbs_equalverify_script, op_256mul, op_hint, push_check_limb_format,
    push_op_256mul, push_op_hint, repeat, Script, OP_2SWAP, OP_ADD, OP_DUP, OP_EQUALVERIFY,
    OP_FROMALTSTACK, OP_SWAP, OP_TOALTSTACK,
};
use crate::script_run::{
    complete, lemma_complete_append, lemma_complete_opcodes, lemma_pushed, lemma_run_256mul,
    lemma_run_check_limb_format, lemma_run_limbs_equalverify, lemma_run_op_hint, lemma_run_then, num_items, run,
    Item, Stacks,
};
use crate::limbs::lemma_limbs_roundtrip;
use crate::dsl::values::lemma_i32_limbs_nonneg;
use vstd::prelude::*;

verus! {

/// Splits the number at `inputs[0]` into four byte limbs, which are also
/// handed to the script as hints.
pub open spec fn m31_to_limbs_spec(mem: Seq<(Seq<char>, ElementV)>, inputs: Seq<usize>) -> Result<OutputV> {
    match num_at(mem, inputs[0] as int) {
        Err(e) => Err(e),
        Ok(v) => {
            let entry = ("m31_limbs"@, ElementV::ManyNum(i32_limbs(v)));
            output(seq![entry], seq![entry])
        },
    }
}

/// Checks that two sequences of numbers are equal.
pub open spec fn many_equalverify_spec(mem: Seq<(Seq<char>, ElementV)>, inputs: Seq<usize>) -> Result<OutputV> {
    match (many_at(mem, inputs[0] as int), many_at(mem, inputs[1] as int)) {
        (Err(e), _) => Err(e),
        (Ok(_), Err(e)) => Err(e),
        (Ok(a), Ok(b)) => if a == b {
            output(seq![], seq![])
        } else {
            Err(DslError::EqualverifyFails)
        },
    }
}

/// Checks that two numbers are equal.
pub open spec fn num_equalverify_spec(mem: Seq<(Seq<char>, ElementV)>, inputs: Seq<usize>) -> Result<OutputV> {
    match (num_at(mem, inputs[0] as int), num_at(mem, inputs[1] as int)) {
        (Err(e), _) => Err(e),
        (Ok(_), Err(e)) => Err(e),
        (Ok(a), Ok(b)) => if a == b {
            output(seq![], seq![])
        } else {
            Err(DslError::EqualverifyFails)
        },
    }
}

/// The quotient `a b / P` of two canonical values: the hint with which the
/// multiplication script reduces the product to its remainder.
pub open spec fn mul_quotient(a: int, b: int) -> int {
    (a * b) / (P as int)
}

/// The entry of type `t` that holds the quotient hint `q`.
pub open spec fn quotient_entry(t: Seq<char>, q: int) -> EntryV {
    (t, ElementV::Num(q as i32))
}

/// Computes `mul_quotient` of two canonical values; it is below `P`.
pub fn compute_mul_quotient(a: u32, b: u32) -> (q: i32)
    requires
        a < P,
        b < P,
    ensures
        q == mul_quotient(a as int, b as int),
        0 <= q < P,
{
    proof {
        lemma_mul_lt_p_squared(a as int, b as int);
    }
    let prod: u64 = (a as u64) * (b as u64);
    let q: u64 = prod / (P as u64);
    proof {
        let p = P as int;
        vstd::arithmetic::div_mod::lemma_fundamental_div_mod(prod as int, p);
        vstd::arithmetic::div_mod::lemma_mod_bound(prod as int, p);
        assert(q < P);
    }
    q as i32
}

/// Pushes the quotient hint of `a b`, of type `t`.
pub fn push_quotient(hints: &mut Vec<MemoryEntry>, t: &str, a: M31, b: M31)
    requires
        a.wf(),
        b.wf(),
    ensures
        entries_v(final(hints)@) == entries_v(old(hints)@).push(quotient_entry(t@, mul_quotient(a.val(), b.val()))),
{
    let q = compute_mul_quotient(a.0, b.0);
    push_entry(hints, MemoryEntry::new(t, Element::Num(q)));
}

/// Multiplies the elements whose limbs are at `inputs[1]` and `inputs[2]`
/// (`inputs[0]` is the table); the quotient of the product by `P` is the
/// hint of the reduction.
pub open spec fn m31_limbs_mul_spec(mem: Seq<(Seq<char>, ElementV)>, inputs: Seq<usize>) -> Result<OutputV> {
    match (many_at(mem, inputs[1] as int), many_at(mem, inputs[2] as int)) {
        (Err(e), _) => Err(e),
        (Ok(_), Err(e)) => Err(e),
        (Ok(a), Ok(b)) => if !valid_m31_limbs(a) || !valid_m31_limbs(b) {
            Err(DslError::MalformedElement)
        } else {
            let av = limbs_value(a);
            let bv = limbs_value(b);
            output(
                seq![("m31"@, ElementV::Num(((av * bv) % (P as int)) as i32))],
                seq![quotient_entry("m31"@, mul_quotient(av, bv))],
            )
        },
    }
}

/// Inverts the element whose limbs are at `inputs[1]`; the limbs of the
/// inverse become the output and a hint, followed by the quotient hint of the
/// product of the element and its inverse.
pub open spec fn m31_limbs_inverse_spec(mem: Seq<(Seq<char>, ElementV)>, inputs: Seq<usize>) -> Result<OutputV> {
    match many_at(mem, inputs[1] as int) {
        Err(e) => Err(e),
        Ok(a) => if !valid_m31_limbs(a) {
            Err(DslError::MalformedElement)
        } else if limbs_value(a) == 0 {
            Err(DslError::NotInvertible)
        } else {
            let inv = inv_m(M31(limbs_value(a) as u32));
            let entry = ("m31_limbs"@, ElementV::ManyNum(m31_limbs(inv.val())));
            output(seq![entry], seq![entry, quotient_entry("m31"@, mul_quotient(limbs_value(a), inv.val()))])
        },
    }
}

/// Splits an element into four byte limbs.
pub fn m31_to_limbs(dsl: &mut DSL, inputs: &[usize]) -> (r: Result<FunctionOutput>)
    requires
        inputs@.len() == 1,
    ensures
        *final(dsl) == *old(dsl),
        result_v(r) == m31_to_limbs_spec(old(dsl).mem(), inputs@),
{
    let num = dsl.get_num(inputs[0])?;
    let limbs = split_i32_limbs(num);
    let new_entry = MemoryEntry::new("m31_limbs", Element::ManyNum(limbs));
    let hint = new_entry.clone();
    Ok(FunctionOutput { new_elements: one_entry(new_entry), new_hints: one_entry(hint) })
}

/// Checks that two limb sequences are equal.
pub fn m31_limbs_equalverify(dsl: &mut DSL, inputs: &[usize]) -> (r: Result<FunctionOutput>)
    requires
        inputs@.len() == 2,
    ensures
        *final(dsl) == *old(dsl),
        result_v(r) == many_equalverify_spec(old(dsl).mem(), inputs@),
{
    many_equalverify(dsl, inputs)
}

/// Checks that the sequences of numbers at `inputs[0]` and `inputs[1]` are
/// equal.
pub fn many_equalverify(dsl: &mut DSL, inputs: &[usize]) -> (r: Result<FunctionOutput>)
    requires
        inputs@.len() == 2,
    ensures
        *final(dsl) == *old(dsl),
        result_v(r) == many_equalverify_spec(old(dsl).mem(), inputs@),
{
    let a = dsl.get_many_num(inputs[0])?;
    let b = dsl.get_many_num(inputs[1])?;
    if !slices_equal(a, b) {
        Err(DslError::EqualverifyFails)
    } else {
        Ok(FunctionOutput { new_elements: no_entries(), new_hints: no_entries() })
    }
}

/// The two slices hold the same numbers.
pub fn slices_equal(a: &[i32], b: &[i32]) -> (r: bool)
    ensures
        r == (a@ == b@),
{
    if a.len() != b.len() {
        return false;
    }
    let mut i: usize = 0;
    while i < a.len()
        invariant
            a@.len() == b@.len(),
            0 <= i <= a@.len(),
            forall|j: int| 0 <= j < i ==> a@[j] == b@[j],
        decreases a@.len() - i,
    {
        if a[i] != b[i] {
            return false;
        }
        i = i + 1;
    }
    assert(a@ =~= b@);
    true
}

/// Multiplies two elements given by their limbs.
pub fn m31_limbs_mul(dsl: &mut DSL, inputs: &[usize]) -> (r: Result<FunctionOutput>)
    requires
        inputs@.len() == 3,
    ensures
        *final(dsl) == *old(dsl),
        result_v(r) == m31_limbs_mul_spec(old(dsl).mem(), inputs@),
{
    let a = dsl.get_many_num(inputs[1])?;
    let b = dsl.get_many_num(inputs[2])?;
    if !is_valid_m31_limbs(a) || !is_valid_m31_limbs(b) {
        return Err(DslError::MalformedElement);
    }
    let a_val = convert_m31_from_limbs(a);
    let b_val = convert_m31_from_limbs(b);
    proof {
        lemma_mul_lt_p_squared(a_val as int, b_val as int);
    }
    let prod: u64 = (a_val as u64) * (b_val as u64);
    let expected = prod % (P as u64);
    let mut new_hints = Vec::new();
    push_quotient(&mut new_hints, "m31", M31(a_val), M31(b_val));
    assert(entries_v(new_hints@) =~= seq![quotient_entry("m31"@, mul_quotient(a_val as int, b_val as int))]);
    Ok(FunctionOutput {
        new_elements: one_entry(MemoryEntry::new("m31", Element::Num(expected as i32))),
        new_hints,
    })
}

/// Checks the format of the limbs of an element.
pub fn is_valid_m31_limbs(l: &[i32]) -> (b: bool)
    ensures
        b == valid_m31_limbs(l@),
{
    if l.len() != 4 {
        return false;
    }
    if l[0] < 0 || l[0] >= 256 || l[1] < 0 || l[1] >= 256 || l[2] < 0 || l[2] >= 256 || l[3] < 0
        || l[3] >= 256 {
        return false;
    }
    let v = convert_m31_from_limbs(l);
    v < P
}

/// Inverts an element given by its limbs. Zero has no inverse: it is
/// refused with `NotInvertible`, so the function never panics on it.
pub fn m31_limbs_inverse(dsl: &mut DSL, inputs: &[usize]) -> (r: Result<FunctionOutput>)
    requires
        inputs@.len() == 2,
    ensures
        *final(dsl) == *old(dsl),
        result_v(r) == m31_limbs_inverse_spec(old(dsl).mem(), inputs@),
        many_at(old(dsl).mem(), inputs@[1] as int) matches Ok(a) && valid_m31_limbs(a) && limbs_value(a) == 0
            ==> r == Err::<FunctionOutput, DslError>(DslError::NotInvertible),
{
    let a = dsl.get_many_num(inputs[1])?;
    if !is_valid_m31_limbs(a) {
        return Err(DslError::MalformedElement);
    }
    let a_val = convert_m31_from_limbs(a);
    if a_val == 0 {
        return Err(DslError::NotInvertible);
    }
    let inv = M31(a_val).inverse();
    let limbs = convert_m31_to_limbs(inv.0);
    let mut lv = Vec::new();
    lv.push(limbs[0]);
    lv.push(limbs[1]);
    lv.push(limbs[2]);
    lv.push(limbs[3]);
    assert(lv@ =~= limbs@);
    let output_entry = MemoryEntry::new("m31_limbs", Element::ManyNum(lv));
    let mut new_hints = one_entry(output_entry.clone());
    push_quotient(&mut new_hints, "m31", M31(a_val), inv);
    assert(entries_v(new_hints@) =~= seq![
        output_entry@,
        quotient_entry("m31"@, mul_quotient(a_val as int, inv.val())),
    ]);
    Ok(FunctionOutput { new_elements: one_entry(output_entry), new_hints })
}

/// Checks that two elements are equal.
pub fn m31_equalverify(dsl: &mut DSL, inputs: &[usize]) -> (r: Result<FunctionOutput>)
    requires
        inputs@.len() == 2,
    ensures
        *final(dsl) == *old(dsl),
        result_v(r) == num_equalverify_spec(old(dsl).mem(), inputs@),
{
    let a = dsl.get_num(inputs[0])?;
    let b = dsl.get_num(inputs[1])?;
    if a != b {
        Err(DslError::EqualverifyFails)
    } else {
        Ok(FunctionOutput { new_elements: no_entries(), new_hints: no_entries() })
    }
}

/// Takes one limb from the hints, checks that it is a byte and keeps a copy
/// on the alt stack.
pub open spec fn hint_limb_script() -> Seq<u8> {
    op_hint() + check_limb_format() + seq![OP_DUP, OP_TOALTSTACK]
}

/// The script that splits an element into limbs: it takes the four limbs as
/// hints, checks each, recomposes them, checks the result against the input,
/// and leaves the limbs on the stack.
pub open spec fn m31_to_limbs_script() -> Seq<u8> {
    repeat(hint_limb_script(), 4) + repeat(op_256mul() + seq![OP_ADD], 3) + seq![
        OP_EQUALVERIFY,
        OP_FROMALTSTACK,
        OP_FROMALTSTACK,
        OP_SWAP,
        OP_FROMALTSTACK,
        OP_FROMALTSTACK,
        OP_SWAP,
        OP_2SWAP,
    ]
}

/// Taking one limb: the deepest number, a byte, moves to the top and a copy
/// of it to the alt stack.
proof fn lemma_run_hint_limb(x: int, hs: Seq<Item>, alt: Seq<Item>)
    requires
        0 <= x < 256,
    ensures
        complete(hint_limb_script()),
        run(hint_limb_script(), Stacks { main: seq![Item::Num(x)] + hs, alt }) == Some(
            Stacks { main: hs.push(Item::Num(x)), alt: alt.push(Item::Num(x)) },
        ),
{
    let xi = Item::Num(x);
    let t = seq![OP_DUP, OP_TOALTSTACK];
    lemma_run_op_hint(xi, hs, alt);
    lemma_run_check_limb_format(hs, x, alt);
    lemma_complete_opcodes(t);
    lemma_pushed(hs, xi, xi);
    assert(run(t, Stacks { main: hs.push(xi), alt }) == Some(Stacks { main: hs.push(xi), alt: alt.push(xi) })) by {
        reveal_with_fuel(run, 3);
    }
    lemma_complete_append(check_limb_format(), t);
    lemma_run_then(check_limb_format(), t, Stacks { main: hs.push(xi), alt }, Stacks { main: hs.push(xi), alt });
    lemma_complete_append(op_hint(), check_limb_format() + t);
    lemma_run_then(op_hint(), check_limb_format() + t, Stacks { main: seq![xi] + hs, alt }, Stacks { main: hs.push(xi), alt });
    assert(hint_limb_script() =~= op_hint() + (check_limb_format() + t));
}

/// One step of putting limbs together: the top number times 256, plus the
/// number under it.
proof fn lemma_run_mul_add(m: Seq<Item>, a: int, b: int, alt: Seq<Item>)
    ensures
        complete(op_256mul() + seq![OP_ADD]),
        run(op_256mul() + seq![OP_ADD], Stacks { main: m.push(Item::Num(a)).push(Item::Num(b)), alt }) == Some(
            Stacks { main: m.push(Item::Num(a + 256 * b)), alt },
        ),
{
    let ma = m.push(Item::Num(a));
    lemma_run_256mul(ma, b, alt);
    lemma_complete_opcodes(seq![OP_ADD]);
    lemma_pushed(m, Item::Num(a), Item::Num(256 * b));
    assert(run(seq![OP_ADD], Stacks { main: ma.push(Item::Num(256 * b)), alt }) == Some(Stacks { main: m.push(Item::Num(a + 256 * b)), alt })) by {
        reveal_with_fuel(run, 2);
    }
    lemma_complete_append(op_256mul(), seq![OP_ADD]);
    lemma_run_then(op_256mul(), seq![OP_ADD], Stacks { main: ma.push(Item::Num(b)), alt }, Stacks { main: ma.push(Item::Num(256 * b)), alt });
}

/// The end of the split: the recomposed value must equal the input, and the
/// four limbs come back from the alt stack, lowest deepest.
proof fn lemma_run_limbs_back(m: Seq<Item>, v: Item, l: Seq<Item>, alt: Seq<Item>)
    requires
        l.len() == 4,
    ensures
        complete(seq![OP_EQUALVERIFY, OP_FROMALTSTACK, OP_FROMALTSTACK, OP_SWAP, OP_FROMALTSTACK, OP_FROMALTSTACK, OP_SWAP, OP_2SWAP]),
        run(
            seq![OP_EQUALVERIFY, OP_FROMALTSTACK, OP_FROMALTSTACK, OP_SWAP, OP_FROMALTSTACK, OP_FROMALTSTACK, OP_SWAP, OP_2SWAP],
            Stacks { main: m.push(v).push(v), alt: alt + l },
        ) == Some(Stacks { main: m + l, alt }),
{
    let code = seq![OP_EQUALVERIFY, OP_FROMALTSTACK, OP_FROMALTSTACK, OP_SWAP, OP_FROMALTSTACK, OP_FROMALTSTACK, OP_SWAP, OP_2SWAP];
    lemma_complete_opcodes(code);
    let a = alt + l;
    assert(a =~= alt.push(l[0]).push(l[1]).push(l[2]).push(l[3]));
    lemma_pushed(m, v, v);
    lemma_pushed(alt.push(l[0]).push(l[1]), l[2], l[3]);
    lemma_pushed(alt, l[0], l[1]);
    assert(run(code, Stacks { main: m.push(v).push(v), alt: a }) == Some(Stacks { main: m + l, alt })) by {
        reveal_with_fuel(run, 9);
        assert(m.push(l[3]).push(l[2]).subrange(0, m.len() as int) =~= m);
        assert(m.push(l[2]).push(l[3]).push(l[1]).push(l[0]).subrange(0, m.len() + 2int) =~= m.push(l[2]).push(l[3]));
        assert(m.push(l[2]).push(l[3]).push(l[0]).push(l[1]).subrange(0, m.len() as int) =~= m);
        assert(m.push(l[0]).push(l[1]).push(l[2]).push(l[3]) =~= m + l);
    }
}

/// The split script is made of whole instructions.
pub proof fn lemma_m31_to_limbs_script_complete()
    ensures
        complete(m31_to_limbs_script()),
{
    let e = Seq::<Item>::empty();
    lemma_run_hint_limb(0, e, e);
    lemma_run_mul_add(e, 0, 0, e);
    let h = hint_limb_script();
    let ma = op_256mul() + seq![OP_ADD];
    let fin = seq![OP_EQUALVERIFY, OP_FROMALTSTACK, OP_FROMALTSTACK, OP_SWAP, OP_FROMALTSTACK, OP_FROMALTSTACK, OP_SWAP, OP_2SWAP];
    lemma_run_limbs_back(e, Item::Num(0), seq![Item::Num(0), Item::Num(0), Item::Num(0), Item::Num(0)], e);
    lemma_complete_append(ma, fin);
    lemma_complete_append(ma, ma + fin);
    lemma_complete_append(ma, ma + (ma + fin));
    lemma_complete_append(h, ma + (ma + (ma + fin)));
    lemma_complete_append(h, h + (ma + (ma + (ma + fin))));
    lemma_complete_append(h, h + (h + (ma + (ma + (ma + fin)))));
    lemma_complete_append(h, h + (h + (h + (ma + (ma + (ma + fin))))));
    assert(m31_to_limbs_script() =~= h + (h + (h + (h + (ma + (ma + (ma + fin))))))) by {
        reveal_with_fuel(repeat, 5);
    }
}

/// Run on a nonnegative number `v` with its four bytes as hints under the
/// stack, the script of `m31_to_limbs` checks them against `v` and leaves, in
/// place of `v` and the hints, the bytes in the order of the function's
/// output, the lowest deepest.
#[verifier::spinoff_prover]
pub proof fn lemma_m31_to_limbs_script_splits(v: i32, rest: Seq<Item>, alt: Seq<Item>)
    requires
        0 <= v,
    ensures
        run(m31_to_limbs_script(), Stacks { main: num_items(i32_limbs(v)) + rest.push(Item::Num(v as int)), alt })
            == Some(Stacks { main: rest + num_items(i32_limbs(v)), alt }),
{
    lemma_i32_limbs_nonneg(v);
    lemma_limbs_roundtrip(v as u32);
    let l = i32_limbs(v);
    let n = |x: int| Item::Num(x);
    let (l0, l1, l2, l3) = (l[0] as int, l[1] as int, l[2] as int, l[3] as int);
    assert(0 <= l0 < 256 && 0 <= l1 < 256 && 0 <= l2 < 256 && 0 <= l3 < 256);
    assert(l0 + 256 * (l1 + 256 * (l2 + 256 * l3)) == v);
    let rv = rest.push(n(v as int));
    let h = hint_limb_script();
    let ma = op_256mul() + seq![OP_ADD];
    let fin = seq![OP_EQUALVERIFY, OP_FROMALTSTACK, OP_FROMALTSTACK, OP_SWAP, OP_FROMALTSTACK, OP_FROMALTSTACK, OP_SWAP, OP_2SWAP];
    let k6 = ma + fin;
    let k5 = ma + k6;
    let k4 = ma + k5;
    let k3 = h + k4;
    let k2 = h + k3;
    let k1 = h + k2;
    assert(m31_to_limbs_script() =~= h + k1) by {
        reveal_with_fuel(repeat, 5);
    }
    assert(num_items(l) + rv =~= seq![n(l0)] + (seq![n(l1), n(l2), n(l3)] + rv));
    lemma_run_hint_limb(l0, seq![n(l1), n(l2), n(l3)] + rv, alt);
    let m1 = rv.push(n(l0));
    let a1 = alt.push(n(l0));
    assert((seq![n(l1), n(l2), n(l3)] + rv).push(n(l0)) =~= seq![n(l1)] + (seq![n(l2), n(l3)] + m1));
    lemma_run_then(h, k1, Stacks { main: seq![n(l0)] + (seq![n(l1), n(l2), n(l3)] + rv), alt }, Stacks { main: seq![n(l1)] + (seq![n(l2), n(l3)] + m1), alt: a1 });
    lemma_run_hint_limb(l1, seq![n(l2), n(l3)] + m1, a1);
    let m2 = m1.push(n(l1));
    let a2 = a1.push(n(l1));
    assert((seq![n(l2), n(l3)] + m1).push(n(l1)) =~= seq![n(l2)] + (seq![n(l3)] + m2));
    lemma_run_then(h, k2, Stacks { main: seq![n(l1)] + (seq![n(l2), n(l3)] + m1), alt: a1 }, Stacks { main: seq![n(l2)] + (seq![n(l3)] + m2), alt: a2 });
    lemma_run_hint_limb(l2, seq![n(l3)] + m2, a2);
    let m3 = m2.push(n(l2));
    let a3 = a2.push(n(l2));
    assert((seq![n(l3)] + m2).push(n(l2)) =~= seq![n(l3)] + m3);
    lemma_run_then(h, k3, Stacks { main: seq![n(l2)] + (seq![n(l3)] + m2), alt: a2 }, Stacks { main: seq![n(l3)] + m3, alt: a3 });
    lemma_run_hint_limb(l3, m3, a3);
    let a4 = a3.push(n(l3));
    lemma_run_then(h, k4, Stacks { main: seq![n(l3)] + m3, alt: a3 }, Stacks { main: m3.push(n(l3)), alt: a4 });
    lemma_run_mul_add(m2, l2, l3, a4);
    lemma_run_then(ma, k5, Stacks { main: m2.push(n(l2)).push(n(l3)), alt: a4 }, Stacks { main: m2.push(n(l2 + 256 * l3)), alt: a4 });
    lemma_run_mul_add(m1, l1, l2 + 256 * l3, a4);
    lemma_run_then(ma, k6, Stacks { main: m1.push(n(l1)).push(n(l2 + 256 * l3)), alt: a4 }, Stacks { main: m1.push(n(l1 + 256 * (l2 + 256 * l3))), alt: a4 });
    lemma_run_mul_add(rv, l0, l1 + 256 * (l2 + 256 * l3), a4);
    lemma_run_then(ma, fin, Stacks { main: rv.push(n(l0)).push(n(l1 + 256 * (l2 + 256 * l3))), alt: a4 }, Stacks { main: rv.push(n(v as int)), alt: a4 });
    assert(a4 =~= alt + num_items(l));
    lemma_run_limbs_back(rest, n(v as int), num_items(l), alt);
}

/// The hint of a product of limbs is its reduction quotient: the product of
/// the two values is the hint times `P` plus the result, which lies below
/// `P`, and the hint lies below `P` too.
pub proof fn lemma_m31_limbs_mul_reduction(mem: Seq<EntryV>, inputs: Seq<usize>, a: Seq<i32>, b: Seq<i32>)
    requires
        many_at(mem, inputs[1] as int) == Ok::<Seq<i32>, DslError>(a),
        many_at(mem, inputs[2] as int) == Ok::<Seq<i32>, DslError>(b),
        valid_m31_limbs(a),
        valid_m31_limbs(b),
    ensures
        match m31_limbs_mul_spec(mem, inputs) {
            Ok(out) => out.0.len() == 1 && out.1.len() == 1 && match (out.0[0].1, out.1[0].1) {
                (ElementV::Num(r), ElementV::Num(q)) => limbs_value(a) * limbs_value(b) == q * (P as int) + r
                    && 0 <= r < P && 0 <= q < P,
                _ => false,
            },
            Err(_) => false,
        },
{
    let av = limbs_value(a);
    let bv = limbs_value(b);
    assert(0 <= av < P && 0 <= bv < P) by {
        assert(limbs_value(a) < P && limbs_value(b) < P);
        assert(a[0] >= 0 && a[1] >= 0 && a[2] >= 0 && a[3] >= 0);
        assert(b[0] >= 0 && b[1] >= 0 && b[2] >= 0 && b[3] >= 0);
    }
    let x = av * bv;
    let p = P as int;
    lemma_mul_lt_p_squared(av, bv);
    vstd::arithmetic::div_mod::lemma_fundamental_div_mod(x, p);
    vstd::arithmetic::div_mod::lemma_div_pos_is_pos(x, p);
    vstd::arithmetic::div_mod::lemma_multiply_divide_lt(x, p, p);
    vstd::arithmetic::div_mod::lemma_mod_pos_bound(x, p);
    assert(mul_quotient(av, bv) == x / p);
}

/// Builds the script that takes one limb from the hints and checks it.
fn hint_limb() -> (r: Script)
    ensures
        r@ == hint_limb_script(),
{
    let mut s = Script::new();
    push_op_hint(&mut s);
    push_check_limb_format(&mut s);
    s.push_opcodes(&[OP_DUP, OP_TOALTSTACK]);
    assert(s@ =~= hint_limb_script());
    s
}

/// Appends the script that splits an element into limbs.
pub fn push_m31_to_limbs(s: &mut Script)
    ensures
        final(s)@ == old(s)@ + m31_to_limbs_script(),
{
    let ghost s0 = s@;
    let unit = hint_limb();
    s.append_repeated(&unit, 4);
    let mut mul = Script::new();
    push_op_256mul(&mut mul);
    mul.push_opcode(OP_ADD);
    assert(mul@ =~= op_256mul() + seq![OP_ADD]);
    s.append_repeated(&mul, 3);
    s.push_opcodes(
        &[
            OP_EQUALVERIFY,
            OP_FROMALTSTACK,
            OP_FROMALTSTACK,
            OP_SWAP,
            OP_FROMALTSTACK,
            OP_FROMALTSTACK,
            OP_SWAP,
            OP_2SWAP,
        ],
    );
    assert(s@ =~= s0 + m31_to_limbs_script());
}

/// The script of `m31_to_limbs`.
pub fn m31_to_limbs_gadget(_inputs: &[usize]) -> (r: Result<Script>)
    ensures
        r matches Ok(s) && s@ == m31_to_limbs_script(),
{
    let mut s = Script::new();
    push_m31_to_limbs(&mut s);
    assert(s@ =~= m31_to_limbs_script());
    Ok(s)
}

/// The script of `m31_limbs_equalverify`.
pub open spec fn m31_limbs_equalverify_script() -> Seq<u8> {
    limbs_equalverify_script(4)
}

/// The script of `m31_limbs_equalverify` passes exactly when the four limbs
/// on top equal the four under them, and then leaves the rest of the stack.
pub proof fn lemma_m31_limbs_equalverify_script(rest: Seq<Item>, a: Seq<Item>, b: Seq<Item>, alt: Seq<Item>)
    requires
        a.len() == 4,
        b.len() == 4,
    ensures
        run(m31_limbs_equalverify_script(), Stacks { main: rest + a + b, alt }) == if a == b {
            Some(Stacks { main: rest, alt })
        } else {
            None::<Stacks>
        },
{
    lemma_run_limbs_equalverify(4, rest, a, b, alt);
}

/// The script of `m31_limbs_equalverify`: the four limbs on top equal the
/// four below them.
pub fn m31_limbs_equalverify_gadget(_inputs: &[usize]) -> (r: Result<Script>)
    ensures
        r matches Ok(s) && s@ == m31_limbs_equalverify_script(),
{
    let mut s = Script::new();
    s.push_limbs_equalverify(4);
    assert(s@ =~= limbs_equalverify_script(4));
    Ok(s)
}

/// The script of `m31_equalverify`.
pub open spec fn m31_equalverify_script() -> Seq<u8> {
    seq![OP_EQUALVERIFY]
}

/// The script of `m31_equalverify` passes exactly when the two numbers on
/// top are equal, and then leaves the rest of the stack.
pub proof fn lemma_m31_equalverify_script(rest: Seq<Item>, x: int, y: int, alt: Seq<Item>)
    ensures
        run(m31_equalverify_script(), Stacks { main: rest.push(Item::Num(x)).push(Item::Num(y)), alt }) == if x
            == y {
            Some(Stacks { main: rest, alt })
        } else {
            None::<Stacks>
        },
{
    lemma_pushed(rest, Item::Num(x), Item::Num(y));
    reveal_with_fuel(run, 2);
}

/// The script of `m31_equalverify`: the two numbers on top are equal.
pub fn m31_equalverify_gadget(_inputs: &[usize]) -> (r: Result<Script>)
    ensures
        r matches Ok(s) && s@ == m31_equalverify_script(),
{
    let mut s = Script::new();
    s.push_opcode(OP_EQUALVERIFY);
    assert(s@ =~= seq![OP_EQUALVERIFY]);
    Ok(s)
}

/// Registers the base-field functions, in order; a name already taken stops the
/// registration with `DuplicateFunction`.
pub fn load_functions(dsl: &mut crate::dsl::framework::DSL) -> (r: crate::dsl::framework::Result<()>)
    ensures
        r is Ok <==> crate::dsl::range_names_free(old(dsl).functions@, 1, 6),
        r matches Err(e) ==> e == crate::dsl::framework::DslError::DuplicateFunction,
        r is Ok ==> crate::dsl::functions_extended_by(final(dsl), old(dsl), 1, 6),
        final(dsl).functions@.subrange(0, old(dsl).functions@.len() as int) == old(dsl).functions@,
        final(dsl).data_types@ == old(dsl).data_types@,
        final(dsl).memory@ == old(dsl).memory@,
        final(dsl).hints@ == old(dsl).hints@,
{
    crate::dsl::load_standard_functions(dsl, 1, 6)
}

} // verus!
