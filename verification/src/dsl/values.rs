use crate::dsl::framework::{
    entries_v, many_at, num_at, DslError, EntryV, FunctionOutput, MemoryEntry, OutputV, Result, DSL,
};
use crate::limbs::{
    lemma_limbs_roundtrip, limbs_in_byte_range, limbs_value, m31_limbs, valid_m31_limbs,
};
use crate::field::cm31::CM31;
use crate::field::m31::{M31, P};
use crate::field::qm31::QM31;
use vstd::prelude::*;

verus! {

/// A number that stands for a canonical base field element.
pub open spec fn valid_m31_value(v: i32) -> bool {
    0 <= v < P
}

/// The base field element that a number stands for.
pub open spec fn m31_of(v: i32) -> M31 {
    M31(v as u32)
}

/// Two numbers `[imag, real]` that stand for a complex element.
pub open spec fn valid_cm31_elem(s: Seq<i32>) -> bool {
    s.len() == 2 && valid_m31_value(s[0]) && valid_m31_value(s[1])
}

/// The complex element that `[imag, real]` stands for.
pub open spec fn cm31_of_elem(s: Seq<i32>) -> CM31 {
    CM31(m31_of(s[1]), m31_of(s[0]))
}

/// A complex element as the program holds it: `[imag, real]`.
pub open spec fn cm31_elem(c: CM31) -> Seq<i32> {
    seq![c.1.0 as i32, c.0.0 as i32]
}

/// Four numbers that stand for a degree-4 element.
pub open spec fn valid_qm31_elem(s: Seq<i32>) -> bool {
    s.len() == 4 && valid_m31_value(s[0]) && valid_m31_value(s[1]) && valid_m31_value(s[2])
        && valid_m31_value(s[3])
}

/// The degree-4 element that the program's four numbers stand for: the
/// coordinates in reverse order.
pub open spec fn qm31_of_elem(s: Seq<i32>) -> QM31 {
    QM31(CM31(m31_of(s[3]), m31_of(s[2])), CM31(m31_of(s[1]), m31_of(s[0])))
}

/// A degree-4 element as the program holds it: its coordinates in reverse
/// order.
pub open spec fn qm31_elem(q: QM31) -> Seq<i32> {
    seq![q.1.1.0 as i32, q.1.0.0 as i32, q.0.1.0 as i32, q.0.0.0 as i32]
}

/// The four bytes of a number, lowest first, as the limb splitting computes
/// them.
pub open spec fn i32_limbs(v: i32) -> Seq<i32> {
    seq![v & 0xff, (v >> 8) & 0xff, (v >> 16) & 0xff, (v >> 24) & 0xff]
}

/// The content of a generator's result.
pub open spec fn result_v(r: Result<FunctionOutput>) -> Result<OutputV> {
    match r {
        Ok(o) => Ok(o@),
        Err(e) => Err(e),
    }
}

/// An output with the given new elements and hints.
pub open spec fn output(new_elements: Seq<EntryV>, new_hints: Seq<EntryV>) -> Result<OutputV> {
    Ok((new_elements, new_hints))
}

/// Checks that a number stands for a canonical base field element.
pub fn is_valid_m31_value(v: i32) -> (b: bool)
    ensures
        b == valid_m31_value(v),
{
    0 <= v && v < 2147483647
}

/// Checks that the numbers stand for a complex element.
pub fn is_valid_cm31_elem(s: &[i32]) -> (b: bool)
    ensures
        b == valid_cm31_elem(s@),
{
    s.len() == 2 && is_valid_m31_value(s[0]) && is_valid_m31_value(s[1])
}

/// Checks that the numbers stand for a degree-4 element.
pub fn is_valid_qm31_elem(s: &[i32]) -> (b: bool)
    ensures
        b == valid_qm31_elem(s@),
{
    s.len() == 4 && is_valid_m31_value(s[0]) && is_valid_m31_value(s[1]) && is_valid_m31_value(
        s[2],
    ) && is_valid_m31_value(s[3])
}

/// A complex element as the program holds it: `[imag, real]`.
pub fn reformat_cm31_to_dsl_element(v: CM31) -> (r: Vec<i32>)
    requires
        v.wf(),
    ensures
        r@ == cm31_elem(v),
        valid_cm31_elem(r@),
        cm31_of_elem(r@) == v,
{
    let mut r = Vec::new();
    r.push(v.1.0 as i32);
    r.push(v.0.0 as i32);
    assert(r@ =~= cm31_elem(v));
    r
}

/// The complex element that `[imag, real]` stands for.
pub fn reformat_cm31_from_dsl_element(v: &[i32]) -> (r: CM31)
    requires
        valid_cm31_elem(v@),
    ensures
        r.wf(),
        r == cm31_of_elem(v@),
{
    CM31(M31(v[1] as u32), M31(v[0] as u32))
}

/// A degree-4 element as the program holds it: coordinates in reverse order.
pub fn reformat_qm31_to_dsl_element(v: QM31) -> (r: Vec<i32>)
    requires
        v.wf(),
    ensures
        r@ == qm31_elem(v),
        valid_qm31_elem(r@),
        qm31_of_elem(r@) == v,
{
    let mut r = Vec::new();
    r.push(v.1.1.0 as i32);
    r.push(v.1.0.0 as i32);
    r.push(v.0.1.0 as i32);
    r.push(v.0.0.0 as i32);
    assert(r@ =~= qm31_elem(v));
    r
}

/// The degree-4 element that the program's four numbers stand for.
pub fn reformat_qm31_from_dsl_element(v: &[i32]) -> (r: QM31)
    requires
        valid_qm31_elem(v@),
    ensures
        r.wf(),
        r == qm31_of_elem(v@),
{
    QM31(CM31(M31(v[3] as u32), M31(v[2] as u32)), CM31(M31(v[1] as u32), M31(v[0] as u32)))
}

/// Splits a number into its four bytes, lowest first.
pub fn split_i32_limbs(v: i32) -> (r: Vec<i32>)
    ensures
        r@ == i32_limbs(v),
{
    let mut r = Vec::new();
    r.push(v & 0xff);
    r.push((v >> 8) & 0xff);
    r.push((v >> 16) & 0xff);
    r.push((v >> 24) & 0xff);
    assert(r@ =~= i32_limbs(v));
    r
}

/// The complex element at index `i`, if the entry holds one.
pub open spec fn cm31_at(mem: Seq<EntryV>, i: int) -> Result<CM31> {
    match many_at(mem, i) {
        Err(e) => Err(e),
        Ok(s) => if valid_cm31_elem(s) {
            Ok(cm31_of_elem(s))
        } else {
            Err(DslError::MalformedElement)
        },
    }
}

/// The degree-4 element at index `i`, if the entry holds one.
pub open spec fn qm31_at(mem: Seq<EntryV>, i: int) -> Result<QM31> {
    match many_at(mem, i) {
        Err(e) => Err(e),
        Ok(s) => if valid_qm31_elem(s) {
            Ok(qm31_of_elem(s))
        } else {
            Err(DslError::MalformedElement)
        },
    }
}

/// The base field element at index `i`, if the entry holds one.
pub open spec fn m31_at(mem: Seq<EntryV>, i: int) -> Result<M31> {
    match num_at(mem, i) {
        Err(e) => Err(e),
        Ok(v) => if valid_m31_value(v) {
            Ok(m31_of(v))
        } else {
            Err(DslError::MalformedElement)
        },
    }
}

/// Reads the complex element at `idx`.
pub fn get_cm31(dsl: &DSL, idx: usize) -> (r: Result<CM31>)
    ensures
        r == cm31_at(dsl.mem(), idx as int),
        r matches Ok(c) ==> c.wf(),
{
    let s = dsl.get_many_num(idx)?;
    if !is_valid_cm31_elem(s) {
        return Err(DslError::MalformedElement);
    }
    Ok(reformat_cm31_from_dsl_element(s))
}

/// Reads the degree-4 element at `idx`.
pub fn get_qm31(dsl: &DSL, idx: usize) -> (r: Result<QM31>)
    ensures
        r == qm31_at(dsl.mem(), idx as int),
        r matches Ok(q) ==> q.wf(),
{
    let s = dsl.get_many_num(idx)?;
    if !is_valid_qm31_elem(s) {
        return Err(DslError::MalformedElement);
    }
    Ok(reformat_qm31_from_dsl_element(s))
}

/// Reads the base field element at `idx`.
pub fn get_m31(dsl: &DSL, idx: usize) -> (r: Result<M31>)
    ensures
        r == m31_at(dsl.mem(), idx as int),
        r matches Ok(m) ==> m.wf(),
{
    let v = dsl.get_num(idx)?;
    if !is_valid_m31_value(v) {
        return Err(DslError::MalformedElement);
    }
    Ok(M31(v as u32))
}

/// A copy of the numbers `s`.
pub fn copy_i32s(s: &[i32]) -> (r: Vec<i32>)
    ensures
        r@ == s@,
{
    let mut r = Vec::new();
    let mut i: usize = 0;
    while i < s.len()
        invariant
            0 <= i <= s@.len(),
            r@ == s@.subrange(0, i as int),
        decreases s@.len() - i,
    {
        r.push(s[i]);
        i = i + 1;
        assert(r@ =~= s@.subrange(0, i as int));
    }
    assert(r@ =~= s@);
    r
}

/// No entries.
pub fn no_entries() -> (r: Vec<MemoryEntry>)
    ensures
        entries_v(r@) == Seq::<EntryV>::empty(),
{
    let r = Vec::new();
    assert(entries_v(r@) =~= Seq::<EntryV>::empty());
    r
}

/// The one entry `e`.
pub fn one_entry(e: MemoryEntry) -> (r: Vec<MemoryEntry>)
    ensures
        entries_v(r@) == seq![e@],
{
    let mut r = Vec::new();
    r.push(e);
    assert(entries_v(r@) =~= seq![r@[0]@]);
    r
}

/// The entries `v` followed by `e`.
pub fn push_entry(v: &mut Vec<MemoryEntry>, e: MemoryEntry)
    ensures
        entries_v(final(v)@) == entries_v(old(v)@).push(e@),
{
    v.push(e);
    assert(entries_v(v@) =~= entries_v(old(v)@).push(e@));
}

/// For a nonnegative number, the bytes that the splitting computes are its
/// little-endian limbs.
pub proof fn lemma_i32_limbs_nonneg(v: i32)
    requires
        0 <= v,
    ensures
        i32_limbs(v) == m31_limbs(v as int),
{
    assert((v & 0xff) == v % 256) by (bit_vector)
        requires
            0 <= v,
    ;
    assert(((v >> 8) & 0xff) == (v / 256) % 256) by (bit_vector)
        requires
            0 <= v,
    ;
    assert(((v >> 16) & 0xff) == (v / 65536) % 256) by (bit_vector)
        requires
            0 <= v,
    ;
    assert(((v >> 24) & 0xff) == (v / 16777216) % 256) by (bit_vector)
        requires
            0 <= v,
    ;
    assert(i32_limbs(v) =~= m31_limbs(v as int));
}

/// The bytes of a number are the limbs of a base field element exactly when
/// the number is a canonical value; they then put it together again.
pub proof fn lemma_i32_limbs_valid(v: i32)
    ensures
        valid_m31_limbs(i32_limbs(v)) <==> valid_m31_value(v),
        valid_m31_value(v) ==> i32_limbs(v) == m31_limbs(v as int) && limbs_value(i32_limbs(v)) == v,
{
    if v >= 0 {
        lemma_i32_limbs_nonneg(v);
        lemma_limbs_roundtrip(v as u32);
    } else {
        let l = i32_limbs(v);
        assert(((v >> 24) & 0xff) >= 128) by (bit_vector)
            requires
                v < 0,
        ;
        assert(0 <= (v & 0xff) < 256) by (bit_vector);
        assert(0 <= ((v >> 8) & 0xff) < 256) by (bit_vector);
        assert(0 <= ((v >> 16) & 0xff) < 256) by (bit_vector);
        assert(limbs_value(l) >= 16777216 * 128);
    }
}

} // verus!
