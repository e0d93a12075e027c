use crate::dsl::framework::{byte_strings, copy_bytes, entries_v, Element, ElementV, EntryV, MemoryEntry};
use crate::script::{scriptint, scriptint_bytes};
use vstd::prelude::*;

verus! {

/// The witness items of one hint: a number as its minimal script-number
/// bytes, a list of numbers as one item per number, bytes as they are.
pub open spec fn element_witness(e: ElementV) -> Seq<Seq<u8>> {
    match e {
        ElementV::Num(v) => seq![scriptint(v as int)],
        ElementV::ManyNum(vs) => Seq::new(vs.len(), |k: int| scriptint(vs[k] as int)),
        ElementV::Str(b) => seq![b],
    }
}

/// The witness items of a program's hints, in order.
pub open spec fn hints_witness_spec(hints: Seq<EntryV>) -> Seq<Seq<u8>>
    decreases hints.len(),
{
    if hints.len() == 0 {
        Seq::empty()
    } else {
        hints_witness_spec(hints.drop_last()) + element_witness(hints.last().1)
    }
}

/// Turns the hints of a program into the witness items that the script
/// consumes.
pub fn hints_witness(hints: &[MemoryEntry]) -> (r: Vec<Vec<u8>>)
    ensures
        byte_strings(r@) == hints_witness_spec(entries_v(hints@)),
{
    let mut out: Vec<Vec<u8>> = Vec::new();
    let ghost all = entries_v(hints@);
    let mut i: usize = 0;
    while i < hints.len()
        invariant
            0 <= i <= hints@.len(),
            all == entries_v(hints@),
            byte_strings(out@) == hints_witness_spec(all.subrange(0, i as int)),
        decreases hints@.len() - i,
    {
        let ghost before = byte_strings(out@);
        let ghost e = all[i as int].1;
        assert(all.subrange(0, i + 1).drop_last() =~= all.subrange(0, i as int));
        assert(all.subrange(0, i + 1).last() == all[i as int]);
        assert(e == hints@[i as int].data@);
        match &hints[i].data {
            Element::Num(v) => {
                out.push(scriptint_bytes(*v as i64));
                assert(byte_strings(out@) =~= before + element_witness(e));
            },
            Element::ManyNum(vs) => {
                let mut j: usize = 0;
                while j < vs.len()
                    invariant
                        0 <= j <= vs@.len(),
                        e == ElementV::ManyNum(vs@),
                        byte_strings(out@) == before + Seq::new(j as nat, |k: int| scriptint(vs@[k] as int)),
                    decreases vs@.len() - j,
                {
                    let ghost b2 = byte_strings(out@);
                    let item = scriptint_bytes(vs[j] as i64);
                    let ghost iv = item@;
                    out.push(item);
                    assert(byte_strings(out@) =~= b2.push(iv));
                    assert(iv == scriptint(vs@[j as int] as int));
                    j = j + 1;
                    assert(byte_strings(out@) =~= before + Seq::new(j as nat, |k: int| scriptint(vs@[k] as int)));
                }
                assert(byte_strings(out@) =~= before + element_witness(e));
            },
            Element::Str(b) => {
                out.push(copy_bytes(b.as_slice()));
                assert(byte_strings(out@) =~= before + element_witness(e));
            },
        }
        i = i + 1;
    }
    assert(all.subrange(0, hints@.len() as int) =~= all);
    out
}

} // verus!
