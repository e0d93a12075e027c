use crate::dsl::framework::{ElementV, Element, FunctionOutput, MemoryEntry, OutputV, Result, DSL};
use crate::dsl::values::{no_entries, one_entry, output, result_v};
use crate::table::{get_table, quarter_square};
use crate::script::{int_push, Script};
use crate::script_run::{complete, lemma_complete_append, lemma_run_append, lemma_run_int_push, num_items, run, Item, Stacks};
use vstd::prelude::*;

verus! {

/// The multiplication table as the program holds it: the quarter squares of
/// `512, 511, ..., 0`, largest index first.
pub open spec fn table_elem() -> Seq<i32> {
    Seq::new(513, |k: int| quarter_square(512 - k) as i32)
}

/// Pushes the multiplication table.
pub open spec fn push_table_spec() -> Result<OutputV> {
    output(seq![("table"@, ElementV::ManyNum(table_elem()))], seq![])
}

/// Puts the multiplication table into the memory; the entries come in reverse
/// order.
pub fn push_table(dsl: &mut DSL, _inputs: &[usize]) -> (r: Result<FunctionOutput>)
    ensures
        *final(dsl) == *old(dsl),
        result_v(r) == push_table_spec(),
{
    let table = get_table();
    let mut data: Vec<i32> = Vec::new();
    let mut i: usize = 513;
    while i > 0
        invariant
            i <= 513,
            table.data@.len() == 513,
            table.holds_quarter_squares(),
            data@.len() == 513 - i,
            forall|k: int| 0 <= k < data@.len() ==> #[trigger] data@[k] == quarter_square(512 - k) as i32,
        decreases i,
    {
        i = i - 1;
        let v = table.index(i);
        assert(v == quarter_square(i as int));
        assert(quarter_square(i as int) <= 65536) by (nonlinear_arith)
            requires
                0 <= i <= 512,
        {
            assert(i * i <= 512 * 512);
        }
        assert(quarter_square(i as int) >= 0) by (nonlinear_arith)
            requires
                0 <= i,
        ;
        data.push(v as i32);
    }
    assert(data@ =~= table_elem());
    let entry = MemoryEntry::new("table", Element::ManyNum(data));
    Ok(FunctionOutput { new_elements: one_entry(entry), new_hints: no_entries() })
}


/// The pushes of the numbers `s`, in order.
pub open spec fn pushes_of(s: Seq<i32>) -> Seq<u8>
    decreases s.len(),
{
    if s.len() == 0 {
        Seq::empty()
    } else {
        pushes_of(s.drop_last()) + int_push(s.last() as int)
    }
}

/// Pushing nonnegative numbers puts them on the stack in order.
pub proof fn lemma_run_pushes_of(s: Seq<i32>, m: Seq<Item>, alt: Seq<Item>)
    requires
        forall|i: int| 0 <= i < s.len() ==> 0 <= #[trigger] s[i],
    ensures
        complete(pushes_of(s)),
        run(pushes_of(s), Stacks { main: m, alt }) == Some(Stacks { main: m + num_items(s), alt }),
    decreases s.len(),
{
    if s.len() == 0 {
        assert(m + num_items(s) =~= m);
        reveal_with_fuel(complete, 1);
        reveal_with_fuel(run, 1);
    } else {
        let s1 = s.drop_last();
        let x = s.last() as int;
        assert(0 <= s[s.len() - 1]);
        lemma_run_pushes_of(s1, m, alt);
        lemma_run_int_push(x, Stacks { main: m + num_items(s1), alt });
        lemma_complete_append(pushes_of(s1), int_push(x));
        lemma_run_append(pushes_of(s1), int_push(x), Stacks { main: m, alt });
        assert((m + num_items(s1)).push(Item::Num(x)) =~= m + num_items(s));
    }
}

/// The script of `push_table`.
pub open spec fn push_table_script() -> Seq<u8> {
    pushes_of(table_elem())
}

/// Run on any stacks, the script of `push_table` pushes the quarter squares
/// of `512, 511, ..., 0` in that order, so that the entry of index `k` lies
/// at depth `k`: the table element as the function gives it.
pub proof fn lemma_push_table_script(m: Seq<Item>, alt: Seq<Item>)
    ensures
        run(push_table_script(), Stacks { main: m, alt }) == Some(
            Stacks { main: m + Seq::new(513, |k: int| Item::Num((512 - k) * (512 - k) / 4)), alt },
        ),
{
    let t = table_elem();
    assert forall|i: int| 0 <= i < t.len() implies 0 <= #[trigger] t[i] by {
        assert(quarter_square(512 - i) <= 65536) by (nonlinear_arith)
            requires
                0 <= i <= 512,
        {
            assert((512 - i) * (512 - i) <= 512 * 512);
        }
        assert(quarter_square(512 - i) >= 0) by (nonlinear_arith)
            requires
                0 <= i <= 512,
        ;
    }
    lemma_run_pushes_of(t, m, alt);
    assert forall|k: int| 0 <= k < 513 implies (t[k] as int) == (512 - k) * (512 - k) / 4 by {
        assert(quarter_square(512 - k) <= 65536) by (nonlinear_arith)
            requires
                0 <= k <= 512,
        {
            assert((512 - k) * (512 - k) <= 512 * 512);
        }
        assert(quarter_square(512 - k) >= 0) by (nonlinear_arith)
            requires
                0 <= k <= 512,
        ;
    }
    assert(num_items(t) =~= Seq::new(513, |k: int| Item::Num((512 - k) * (512 - k) / 4)));
}

/// The script that pushes the multiplication table, largest index first, so
/// that entry 0 ends on top.
pub fn push_table_gadget(_inputs: &[usize]) -> (r: Result<Script>)
    ensures
        r matches Ok(s) && s@ == push_table_script(),
{
    let table = get_table();
    let mut s = Script::new();
    let mut i: usize = 513;
    let ghost t = table_elem();
    while i > 0
        invariant
            i <= 513,
            t == table_elem(),
            table.data@.len() == 513,
            table.holds_quarter_squares(),
            s@ == pushes_of(t.subrange(0, 513 - i)),
        decreases i,
    {
        i = i - 1;
        let v = table.index(i);
        assert(quarter_square(i as int) <= 65536) by (nonlinear_arith)
            requires
                0 <= i <= 512,
        {
            assert(i * i <= 512 * 512);
        }
        assert(quarter_square(i as int) >= 0) by (nonlinear_arith)
            requires
                0 <= i,
        ;
        s.push_int(v);
        assert(t.subrange(0, 513 - i).drop_last() =~= t.subrange(0, 512 - i));
        assert(t[512 - i] == v as i32);
    }
    assert(t.subrange(0, 513) =~= t);
    Ok(s)
}

} // verus!
