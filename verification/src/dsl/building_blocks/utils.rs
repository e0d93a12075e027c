use crate::dsl::framework::{
    entries_v, num_at, option_u32, str_at, DslError, Element, ElementV, EntryV, FunctionOutput,
    MemoryEntry, OptionValue, Options, OutputV, Result, DSL,
};
use crate::dsl::values::{no_entries, one_entry, output, push_entry, result_v};
use crate::script::{
    int_push, op_hint, push_op_hint, repeat, Script, OP_2DROP, OP_ADD, OP_DUP, OP_EQUALVERIFY,
    OP_FROMALTSTACK, OP_GREATERTHANOREQUAL, OP_LESSTHANOREQUAL, OP_PICK, OP_TOALTSTACK,
    OP_VERIFY,
};
use crate::script_run::{
    complete, lemma_complete_append, lemma_complete_opcodes, lemma_pushed, lemma_run_append,
    lemma_run_op, lemma_run_op_hint, lemma_run_then, run, small_num, then, Item, Stacks,
};
use vstd::prelude::*;

verus! {

/// A position entry holding `v`.
pub open spec fn position_entry(v: i32) -> EntryV {
    ("position"@, ElementV::Num(v))
}

/// The shifts `c >> 2, ..., c >> 6` of a position, as numbers.
pub open spec fn position_shifts(c: u64) -> Seq<EntryV> {
    seq![
        position_entry((c >> 2u64) as i32),
        position_entry((c >> 3u64) as i32),
        position_entry((c >> 4u64) as i32),
        position_entry((c >> 5u64) as i32),
        position_entry((c >> 6u64) as i32),
    ]
}

/// The hints that let the script rebuild a position from its top part: the
/// lowest two bits, the next four bits one by one, and the rest.
pub open spec fn position_hints(c: u64) -> Seq<EntryV> {
    seq![
        position_entry((c & 3u64) as i32),
        position_entry(((c >> 2u64) & 1u64) as i32),
        position_entry(((c >> 3u64) & 1u64) as i32),
        position_entry(((c >> 4u64) & 1u64) as i32),
        position_entry(((c >> 5u64) & 1u64) as i32),
        position_entry((c >> 6u64) as i32),
    ]
}

/// Drops the lowest two bits of the position at `inputs[0]` and gives the
/// position shifted right by 2, 3, 4, 5 and 6 bits. The number is read as a
/// 64-bit word, so a negative number is taken modulo `2^64`.
pub open spec fn decompose_positions_to_5_spec(mem: Seq<EntryV>, inputs: Seq<usize>) -> Result<OutputV> {
    match num_at(mem, inputs[0] as int) {
        Err(e) => Err(e),
        Ok(num) => output(position_shifts(num as u64), position_hints(num as u64)),
    }
}

/// Splits a position into its shifts by 2 to 6 bits.
pub fn decompose_positions_to_5(dsl: &mut DSL, inputs: &[usize]) -> (r: Result<FunctionOutput>)
    requires
        inputs@.len() == 1,
    ensures
        *final(dsl) == *old(dsl),
        result_v(r) == decompose_positions_to_5_spec(old(dsl).mem(), inputs@),
{
    let num = dsl.get_num(inputs[0])?;
    let c: u64 = num as u64;
    let ghost c0 = c;

    let mut new_elements = no_entries();
    let mut k: u64 = 2;
    while k <= 6
        invariant
            2 <= k <= 7,
            c == c0,
            entries_v(new_elements@) == position_shifts(c0).subrange(0, k - 2),
        decreases 7 - k,
    {
        let e = MemoryEntry::new("position", Element::Num((c >> k) as i32));
        push_entry(&mut new_elements, e);
        assert(entries_v(new_elements@) =~= position_shifts(c0).subrange(0, k - 1));
        k = k + 1;
    }
    assert(position_shifts(c0).subrange(0, 5) =~= position_shifts(c0));

    let mut new_hints = one_entry(MemoryEntry::new("position", Element::Num((c & 3) as i32)));
    let mut k: u64 = 2;
    while k <= 5
        invariant
            2 <= k <= 6,
            c == c0,
            entries_v(new_hints@) == position_hints(c0).subrange(0, k - 1),
        decreases 6 - k,
    {
        let e = MemoryEntry::new("position", Element::Num(((c >> k) & 1) as i32));
        push_entry(&mut new_hints, e);
        assert(entries_v(new_hints@) =~= position_hints(c0).subrange(0, k as int));
        k = k + 1;
    }
    push_entry(&mut new_hints, MemoryEntry::new("position", Element::Num((c >> 6) as i32)));
    assert(entries_v(new_hints@) =~= position_hints(c0));
    Ok(FunctionOutput { new_elements, new_hints })
}

/// Copies the hash at `inputs[pick]`, where `pick` is the option of that name.
/// A pick outside the inputs is refused.
pub open spec fn select_among_eight_spec(
    mem: Seq<EntryV>,
    inputs: Seq<usize>,
    opts: Seq<(String, OptionValue)>,
) -> Result<OutputV> {
    match option_u32(opts, "pick"@) {
        None => Err(DslError::InvalidOption),
        Some(pick) => if pick >= inputs.len() {
            Err(DslError::InvalidOption)
        } else {
            match str_at(mem, inputs[pick as int] as int) {
                Err(e) => Err(e),
                Ok(h) => output(seq![("hash"@, ElementV::Str(h))], seq![]),
            }
        },
    }
}

/// Selects one of eight hashes, as the option `pick` says.
pub fn select_among_eight(dsl: &mut DSL, inputs: &[usize], options: &Options) -> (r: Result<FunctionOutput>)
    requires
        inputs@.len() == 8,
    ensures
        *final(dsl) == *old(dsl),
        result_v(r) == select_among_eight_spec(old(dsl).mem(), inputs@, options.entries@),
{
    let pick = options.get_u32("pick")?;
    if pick >= 8 {
        return Err(DslError::InvalidOption);
    }
    let h = dsl.get_str(inputs[pick as usize])?;
    let mut hv: Vec<u8> = Vec::new();
    let mut i: usize = 0;
    while i < h.len()
        invariant
            0 <= i <= h@.len(),
            hv@ == h@.subrange(0, i as int),
        decreases h@.len() - i,
    {
        hv.push(h[i]);
        i = i + 1;
        assert(hv@ =~= h@.subrange(0, i as int));
    }
    assert(hv@ =~= h@);
    let entry = MemoryEntry::new("hash", Element::Str(hv));
    Ok(FunctionOutput { new_elements: one_entry(entry), new_hints: no_entries() })
}


/// Checks that the top item lies in `0..=max`.
pub open spec fn check_range_script(max: int) -> Seq<u8> {
    seq![OP_DUP] + int_push(0) + seq![OP_GREATERTHANOREQUAL, OP_VERIFY, OP_DUP] + int_push(max)
        + seq![OP_LESSTHANOREQUAL, OP_VERIFY]
}

/// Appends the check that the top item lies in `0..=max`.
fn push_check_range(s: &mut Script, max: i64)
    requires
        0 <= max <= 16,
    ensures
        final(s)@ == old(s)@ + check_range_script(max as int),
{
    let ghost s0 = s@;
    s.push_opcode(OP_DUP);
    s.push_int(0);
    s.push_opcodes(&[OP_GREATERTHANOREQUAL, OP_VERIFY, OP_DUP]);
    s.push_int(max);
    s.push_opcodes(&[OP_LESSTHANOREQUAL, OP_VERIFY]);
    assert(s@ =~= s0 + check_range_script(max as int));
}

/// The check that the top item is a bit.
fn check_0_or_1() -> (r: Script)
    ensures
        r@ == check_range_script(1),
{
    let mut s = Script::new();
    push_check_range(&mut s, 1);
    s
}

/// The check that the top item lies in `0..=3`.
fn check_0_to_3() -> (r: Script)
    ensures
        r@ == check_range_script(3),
{
    let mut s = Script::new();
    push_check_range(&mut s, 3);
    s
}

/// The range check passes a number in `0..=max` and leaves the stacks as
/// they were.
proof fn lemma_run_check_range(m: Seq<Item>, x: int, max: int, alt: Seq<Item>)
    requires
        1 <= max <= 16,
        0 <= x <= max,
    ensures
        complete(check_range_script(max)),
        run(check_range_script(max), Stacks { main: m.push(Item::Num(x)), alt }) == Some(
            Stacks { main: m.push(Item::Num(x)), alt },
        ),
{
    let pm = int_push(max);
    assert(pm =~= seq![(0x50 + max) as u8]);
    let c6 = seq![OP_VERIFY];
    let c5 = seq![OP_LESSTHANOREQUAL] + c6;
    let c4 = pm + c5;
    let c3 = seq![OP_DUP] + c4;
    let c2 = seq![OP_VERIFY] + c3;
    let c1 = seq![OP_GREATERTHANOREQUAL] + c2;
    let c0 = seq![0u8] + c1;
    let code = seq![OP_DUP] + c0;
    assert(check_range_script(max) =~= code);
    let mx = m.push(Item::Num(x));
    let xi = Item::Num(x);
    lemma_pushed(mx, xi, Item::Num(0));
    lemma_pushed(mx, xi, Item::Num(max));
    lemma_pushed(mx, Item::Num(1), Item::Num(1));
    lemma_run_op(OP_DUP, c0, Stacks { main: mx, alt });
    lemma_run_op(0u8, c1, Stacks { main: mx.push(xi), alt });
    lemma_run_op(OP_GREATERTHANOREQUAL, c2, Stacks { main: mx.push(xi).push(Item::Num(0)), alt });
    lemma_run_op(OP_VERIFY, c3, Stacks { main: mx.push(Item::Num(1)), alt });
    lemma_run_op(OP_DUP, c4, Stacks { main: mx, alt });
    assert(c4 =~= seq![pm[0]] + c5);
    lemma_run_op(pm[0], c5, Stacks { main: mx.push(xi), alt });
    lemma_run_op(OP_LESSTHANOREQUAL, c6, Stacks { main: mx.push(xi).push(Item::Num(max)), alt });
    assert(c6 =~= seq![OP_VERIFY] + Seq::<u8>::empty());
    lemma_run_op(OP_VERIFY, Seq::empty(), Stacks { main: mx.push(Item::Num(1)), alt });
    lemma_complete_opcodes(code);
}

/// A hint taken and range-checked: the deepest number `x` moves to the top.
proof fn lemma_run_hint_checked(x: int, max: int, hs: Seq<Item>, alt: Seq<Item>)
    requires
        1 <= max <= 16,
        0 <= x <= max,
    ensures
        complete(op_hint() + check_range_script(max)),
        run(op_hint() + check_range_script(max), Stacks { main: seq![Item::Num(x)] + hs, alt }) == Some(
            Stacks { main: hs.push(Item::Num(x)), alt },
        ),
{
    lemma_run_op_hint(Item::Num(x), hs, alt);
    lemma_run_check_range(hs, x, max, alt);
    lemma_complete_append(op_hint(), check_range_script(max));
    lemma_run_then(op_hint(), check_range_script(max), Stacks { main: seq![Item::Num(x)] + hs, alt }, Stacks { main: hs.push(Item::Num(x)), alt });
}

/// One rebuilding step: the number `y` on top, with the bit `b` under it,
/// becomes `2 y + b`, which is also copied to the alt stack.
proof fn lemma_run_rebuild_step(m: Seq<Item>, b: int, y: int, alt: Seq<Item>)
    ensures
        complete(seq![OP_DUP, OP_ADD, OP_ADD, OP_DUP, OP_TOALTSTACK]),
        run(
            seq![OP_DUP, OP_ADD, OP_ADD, OP_DUP, OP_TOALTSTACK],
            Stacks { main: m.push(Item::Num(b)).push(Item::Num(y)), alt },
        ) == Some(Stacks { main: m.push(Item::Num(2 * y + b)), alt: alt.push(Item::Num(2 * y + b)) }),
{
    let code = seq![OP_DUP, OP_ADD, OP_ADD, OP_DUP, OP_TOALTSTACK];
    lemma_complete_opcodes(code);
    let mb = m.push(Item::Num(b));
    let z = Item::Num(2 * y + b);
    lemma_pushed(mb, Item::Num(y), Item::Num(y));
    lemma_pushed(m, Item::Num(b), Item::Num(2 * y));
    lemma_pushed(m, z, z);
    assert(run(code, Stacks { main: mb.push(Item::Num(y)), alt }) == Some(Stacks { main: m.push(z), alt: alt.push(z) })) by {
        reveal_with_fuel(run, 6);
    }
}

/// The values of position entries, as stack items.
pub open spec fn position_items(es: Seq<EntryV>) -> Seq<Item> {
    Seq::new(
        es.len(),
        |i: int|
            match es[i].1 {
                ElementV::Num(v) => Item::Num(v as int),
                ElementV::ManyNum(_) => Item::Bytes(Seq::empty()),
                ElementV::Str(b) => Item::Bytes(b),
            },
    )
}

/// The bits of a position put together again: its top part doubled and the
/// next bit added gives the next shift, and four times the shift by two plus
/// the two low bits gives the position.
proof fn lemma_position_bits(c: u64)
    requires
        c < 0x8000_0000,
    ensures
        2 * (c >> 6u64) + ((c >> 5u64) & 1u64) == c >> 5u64,
        2 * (c >> 5u64) + ((c >> 4u64) & 1u64) == c >> 4u64,
        2 * (c >> 4u64) + ((c >> 3u64) & 1u64) == c >> 3u64,
        2 * (c >> 3u64) + ((c >> 2u64) & 1u64) == c >> 2u64,
        4 * (c >> 2u64) + (c & 3u64) == c,
        c & 3u64 <= 3,
        (c >> 2u64) & 1u64 <= 1,
        (c >> 3u64) & 1u64 <= 1,
        (c >> 4u64) & 1u64 <= 1,
        (c >> 5u64) & 1u64 <= 1,
        c >> 2u64 < 0x8000_0000,
        c >> 3u64 <= c >> 2u64,
        c >> 4u64 <= c >> 2u64,
        c >> 5u64 <= c >> 2u64,
        c >> 6u64 <= c >> 2u64,
{
    assert(2 * (c >> 6u64) + ((c >> 5u64) & 1u64) == c >> 5u64) by (bit_vector);
    assert(2 * (c >> 5u64) + ((c >> 4u64) & 1u64) == c >> 4u64) by (bit_vector);
    assert(2 * (c >> 4u64) + ((c >> 3u64) & 1u64) == c >> 3u64) by (bit_vector);
    assert(2 * (c >> 3u64) + ((c >> 2u64) & 1u64) == c >> 2u64) by (bit_vector);
    assert(4 * (c >> 2u64) + (c & 3u64) == c) by (bit_vector);
    assert(c & 3u64 <= 3) by (bit_vector);
    assert((c >> 2u64) & 1u64 <= 1) by (bit_vector);
    assert((c >> 3u64) & 1u64 <= 1) by (bit_vector);
    assert((c >> 4u64) & 1u64 <= 1) by (bit_vector);
    assert((c >> 5u64) & 1u64 <= 1) by (bit_vector);
    assert(c >> 2u64 <= c) by (bit_vector);
    assert(c >> 3u64 <= c >> 2u64) by (bit_vector);
    assert(c >> 4u64 <= c >> 2u64) by (bit_vector);
    assert(c >> 5u64 <= c >> 2u64) by (bit_vector);
    assert(c >> 6u64 <= c >> 2u64) by (bit_vector);
}

/// The script of `decompose_positions_to_5`: it takes the hints (two low
/// bits, four single bits, the rest), checks their ranges, rebuilds the five
/// shifts from the top down, keeping each on the alt stack, checks the
/// rebuilt position against the input and brings the shifts back.
pub open spec fn decompose_positions_to_5_script() -> Seq<u8> {
    op_hint() + check_range_script(3) + repeat(op_hint() + check_range_script(1), 4) + op_hint()
        + seq![OP_DUP, OP_TOALTSTACK] + repeat(
        seq![OP_DUP, OP_ADD, OP_ADD, OP_DUP, OP_TOALTSTACK],
        4,
    ) + seq![OP_DUP, OP_ADD, OP_DUP, OP_ADD, OP_ADD, OP_EQUALVERIFY] + repeat(
        seq![OP_FROMALTSTACK],
        5,
    )
}

/// The last check: four times the shift by two plus the low bits must be
/// the position under them; all three are then gone.
proof fn lemma_run_position_check(m: Seq<Item>, c: int, l: int, x: int, alt: Seq<Item>)
    requires
        c == 4 * x + l,
    ensures
        complete(seq![OP_DUP, OP_ADD, OP_DUP, OP_ADD, OP_ADD, OP_EQUALVERIFY]),
        run(
            seq![OP_DUP, OP_ADD, OP_DUP, OP_ADD, OP_ADD, OP_EQUALVERIFY],
            Stacks { main: m.push(Item::Num(c)).push(Item::Num(l)).push(Item::Num(x)), alt },
        ) == Some(Stacks { main: m, alt }),
{
    let code = seq![OP_DUP, OP_ADD, OP_DUP, OP_ADD, OP_ADD, OP_EQUALVERIFY];
    lemma_complete_opcodes(code);
    let mcl = m.push(Item::Num(c)).push(Item::Num(l));
    lemma_pushed(mcl, Item::Num(x), Item::Num(x));
    lemma_pushed(mcl, Item::Num(2 * x), Item::Num(2 * x));
    lemma_pushed(m.push(Item::Num(c)), Item::Num(l), Item::Num(4 * x));
    lemma_pushed(m, Item::Num(c), Item::Num(c));
    assert(run(code, Stacks { main: mcl.push(Item::Num(x)), alt }) == Some(Stacks { main: m, alt })) by {
        reveal_with_fuel(run, 7);
    }
}

/// Five items come back from the alt stack, the last moved there first.
proof fn lemma_run_back5(m: Seq<Item>, alt: Seq<Item>, a: Item, b: Item, c: Item, d: Item, e: Item)
    ensures
        complete(repeat(seq![OP_FROMALTSTACK], 5)),
        run(
            repeat(seq![OP_FROMALTSTACK], 5),
            Stacks { main: m, alt: alt.push(a).push(b).push(c).push(d).push(e) },
        ) == Some(Stacks { main: m.push(e).push(d).push(c).push(b).push(a), alt }),
{
    reveal_with_fuel(repeat, 6);
    let code = seq![OP_FROMALTSTACK, OP_FROMALTSTACK, OP_FROMALTSTACK, OP_FROMALTSTACK, OP_FROMALTSTACK];
    assert(repeat(seq![OP_FROMALTSTACK], 5) =~= code);
    lemma_complete_opcodes(code);
    lemma_pushed(alt.push(a).push(b), c, d);
    lemma_pushed(alt.push(a).push(b).push(c), d, e);
    lemma_pushed(alt, a, b);
    lemma_pushed(alt.push(a), b, c);
    assert(run(code, Stacks { main: m, alt: alt.push(a).push(b).push(c).push(d).push(e) }) == Some(
        Stacks { main: m.push(e).push(d).push(c).push(b).push(a), alt },
    )) by {
        reveal_with_fuel(run, 6);
    }
}

/// The hint part of the position script: the two low bits (at most 3), four
/// bits and the top part move from under the stack to its top.
#[verifier::spinoff_prover]
proof fn lemma_run_position_hints(
    l2: int,
    b2: int,
    b3: int,
    b4: int,
    b5: int,
    r: int,
    rc: Seq<Item>,
    alt: Seq<Item>,
)
    requires
        0 <= l2 <= 3,
        0 <= b2 <= 1,
        0 <= b3 <= 1,
        0 <= b4 <= 1,
        0 <= b5 <= 1,
    ensures
        complete(position_hints_script()),
        run(
            position_hints_script(),
            Stacks {
                main: seq![Item::Num(l2), Item::Num(b2), Item::Num(b3), Item::Num(b4), Item::Num(b5), Item::Num(r)] + rc,
                alt,
            },
        ) == Some(
            Stacks {
                main: rc + seq![Item::Num(l2), Item::Num(b2), Item::Num(b3), Item::Num(b4), Item::Num(b5), Item::Num(r)],
                alt,
            },
        ),
{
    let n = |v: int| Item::Num(v);
    let h3 = op_hint() + check_range_script(3);
    let u = op_hint() + check_range_script(1);
    let p = op_hint();
    let k4 = u + p;
    let k3 = u + k4;
    let k2 = u + k3;
    let k1 = u + k2;
    assert(position_hints_script() =~= h3 + k1) by {
        reveal_with_fuel(repeat, 6);
    }
    let top5 = seq![n(b2), n(b3), n(b4), n(b5), n(r)];
    lemma_run_hint_checked(l2, 3, top5 + rc, alt);
    assert(seq![n(l2), n(b2), n(b3), n(b4), n(b5), n(r)] + rc =~= seq![n(l2)] + (top5 + rc));
    let m1 = rc.push(n(l2));
    assert((top5 + rc).push(n(l2)) =~= seq![n(b2)] + (seq![n(b3), n(b4), n(b5), n(r)] + m1));
    lemma_run_then(h3, k1, Stacks { main: seq![n(l2)] + (top5 + rc), alt }, Stacks { main: seq![n(b2)] + (seq![n(b3), n(b4), n(b5), n(r)] + m1), alt });
    lemma_run_hint_checked(b2, 1, seq![n(b3), n(b4), n(b5), n(r)] + m1, alt);
    let m2 = m1.push(n(b2));
    assert((seq![n(b3), n(b4), n(b5), n(r)] + m1).push(n(b2)) =~= seq![n(b3)] + (seq![n(b4), n(b5), n(r)] + m2));
    lemma_run_then(u, k2, Stacks { main: seq![n(b2)] + (seq![n(b3), n(b4), n(b5), n(r)] + m1), alt }, Stacks { main: seq![n(b3)] + (seq![n(b4), n(b5), n(r)] + m2), alt });
    lemma_run_hint_checked(b3, 1, seq![n(b4), n(b5), n(r)] + m2, alt);
    let m3 = m2.push(n(b3));
    assert((seq![n(b4), n(b5), n(r)] + m2).push(n(b3)) =~= seq![n(b4)] + (seq![n(b5), n(r)] + m3));
    lemma_run_then(u, k3, Stacks { main: seq![n(b3)] + (seq![n(b4), n(b5), n(r)] + m2), alt }, Stacks { main: seq![n(b4)] + (seq![n(b5), n(r)] + m3), alt });
    lemma_run_hint_checked(b4, 1, seq![n(b5), n(r)] + m3, alt);
    let m4 = m3.push(n(b4));
    assert((seq![n(b5), n(r)] + m3).push(n(b4)) =~= seq![n(b5)] + (seq![n(r)] + m4));
    lemma_run_then(u, k4, Stacks { main: seq![n(b4)] + (seq![n(b5), n(r)] + m3), alt }, Stacks { main: seq![n(b5)] + (seq![n(r)] + m4), alt });
    lemma_run_hint_checked(b5, 1, seq![n(r)] + m4, alt);
    let m5 = m4.push(n(b5));
    assert((seq![n(r)] + m4).push(n(b5)) =~= seq![n(r)] + m5);
    lemma_run_then(u, p, Stacks { main: seq![n(b5)] + (seq![n(r)] + m4), alt }, Stacks { main: seq![n(r)] + m5, alt });
    lemma_run_op_hint(n(r), m5, alt);
    assert(m5.push(n(r)) =~= rc + seq![n(l2), n(b2), n(b3), n(b4), n(b5), n(r)]);
    lemma_complete_append(u, p);
    lemma_complete_append(u, k4);
    lemma_complete_append(u, k3);
    lemma_complete_append(u, k2);
    lemma_complete_append(h3, k1);
}

/// The rebuilding part: the top part goes to the alt stack, then each bit,
/// from the highest, is added to the double of what was rebuilt so far.
#[verifier::spinoff_prover]
proof fn lemma_run_position_rebuild(m: Seq<Item>, b2: int, b3: int, b4: int, b5: int, r: int, alt: Seq<Item>)
    ensures
        complete(position_rebuild_script()),
        run(
            position_rebuild_script(),
            Stacks {
                main: m + seq![Item::Num(b2), Item::Num(b3), Item::Num(b4), Item::Num(b5), Item::Num(r)],
                alt,
            },
        ) == Some(
            Stacks {
                main: m.push(Item::Num(2 * (2 * (2 * (2 * r + b5) + b4) + b3) + b2)),
                alt: alt + seq![
                    Item::Num(r),
                    Item::Num(2 * r + b5),
                    Item::Num(2 * (2 * r + b5) + b4),
                    Item::Num(2 * (2 * (2 * r + b5) + b4) + b3),
                    Item::Num(2 * (2 * (2 * (2 * r + b5) + b4) + b3) + b2),
                ],
            },
        ),
{
    let n = |v: int| Item::Num(v);
    let x5 = 2 * r + b5;
    let x4 = 2 * x5 + b4;
    let x3 = 2 * x4 + b3;
    let x2 = 2 * x3 + b2;
    let t = seq![OP_DUP, OP_TOALTSTACK];
    let st = seq![OP_DUP, OP_ADD, OP_ADD, OP_DUP, OP_TOALTSTACK];
    let k3 = st + st;
    let k2 = st + k3;
    let k1 = st + k2;
    assert(position_rebuild_script() =~= t + k1) by {
        reveal_with_fuel(repeat, 5);
    }
    let m1 = m.push(n(b2));
    let m2 = m1.push(n(b3));
    let m3 = m2.push(n(b4));
    let m4 = m3.push(n(b5));
    assert(m + seq![n(b2), n(b3), n(b4), n(b5), n(r)] =~= m4.push(n(r)));
    lemma_complete_opcodes(t);
    lemma_pushed(m4, n(r), n(r));
    assert(run(t, Stacks { main: m4.push(n(r)), alt }) == Some(Stacks { main: m4.push(n(r)), alt: alt.push(n(r)) })) by {
        reveal_with_fuel(run, 3);
    }
    let a1 = alt.push(n(r));
    lemma_run_then(t, k1, Stacks { main: m4.push(n(r)), alt }, Stacks { main: m4.push(n(r)), alt: a1 });
    lemma_run_rebuild_step(m3, b5, r, a1);
    lemma_run_then(st, k2, Stacks { main: m3.push(n(b5)).push(n(r)), alt: a1 }, Stacks { main: m3.push(n(x5)), alt: a1.push(n(x5)) });
    let a2 = a1.push(n(x5));
    lemma_run_rebuild_step(m2, b4, x5, a2);
    lemma_run_then(st, k3, Stacks { main: m2.push(n(b4)).push(n(x5)), alt: a2 }, Stacks { main: m2.push(n(x4)), alt: a2.push(n(x4)) });
    let a3 = a2.push(n(x4));
    lemma_run_rebuild_step(m1, b3, x4, a3);
    lemma_run_then(st, st, Stacks { main: m1.push(n(b3)).push(n(x4)), alt: a3 }, Stacks { main: m1.push(n(x3)), alt: a3.push(n(x3)) });
    let a4 = a3.push(n(x3));
    lemma_run_rebuild_step(m, b2, x3, a4);
    assert(a4.push(n(x2)) =~= alt + seq![n(r), n(x5), n(x4), n(x3), n(x2)]);
    lemma_complete_append(st, st);
    lemma_complete_append(st, k3);
    lemma_complete_append(st, k2);
    lemma_complete_append(t, k1);
}

/// The part of the position script that takes the hints.
pub open spec fn position_hints_script() -> Seq<u8> {
    op_hint() + check_range_script(3) + repeat(op_hint() + check_range_script(1), 4) + op_hint()
}

/// The part of the position script that rebuilds the shifts.
pub open spec fn position_rebuild_script() -> Seq<u8> {
    seq![OP_DUP, OP_TOALTSTACK] + repeat(seq![OP_DUP, OP_ADD, OP_ADD, OP_DUP, OP_TOALTSTACK], 4)
}

/// Run on a position `c` with its hints under the stack, the script of
/// `decompose_positions_to_5` checks them against `c` and leaves, in place
/// of `c` and the hints, the shifts `c >> 2, ..., c >> 6` that the function
/// gives (the last on top).
#[verifier::spinoff_prover]
pub proof fn lemma_decompose_positions_script_accepts(c: u64, rest: Seq<Item>, alt: Seq<Item>)
    requires
        c < 0x8000_0000,
    ensures
        run(
            decompose_positions_to_5_script(),
            Stacks { main: position_items(position_hints(c)) + rest.push(Item::Num(c as int)), alt },
        ) == Some(Stacks { main: rest + position_items(position_shifts(c)), alt }),
{
    lemma_position_bits(c);
    let n = |v: int| Item::Num(v);
    let l2 = (c & 3u64) as int;
    let b2 = ((c >> 2u64) & 1u64) as int;
    let b3 = ((c >> 3u64) & 1u64) as int;
    let b4 = ((c >> 4u64) & 1u64) as int;
    let b5 = ((c >> 5u64) & 1u64) as int;
    let r = (c >> 6u64) as int;
    let x5 = (c >> 5u64) as int;
    let x4 = (c >> 4u64) as int;
    let x3 = (c >> 3u64) as int;
    let x2 = (c >> 2u64) as int;
    assert(position_items(position_hints(c)) =~= seq![n(l2), n(b2), n(b3), n(b4), n(b5), n(r)]);
    assert(position_items(position_shifts(c)) =~= seq![n(x2), n(x3), n(x4), n(x5), n(r)]);
    let rc = rest.push(n(c as int));
    let hs = position_hints_script();
    let rb = position_rebuild_script();
    let f = seq![OP_DUP, OP_ADD, OP_DUP, OP_ADD, OP_ADD, OP_EQUALVERIFY];
    let b = repeat(seq![OP_FROMALTSTACK], 5);
    assert(decompose_positions_to_5_script() =~= hs + (rb + (f + b)));
    lemma_run_position_hints(l2, b2, b3, b4, b5, r, rc, alt);
    let m = rc.push(n(l2));
    assert(rc + seq![n(l2), n(b2), n(b3), n(b4), n(b5), n(r)] =~= m + seq![n(b2), n(b3), n(b4), n(b5), n(r)]);
    lemma_run_then(hs, rb + (f + b), Stacks { main: seq![n(l2), n(b2), n(b3), n(b4), n(b5), n(r)] + rc, alt }, Stacks { main: m + seq![n(b2), n(b3), n(b4), n(b5), n(r)], alt });
    lemma_run_position_rebuild(m, b2, b3, b4, b5, r, alt);
    let a5 = alt + seq![n(r), n(x5), n(x4), n(x3), n(x2)];
    lemma_run_then(rb, f + b, Stacks { main: m + seq![n(b2), n(b3), n(b4), n(b5), n(r)], alt }, Stacks { main: m.push(n(x2)), alt: a5 });
    lemma_run_position_check(rest, c as int, l2, x2, a5);
    lemma_run_then(f, b, Stacks { main: rest.push(n(c as int)).push(n(l2)).push(n(x2)), alt: a5 }, Stacks { main: rest, alt: a5 });
    assert(a5 =~= alt.push(n(r)).push(n(x5)).push(n(x4)).push(n(x3)).push(n(x2)));
    lemma_run_back5(rest, alt, n(r), n(x5), n(x4), n(x3), n(x2));
    assert(rest.push(n(x2)).push(n(x3)).push(n(x4)).push(n(x5)).push(n(r)) =~= rest + seq![n(x2), n(x3), n(x4), n(x5), n(r)]);
}

/// The script of `decompose_positions_to_5`.
pub fn decompose_positions_to_5_gadget(_inputs: &[usize]) -> (r: Result<Script>)
    ensures
        r matches Ok(s) && s@ == decompose_positions_to_5_script(),
{
    let mut s = Script::new();
    push_op_hint(&mut s);
    s.append(&check_0_to_3());
    let mut bit = Script::new();
    push_op_hint(&mut bit);
    bit.append(&check_0_or_1());
    s.append_repeated(&bit, 4);
    push_op_hint(&mut s);
    s.push_opcodes(&[OP_DUP, OP_TOALTSTACK]);
    let mut step = Script::new();
    step.push_opcodes(&[OP_DUP, OP_ADD, OP_ADD, OP_DUP, OP_TOALTSTACK]);
    s.append_repeated(&step, 4);
    s.push_opcodes(&[OP_DUP, OP_ADD, OP_DUP, OP_ADD, OP_ADD, OP_EQUALVERIFY]);
    let mut back = Script::new();
    back.push_opcode(OP_FROMALTSTACK);
    s.append_repeated(&back, 5);
    assert(step@ =~= seq![OP_DUP, OP_ADD, OP_ADD, OP_DUP, OP_TOALTSTACK]);
    assert(back@ =~= seq![OP_FROMALTSTACK]);
    assert(s@ =~= decompose_positions_to_5_script());
    Ok(s)
}

/// The script of `select_among_eight` for a pick: copy the picked hash to
/// the alt stack, drop the eight hashes, bring the copy back.
pub open spec fn select_among_eight_script(pick: int) -> Seq<u8> {
    int_push(7 - pick) + seq![
        OP_PICK,
        OP_TOALTSTACK,
        OP_2DROP,
        OP_2DROP,
        OP_2DROP,
        OP_2DROP,
        OP_FROMALTSTACK,
    ]
}

/// Run on eight items `hs` (the first deepest, as the inputs lie), the
/// script for `pick` leaves exactly the item `hs[pick]` in their place.
pub proof fn lemma_select_among_eight_script_picks(pick: int, below: Seq<Item>, hs: Seq<Item>, alt: Seq<Item>)
    requires
        0 <= pick < 8,
        hs.len() == 8,
    ensures
        run(select_among_eight_script(pick), Stacks { main: below + hs, alt }) == Some(
            Stacks { main: below.push(hs[pick]), alt },
        ),
{
    let p = int_push(7 - pick);
    let rest = seq![
        OP_PICK,
        OP_TOALTSTACK,
        OP_2DROP,
        OP_2DROP,
        OP_2DROP,
        OP_2DROP,
        OP_FROMALTSTACK,
    ];
    let m = below + hs;
    let s0 = Stacks { main: m, alt };
    assert(p.len() == 1 && small_num(p[0]) == Some(7 - pick));
    lemma_complete_opcodes(p);
    lemma_run_append(p, rest, s0);
    let s1 = Stacks { main: m.push(Item::Num(7 - pick)), alt };
    assert(p.subrange(1, 1) =~= Seq::<u8>::empty());
    assert(run(p, s0) == Some(s1)) by {
        reveal_with_fuel(run, 2);
    }
    let n = m.len();
    assert(m[n - 8 + pick] == hs[pick]);
    let s2 = Stacks { main: m.push(hs[pick]), alt };
    let s3 = Stacks { main: m, alt: alt.push(hs[pick]) };
    let s4 = Stacks { main: m.subrange(0, n - 8), alt: alt.push(hs[pick]) };
    assert(m.subrange(0, n - 8) =~= below);
    assert(run(rest, s1) == Some(Stacks { main: below.push(hs[pick]), alt })) by {
        reveal_with_fuel(run, 8);
        assert(s1.main.drop_last() =~= m);
        assert(s2.main.drop_last() =~= m);
        assert(m.subrange(0, n - 2).subrange(0, n - 4).subrange(0, n - 6).subrange(0, n - 8) =~= below);
        assert(alt.push(hs[pick]).drop_last() =~= alt);
    }
}

/// The script of `select_among_eight`, for the option `pick`; a pick outside
/// `0..8` is refused.
pub fn select_among_eight_gadget(_inputs: &[usize], options: &Options) -> (r: Result<Script>)
    ensures
        match option_u32(options.entries@, "pick"@) {
            None => r == Err::<Script, DslError>(DslError::InvalidOption),
            Some(pick) => if pick < 8 {
                r matches Ok(s) && s@ == select_among_eight_script(pick as int)
            } else {
                r == Err::<Script, DslError>(DslError::InvalidOption)
            },
        },
{
    let pick = options.get_u32("pick")?;
    if pick >= 8 {
        return Err(DslError::InvalidOption);
    }
    let mut s = Script::new();
    s.push_int(7 - pick as i64);
    s.push_opcodes(
        &[OP_PICK, OP_TOALTSTACK, OP_2DROP, OP_2DROP, OP_2DROP, OP_2DROP, OP_FROMALTSTACK],
    );
    assert(s@ =~= select_among_eight_script(pick as int));
    Ok(s)
}

/// Registers the position and hash utilities, in order; a name already taken stops the
/// registration with `DuplicateFunction`.
pub fn load_functions(dsl: &mut crate::dsl::framework::DSL) -> (r: crate::dsl::framework::Result<()>)
    ensures
        r is Ok <==> crate::dsl::range_names_free(old(dsl).functions@, 42, 44),
        r matches Err(e) ==> e == crate::dsl::framework::DslError::DuplicateFunction,
        r is Ok ==> crate::dsl::functions_extended_by(final(dsl), old(dsl), 42, 44),
        final(dsl).functions@.subrange(0, old(dsl).functions@.len() as int) == old(dsl).functions@,
        final(dsl).data_types@ == old(dsl).data_types@,
        final(dsl).memory@ == old(dsl).memory@,
        final(dsl).hints@ == old(dsl).hints@,
{
    crate::dsl::load_standard_functions(dsl, 42, 44)
}

} // verus!
