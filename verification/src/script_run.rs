use crate::script::{
    check_limb_format, int_push, limbs_equalverify_script, magnitude, op_256mul, op_hint, picks, repeat,
    roll_equalverify, scriptnum_bytes,
    OP_0, OP_1SUB, OP_2DROP, OP_2SWAP, OP_ADD, OP_DEPTH, OP_DROP, OP_DUP, OP_EQUALVERIFY,
    OP_FROMALTSTACK, OP_GREATERTHANOREQUAL, OP_LESSTHAN, OP_LESSTHANOREQUAL, OP_PICK,
    OP_PUSHNUM_NEG1, OP_ROLL, OP_ROT, OP_SWAP, OP_TOALTSTACK, OP_VERIFY,
};
use vstd::prelude::*;

verus! {

// What a script does to the stacks, for the opcodes that the gadgets use.
// Numbers are held as numbers; every other item (a digest, say) is carried
// as it is. The hints of a program lie at the bottom of the main stack, the
// first hint deepest.

/// An item of a stack.
pub enum Item {
    Num(int),
    Bytes(Seq<u8>),
}

/// The main stack and the alt stack; the last item is the top.
pub struct Stacks {
    pub main: Seq<Item>,
    pub alt: Seq<Item>,
}

/// The number of data bytes that follow the opcode `op`: a direct push of
/// `op` bytes for `1..=75`, none otherwise.
pub open spec fn push_data_len(op: u8) -> nat {
    if 1 <= op <= 0x4b {
        op as nat
    } else {
        0
    }
}

/// The little-endian value of some bytes.
pub open spec fn le_value(d: Seq<u8>) -> int
    decreases d.len(),
{
    if d.len() == 0 {
        0
    } else {
        d[0] + 256 * le_value(d.drop_first())
    }
}

/// The number that pushed bytes stand for: little-endian magnitude, with
/// the sign in the top bit of the last byte.
pub open spec fn decode_num(d: Seq<u8>) -> int {
    if d.len() == 0 {
        0
    } else {
        let top = d.last();
        let mag = le_value(d.drop_last().push((top % 128) as u8));
        if top >= 128 {
            -mag
        } else {
            mag
        }
    }
}

/// The number that an opcode of its own pushes, if it is one.
pub open spec fn small_num(op: u8) -> Option<int> {
    if op == OP_0 {
        Some(0)
    } else if op == OP_PUSHNUM_NEG1 {
        Some(-1)
    } else if 0x51 <= op <= 0x60 {
        Some(op - 0x50)
    } else {
        None
    }
}

/// The number an item holds, if it is one.
pub open spec fn num_of(i: Item) -> Option<int> {
    match i {
        Item::Num(v) => Some(v),
        _ => None,
    }
}

/// A truth value as a number.
pub open spec fn bool_item(b: bool) -> Item {
    Item::Num(if b { 1 } else { 0 })
}

/// The stacks with `m` as the main stack.
pub open spec fn with_main(s: Stacks, m: Seq<Item>) -> Stacks {
    Stacks { main: m, alt: s.alt }
}

/// A binary operation on the top two numbers `a b` (`b` on top).
pub open spec fn binary(s: Stacks, f: spec_fn(int, int) -> Item) -> Option<Stacks> {
    let m = s.main;
    let n = m.len();
    if n < 2 {
        None
    } else {
        match (num_of(m[n - 2]), num_of(m[n - 1])) {
            (Some(a), Some(b)) => Some(with_main(s, m.subrange(0, n - 2).push(f(a, b)))),
            _ => None,
        }
    }
}

/// What one opcode, with its pushed bytes `data`, does; `None` when the
/// script fails there.
pub open spec fn exec_op(op: u8, data: Seq<u8>, s: Stacks) -> Option<Stacks> {
    let m = s.main;
    let n = m.len();
    if 1 <= op <= 0x4b {
        Some(with_main(s, m.push(Item::Num(decode_num(data)))))
    } else if small_num(op) is Some {
        Some(with_main(s, m.push(Item::Num(small_num(op)->0))))
    } else if op == OP_DUP {
        if n >= 1 { Some(with_main(s, m.push(m[n - 1]))) } else { None }
    } else if op == OP_DROP {
        if n >= 1 { Some(with_main(s, m.drop_last())) } else { None }
    } else if op == OP_2DROP {
        if n >= 2 { Some(with_main(s, m.subrange(0, n - 2))) } else { None }
    } else if op == OP_SWAP {
        if n >= 2 {
            Some(with_main(s, m.subrange(0, n - 2).push(m[n - 1]).push(m[n - 2])))
        } else {
            None
        }
    } else if op == OP_ROT {
        if n >= 3 {
            Some(with_main(s, m.subrange(0, n - 3).push(m[n - 2]).push(m[n - 1]).push(m[n - 3])))
        } else {
            None
        }
    } else if op == OP_2SWAP {
        if n >= 4 {
            Some(
                with_main(
                    s,
                    m.subrange(0, n - 4).push(m[n - 2]).push(m[n - 1]).push(m[n - 4]).push(m[n - 3]),
                ),
            )
        } else {
            None
        }
    } else if op == OP_PICK || op == OP_ROLL {
        if n >= 1 {
            match num_of(m[n - 1]) {
                Some(k) => {
                    let r = m.drop_last();
                    if 0 <= k < r.len() {
                        let i = r.len() - 1 - k;
                        if op == OP_PICK {
                            Some(with_main(s, r.push(r[i])))
                        } else {
                            Some(with_main(s, r.subrange(0, i) + r.subrange(i + 1, r.len() as int).push(r[i])))
                        }
                    } else {
                        None
                    }
                },
                None => None,
            }
        } else {
            None
        }
    } else if op == OP_TOALTSTACK {
        if n >= 1 { Some(Stacks { main: m.drop_last(), alt: s.alt.push(m[n - 1]) }) } else { None }
    } else if op == OP_FROMALTSTACK {
        let a = s.alt;
        if a.len() >= 1 { Some(Stacks { main: m.push(a.last()), alt: a.drop_last() }) } else { None }
    } else if op == OP_DEPTH {
        Some(with_main(s, m.push(Item::Num(n as int))))
    } else if op == OP_1SUB {
        if n >= 1 {
            match num_of(m[n - 1]) {
                Some(x) => Some(with_main(s, m.drop_last().push(Item::Num(x - 1)))),
                None => None,
            }
        } else {
            None
        }
    } else if op == OP_ADD {
        binary(s, |a: int, b: int| Item::Num(a + b))
    } else if op == OP_LESSTHAN {
        binary(s, |a: int, b: int| bool_item(a < b))
    } else if op == OP_LESSTHANOREQUAL {
        binary(s, |a: int, b: int| bool_item(a <= b))
    } else if op == OP_GREATERTHANOREQUAL {
        binary(s, |a: int, b: int| bool_item(a >= b))
    } else if op == OP_VERIFY {
        if n >= 1 && num_of(m[n - 1]) is Some && num_of(m[n - 1])->0 != 0 {
            Some(with_main(s, m.drop_last()))
        } else {
            None
        }
    } else if op == OP_EQUALVERIFY {
        if n >= 2 && m[n - 2] == m[n - 1] { Some(with_main(s, m.subrange(0, n - 2))) } else { None }
    } else {
        None
    }
}

/// What running `code` on the stacks leaves, or `None` if the script fails.
pub open spec fn run(code: Seq<u8>, s: Stacks) -> Option<Stacks>
    decreases code.len(),
{
    if code.len() == 0 {
        Some(s)
    } else {
        let l = push_data_len(code[0]);
        if code.len() < 1 + l {
            None
        } else {
            match exec_op(code[0], code.subrange(1, 1 + l as int), s) {
                None => None,
                Some(s2) => run(code.subrange(1 + l as int, code.len() as int), s2),
            }
        }
    }
}

/// Every push in `code` has all its data bytes: the script splits into
/// whole instructions.
pub open spec fn complete(code: Seq<u8>) -> bool
    decreases code.len(),
{
    if code.len() == 0 {
        true
    } else {
        let l = push_data_len(code[0]);
        code.len() >= 1 + l && complete(code.subrange(1 + l as int, code.len() as int))
    }
}

/// Running one script after another.
pub open spec fn then(r: Option<Stacks>, code: Seq<u8>) -> Option<Stacks> {
    match r {
        Some(s) => run(code, s),
        None => None,
    }
}

/// Running `a + b` runs `a`, then `b`, when `a` is made of whole
/// instructions.
pub proof fn lemma_run_append(a: Seq<u8>, b: Seq<u8>, s: Stacks)
    requires
        complete(a),
    ensures
        run(a + b, s) == then(run(a, s), b),
    decreases a.len(),
{
    if a.len() == 0 {
        assert(a + b =~= b);
    } else {
        let l = push_data_len(a[0]);
        let ab = a + b;
        assert(ab[0] == a[0]);
        assert(ab.subrange(1, 1 + l as int) =~= a.subrange(1, 1 + l as int));
        let rest = a.subrange(1 + l as int, a.len() as int);
        assert(ab.subrange(1 + l as int, ab.len() as int) =~= rest + b);
        match exec_op(a[0], a.subrange(1, 1 + l as int), s) {
            None => {},
            Some(s2) => {
                lemma_run_append(rest, b, s2);
            },
        }
    }
}

/// Whole instructions put together are whole instructions.
pub proof fn lemma_complete_append(a: Seq<u8>, b: Seq<u8>)
    requires
        complete(a),
        complete(b),
    ensures
        complete(a + b),
    decreases a.len(),
{
    if a.len() == 0 {
        assert(a + b =~= b);
    } else {
        let l = push_data_len(a[0]);
        let ab = a + b;
        assert(ab[0] == a[0]);
        let rest = a.subrange(1 + l as int, a.len() as int);
        assert(ab.subrange(1 + l as int, ab.len() as int) =~= rest + b);
        lemma_complete_append(rest, b);
    }
}

/// A script without direct pushes is made of whole instructions.
pub proof fn lemma_complete_opcodes(code: Seq<u8>)
    requires
        forall|i: int| 0 <= i < code.len() ==> !(1 <= #[trigger] code[i] <= 0x4b),
    ensures
        complete(code),
    decreases code.len(),
{
    if code.len() > 0 {
        let rest = code.subrange(1, code.len() as int);
        assert forall|i: int| 0 <= i < rest.len() implies !(1 <= #[trigger] rest[i] <= 0x4b) by {
            assert(rest[i] == code[i + 1]);
        }
        lemma_complete_opcodes(rest);
    }
}

/// Running `a + b` where `a` takes the stacks from `s` to `s1`.
pub proof fn lemma_run_then(a: Seq<u8>, b: Seq<u8>, s: Stacks, s1: Stacks)
    requires
        complete(a),
        run(a, s) == Some(s1),
    ensures
        run(a + b, s) == run(b, s1),
{
    lemma_run_append(a, b, s);
}

/// The hint step moves the deepest item of the main stack to its top.
pub proof fn lemma_run_op_hint(h: Item, hs: Seq<Item>, alt: Seq<Item>)
    ensures
        complete(op_hint()),
        run(op_hint(), Stacks { main: seq![h] + hs, alt }) == Some(Stacks { main: hs.push(h), alt }),
{
    let m = seq![h] + hs;
    let n = m.len();
    lemma_complete_opcodes(op_hint());
    assert(run(op_hint(), Stacks { main: m, alt }) == Some(Stacks { main: hs.push(h), alt })) by {
        reveal_with_fuel(run, 4);
        let m2 = m.push(Item::Num(n as int)).drop_last().push(Item::Num(n - 1));
        assert(m2.drop_last() =~= m);
        assert(m.subrange(0, 0) + m.subrange(1, n as int).push(m[0]) =~= hs.push(h));
    }
}

/// Multiplying by 256 by doubling: a number on top becomes 256 times it.
pub proof fn lemma_run_256mul(m: Seq<Item>, x: int, alt: Seq<Item>)
    ensures
        complete(op_256mul()),
        run(op_256mul(), Stacks { main: m.push(Item::Num(x)), alt }) == Some(
            Stacks { main: m.push(Item::Num(256 * x)), alt },
        ),
{
    lemma_complete_opcodes(op_256mul());
    let one = seq![OP_DUP, OP_ADD];
    lemma_complete_opcodes(one);
    assert forall|z: int| #[trigger] run(one, Stacks { main: m.push(Item::Num(z)), alt }) == Some(
        Stacks { main: m.push(Item::Num(2 * z)), alt },
    ) by {
        reveal_with_fuel(run, 3);
        let mz = m.push(Item::Num(z));
        assert(mz.push(Item::Num(z)).subrange(0, mz.len() - 1) =~= m);
    }
    let st = |z: int| Stacks { main: m.push(Item::Num(z)), alt };
    assert(op_256mul() =~= one + (one + (one + (one + (one + (one + (one + one)))))));
    lemma_run_then(one, one + (one + (one + (one + (one + (one + one))))), st(x), st(2 * x));
    lemma_run_then(one, one + (one + (one + (one + (one + one)))), st(2 * x), st(4 * x));
    lemma_run_then(one, one + (one + (one + (one + one))), st(4 * x), st(8 * x));
    lemma_run_then(one, one + (one + (one + one)), st(8 * x), st(16 * x));
    lemma_run_then(one, one + (one + one), st(16 * x), st(32 * x));
    lemma_run_then(one, one + one, st(32 * x), st(64 * x));
    lemma_run_then(one, one, st(64 * x), st(128 * x));
}

/// Running an opcode that pushes no data, then the rest.
pub proof fn lemma_run_op(op: u8, rest: Seq<u8>, s: Stacks)
    requires
        !(1 <= op <= 0x4b),
    ensures
        run(seq![op] + rest, s) == match exec_op(op, Seq::empty(), s) {
            Some(s2) => run(rest, s2),
            None => None,
        },
{
    let code = seq![op] + rest;
    assert(code[0] == op);
    assert(code.subrange(1, 1) =~= Seq::<u8>::empty());
    assert(code.subrange(1, code.len() as int) =~= rest);
    reveal_with_fuel(run, 1);
}

/// Items pushed on `m` are taken off again by a subrange.
pub proof fn lemma_pushed(m: Seq<Item>, a: Item, b: Item)
    ensures
        m.push(a).push(b).subrange(0, m.len() as int) == m,
        m.push(a).subrange(0, m.len() as int) == m,
        m.push(a).drop_last() == m,
        m.push(a).push(b).drop_last() == m.push(a),
{
    assert(m.push(a).push(b).subrange(0, m.len() as int) =~= m);
    assert(m.push(a).subrange(0, m.len() as int) =~= m);
    assert(m.push(a).drop_last() =~= m);
    assert(m.push(a).push(b).drop_last() =~= m.push(a));
}

/// The byte check passes a number in `0..256` and leaves the stacks as they
/// were.
pub proof fn lemma_run_check_limb_format(m: Seq<Item>, x: int, alt: Seq<Item>)
    requires
        0 <= x < 256,
    ensures
        complete(check_limb_format()),
        run(check_limb_format(), Stacks { main: m.push(Item::Num(x)), alt }) == Some(
            Stacks { main: m.push(Item::Num(x)), alt },
        ),
{
    reveal_with_fuel(crate::script::scriptnum_bytes, 3);
    assert(int_push(256) =~= seq![2u8, 0u8, 1u8]);
    let push256 = seq![2u8, 0u8, 1u8];
    let tail = seq![OP_LESSTHAN, OP_VERIFY];
    let c5 = push256 + tail;
    let c4 = seq![OP_DUP] + c5;
    let c3 = seq![OP_VERIFY] + c4;
    let c2 = seq![OP_GREATERTHANOREQUAL] + c3;
    let c1 = seq![OP_0] + c2;
    let code = seq![OP_DUP] + c1;
    assert(check_limb_format() =~= code);
    assert(decode_num(push256.subrange(1, 3)) == 256) by {
        reveal_with_fuel(le_value, 3);
        assert(push256.subrange(1, 3) =~= seq![0u8, 1u8]);
        assert(seq![0u8, 1u8].drop_last().push((1u8 % 128) as u8) =~= seq![0u8, 1u8]);
        assert(seq![0u8, 1u8].drop_first() =~= seq![1u8]);
        assert(seq![1u8].drop_first() =~= Seq::<u8>::empty());
    }
    let mx = m.push(Item::Num(x));
    let xi = Item::Num(x);
    lemma_pushed(mx, xi, Item::Num(0));
    lemma_pushed(mx, xi, Item::Num(256));
    lemma_pushed(mx, Item::Num(1), Item::Num(1));
    lemma_run_op(OP_DUP, c1, Stacks { main: mx, alt });
    lemma_run_op(OP_0, c2, Stacks { main: mx.push(xi), alt });
    lemma_run_op(OP_GREATERTHANOREQUAL, c3, Stacks { main: mx.push(xi).push(Item::Num(0)), alt });
    lemma_run_op(OP_VERIFY, c4, Stacks { main: mx.push(Item::Num(1)), alt });
    lemma_run_op(OP_DUP, c5, Stacks { main: mx, alt });
    let s6 = Stacks { main: mx.push(xi).push(Item::Num(256)), alt };
    assert(run(c5, Stacks { main: mx.push(xi), alt }) == run(tail, s6)) by {
        assert(c5[0] == 2u8);
        assert(c5.subrange(1, 3) =~= push256.subrange(1, 3));
        assert(c5.subrange(3, c5.len() as int) =~= tail);
        reveal_with_fuel(run, 1);
    }
    lemma_run_op(OP_LESSTHAN, seq![OP_VERIFY], s6);
    lemma_run_op(OP_VERIFY, Seq::empty(), Stacks { main: mx.push(Item::Num(1)), alt });
    assert(seq![OP_VERIFY] + Seq::<u8>::empty() =~= seq![OP_VERIFY]);
    assert(seq![OP_LESSTHAN] + seq![OP_VERIFY] =~= tail);
    assert(run(Seq::<u8>::empty(), Stacks { main: mx, alt }) == Some(Stacks { main: mx, alt }));
    assert(complete(code)) by {
        reveal_with_fuel(complete, 10);
    }
}

/// Numbers as stack items, in order.
pub open spec fn num_items(l: Seq<i32>) -> Seq<Item> {
    Seq::new(l.len(), |i: int| Item::Num(l[i] as int))
}

/// Pushing `k` (one opcode for `1..=16`) and rolling brings up the item
/// under the top `k`.
pub proof fn lemma_run_roll_small(k: int, below: Seq<Item>, x: Item, above: Seq<Item>, alt: Seq<Item>)
    requires
        1 <= k <= 16,
        above.len() == k,
    ensures
        complete(int_push(k) + seq![OP_ROLL]),
        run(int_push(k) + seq![OP_ROLL], Stacks { main: below.push(x) + above, alt }) == Some(
            Stacks { main: below + above.push(x), alt },
        ),
{
    let code = seq![(0x50 + k) as u8, OP_ROLL];
    assert(int_push(k) + seq![OP_ROLL] =~= code);
    let m = below.push(x) + above;
    let n = m.len();
    lemma_complete_opcodes(code);
    assert(m.push(Item::Num(k)).drop_last() =~= m);
    assert(m.subrange(0, n - 1 - k) + m.subrange(n - k, n as int).push(m[n - 1 - k]) =~= below + above.push(x));
    assert(run(code, Stacks { main: m, alt }) == Some(Stacks { main: below + above.push(x), alt })) by {
        reveal_with_fuel(run, 3);
    }
}

/// The checks of `roll_equalverify(k)` on two groups `a` and `b` of `k`
/// items: each pair above the lowest two is compared, the highest first;
/// they all pass exactly when the groups agree there, leaving the lowest two
/// of each group.
pub proof fn lemma_run_roll_equalverify(k: int, rest: Seq<Item>, a: Seq<Item>, b: Seq<Item>, alt: Seq<Item>)
    requires
        2 <= k <= 16,
        a.len() == k,
        b.len() == k,
    ensures
        complete(roll_equalverify(k)),
        run(roll_equalverify(k), Stacks { main: rest + a + b, alt }) == if a.subrange(2, k) == b.subrange(2, k) {
            Some(Stacks { main: rest + a.subrange(0, 2) + b.subrange(0, 2), alt })
        } else {
            None::<Stacks>
        },
    decreases k,
{
    if k < 3 {
        assert(roll_equalverify(k) =~= Seq::<u8>::empty());
        assert(a.subrange(2, k) =~= b.subrange(2, k));
        assert(a.subrange(0, 2) =~= a && b.subrange(0, 2) =~= b);
        reveal_with_fuel(complete, 1);
        reveal_with_fuel(run, 1);
    } else {
        let p = int_push(k) + seq![OP_ROLL];
        let ev = seq![OP_EQUALVERIFY];
        let tail = roll_equalverify(k - 1);
        assert(roll_equalverify(k) =~= p + (ev + tail));
        let a1 = a.subrange(0, k - 1);
        let b1 = b.subrange(0, k - 1);
        let top_a = a[k - 1];
        assert(rest + a + b =~= (rest + a1).push(top_a) + b);
        lemma_run_roll_small(k, rest + a1, top_a, b, alt);
        lemma_run_roll_equalverify(k - 1, rest, a1, b1, alt);
        lemma_complete_opcodes(ev);
        lemma_complete_append(ev, tail);
        lemma_complete_append(p, ev + tail);
        lemma_run_append(p, ev + tail, Stacks { main: (rest + a1).push(top_a) + b, alt });
        let m = (rest + a1) + b.push(top_a);
        lemma_run_op(OP_EQUALVERIFY, tail, Stacks { main: m, alt });
        assert(m[m.len() - 2] == b[k - 1] && m[m.len() - 1] == top_a);
        assert(m.subrange(0, m.len() - 2) =~= rest + a1 + b1);
        assert(a1.subrange(0, 2) =~= a.subrange(0, 2) && b1.subrange(0, 2) =~= b.subrange(0, 2));
        if a.subrange(2, k) == b.subrange(2, k) {
            assert(a[k - 1] == a.subrange(2, k)[k - 3] && b[k - 1] == b.subrange(2, k)[k - 3]);
            assert(a1.subrange(2, k - 1) =~= a.subrange(2, k).subrange(0, k - 3));
            assert(b1.subrange(2, k - 1) =~= b.subrange(2, k).subrange(0, k - 3));
        } else if top_a == b[k - 1] {
            assert(a1.subrange(2, k - 1) != b1.subrange(2, k - 1)) by {
                if a1.subrange(2, k - 1) == b1.subrange(2, k - 1) {
                    assert(a.subrange(2, k) =~= a1.subrange(2, k - 1).push(top_a));
                    assert(b.subrange(2, k) =~= b1.subrange(2, k - 1).push(b[k - 1]));
                }
            }
        }
    }
}

/// The check that two groups of `n` items are equal, item by item, passes
/// exactly when they are, and then leaves the rest of the stack.
pub proof fn lemma_run_limbs_equalverify(n: int, rest: Seq<Item>, a: Seq<Item>, b: Seq<Item>, alt: Seq<Item>)
    requires
        2 <= n <= 16,
        a.len() == n,
        b.len() == n,
    ensures
        run(limbs_equalverify_script(n), Stacks { main: rest + a + b, alt }) == if a == b {
            Some(Stacks { main: rest, alt })
        } else {
            None::<Stacks>
        },
{
    let fin = seq![OP_ROT, OP_EQUALVERIFY, OP_EQUALVERIFY];
    lemma_run_roll_equalverify(n, rest, a, b, alt);
    lemma_run_append(roll_equalverify(n), fin, Stacks { main: rest + a + b, alt });
    if a.subrange(2, n) == b.subrange(2, n) {
        let m = rest + a.subrange(0, 2) + b.subrange(0, 2);
        assert(m =~= rest.push(a[0]).push(a[1]).push(b[0]).push(b[1]));
        let m2 = rest.push(a[0]).push(b[0]).push(b[1]).push(a[1]);
        assert(m.subrange(0, m.len() - 3).push(m[m.len() - 2]).push(m[m.len() - 1]).push(m[m.len() - 3]) =~= m2);
        assert(m2.subrange(0, m2.len() - 2) =~= rest.push(a[0]).push(b[0]));
        assert(rest.push(a[0]).push(b[0]).subrange(0, rest.len() as int) =~= rest);
        assert(run(fin, Stacks { main: m, alt }) == if a[1] == b[1] && a[0] == b[0] {
            Some(Stacks { main: rest, alt })
        } else {
            None::<Stacks>
        }) by {
            reveal_with_fuel(run, 4);
        }
        if a[1] == b[1] && a[0] == b[0] {
            assert(a =~= b) by {
                assert forall|i: int| 0 <= i < n implies a[i] == b[i] by {
                    if i >= 2 {
                        assert(a[i] == a.subrange(2, n)[i - 2] && b[i] == b.subrange(2, n)[i - 2]);
                    }
                }
            }
        }
    } else {
        assert(a != b) by {
            if a == b {
                assert(a.subrange(2, n) =~= b.subrange(2, n));
            }
        }
    }
}

/// `256^k`.
pub open spec fn pow256(k: nat) -> int
    decreases k,
{
    if k == 0 {
        1
    } else {
        256 * pow256((k - 1) as nat)
    }
}

/// The encoding of a positive number reads back as the number, ends in a
/// byte without the sign bit, and takes at most `k + 1` bytes below `256^k`.
pub proof fn lemma_scriptnum_positive(a: nat, k: nat)
    requires
        1 <= a < pow256(k),
    ensures
        le_value(scriptnum_bytes(a, false)) == a,
        scriptnum_bytes(a, false).len() >= 1,
        scriptnum_bytes(a, false).len() <= k + 1,
        scriptnum_bytes(a, false).last() < 128,
    decreases a,
{
    let d = scriptnum_bytes(a, false);
    if a > 255 {
        if k == 0 {
            assert(pow256(0) == 1);
        }
        let k1 = (k - 1) as nat;
        assert(pow256(k) == 256 * pow256(k1));
        assert(a / 256 < pow256(k1));
        lemma_scriptnum_positive(a / 256, k1);
        let t = scriptnum_bytes(a / 256, false);
        assert(d == seq![(a % 256) as u8] + t);
        assert(d.drop_first() =~= t);
        assert(d.last() == t.last());
    } else if a >= 128 {
        if k == 0 {
            assert(pow256(0) == 1);
        }
        assert(d =~= seq![a as u8, 0u8]);
        assert(d.drop_first() =~= seq![0u8]);
        assert(seq![0u8].drop_first() =~= Seq::<u8>::empty());
        reveal_with_fuel(le_value, 3);
    } else {
        assert(d =~= seq![a as u8]);
        assert(d.drop_first() =~= Seq::<u8>::empty());
        reveal_with_fuel(le_value, 2);
    }
}

/// Pushing a nonnegative number below `2^63` leaves that number on top.
pub proof fn lemma_run_int_push(x: int, s: Stacks)
    requires
        0 <= x <= i64::MAX,
    ensures
        complete(int_push(x)),
        run(int_push(x), s) == Some(Stacks { main: s.main.push(Item::Num(x)), alt: s.alt }),
{
    let code = int_push(x);
    if x <= 16 {
        assert(code.len() == 1 && small_num(code[0]) == Some(x));
        assert(code.subrange(1, 1) =~= Seq::<u8>::empty());
        lemma_complete_opcodes(code);
        reveal_with_fuel(run, 2);
    } else {
        assert(pow256(8) == 0x1_0000_0000_0000_0000) by {
            reveal_with_fuel(pow256, 9);
        }
        lemma_scriptnum_positive(x as nat, 8);
        let d = scriptnum_bytes(magnitude(x), false);
        assert(magnitude(x) == x as nat);
        assert(code == seq![d.len() as u8] + d);
        let l = d.len();
        assert(code[0] == l as u8 && push_data_len(code[0]) == l);
        assert(code.subrange(1, 1 + l as int) =~= d);
        assert(code.subrange(1 + l as int, code.len() as int) =~= Seq::<u8>::empty());
        assert(d.drop_last().push((d.last() % 128) as u8) =~= d);
        assert(decode_num(d) == x);
        assert(complete(code)) by {
            reveal_with_fuel(complete, 2);
        }
        reveal_with_fuel(run, 2);
    }
}

/// Copying the item at `depth`, `n` times in a row, copies the `n` items
/// from that depth upwards, in their order.
pub proof fn lemma_run_picks(depth: int, n: nat, m: Seq<Item>, alt: Seq<Item>)
    requires
        0 <= depth < m.len(),
        depth <= i64::MAX,
        n <= depth + 1,
    ensures
        complete(picks(depth, n)),
        run(picks(depth, n), Stacks { main: m, alt }) == Some(
            Stacks { main: m + m.subrange(m.len() - 1 - depth, m.len() - 1 - depth + n), alt },
        ),
    decreases n,
{
    let l = m.len() as int;
    let unit = int_push(depth) + seq![OP_PICK];
    if n == 0 {
        assert(picks(depth, 0) =~= Seq::<u8>::empty());
        assert(m + m.subrange(l - 1 - depth, l - 1 - depth) =~= m);
        assert(run(Seq::<u8>::empty(), Stacks { main: m, alt }) == Some(Stacks { main: m, alt }));
        reveal_with_fuel(complete, 1);
        reveal_with_fuel(run, 1);
    } else {
        let n1 = (n - 1) as nat;
        lemma_run_picks(depth, n1, m, alt);
        assert(picks(depth, n) == picks(depth, n1) + unit);
        let m1 = m + m.subrange(l - 1 - depth, l - 1 - depth + n1);
        lemma_run_int_push(depth, Stacks { main: m1, alt });
        lemma_complete_opcodes(seq![OP_PICK]);
        lemma_complete_append(int_push(depth), seq![OP_PICK]);
        lemma_complete_append(picks(depth, n1), unit);
        lemma_run_append(picks(depth, n1), unit, Stacks { main: m, alt });
        lemma_run_append(int_push(depth), seq![OP_PICK], Stacks { main: m1, alt });
        let m2 = m1.push(Item::Num(depth));
        assert(m2.drop_last() =~= m1);
        assert(m1[m1.len() - 1 - depth] == m[l - 1 - depth + n1]);
        assert(run(seq![OP_PICK], Stacks { main: m2, alt }) == Some(Stacks { main: m1.push(m1[m1.len() - 1 - depth]), alt })) by {
            reveal_with_fuel(run, 2);
        }
        assert(m1.push(m[l - 1 - depth + n1]) =~= m + m.subrange(l - 1 - depth, l - 1 - depth + n));
        assert(run(unit, Stacks { main: m1, alt }) == Some(Stacks { main: m1.push(m[l - 1 - depth + n1]), alt }));
        assert(run(picks(depth, n1), Stacks { main: m, alt }) == Some(Stacks { main: m1, alt }));
        assert(run(picks(depth, n1) + unit, Stacks { main: m, alt }) == run(unit, Stacks { main: m1, alt }));
    }
}

/// For an element `e` whose deepest item lies under the items `above`,
/// copying from the depth of its item `lo` copies its items `lo..lo + k`.
pub proof fn lemma_picks_from_element(below: Seq<Item>, e: Seq<Item>, above: Seq<Item>, lo: int, k: nat, alt: Seq<Item>)
    requires
        0 <= lo,
        1 <= k,
        lo + k <= e.len(),
        (below + e + above).len() <= i64::MAX,
    ensures
        run(picks(above.len() + e.len() - 1 - lo, k), Stacks { main: below + e + above, alt }) == Some(
            Stacks { main: below + e + above + e.subrange(lo, lo + k), alt },
        ),
{
    let m = below + e + above;
    let depth = above.len() + e.len() - 1 - lo;
    lemma_run_picks(depth, k, m, alt);
    assert(m.len() - 1 - depth == below.len() + lo);
    assert(m.subrange(below.len() + lo, below.len() + lo + k) =~= e.subrange(lo, lo + k));
}

} // verus!
