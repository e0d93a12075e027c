use crate::field::cm31::CM31;
use crate::field::m31::{M31, P};
use crate::field::qm31::QM31;
use crate::script::{
    int_push, op_256mul, push_op_256mul, Script, OP_ADD, OP_DUP, OP_FROMALTSTACK, OP_LESSTHAN, OP_SWAP,
    OP_2SWAP, OP_TOALTSTACK, OP_VERIFY,
};
use crate::script_run::{
    complete, decode_num, le_value, lemma_complete_append, lemma_complete_opcodes, lemma_pushed,
    lemma_run_256mul, lemma_run_append, lemma_run_op, num_items, run, then, Item, Stacks,
};
use vstd::prelude::*;

verus! {

/// The four little-endian bytes of a 32-bit value, as limbs.
pub open spec fn m31_limbs(v: int) -> Seq<i32> {
    seq![
        (v % 256) as i32,
        ((v / 256) % 256) as i32,
        ((v / 65536) % 256) as i32,
        ((v / 16777216) % 256) as i32,
    ]
}

/// The limbs of a complex element: real part first, then imaginary part.
pub open spec fn cm31_limbs(c: CM31) -> Seq<i32> {
    m31_limbs(c.0.val()) + m31_limbs(c.1.val())
}

/// The limbs of a degree-4 element: first half, then second half.
pub open spec fn qm31_limbs(q: QM31) -> Seq<i32> {
    cm31_limbs(q.0) + cm31_limbs(q.1)
}

/// Every limb is a byte, the format that the scripts check.
pub open spec fn limbs_in_byte_range(l: Seq<i32>) -> bool {
    forall|i: int| 0 <= i < l.len() ==> 0 <= #[trigger] l[i] < 256
}

/// The value that four little-endian limbs stand for.
pub open spec fn limbs_value(l: Seq<i32>) -> int {
    l[0] + 256 * l[1] + 65536 * l[2] + 16777216 * l[3]
}

/// Four byte limbs that stand for a canonical base field element.
pub open spec fn valid_m31_limbs(l: Seq<i32>) -> bool {
    l.len() == 4 && limbs_in_byte_range(l) && limbs_value(l) < P
}

/// Eight byte limbs that stand for two canonical base field elements.
pub open spec fn valid_cm31_limbs(l: Seq<i32>) -> bool {
    l.len() == 8 && valid_m31_limbs(l.subrange(0, 4)) && valid_m31_limbs(l.subrange(4, 8))
}

/// Sixteen byte limbs that stand for four canonical base field elements.
pub open spec fn valid_qm31_limbs(l: Seq<i32>) -> bool {
    l.len() == 16 && valid_cm31_limbs(l.subrange(0, 8)) && valid_cm31_limbs(l.subrange(8, 16))
}

/// The complex element that eight limbs stand for.
pub open spec fn cm31_of_limbs(l: Seq<i32>) -> CM31 {
    CM31(
        M31(limbs_value(l.subrange(0, 4)) as u32),
        M31(limbs_value(l.subrange(4, 8)) as u32),
    )
}

/// The degree-4 element that sixteen limbs stand for.
pub open spec fn qm31_of_limbs(l: Seq<i32>) -> QM31 {
    QM31(cm31_of_limbs(l.subrange(0, 8)), cm31_of_limbs(l.subrange(8, 16)))
}

/// Splitting into bytes and putting the bytes together again gives the value.
pub proof fn lemma_limbs_roundtrip(v: u32)
    ensures
        limbs_in_byte_range(m31_limbs(v as int)),
        limbs_value(m31_limbs(v as int)) == v,
        m31_limbs(v as int).len() == 4,
{
    let l = m31_limbs(v as int);
    assert(l[0] == v % 256);
    assert(l[1] == (v / 256) % 256);
    assert(l[2] == (v / 65536) % 256);
    assert(l[3] == (v / 16777216) % 256);
    assert(v / 16777216 < 256);
    assert(limbs_value(l) == v) by (nonlinear_arith)
        requires
            l[0] == v % 256,
            l[1] == (v / 256) % 256,
            l[2] == (v / 65536) % 256,
            l[3] == v / 16777216,
            v < 4294967296,
    ;
}

/// Putting byte limbs together and splitting again gives the limbs.
pub proof fn lemma_limbs_roundtrip_back(l: Seq<i32>)
    requires
        l.len() == 4,
        limbs_in_byte_range(l),
    ensures
        m31_limbs(limbs_value(l)) == l,
        0 <= limbs_value(l) < 4294967296,
{
    let v = limbs_value(l);
    let (a, b, c, d) = (l[0] as int, l[1] as int, l[2] as int, l[3] as int);
    assert(0 <= a < 256 && 0 <= b < 256 && 0 <= c < 256 && 0 <= d < 256);
    assert(v % 256 == a) by (nonlinear_arith)
        requires
            v == a + 256 * b + 65536 * c + 16777216 * d,
            0 <= a < 256,
            0 <= b,
            0 <= c,
            0 <= d,
    ;
    assert(v / 256 == b + 256 * c + 65536 * d) by (nonlinear_arith)
        requires
            v == a + 256 * b + 65536 * c + 16777216 * d,
            0 <= a < 256,
            0 <= b,
            0 <= c,
            0 <= d,
    ;
    assert(v / 65536 == c + 256 * d) by (nonlinear_arith)
        requires
            v == a + 256 * b + 65536 * c + 16777216 * d,
            0 <= a < 256,
            0 <= b < 256,
            0 <= c,
            0 <= d,
    ;
    assert(v / 16777216 == d) by (nonlinear_arith)
        requires
            v == a + 256 * b + 65536 * c + 16777216 * d,
            0 <= a < 256,
            0 <= b < 256,
            0 <= c < 256,
            0 <= d,
    ;
    assert((b + 256 * c + 65536 * d) % 256 == b) by (nonlinear_arith)
        requires
            0 <= b < 256,
            0 <= c,
            0 <= d,
    ;
    assert((c + 256 * d) % 256 == c) by (nonlinear_arith)
        requires
            0 <= c < 256,
            0 <= d,
    ;
    assert(d % 256 == d) by (nonlinear_arith)
        requires
            0 <= d < 256,
    ;
    assert(m31_limbs(v) =~= l);
}

/// Splits a 32-bit value into four little-endian byte limbs.
pub fn convert_m31_to_limbs(v: u32) -> (r: [i32; 4])
    ensures
        r@ == m31_limbs(v as int),
        limbs_in_byte_range(r@),
{
    proof {
        lemma_limbs_roundtrip(v);
        assert((v & 0xff) == v % 256) by (bit_vector);
        assert(((v >> 8) & 0xff) == (v / 256) % 256) by (bit_vector);
        assert(((v >> 16) & 0xff) == (v / 65536) % 256) by (bit_vector);
        assert(((v >> 24) & 0xff) == (v / 16777216) % 256) by (bit_vector);
    }
    let r = [
        (v & 0xff) as i32,
        ((v >> 8) & 0xff) as i32,
        ((v >> 16) & 0xff) as i32,
        ((v >> 24) & 0xff) as i32,
    ];
    assert(r@ =~= m31_limbs(v as int));
    r
}

/// Puts four little-endian byte limbs together.
pub fn convert_m31_from_limbs(limbs: &[i32]) -> (r: u32)
    requires
        limbs@.len() == 4,
        limbs_in_byte_range(limbs@),
    ensures
        r == limbs_value(limbs@),
{
    let a = limbs[0] as u32;
    let b = limbs[1] as u32;
    let c = limbs[2] as u32;
    let d = limbs[3] as u32;
    proof {
        assert(0 <= limbs@[0] < 256 && 0 <= limbs@[1] < 256 && 0 <= limbs@[2] < 256 && 0
            <= limbs@[3] < 256);
    }
    a + 256 * b + 65536 * c + 16777216 * d
}

/// The limbs of a complex element: real part first.
pub fn convert_cm31_to_limbs(c: CM31) -> (r: [i32; 8])
    ensures
        r@ == cm31_limbs(c),
{
    let re = convert_m31_to_limbs(c.0.0);
    let im = convert_m31_to_limbs(c.1.0);
    let r = [re[0], re[1], re[2], re[3], im[0], im[1], im[2], im[3]];
    assert(r@ =~= cm31_limbs(c));
    r
}

/// The limbs of a degree-4 element: first half first.
pub fn convert_qm31_to_limbs(q: QM31) -> (r: [i32; 16])
    ensures
        r@ == qm31_limbs(q),
{
    let a = convert_cm31_to_limbs(q.0);
    let b = convert_cm31_to_limbs(q.1);
    let r = [
        a[0], a[1], a[2], a[3], a[4], a[5], a[6], a[7],
        b[0], b[1], b[2], b[3], b[4], b[5], b[6], b[7],
    ];
    assert(r@ =~= qm31_limbs(q));
    r
}

/// The complex element that eight limbs stand for.
pub fn convert_cm31_from_limbs(limbs: &[i32]) -> (r: CM31)
    requires
        valid_cm31_limbs(limbs@),
    ensures
        r.wf(),
        r == cm31_of_limbs(limbs@),
{
    let ghost l = limbs@;
    assert(l.subrange(0, 4)[0] == l[0] && l.subrange(0, 4)[1] == l[1] && l.subrange(0, 4)[2]
        == l[2] && l.subrange(0, 4)[3] == l[3]);
    assert(l.subrange(4, 8)[0] == l[4] && l.subrange(4, 8)[1] == l[5] && l.subrange(4, 8)[2]
        == l[6] && l.subrange(4, 8)[3] == l[7]);
    let re = convert_m31_from_limbs(&[limbs[0], limbs[1], limbs[2], limbs[3]]);
    let im = convert_m31_from_limbs(&[limbs[4], limbs[5], limbs[6], limbs[7]]);
    CM31(M31(re), M31(im))
}

/// The degree-4 element that sixteen limbs stand for.
pub fn convert_qm31_from_limbs(limbs: &[i32]) -> (r: QM31)
    requires
        valid_qm31_limbs(limbs@),
    ensures
        r.wf(),
        r == qm31_of_limbs(limbs@),
{
    let ghost l = limbs@;
    let first: [i32; 8] = [
        limbs[0], limbs[1], limbs[2], limbs[3], limbs[4], limbs[5], limbs[6], limbs[7],
    ];
    let second: [i32; 8] = [
        limbs[8], limbs[9], limbs[10], limbs[11], limbs[12], limbs[13], limbs[14], limbs[15],
    ];
    assert(first@ =~= l.subrange(0, 8));
    assert(second@ =~= l.subrange(8, 16));
    QM31(convert_cm31_from_limbs(&first), convert_cm31_from_limbs(&second))
}

/// Splitting into limbs, as the scripts consume the elements.
pub trait Decompose {
    fn decompose_to_limbs(&self) -> Vec<i32>;
}

impl Decompose for M31 {
    fn decompose_to_limbs(&self) -> (r: Vec<i32>)
        ensures
            r@ == m31_limbs(self.val()),
    {
        let l = convert_m31_to_limbs(self.0);
        let mut r = Vec::new();
        r.push(l[0]);
        r.push(l[1]);
        r.push(l[2]);
        r.push(l[3]);
        assert(r@ =~= l@);
        r
    }
}

impl Decompose for CM31 {
    fn decompose_to_limbs(&self) -> (r: Vec<i32>)
        ensures
            r@ == cm31_limbs(*self),
    {
        let mut res = self.0.decompose_to_limbs();
        let mut other = self.1.decompose_to_limbs();
        res.append(&mut other);
        res
    }
}

impl Decompose for QM31 {
    fn decompose_to_limbs(&self) -> (r: Vec<i32>)
        ensures
            r@ == qm31_limbs(*self),
    {
        let mut res = self.0.decompose_to_limbs();
        let mut other = self.1.decompose_to_limbs();
        res.append(&mut other);
        res
    }
}

/// Checks that the top item lies below `bound`.
pub open spec fn check_below(bound: int) -> Seq<u8> {
    seq![OP_DUP] + int_push(bound) + seq![OP_LESSTHAN, OP_VERIFY]
}

/// The script that puts four limbs (highest on top) together into the value
/// they stand for, checking that the highest is below 128 and the others
/// below 256.
pub open spec fn recompose_m31_script() -> Seq<u8> {
    check_below(128) + op_256mul() + seq![OP_SWAP] + check_below(256) + seq![OP_ADD] + op_256mul()
        + seq![OP_SWAP] + check_below(256) + seq![OP_ADD] + op_256mul() + seq![OP_SWAP]
        + check_below(256) + seq![OP_ADD]
}

/// The script that puts eight limbs together into a complex element, in the
/// order `imag, real` of the program's elements.
pub open spec fn recompose_cm31_script() -> Seq<u8> {
    recompose_m31_script() + seq![OP_TOALTSTACK] + recompose_m31_script() + seq![
        OP_FROMALTSTACK,
        OP_SWAP,
    ]
}

/// The script that puts sixteen limbs together into a degree-4 element: the
/// complex halves, the first kept on the alt stack (two items) while the
/// second is made, then the halves swapped (`OP_2SWAP`) into the order of the
/// program's elements.
pub open spec fn recompose_qm31_script() -> Seq<u8> {
    recompose_cm31_script() + seq![OP_TOALTSTACK, OP_TOALTSTACK] + recompose_cm31_script() + seq![
        OP_FROMALTSTACK,
        OP_FROMALTSTACK,
        OP_2SWAP,
    ]
}

/// The check against a bound of two bytes passes a number below it, leaving
/// the stacks as they were, and fails on any other number.
proof fn lemma_run_check_below(m: Seq<Item>, x: int, bound: int, alt: Seq<Item>)
    requires
        128 <= bound <= 32767,
    ensures
        complete(check_below(bound)),
        run(check_below(bound), Stacks { main: m.push(Item::Num(x)), alt }) == if x < bound {
            Some(Stacks { main: m.push(Item::Num(x)), alt })
        } else {
            None::<Stacks>
        },
{
    reveal_with_fuel(crate::script::scriptnum_bytes, 3);
    let lo = (bound % 256) as u8;
    let hi = (bound / 256) as u8;
    assert(int_push(bound) =~= seq![2u8, lo, hi]);
    let push = seq![2u8, lo, hi];
    let tail = seq![OP_LESSTHAN, OP_VERIFY];
    let c1 = push + tail;
    let code = seq![OP_DUP] + c1;
    assert(check_below(bound) =~= code);
    assert(decode_num(push.subrange(1, 3)) == bound) by {
        reveal_with_fuel(le_value, 3);
        let d = seq![lo, hi];
        assert(push.subrange(1, 3) =~= d);
        assert(d.drop_last().push((hi % 128) as u8) =~= d);
        assert(d.drop_first() =~= seq![hi]);
        assert(seq![hi].drop_first() =~= Seq::<u8>::empty());
    }
    let mx = m.push(Item::Num(x));
    let xi = Item::Num(x);
    lemma_pushed(mx, xi, Item::Num(bound));
    lemma_pushed(mx, Item::Num(1), Item::Num(1));
    lemma_run_op(OP_DUP, c1, Stacks { main: mx, alt });
    let s2 = Stacks { main: mx.push(xi).push(Item::Num(bound)), alt };
    assert(run(c1, Stacks { main: mx.push(xi), alt }) == run(tail, s2)) by {
        assert(c1[0] == 2u8);
        assert(c1.subrange(1, 3) =~= push.subrange(1, 3));
        assert(c1.subrange(3, c1.len() as int) =~= tail);
        reveal_with_fuel(run, 1);
    }
    let b = if x < bound { 1int } else { 0int };
    lemma_run_op(OP_LESSTHAN, seq![OP_VERIFY], s2);
    assert(seq![OP_LESSTHAN] + seq![OP_VERIFY] =~= tail);
    assert(seq![OP_VERIFY] =~= seq![OP_VERIFY] + Seq::<u8>::empty());
    lemma_run_op(OP_VERIFY, Seq::empty(), Stacks { main: mx.push(Item::Num(b)), alt });
    assert(run(Seq::<u8>::empty(), Stacks { main: mx, alt }) == Some(Stacks { main: mx, alt }));
    assert(complete(code)) by {
        let c2 = code.subrange(1, code.len() as int);
        let c3 = c2.subrange(3, c2.len() as int);
        assert(c2 =~= c1);
        assert(c3 =~= tail);
        lemma_complete_opcodes(tail);
        assert(complete(c2)) by {
            reveal_with_fuel(complete, 2);
        }
        reveal_with_fuel(complete, 2);
    }
}

/// What the recomposition checks of four limbs ask: the highest below 128,
/// the others below 256.
pub open spec fn passes_recompose_checks(l: Seq<i32>) -> bool {
    l[3] < 128 && l[2] < 256 && l[1] < 256 && l[0] < 256
}

/// One step of putting limbs together: the value so far times 256, plus the
/// next limb under it, once that limb is found below 256.
proof fn lemma_run_recompose_step(m: Seq<Item>, a: int, acc: int, alt: Seq<Item>)
    ensures
        complete(op_256mul() + seq![OP_SWAP] + check_below(256) + seq![OP_ADD]),
        run(
            op_256mul() + seq![OP_SWAP] + check_below(256) + seq![OP_ADD],
            Stacks { main: m.push(Item::Num(a)).push(Item::Num(acc)), alt },
        ) == if a < 256 {
            Some(Stacks { main: m.push(Item::Num(a + 256 * acc)), alt })
        } else {
            None::<Stacks>
        },
{
    let sw = seq![OP_SWAP];
    let add = seq![OP_ADD];
    let ck = check_below(256);
    let code = op_256mul() + (sw + (ck + add));
    assert(op_256mul() + seq![OP_SWAP] + check_below(256) + seq![OP_ADD] =~= code);
    let ma = m.push(Item::Num(a));
    lemma_run_256mul(ma, acc, alt);
    lemma_complete_opcodes(sw);
    lemma_complete_opcodes(add);
    lemma_run_check_below(m.push(Item::Num(256 * acc)), a, 256, alt);
    lemma_complete_append(ck, add);
    lemma_complete_append(sw, ck + add);
    lemma_complete_append(op_256mul(), sw + (ck + add));
    lemma_run_append(op_256mul(), sw + (ck + add), Stacks { main: ma.push(Item::Num(acc)), alt });
    let m2 = ma.push(Item::Num(256 * acc));
    let m3 = m.push(Item::Num(256 * acc)).push(Item::Num(a));
    lemma_pushed(m, Item::Num(a), Item::Num(256 * acc));
    lemma_pushed(m, Item::Num(256 * acc), Item::Num(a));
    assert(run(sw, Stacks { main: m2, alt }) == Some(Stacks { main: m3, alt })) by {
        reveal_with_fuel(run, 2);
        assert(m2.subrange(0, m2.len() - 2) =~= m);
    }
    lemma_run_append(sw, ck + add, Stacks { main: m2, alt });
    lemma_run_append(ck, add, Stacks { main: m3, alt });
    if a < 256 {
        assert(run(add, Stacks { main: m3, alt }) == Some(Stacks { main: m.push(Item::Num(a + 256 * acc)), alt })) by {
            reveal_with_fuel(run, 2);
            assert(m3.subrange(0, m3.len() - 2) =~= m);
        }
    }
}

/// Put together, four limbs (the highest on top) leave the value they stand
/// for when the highest is below 128 and the others below 256; otherwise the
/// script fails.
pub proof fn lemma_recompose_m31_script(rest: Seq<Item>, l: Seq<i32>, alt: Seq<Item>)
    requires
        l.len() == 4,
    ensures
        complete(recompose_m31_script()),
        run(recompose_m31_script(), Stacks { main: rest + num_items(l), alt }) == if passes_recompose_checks(l) {
            Some(Stacks { main: rest.push(Item::Num(limbs_value(l))), alt })
        } else {
            None::<Stacks>
        },
{
    let (l0, l1, l2, l3) = (l[0] as int, l[1] as int, l[2] as int, l[3] as int);
    let n = |v: int| Item::Num(v);
    let st = op_256mul() + seq![OP_SWAP] + check_below(256) + seq![OP_ADD];
    let c128 = check_below(128);
    let code = c128 + (st + (st + st));
    assert(recompose_m31_script() =~= code);
    let m3 = rest.push(n(l0)).push(n(l1)).push(n(l2));
    assert(rest + num_items(l) =~= m3.push(n(l3)));
    lemma_run_check_below(m3, l3, 128, alt);
    lemma_run_recompose_step(rest.push(n(l0)).push(n(l1)), l2, l3, alt);
    lemma_run_recompose_step(rest.push(n(l0)), l1, l2 + 256 * l3, alt);
    lemma_run_recompose_step(rest, l0, l1 + 256 * (l2 + 256 * l3), alt);
    lemma_complete_append(st, st);
    lemma_complete_append(st, st + st);
    lemma_complete_append(c128, st + (st + st));
    lemma_run_append(c128, st + (st + st), Stacks { main: m3.push(n(l3)), alt });
    lemma_run_append(st, st + st, Stacks { main: m3.push(n(l3)), alt });
    lemma_run_append(st, st, Stacks { main: rest.push(n(l0)).push(n(l1)).push(n(l2 + 256 * l3)), alt });
    assert(limbs_value(l) == l0 + 256 * (l1 + 256 * (l2 + 256 * l3)));
}

/// Put together, eight limbs (real part first, then imaginary part) leave
/// the complex element `[imag, real]` they stand for, real on top, when both
/// parts pass the checks; otherwise the script fails.
#[verifier::spinoff_prover]
#[verifier::rlimit(40)]
pub proof fn lemma_recompose_cm31_script(rest: Seq<Item>, a: Seq<i32>, b: Seq<i32>, alt: Seq<Item>)
    requires
        a.len() == 4,
        b.len() == 4,
    ensures
        complete(recompose_cm31_script()),
        run(recompose_cm31_script(), Stacks { main: rest + num_items(a + b), alt }) == if passes_recompose_checks(a)
            && passes_recompose_checks(b) {
            Some(Stacks { main: rest.push(Item::Num(limbs_value(b))).push(Item::Num(limbs_value(a))), alt })
        } else {
            None::<Stacks>
        },
{
    let r = recompose_m31_script();
    let to = seq![OP_TOALTSTACK];
    let back = seq![OP_FROMALTSTACK, OP_SWAP];
    assert(recompose_cm31_script() =~= r + (to + (r + back)));
    let ra = rest + num_items(a);
    assert(rest + num_items(a + b) =~= ra + num_items(b));
    lemma_recompose_m31_script(ra, b, alt);
    lemma_recompose_m31_script(rest, a, alt.push(Item::Num(limbs_value(b))));
    lemma_complete_opcodes(to);
    lemma_complete_opcodes(back);
    lemma_complete_append(r, back);
    lemma_complete_append(to, r + back);
    lemma_complete_append(r, to + (r + back));
    lemma_run_append(r, to + (r + back), Stacks { main: ra + num_items(b), alt });
    if passes_recompose_checks(b) {
        let vb = Item::Num(limbs_value(b));
        lemma_pushed(ra, vb, vb);
        assert(run(to, Stacks { main: ra.push(vb), alt }) == Some(Stacks { main: ra, alt: alt.push(vb) })) by {
            reveal_with_fuel(run, 2);
        }
        lemma_run_append(to, r + back, Stacks { main: ra.push(vb), alt });
        lemma_run_append(r, back, Stacks { main: ra, alt: alt.push(vb) });
        if passes_recompose_checks(a) {
            let va = Item::Num(limbs_value(a));
            lemma_pushed(rest, va, vb);
            lemma_pushed(alt, vb, vb);
            assert(run(back, Stacks { main: rest.push(va), alt: alt.push(vb) }) == Some(
                Stacks { main: rest.push(vb).push(va), alt },
            )) by {
                reveal_with_fuel(run, 3);
                assert(rest.push(va).push(vb).subrange(0, rest.len() as int) =~= rest);
            }
        }
    }
}

/// The complex half kept on the alt stack comes back and goes under the
/// half just made.
proof fn lemma_run_halves_back(rest: Seq<Item>, va: Item, vb: Item, vc: Item, vd: Item, alt: Seq<Item>)
    ensures
        run(
            seq![OP_FROMALTSTACK, OP_FROMALTSTACK, OP_2SWAP],
            Stacks { main: rest.push(vb).push(va), alt: alt.push(vc).push(vd) },
        ) == Some(Stacks { main: rest.push(vd).push(vc).push(vb).push(va), alt }),
{
    let m = rest.push(vb).push(va);
    lemma_pushed(m, vd, vc);
    lemma_pushed(alt, vc, vd);
    assert(m.push(vd).push(vc).subrange(0, rest.len() as int) =~= rest);
    reveal_with_fuel(run, 4);
}

/// Put together, sixteen limbs (first half, then second half, each real
/// part first) leave the degree-4 element in the program's order
/// `[x.1 imag, x.1 real, x.0 imag, x.0 real]`, when every part passes the
/// checks; otherwise the script fails.
#[verifier::spinoff_prover]
#[verifier::rlimit(60)]
pub proof fn lemma_recompose_qm31_script(
    rest: Seq<Item>,
    a: Seq<i32>,
    b: Seq<i32>,
    c: Seq<i32>,
    d: Seq<i32>,
    alt: Seq<Item>,
)
    requires
        a.len() == 4,
        b.len() == 4,
        c.len() == 4,
        d.len() == 4,
    ensures
        run(recompose_qm31_script(), Stacks { main: rest + num_items(a + b + c + d), alt }) == if passes_recompose_checks(a)
            && passes_recompose_checks(b) && passes_recompose_checks(c) && passes_recompose_checks(d) {
            Some(
                Stacks {
                    main: rest.push(Item::Num(limbs_value(d))).push(Item::Num(limbs_value(c))).push(
                        Item::Num(limbs_value(b)),
                    ).push(Item::Num(limbs_value(a))),
                    alt,
                },
            )
        } else {
            None::<Stacks>
        },
{
    let rc = recompose_cm31_script();
    let to2 = seq![OP_TOALTSTACK, OP_TOALTSTACK];
    let back = seq![OP_FROMALTSTACK, OP_FROMALTSTACK, OP_2SWAP];
    assert(recompose_qm31_script() =~= rc + (to2 + (rc + back)));
    let rab = rest + num_items(a + b);
    assert(rest + num_items(a + b + c + d) =~= rab + num_items(c + d));
    lemma_recompose_cm31_script(rab, c, d, alt);
    lemma_complete_opcodes(to2);
    lemma_complete_opcodes(back);
    lemma_complete_append(rc, back);
    lemma_complete_append(to2, rc + back);
    lemma_run_append(rc, to2 + (rc + back), Stacks { main: rab + num_items(c + d), alt });
    if passes_recompose_checks(c) && passes_recompose_checks(d) {
        let vc = Item::Num(limbs_value(c));
        let vd = Item::Num(limbs_value(d));
        let alt2 = alt.push(vc).push(vd);
        lemma_pushed(rab, vd, vc);
        lemma_pushed(alt, vc, vd);
        assert(run(to2, Stacks { main: rab.push(vd).push(vc), alt }) == Some(Stacks { main: rab, alt: alt2 })) by {
            reveal_with_fuel(run, 3);
        }
        lemma_run_append(to2, rc + back, Stacks { main: rab.push(vd).push(vc), alt });
        lemma_recompose_cm31_script(rest, a, b, alt2);
        lemma_run_append(rc, back, Stacks { main: rab, alt: alt2 });
        if passes_recompose_checks(a) && passes_recompose_checks(b) {
            let va = Item::Num(limbs_value(a));
            let vb = Item::Num(limbs_value(b));
            lemma_run_halves_back(rest, va, vb, vc, vd, alt);
        }
    }
}

/// Scripts that put limbs back together.
pub struct DecomposeGadget;

/// Appends the check that the top item lies below `bound`.
fn push_check_below(s: &mut Script, bound: i64)
    requires
        128 <= bound <= 256,
    ensures
        final(s)@ == old(s)@ + check_below(bound as int),
{
    let ghost s0 = s@;
    s.push_opcode(OP_DUP);
    s.push_int(bound);
    s.push_opcodes(&[OP_LESSTHAN, OP_VERIFY]);
    assert(s@ =~= s0 + check_below(bound as int));
}

impl DecomposeGadget {
    /// Puts four limbs together into a base field element.
    pub fn recompose_m31() -> (r: Script)
        ensures
            r@ == recompose_m31_script(),
    {
        let mut s = Script::new();
        push_check_below(&mut s, 128);
        push_op_256mul(&mut s);
        s.push_opcode(OP_SWAP);
        push_check_below(&mut s, 256);
        s.push_opcode(OP_ADD);
        push_op_256mul(&mut s);
        s.push_opcode(OP_SWAP);
        push_check_below(&mut s, 256);
        s.push_opcode(OP_ADD);
        push_op_256mul(&mut s);
        s.push_opcode(OP_SWAP);
        push_check_below(&mut s, 256);
        s.push_opcode(OP_ADD);
        assert(s@ =~= recompose_m31_script());
        s
    }

    /// Puts eight limbs together into a complex element.
    pub fn recompose_cm31() -> (r: Script)
        ensures
            r@ == recompose_cm31_script(),
    {
        let mut s = Self::recompose_m31();
        s.push_opcode(OP_TOALTSTACK);
        let t = Self::recompose_m31();
        s.append(&t);
        s.push_opcodes(&[OP_FROMALTSTACK, OP_SWAP]);
        assert(s@ =~= recompose_cm31_script());
        s
    }

    /// Puts sixteen limbs together into a degree-4 element.
    pub fn recompose_qm31() -> (r: Script)
        ensures
            r@ == recompose_qm31_script(),
    {
        let mut s = Self::recompose_cm31();
        s.push_opcodes(&[OP_TOALTSTACK, OP_TOALTSTACK]);
        let t = Self::recompose_cm31();
        s.append(&t);
        s.push_opcodes(&[OP_FROMALTSTACK, OP_FROMALTSTACK, OP_2SWAP]);
        assert(s@ =~= recompose_qm31_script());
        s
    }
}

} // verus!
