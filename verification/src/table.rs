use vstd::arithmetic::div_mod::*;
use vstd::arithmetic::mul::*;
use vstd::arithmetic::power2::*;
use crate::script::{int_push, Script};
use crate::script_run::{complete, lemma_complete_append, lemma_run_append, lemma_run_int_push, run, Item, Stacks};
use vstd::prelude::*;

verus! {

/// The lookup table of quarter squares `floor(i^2 / 4)` that turns a product
/// into two lookups: `a * b == t[a + b] - t[a - b]`.
#[derive(Debug)]
pub struct Table {
    pub data: Vec<i64>,
}

/// The pushes of the entries `s`, the last first.
pub open spec fn table_pushes(s: Seq<i64>) -> Seq<u8>
    decreases s.len(),
{
    if s.len() == 0 {
        Seq::empty()
    } else {
        int_push(s.last() as int) + table_pushes(s.drop_last())
    }
}

/// Run on any stacks, the pushes of nonnegative entries leave them on the
/// stack from the last to the first, so that entry 0 ends on top.
pub proof fn lemma_run_table_pushes(d: Seq<i64>, m: Seq<Item>, alt: Seq<Item>)
    requires
        forall|i: int| 0 <= i < d.len() ==> 0 <= #[trigger] d[i],
    ensures
        complete(table_pushes(d)),
        run(table_pushes(d), Stacks { main: m, alt }) == Some(
            Stacks { main: m + Seq::new(d.len(), |k: int| Item::Num(d[d.len() - 1 - k] as int)), alt },
        ),
    decreases d.len(),
{
    let items = Seq::new(d.len(), |k: int| Item::Num(d[d.len() - 1 - k] as int));
    if d.len() == 0 {
        assert(m + items =~= m);
        reveal_with_fuel(complete, 1);
        reveal_with_fuel(run, 1);
    } else {
        let d1 = d.drop_last();
        let x = d.last() as int;
        assert(0 <= d[d.len() - 1]);
        let m1 = m.push(Item::Num(x));
        lemma_run_int_push(x, Stacks { main: m, alt });
        lemma_run_table_pushes(d1, m1, alt);
        lemma_complete_append(int_push(x), table_pushes(d1));
        lemma_run_append(int_push(x), table_pushes(d1), Stacks { main: m, alt });
        let items1 = Seq::new(d1.len(), |k: int| Item::Num(d1[d1.len() - 1 - k] as int));
        assert(m1 + items1 =~= m + items);
    }
}

/// The quarter square `floor(i^2 / 4)`.
pub open spec fn quarter_square(i: int) -> int {
    (i * i) / 4
}

impl Clone for Table {
    fn clone(&self) -> (r: Table)
        ensures
            r.data@ == self.data@,
    {
        let d = self.data.clone();
        assert(d@ =~= self.data@);
        Table { data: d }
    }
}

impl Table {
    /// Entry `k` is the quarter square of `k`, for every entry.
    pub open spec fn holds_quarter_squares(&self) -> bool {
        forall|k: int| 0 <= k < self.data@.len() ==> #[trigger] self.data@[k] == quarter_square(k)
    }

    /// The script that pushes every entry, the last first, so that entry 0
    /// ends on top of the stack.
    pub fn push_script(&self) -> (r: Script)
        requires
            forall|k: int| 0 <= k < self.data@.len() ==> #[trigger] self.data@[k] != i64::MIN,
        ensures
            r@ == table_pushes(self.data@),
    {
        let mut s = Script::new();
        let ghost d = self.data@;
        let mut i: usize = self.data.len();
        assert(d.subrange(0, d.len() as int) =~= d);
        assert(s@ + table_pushes(d) =~= table_pushes(d));
        while i > 0
            invariant
                i <= d.len(),
                d == self.data@,
                forall|k: int| 0 <= k < d.len() ==> #[trigger] d[k] != i64::MIN,
                table_pushes(d) == s@ + table_pushes(d.subrange(0, i as int)),
            decreases i,
        {
            let ghost before = s@;
            assert(d.subrange(0, i as int).drop_last() =~= d.subrange(0, i - 1));
            assert(d.subrange(0, i as int).last() == d[i - 1]);
            i = i - 1;
            s.push_int(self.data[i]);
            assert(before + table_pushes(d.subrange(0, i + 1)) =~= s@ + table_pushes(d.subrange(0, i as int)));
        }
        assert(table_pushes(d.subrange(0, 0)) =~= Seq::<u8>::empty());
        assert(s@ + Seq::<u8>::empty() =~= s@);
        s
    }

    /// The entry at `index`.
    pub fn index(&self, index: usize) -> (r: i64)
        requires
            index < self.data@.len(),
        ensures
            r == self.data@[index as int],
    {
        self.data[index]
    }
}

/// Builds the table of quarter squares for all indices up to `2^N`.
pub fn generate_table<const N: usize>() -> (r: Table)
    requires
        1 <= N <= 9,
    ensures
        r.data@.len() == pow2(N as nat) + 1,
        r.holds_quarter_squares(),
{
    proof {
        lemma2_to64();
    }
    let mut pw: usize = 1;
    let mut j: usize = 0;
    while j < N
        invariant
            j <= N,
            N <= 9,
            pw == pow2(j as nat),
            pw <= 512,
        decreases N - j,
    {
        proof {
            lemma_pow2_unfold((j + 1) as nat);
            lemma_pow2_strictly_increases((j + 1) as nat, 10);
            lemma2_to64();
        }
        pw = pw * 2;
        j = j + 1;
    }
    let size: usize = pw + 1;
    let mut v: Vec<i64> = Vec::new();
    let mut i: usize = 0;
    while i < size
        invariant
            size <= 1025,
            i <= size,
            v@.len() == i,
            forall|k: int| 0 <= k < i ==> #[trigger] v@[k] == quarter_square(k),
        decreases size - i,
    {
        assert(i * i <= 1025 * 1025) by (nonlinear_arith)
            requires
                i < 1025,
        ;
        v.push(((i * i) / 4) as i64);
        i = i + 1;
    }
    Table { data: v }
}

/// The table used by the multiplication gadgets: quarter squares up to `2^9`.
pub fn get_table() -> (r: Table)
    ensures
        r.data@.len() == 513,
        r.holds_quarter_squares(),
{
    proof {
        lemma2_to64();
    }
    generate_table::<9>()
}

/// The quarter-squares identity behind the table: for `b <= a`,
/// `a * b == floor((a + b)^2 / 4) - floor((a - b)^2 / 4)`.
pub proof fn lemma_quarter_squares(a: int, b: int)
    requires
        0 <= b <= a,
    ensures
        a * b == quarter_square(a + b) - quarter_square(a - b),
{
    let y = (a - b) * (a - b);
    assert((a + b) * (a + b) == y + 4 * (a * b)) by (nonlinear_arith)
        requires
            y == (a - b) * (a - b),
    ;
    assert(y >= 0) by (nonlinear_arith)
        requires
            y == (a - b) * (a - b),
    ;
    lemma_fundamental_div_mod(y, 4);
    let q = y / 4;
    let r = y % 4;
    assert(y + 4 * (a * b) == 4 * (q + a * b) + r);
    lemma_fundamental_div_mod_converse(y + 4 * (a * b), 4, q + a * b, r);
}

/// Two lookups in a table of quarter squares give the product of two
/// operands whose sum stays inside the table.
pub proof fn lemma_table_product(t: Table, a: int, b: int)
    requires
        t.holds_quarter_squares(),
        0 <= b <= a,
        a + b < t.data@.len(),
    ensures
        a * b == t.data@[a + b] - t.data@[a - b],
{
    lemma_quarter_squares(a, b);
    assert(t.data@[a + b] == quarter_square(a + b));
    assert(t.data@[a - b] == quarter_square(a - b));
}

} // verus!
