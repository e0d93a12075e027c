use vstd::prelude::*;

verus! {

/// Pushes an empty array (also the number zero).
pub const OP_0: u8 = 0x00;
/// Pushes the number -1.
pub const OP_PUSHNUM_NEG1: u8 = 0x4f;
/// Fails unless the top item is true, and pops it.
pub const OP_VERIFY: u8 = 0x69;
/// Moves the top item to the alt stack.
pub const OP_TOALTSTACK: u8 = 0x6b;
/// Moves the top item of the alt stack back.
pub const OP_FROMALTSTACK: u8 = 0x6c;
/// Drops the top two items.
pub const OP_2DROP: u8 = 0x6d;
/// Swaps the top two pairs of items.
pub const OP_2SWAP: u8 = 0x72;
/// Pushes the number of items on the stack.
pub const OP_DEPTH: u8 = 0x74;
/// Drops the top item.
pub const OP_DROP: u8 = 0x75;
/// Duplicates the top item.
pub const OP_DUP: u8 = 0x76;
/// Copies the item as deep as the number on top.
pub const OP_PICK: u8 = 0x79;
/// Moves the item as deep as the number on top to the top.
pub const OP_ROLL: u8 = 0x7a;
/// Rotates the top three items.
pub const OP_ROT: u8 = 0x7b;
/// Swaps the top two items.
pub const OP_SWAP: u8 = 0x7c;
/// Fails unless the top two items are equal, and pops them.
pub const OP_EQUALVERIFY: u8 = 0x88;
/// Subtracts one from the top item.
pub const OP_1SUB: u8 = 0x8c;
/// Adds the top two items.
pub const OP_ADD: u8 = 0x93;
/// Compares the top two items: less than.
pub const OP_LESSTHAN: u8 = 0x9f;
/// Compares the top two items: at most.
pub const OP_LESSTHANOREQUAL: u8 = 0xa1;
/// Compares the top two items: at least.
pub const OP_GREATERTHANOREQUAL: u8 = 0xa2;

/// The minimal little-endian sign-magnitude bytes of a number whose
/// magnitude is `a` and which is negative when `neg`: the low byte first,
/// with the sign in the top bit of the last byte, and one byte more where
/// the magnitude already uses that bit.
pub open spec fn scriptnum_bytes(a: nat, neg: bool) -> Seq<u8>
    decreases a,
{
    if a > 255 {
        seq![(a % 256) as u8] + scriptnum_bytes(a / 256, neg)
    } else if a >= 128 {
        seq![a as u8, if neg { 0x80u8 } else { 0u8 }]
    } else if neg {
        seq![(a + 128) as u8]
    } else {
        seq![a as u8]
    }
}

/// The absolute value of `n`.
pub open spec fn magnitude(n: int) -> nat {
    if n < 0 { (-n) as nat } else { n as nat }
}

/// The bytes that push the number `n`: a dedicated opcode for -1 to 16, else
/// the minimal sign-magnitude encoding of `n` behind its length.
pub open spec fn int_push(n: int) -> Seq<u8> {
    if n == 0 {
        seq![OP_0]
    } else if n == -1 {
        seq![OP_PUSHNUM_NEG1]
    } else if 1 <= n <= 16 {
        seq![(0x50 + n) as u8]
    } else {
        let d = scriptnum_bytes(magnitude(n), n < 0);
        seq![d.len() as u8] + d
    }
}

/// The bytes with which `bitcoin::script::Builder::push_int` pushes `n`.
/// Trusted: these are the bytes that `int_push` states (a dedicated opcode
/// for -1 to 16 and `OP_0` for zero, else a direct push of what
/// `write_scriptint` writes, at most eight bytes, behind its length). The
/// source panics on `i64::MIN`, whose encoding needs nine bytes.
#[verifier::external_body]
fn push_int_bytes(n: i64) -> (r: Vec<u8>)
    requires
        n != i64::MIN,
    ensures
        r@ == int_push(n as int),
{
    bitcoin::script::Builder::new().push_int(n).into_bytes()
}

/// The minimal script-number encoding of `n`: nothing for zero, else the
/// sign-magnitude bytes.
pub open spec fn scriptint(n: int) -> Seq<u8> {
    if n == 0 {
        Seq::empty()
    } else {
        scriptnum_bytes(magnitude(n), n < 0)
    }
}

/// The bytes that `bitcoin::script::write_scriptint` writes for `n`, taken
/// up to the length it returns. Trusted: nothing for zero, else the minimal
/// little-endian sign-magnitude bytes that `scriptint` states. The source
/// panics on `i64::MIN`, whose encoding needs nine bytes.
#[verifier::external_body]
pub(crate) fn scriptint_bytes(n: i64) -> (r: Vec<u8>)
    requires
        n != i64::MIN,
    ensures
        r@ == scriptint(n as int),
{
    let mut out = [0u8; 8];
    let len = bitcoin::script::write_scriptint(&mut out, n);
    out[..len].to_vec()
}

/// A Bitcoin script, as its bytes.
#[derive(Debug)]
pub struct Script {
    pub bytes: Vec<u8>,
}

impl View for Script {
    type V = Seq<u8>;

    open spec fn view(&self) -> Seq<u8> {
        self.bytes@
    }
}

impl Script {
    /// The empty script.
    pub fn new() -> (r: Script)
        ensures
            r@ == Seq::<u8>::empty(),
    {
        Script { bytes: Vec::new() }
    }

    /// Appends an opcode.
    pub fn push_opcode(&mut self, op: u8)
        ensures
            final(self)@ == old(self)@.push(op),
    {
        self.bytes.push(op);
    }

    /// Appends a push of the number `n`.
    pub fn push_int(&mut self, n: i64)
        requires
            n != i64::MIN,
        ensures
            final(self)@ == old(self)@ + int_push(n as int),
    {
        let b = push_int_bytes(n);
        let mut i: usize = 0;
        let ghost s0 = self@;
        while i < b.len()
            invariant
                0 <= i <= b@.len(),
                self@ == s0 + b@.subrange(0, i as int),
            decreases b@.len() - i,
        {
            self.bytes.push(b[i]);
            i = i + 1;
            assert(self@ =~= s0 + b@.subrange(0, i as int));
        }
        assert(b@.subrange(0, b@.len() as int) =~= b@);
    }

    /// Appends the opcodes `ops`.
    pub fn push_opcodes(&mut self, ops: &[u8])
        ensures
            final(self)@ == old(self)@ + ops@,
    {
        let mut i: usize = 0;
        let ghost s0 = self@;
        while i < ops.len()
            invariant
                0 <= i <= ops@.len(),
                self@ == s0 + ops@.subrange(0, i as int),
            decreases ops@.len() - i,
        {
            self.bytes.push(ops[i]);
            i = i + 1;
            assert(self@ =~= s0 + ops@.subrange(0, i as int));
        }
        assert(ops@.subrange(0, ops@.len() as int) =~= ops@);
    }

    /// The number of bytes.
    pub fn len(&self) -> (r: usize)
        ensures
            r == self@.len(),
    {
        self.bytes.len()
    }

    /// The bytes.
    pub fn as_bytes(&self) -> (r: &[u8])
        ensures
            r@ == self@,
    {
        self.bytes.as_slice()
    }
}

/// Moves the deepest item, a hint put under the program's stack, to the top.
pub open spec fn op_hint() -> Seq<u8> {
    seq![OP_DEPTH, OP_1SUB, OP_ROLL]
}

/// Multiplies the top item by 256, by doubling it eight times.
pub open spec fn op_256mul() -> Seq<u8> {
    seq![
        OP_DUP, OP_ADD, OP_DUP, OP_ADD, OP_DUP, OP_ADD, OP_DUP, OP_ADD,
        OP_DUP, OP_ADD, OP_DUP, OP_ADD, OP_DUP, OP_ADD, OP_DUP, OP_ADD,
    ]
}

/// Checks that the top item is a byte: `0 <= x < 256`.
pub open spec fn check_limb_format() -> Seq<u8> {
    seq![OP_DUP] + int_push(0) + seq![OP_GREATERTHANOREQUAL, OP_VERIFY, OP_DUP] + int_push(256)
        + seq![OP_LESSTHAN, OP_VERIFY]
}

/// Appends the moving of the deepest item to the top.
pub fn push_op_hint(s: &mut Script)
    ensures
        final(s)@ == old(s)@ + op_hint(),
{
    s.push_opcodes(&[OP_DEPTH, OP_1SUB, OP_ROLL]);
    assert(seq![OP_DEPTH, OP_1SUB, OP_ROLL] =~= op_hint());
}

/// Appends the multiplication by 256.
pub fn push_op_256mul(s: &mut Script)
    ensures
        final(s)@ == old(s)@ + op_256mul(),
{
    let ghost s0 = s@;
    let mut i: usize = 0;
    while i < 8
        invariant
            0 <= i <= 8,
            s@ == s0 + op_256mul().subrange(0, 2 * i as int),
        decreases 8 - i,
    {
        s.push_opcode(OP_DUP);
        s.push_opcode(OP_ADD);
        i = i + 1;
        assert(s@ =~= s0 + op_256mul().subrange(0, 2 * i as int));
    }
    assert(op_256mul().subrange(0, 16) =~= op_256mul());
}

/// Appends the check that the top item is a byte.
pub fn push_check_limb_format(s: &mut Script)
    ensures
        final(s)@ == old(s)@ + check_limb_format(),
{
    let ghost s0 = s@;
    s.push_opcode(OP_DUP);
    s.push_int(0);
    s.push_opcodes(&[OP_GREATERTHANOREQUAL, OP_VERIFY, OP_DUP]);
    s.push_int(256);
    s.push_opcodes(&[OP_LESSTHAN, OP_VERIFY]);
    assert(s@ =~= s0 + check_limb_format());
}

/// `s` repeated `n` times.
pub open spec fn repeat(s: Seq<u8>, n: nat) -> Seq<u8>
    decreases n,
{
    if n == 0 {
        Seq::empty()
    } else {
        repeat(s, (n - 1) as nat) + s
    }
}

/// Copies the item at `depth` to the top, `n` times.
pub open spec fn picks(depth: int, n: nat) -> Seq<u8> {
    repeat(int_push(depth) + seq![OP_PICK], n)
}

/// Checks that the `n` items on top equal the `n` items below them, the
/// deepest pairs first.
pub open spec fn roll_equalverify(n: int) -> Seq<u8>
    decreases n,
{
    if n < 3 {
        Seq::empty()
    } else {
        int_push(n) + seq![OP_ROLL, OP_EQUALVERIFY] + roll_equalverify(n - 1)
    }
}

/// Checks that two groups of `n` items, `n >= 2`, are equal item by item.
pub open spec fn limbs_equalverify_script(n: int) -> Seq<u8> {
    roll_equalverify(n) + seq![OP_ROT, OP_EQUALVERIFY, OP_EQUALVERIFY]
}

impl Script {
    /// Appends the bytes of `other`.
    pub fn append(&mut self, other: &Script)
        ensures
            final(self)@ == old(self)@ + other@,
    {
        self.push_opcodes(other.as_bytes());
    }

    /// Appends `unit` `n` times.
    pub fn append_repeated(&mut self, unit: &Script, n: usize)
        ensures
            final(self)@ == old(self)@ + repeat(unit@, n as nat),
    {
        let ghost s0 = self@;
        let mut i: usize = 0;
        while i < n
            invariant
                0 <= i <= n,
                self@ == s0 + repeat(unit@, i as nat),
            decreases n - i,
        {
            self.append(unit);
            i = i + 1;
            assert(self@ =~= s0 + repeat(unit@, i as nat));
        }
    }

    /// Appends `n` copies of the item at `depth`.
    pub fn push_picks(&mut self, depth: i64, n: usize)
        requires
            0 <= depth,
        ensures
            final(self)@ == old(self)@ + picks(depth as int, n as nat),
    {
        let mut unit = Script::new();
        unit.push_int(depth);
        unit.push_opcode(OP_PICK);
        assert(unit@ =~= int_push(depth as int) + seq![OP_PICK]);
        self.append_repeated(&unit, n);
    }

    /// Appends the check that two groups of `n` items are equal.
    pub fn push_limbs_equalverify(&mut self, n: i64)
        requires
            2 <= n <= 64,
        ensures
            final(self)@ == old(self)@ + limbs_equalverify_script(n as int),
    {
        let ghost s0 = self@;
        let mut i: i64 = n;
        while i >= 3
            invariant
                2 <= i <= n <= 64,
                self@ + roll_equalverify(i as int) == s0 + roll_equalverify(n as int),
            decreases i,
        {
            let ghost before = self@;
            self.push_int(i);
            self.push_opcode(OP_ROLL);
            self.push_opcode(OP_EQUALVERIFY);
            assert(self@ =~= before + (int_push(i as int) + seq![OP_ROLL, OP_EQUALVERIFY]));
            assert(self@ + roll_equalverify(i - 1) =~= before + roll_equalverify(i as int));
            i = i - 1;
        }
        assert(roll_equalverify(i as int) =~= Seq::<u8>::empty());
        self.push_opcodes(&[OP_ROT, OP_EQUALVERIFY, OP_EQUALVERIFY]);
        assert(self@ =~= s0 + limbs_equalverify_script(n as int));
    }
}

} // verus!
