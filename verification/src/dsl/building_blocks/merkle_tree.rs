use crate::dsl::framework::{
    byte_strings, copy_bytes, entries_v, num_at, option_binary, option_multi_binary,
    option_multi_u32, option_u32, str_at, DslError, Element, ElementV, EntryV, FunctionOutput,
    MemoryEntry, OptionValue, Options, OutputV, Result, DSL,
};
use crate::dsl::values::{no_entries, output, push_entry, result_v};
use crate::field::m31::P;
use vstd::prelude::*;

verus! {

/// The `m31` entries holding the values `v`, each read as a number.
pub open spec fn as_m31_entries(v: Seq<u32>) -> Seq<EntryV> {
    Seq::new(v.len(), |k: int| ("m31"@, ElementV::Num(v[k] as i32)))
}

/// The `internal` entries holding the byte strings `p`.
pub open spec fn as_internal_entries(p: Seq<Seq<u8>>) -> Seq<EntryV> {
    Seq::new(p.len(), |k: int| ("internal"@, ElementV::Str(p[k])))
}

/// Appends `m31` entries holding the values `xs`.
fn push_m31_entries(v: &mut Vec<MemoryEntry>, xs: &[u32])
    ensures
        entries_v(final(v)@) == entries_v(old(v)@) + as_m31_entries(xs@),
{
    let ghost v0 = entries_v(v@);
    let mut i: usize = 0;
    while i < xs.len()
        invariant
            0 <= i <= xs@.len(),
            entries_v(v@) == v0 + as_m31_entries(xs@.subrange(0, i as int)),
        decreases xs@.len() - i,
    {
        push_entry(v, MemoryEntry::new("m31", Element::Num(xs[i] as i32)));
        i = i + 1;
        assert(entries_v(v@) =~= v0 + as_m31_entries(xs@.subrange(0, i as int)));
    }
    assert(xs@.subrange(0, xs@.len() as int) =~= xs@);
}

/// Appends `internal` entries holding the byte strings `ps`.
fn push_internal_entries(v: &mut Vec<MemoryEntry>, ps: &[Vec<u8>])
    ensures
        entries_v(final(v)@) == entries_v(old(v)@) + as_internal_entries(byte_strings(ps@)),
{
    let ghost v0 = entries_v(v@);
    let mut i: usize = 0;
    while i < ps.len()
        invariant
            0 <= i <= ps@.len(),
            entries_v(v@) == v0 + as_internal_entries(byte_strings(ps@.subrange(0, i as int))),
        decreases ps@.len() - i,
    {
        let b = copy_bytes(ps[i].as_slice());
        push_entry(v, MemoryEntry::new("internal", Element::Str(b)));
        i = i + 1;
        assert(entries_v(v@) =~= v0 + as_internal_entries(byte_strings(ps@.subrange(0, i as int))));
    }
    assert(ps@.subrange(0, ps@.len() as int) =~= ps@);
}

/// The position of the left leaf of the twin pair that holds `pos`: an odd
/// nonnegative position is lowered by one.
pub open spec fn twin_position(pos: i32) -> i32 {
    if pos >= 0 && pos % 2 == 1 {
        (pos - 1) as i32
    } else {
        pos
    }
}

/// The position at which the twin-leaf proof of `query_and_verify_merkle_twin_tree`
/// is checked.
pub fn merkle_twin_tree_position(pos: i32) -> (r: i32)
    ensures
        r == twin_position(pos),
{
    if pos >= 0 && pos % 2 == 1 {
        pos - 1
    } else {
        pos
    }
}

/// The query of a Merkle tree with twin leaves of `n` values each: given the
/// root hash at `inputs[0]`, the position at `inputs[1]` and the options
/// `left`, `right` (the leaf values) and `path` (the siblings), and the
/// verdict `proof_is_valid` of checking that proof against the root at
/// `twin_position` of the position, the leaf values become elements and
/// hints, followed by the path as hints.
pub open spec fn merkle_twin_tree_spec(
    mem: Seq<EntryV>,
    inputs: Seq<usize>,
    opts: Seq<(String, OptionValue)>,
    n: nat,
    proof_is_valid: bool,
) -> Result<OutputV> {
    match str_at(mem, inputs[0] as int) {
        Err(e) => Err(e),
        Ok(_) => match num_at(mem, inputs[1] as int) {
            Err(e) => Err(e),
            Ok(_) => match (
                option_multi_u32(opts, "left"@),
                option_multi_u32(opts, "right"@),
                option_multi_binary(opts, "path"@),
            ) {
                (Some(l), Some(r), Some(p)) => if l.len() != r.len() || l.len() != n {
                    Err(DslError::MalformedElement)
                } else if !proof_is_valid {
                    Err(DslError::InvalidProof)
                } else {
                    output(as_m31_entries(l + r), as_m31_entries(l + r) + as_internal_entries(p))
                },
                _ => Err(DslError::InvalidOption),
            },
        },
    }
}

/// Queries a Merkle tree whose leaves hold twin pairs of `n` values, once
/// the proof in the options has been checked (`proof_is_valid`).
pub fn query_and_verify_merkle_twin_tree(
    dsl: &mut DSL,
    inputs: &[usize],
    options: &Options,
    n: usize,
    proof_is_valid: bool,
) -> (r: Result<FunctionOutput>)
    requires
        inputs@.len() == 2,
    ensures
        *final(dsl) == *old(dsl),
        result_v(r) == merkle_twin_tree_spec(old(dsl).mem(), inputs@, options.entries@, n as nat, proof_is_valid),
{
    let _root_hash = dsl.get_str(inputs[0])?;
    let _pos = dsl.get_num(inputs[1])?;
    let left = options.get_multi_u32("left")?;
    let right = options.get_multi_u32("right")?;
    let path = options.get_multi_binary("path")?;
    if left.len() != right.len() || left.len() != n {
        return Err(DslError::MalformedElement);
    }
    if !proof_is_valid {
        return Err(DslError::InvalidProof);
    }
    let mut new_elements = no_entries();
    push_m31_entries(&mut new_elements, left.as_slice());
    push_m31_entries(&mut new_elements, right.as_slice());
    let mut new_hints = no_entries();
    push_m31_entries(&mut new_hints, left.as_slice());
    push_m31_entries(&mut new_hints, right.as_slice());
    push_internal_entries(&mut new_hints, path.as_slice());
    assert(as_m31_entries(left@) + as_m31_entries(right@) =~= as_m31_entries(left@ + right@));
    assert(Seq::<EntryV>::empty() + as_m31_entries(left@) =~= as_m31_entries(left@));
    Ok(FunctionOutput { new_elements, new_hints })
}

/// The query of a raw Merkle tree: given the root hash at `inputs[0]`, the
/// leaf hash at `inputs[1]`, the position at `inputs[2]`, the options `path`
/// (the siblings), `logn` and `shift` (at least one), and the verdict
/// `proof_is_valid` of checking the path from the leaf to the root at the
/// position shifted right by `shift`, the path becomes hints. The path must
/// have `logn - shift` siblings.
pub open spec fn raw_merkle_tree_spec(
    mem: Seq<EntryV>,
    inputs: Seq<usize>,
    opts: Seq<(String, OptionValue)>,
    proof_is_valid: bool,
) -> Result<OutputV> {
    match str_at(mem, inputs[0] as int) {
        Err(e) => Err(e),
        Ok(_) => match str_at(mem, inputs[1] as int) {
            Err(e) => Err(e),
            Ok(_) => match num_at(mem, inputs[2] as int) {
                Err(e) => Err(e),
                Ok(_) => match (
                    option_multi_binary(opts, "path"@),
                    option_u32(opts, "logn"@),
                    option_u32(opts, "shift"@),
                ) {
                    (Some(p), Some(logn), Some(shift)) => if shift < 1 {
                        Err(DslError::InvalidOption)
                    } else if p.len() != logn - shift {
                        Err(DslError::MalformedElement)
                    } else if !proof_is_valid {
                        Err(DslError::InvalidProof)
                    } else {
                        output(seq![], as_internal_entries(p))
                    },
                    _ => Err(DslError::InvalidOption),
                },
            },
        },
    }
}

/// The options of a raw Merkle tree query that can be computed with: a
/// `logn` of at least `shift`, and a `shift` below the width of positions.
pub open spec fn raw_merkle_tree_options_computable(opts: Seq<(String, OptionValue)>) -> bool {
    match (option_u32(opts, "logn"@), option_u32(opts, "shift"@)) {
        (Some(logn), Some(shift)) => shift >= 1 ==> logn >= shift && shift < usize::BITS,
        _ => true,
    }
}

/// The leaf position at which the raw Merkle path is checked: the position
/// read as an unsigned number and shifted right by `shift`.
pub fn raw_merkle_tree_position(raw_position: i32, shift: u32) -> (r: usize)
    requires
        shift < usize::BITS,
    ensures
        r == (raw_position as usize) >> shift,
{
    (raw_position as usize) >> shift
}

/// Queries a raw Merkle tree, once the path in the options has been checked
/// (`proof_is_valid`).
pub fn query_and_verify_raw_merkle_tree(
    dsl: &mut DSL,
    inputs: &[usize],
    options: &Options,
    proof_is_valid: bool,
) -> (r: Result<FunctionOutput>)
    requires
        inputs@.len() == 3,
        raw_merkle_tree_options_computable(options.entries@),
    ensures
        *final(dsl) == *old(dsl),
        result_v(r) == raw_merkle_tree_spec(old(dsl).mem(), inputs@, options.entries@, proof_is_valid),
{
    let _root_hash = dsl.get_str(inputs[0])?;
    let _leaf_hash = dsl.get_str(inputs[1])?;
    let _raw_position = dsl.get_num(inputs[2])?;
    let path = options.get_multi_binary("path")?;
    let logn = options.get_u32("logn")?;
    let shift = options.get_u32("shift")?;
    if shift < 1 {
        return Err(DslError::InvalidOption);
    }
    if path.len() != (logn - shift) as usize {
        return Err(DslError::MalformedElement);
    }
    if !proof_is_valid {
        return Err(DslError::InvalidProof);
    }
    let mut new_hints = no_entries();
    push_internal_entries(&mut new_hints, path.as_slice());
    assert(Seq::<EntryV>::empty() + as_internal_entries(byte_strings(path@)) =~= as_internal_entries(
        byte_strings(path@),
    ));
    Ok(FunctionOutput { new_elements: no_entries(), new_hints })
}

/// Doubling a raw position and raising the shift by one picks the same leaf
/// position: the path is checked at the same place.
pub proof fn lemma_raw_position_doubling(p: i32, shift: u32)
    requires
        0 <= p <= 0x3fff_ffff,
        1 <= shift,
        shift + 1 < usize::BITS,
    ensures
        (((2 * p) as i32) as usize) >> ((shift + 1) as u32) == (p as usize) >> shift,
{
    assert((((2 * p) as i32) as usize) >> ((shift + 1) as u32) == (p as usize) >> shift) by (bit_vector)
        requires
            0 <= p <= 0x3fff_ffff,
            1 <= shift,
            shift + 1 < usize::BITS,
    ;
}

/// A raw Merkle tree query with `logn + 1` and `shift + 1` in place of `logn`
/// and `shift` (the shift being at least one) has the same outcome, for the
/// same path and the same verdict.
pub proof fn lemma_raw_query_shift_invariance(
    mem: Seq<EntryV>,
    inputs: Seq<usize>,
    opts1: Seq<(String, OptionValue)>,
    opts2: Seq<(String, OptionValue)>,
    logn: u32,
    shift: u32,
    proof_is_valid: bool,
)
    requires
        1 <= shift < u32::MAX,
        logn < u32::MAX,
        option_multi_binary(opts1, "path"@) == option_multi_binary(opts2, "path"@),
        option_u32(opts1, "logn"@) == Some(logn),
        option_u32(opts2, "logn"@) == Some((logn + 1) as u32),
        option_u32(opts1, "shift"@) == Some(shift),
        option_u32(opts2, "shift"@) == Some((shift + 1) as u32),
    ensures
        raw_merkle_tree_spec(mem, inputs, opts1, proof_is_valid) == raw_merkle_tree_spec(
            mem,
            inputs,
            opts2,
            proof_is_valid,
        ),
{
}

/// The elements that a precomputed Merkle tree query adds: the twiddle
/// elements, then the coordinates of the circle point.
pub open spec fn precomputed_elements(x: u32, y: u32, t: Seq<u32>) -> Seq<EntryV> {
    as_m31_entries(t) + as_m31_entries(seq![x, y])
}

/// The hints of a precomputed Merkle tree query: the coordinates of the
/// circle point and the last twiddle element, then, going up the tree, the
/// other twiddle elements (reduced) each followed by a sibling, and the last
/// sibling.
pub open spec fn precomputed_hints(x: u32, y: u32, t: Seq<u32>, s: Seq<Seq<u8>>) -> Seq<EntryV> {
    let n = t.len();
    as_m31_entries(seq![x, y, t[n - 1]]) + Seq::new(
        (2 * (n - 1)) as nat,
        |j: int|
            if j % 2 == 0 {
                ("m31"@, ElementV::Num((t[n - 2 - j / 2] % P) as i32))
            } else {
                ("internal"@, ElementV::Str(s[j / 2]))
            },
    ) + as_internal_entries(seq![s[n - 1]])
}

/// All that a precomputed Merkle tree query of `n` levels reads is there and
/// has the right count, so that the proof is checked.
pub open spec fn precomputed_reads_proof(
    mem: Seq<EntryV>,
    inputs: Seq<usize>,
    opts: Seq<(String, OptionValue)>,
    n: nat,
) -> bool {
    &&& option_binary(opts, "root_hash"@) is Some
    &&& num_at(mem, inputs[0] as int) is Ok
    &&& option_u32(opts, "circle_point_x"@) is Some
    &&& option_u32(opts, "circle_point_y"@) is Some
    &&& option_multi_u32(opts, "twiddles"@) matches Some(t) && t.len() == n
    &&& option_multi_binary(opts, "siblings"@) matches Some(s) && s.len() == n
}

/// The root hash and the siblings of a precomputed Merkle tree proof are
/// 32-byte digests.
pub open spec fn precomputed_digests_well_sized(opts: Seq<(String, OptionValue)>) -> bool {
    &&& option_binary(opts, "root_hash"@) matches Some(root) && root.len() == 32
    &&& option_multi_binary(opts, "siblings"@) matches Some(s) && forall|k: int|
        0 <= k < s.len() ==> (#[trigger] s[k]).len() == 32
}

/// The query of a precomputed Merkle tree of `n` levels: given the position
/// at `inputs[0]`, the options `root_hash`, `circle_point_x`,
/// `circle_point_y`, `twiddles` and `siblings` (`n` of each), and the
/// verdict `proof_is_valid` of checking that proof against the root at the
/// position, the twiddle elements and the circle point become elements, and
/// the hints are `precomputed_hints`.
pub open spec fn precomputed_merkle_tree_spec(
    mem: Seq<EntryV>,
    inputs: Seq<usize>,
    opts: Seq<(String, OptionValue)>,
    n: nat,
    proof_is_valid: bool,
) -> Result<OutputV> {
    match option_binary(opts, "root_hash"@) {
        None => Err(DslError::InvalidOption),
        Some(_) => match num_at(mem, inputs[0] as int) {
            Err(e) => Err(e),
            Ok(_) => match (
                option_u32(opts, "circle_point_x"@),
                option_u32(opts, "circle_point_y"@),
                option_multi_u32(opts, "twiddles"@),
                option_multi_binary(opts, "siblings"@),
            ) {
                (Some(x), Some(y), Some(t), Some(s)) => if t.len() != n || s.len() != n {
                    Err(DslError::MalformedElement)
                } else if !proof_is_valid {
                    Err(DslError::InvalidProof)
                } else {
                    output(precomputed_elements(x, y, t), precomputed_hints(x, y, t, s))
                },
                _ => Err(DslError::InvalidOption),
            },
        },
    }
}

/// Queries a precomputed Merkle tree of `n` levels, once the proof in the
/// options has been checked (`proof_is_valid`).
#[verifier::rlimit(40)]
pub fn query_and_verify_precomputed_merkle_tree(
    dsl: &mut DSL,
    inputs: &[usize],
    options: &Options,
    n: usize,
    proof_is_valid: bool,
) -> (r: Result<FunctionOutput>)
    requires
        inputs@.len() == 1,
        n >= 1,
        precomputed_reads_proof(old(dsl).mem(), inputs@, options.entries@, n as nat)
            ==> precomputed_digests_well_sized(options.entries@),
    ensures
        *final(dsl) == *old(dsl),
        result_v(r) == precomputed_merkle_tree_spec(
            old(dsl).mem(),
            inputs@,
            options.entries@,
            n as nat,
            proof_is_valid,
        ),
{
    let _root_hash = options.get_binary("root_hash")?;
    let _pos = dsl.get_num(inputs[0])?;
    let x = options.get_u32("circle_point_x")?;
    let y = options.get_u32("circle_point_y")?;
    let twiddles = options.get_multi_u32("twiddles")?;
    let siblings = options.get_multi_binary("siblings")?;
    if twiddles.len() != n || siblings.len() != n {
        return Err(DslError::MalformedElement);
    }
    if !proof_is_valid {
        return Err(DslError::InvalidProof);
    }
    let ghost t = twiddles@;
    let ghost s = byte_strings(siblings@);
    let mut new_elements = no_entries();
    push_m31_entries(&mut new_elements, twiddles.as_slice());
    push_m31_entries(&mut new_elements, &[x, y]);
    assert(Seq::<EntryV>::empty() + as_m31_entries(t) =~= as_m31_entries(t));

    let mut new_hints = no_entries();
    push_m31_entries(&mut new_hints, &[x, y, twiddles[n - 1]]);
    assert(Seq::<EntryV>::empty() + as_m31_entries(seq![x, y, t[n - 1]]) =~= as_m31_entries(
        seq![x, y, t[n - 1]],
    ));
    let ghost head = entries_v(new_hints@);
    let ghost pairs = Seq::new(
        (2 * (n - 1)) as nat,
        |j: int|
            if j % 2 == 0 {
                ("m31"@, ElementV::Num((t[n - 2 - j / 2] % P) as i32))
            } else {
                ("internal"@, ElementV::Str(s[j / 2]))
            },
    );
    let mut k: usize = 0;
    while k + 1 < n
        invariant
            n >= 1,
            k + 1 <= n,
            t == twiddles@,
            t.len() == n,
            s == byte_strings(siblings@),
            s.len() == n,
            siblings@.len() == n,
            pairs.len() == 2 * (n - 1),
            pairs == Seq::new(
                (2 * (n - 1)) as nat,
                |j: int|
                    if j % 2 == 0 {
                        ("m31"@, ElementV::Num((t[n - 2 - j / 2] % P) as i32))
                    } else {
                        ("internal"@, ElementV::Str(s[j / 2]))
                    },
            ),
            entries_v(new_hints@) == head + pairs.subrange(0, 2 * k as int),
        decreases n - k,
    {
        let e = twiddles[n - 2 - k] % P;
        push_entry(&mut new_hints, MemoryEntry::new("m31", Element::Num(e as i32)));
        let b = copy_bytes(siblings[k].as_slice());
        push_entry(&mut new_hints, MemoryEntry::new("internal", Element::Str(b)));
        proof {
            assert(pairs[2 * k as int] == ("m31"@, ElementV::Num((t[n - 2 - k] % P) as i32)));
            assert(pairs[2 * k + 1] == ("internal"@, ElementV::Str(s[k as int])));
            assert(s[k as int] == siblings@[k as int]@);
        }
        k = k + 1;
        assert(entries_v(new_hints@) =~= head + pairs.subrange(0, 2 * k as int));
    }
    assert(pairs.subrange(0, 2 * (n - 1)) =~= pairs);
    let last = copy_bytes(siblings[n - 1].as_slice());
    push_entry(&mut new_hints, MemoryEntry::new("internal", Element::Str(last)));
    assert(s[n - 1] == siblings@[n - 1]@);
    assert(entries_v(new_hints@) =~= precomputed_hints(x, y, t, s));
    Ok(FunctionOutput { new_elements, new_hints })
}

} // verus!

verus! {

// Registered forms of the queries. The Merkle proof itself is checked outside
// the program; its verdict comes in the option `proof_is_valid` (1 for a
// valid proof), and without it a query is refused as invalid.

/// The verdict given in the options.
pub open spec fn verdict_option(opts: Seq<(String, OptionValue)>) -> bool {
    option_u32(opts, "proof_is_valid"@) == Some(1u32)
}

/// Reads the verdict from the options.
pub fn get_verdict(options: &Options) -> (b: bool)
    ensures
        b == verdict_option(options.entries@),
{
    match options.get_u32("proof_is_valid") {
        Ok(v) => v == 1,
        Err(_) => false,
    }
}

/// The registered twin-tree query with `n` values per leaf.
pub open spec fn merkle_twin_tree_registered_spec(
    mem: Seq<EntryV>,
    inputs: Seq<usize>,
    opts: Seq<(String, OptionValue)>,
    n: nat,
) -> Result<OutputV> {
    merkle_twin_tree_spec(mem, inputs, opts, n, verdict_option(opts))
}

/// Queries a twin tree with `n` values per leaf, with the verdict from the
/// options.
pub fn merkle_twin_tree(dsl: &mut DSL, inputs: &[usize], options: &Options, n: usize) -> (r: Result<FunctionOutput>)
    requires
        inputs@.len() == 2,
    ensures
        *final(dsl) == *old(dsl),
        result_v(r) == merkle_twin_tree_registered_spec(old(dsl).mem(), inputs@, options.entries@, n as nat),
{
    let v = get_verdict(options);
    query_and_verify_merkle_twin_tree(dsl, inputs, options, n, v)
}

/// The registered raw tree query: options that cannot be computed with are
/// refused.
pub open spec fn raw_merkle_tree_registered_spec(
    mem: Seq<EntryV>,
    inputs: Seq<usize>,
    opts: Seq<(String, OptionValue)>,
) -> Result<OutputV> {
    if !raw_merkle_tree_options_computable(opts) {
        Err(DslError::InvalidOption)
    } else {
        raw_merkle_tree_spec(mem, inputs, opts, verdict_option(opts))
    }
}

/// Checks `raw_merkle_tree_options_computable`.
fn raw_options_computable(options: &Options) -> (b: bool)
    ensures
        b == raw_merkle_tree_options_computable(options.entries@),
{
    match (options.get_u32("logn"), options.get_u32("shift")) {
        (Ok(logn), Ok(shift)) => shift < 1 || (logn >= shift && shift < usize::BITS),
        _ => true,
    }
}

/// Queries a raw tree with the verdict from the options.
pub fn raw_merkle_tree(dsl: &mut DSL, inputs: &[usize], options: &Options) -> (r: Result<FunctionOutput>)
    requires
        inputs@.len() == 3,
    ensures
        *final(dsl) == *old(dsl),
        result_v(r) == raw_merkle_tree_registered_spec(old(dsl).mem(), inputs@, options.entries@),
{
    if !raw_options_computable(options) {
        return Err(DslError::InvalidOption);
    }
    let v = get_verdict(options);
    query_and_verify_raw_merkle_tree(dsl, inputs, options, v)
}

/// The registered precomputed tree query of `n` levels: a proof whose root
/// hash or siblings are not 32-byte digests is refused as malformed.
pub open spec fn precomputed_merkle_tree_registered_spec(
    mem: Seq<EntryV>,
    inputs: Seq<usize>,
    opts: Seq<(String, OptionValue)>,
    n: nat,
) -> Result<OutputV> {
    if precomputed_reads_proof(mem, inputs, opts, n) && !precomputed_digests_well_sized(opts) {
        Err(DslError::MalformedElement)
    } else {
        precomputed_merkle_tree_spec(mem, inputs, opts, n, verdict_option(opts))
    }
}

/// Checks that a proof that is read has 32-byte digests.
fn precomputed_digests_checked(dsl: &DSL, inputs: &[usize], options: &Options, n: usize) -> (b: bool)
    requires
        inputs@.len() == 1,
    ensures
        b == (precomputed_reads_proof(dsl.mem(), inputs@, options.entries@, n as nat)
            ==> precomputed_digests_well_sized(options.entries@)),
{
    let root = match options.get_binary("root_hash") {
        Ok(v) => v,
        Err(_) => {
            return true;
        },
    };
    if dsl.get_num(inputs[0]).is_err() || options.get_u32("circle_point_x").is_err()
        || options.get_u32("circle_point_y").is_err() {
        return true;
    }
    let reads = match (options.get_multi_u32("twiddles"), options.get_multi_binary("siblings")) {
        (Ok(t), Ok(s)) => t.len() == n && s.len() == n,
        _ => false,
    };
    if !reads {
        return true;
    }
    if root.len() != 32 {
        return false;
    }
    let siblings = match options.get_multi_binary("siblings") {
        Ok(s) => s,
        Err(_) => {
            return true;
        },
    };
    let mut k: usize = 0;
    while k < siblings.len()
        invariant
            0 <= k <= siblings@.len(),
            precomputed_reads_proof(dsl.mem(), inputs@, options.entries@, n as nat),
            option_binary(options.entries@, "root_hash"@) == Some(root@),
            root@.len() == 32,
            option_multi_binary(options.entries@, "siblings"@) == Some(byte_strings(siblings@)),
            forall|j: int| 0 <= j < k ==> (#[trigger] byte_strings(siblings@)[j]).len() == 32,
        decreases siblings@.len() - k,
    {
        if siblings[k].len() != 32 {
            assert(byte_strings(siblings@)[k as int].len() != 32);
            return false;
        }
        k = k + 1;
    }
    true
}

/// Queries a precomputed tree of `n` levels with the verdict from the options.
pub fn precomputed_merkle_tree(dsl: &mut DSL, inputs: &[usize], options: &Options, n: usize) -> (r: Result<FunctionOutput>)
    requires
        inputs@.len() == 1,
        n >= 1,
    ensures
        *final(dsl) == *old(dsl),
        result_v(r) == precomputed_merkle_tree_registered_spec(old(dsl).mem(), inputs@, options.entries@, n as nat),
{
    if !precomputed_digests_checked(dsl, inputs, options, n) {
        return Err(DslError::MalformedElement);
    }
    let v = get_verdict(options);
    query_and_verify_precomputed_merkle_tree(dsl, inputs, options, n, v)
}

/// Registers the Merkle queries, in order; a name already taken stops the
/// registration with `DuplicateFunction`.
pub fn load_functions(dsl: &mut crate::dsl::framework::DSL) -> (r: crate::dsl::framework::Result<()>)
    ensures
        r is Ok <==> crate::dsl::range_names_free(old(dsl).functions@, 44, 49),
        r matches Err(e) ==> e == crate::dsl::framework::DslError::DuplicateFunction,
        r is Ok ==> crate::dsl::functions_extended_by(final(dsl), old(dsl), 44, 49),
        final(dsl).functions@.subrange(0, old(dsl).functions@.len() as int) == old(dsl).functions@,
        final(dsl).data_types@ == old(dsl).data_types@,
        final(dsl).memory@ == old(dsl).memory@,
        final(dsl).hints@ == old(dsl).hints@,
{
    crate::dsl::load_standard_functions(dsl, 44, 49)
}

} // verus!
