use crate::dsl::framework::{
    entries_v, option_binary, option_u32, option_u64, str_at, DslError, Element, ElementV, EntryV,
    FunctionOutput, MemoryEntry, OptionValue, Options, OutputV, Result, DSL,
};
use crate::dsl::values::{no_entries, one_entry, output, push_entry, result_v};
use vstd::prelude::*;

verus! {

// The proof-of-work check. Mixing the nonce into the channel and counting the
// trailing zero bits of the new digest is the work of the prover's SHA-256
// channel, which runs outside the program: its results come in the options
// `channel_digest` (the digest after the nonce is mixed in), `trailing_zeros`,
// `prefix` and `msb` (the parts of the digest that the script rebuilds; `msb`
// is empty when the script needs no such byte). The function checks the
// requirement on them and lays out the element and the hints.

/// The `count` little-endian bytes of `n`.
pub open spec fn le_bytes(n: nat, count: nat) -> Seq<u8>
    decreases count,
{
    if count == 0 {
        Seq::empty()
    } else {
        seq![(n % 256) as u8] + le_bytes(n / 256, (count - 1) as nat)
    }
}

/// The eight little-endian bytes of a nonce.
pub fn nonce_le_bytes(nonce: u64) -> (r: Vec<u8>)
    ensures
        r@ == le_bytes(nonce as nat, 8),
{
    let mut out: Vec<u8> = Vec::new();
    let mut rest: u64 = nonce;
    let mut i: usize = 0;
    while i < 8
        invariant
            0 <= i <= 8,
            out@ + le_bytes(rest as nat, (8 - i) as nat) == le_bytes(nonce as nat, 8),
        decreases 8 - i,
    {
        let ghost before = out@;
        let ghost tail = le_bytes(rest as nat / 256, (8 - i - 1) as nat);
        assert(le_bytes(rest as nat, (8 - i) as nat) == seq![(rest % 256) as u8] + tail);
        out.push((rest % 256) as u8);
        rest = rest / 256;
        i = i + 1;
        assert(out@ + tail =~= before + (seq![(out@.last())] + tail));
    }
    assert(out@ + le_bytes(rest as nat, 0) =~= out@);
    out
}

/// The byte that stands for `msb` in the hints: the byte itself, or zero when
/// there is none, so that the hints have the same shape either way.
pub open spec fn msb_hint(msb: Seq<u8>) -> Seq<u8> {
    if msb.len() == 0 { seq![0u8] } else { msb }
}

/// What the proof-of-work check gives for the channel digest at `inputs[0]`:
/// with the options `n_bits`, `nonce` and the channel's results, the new
/// channel digest, and as hints the nonce's eight little-endian bytes, the
/// prefix and the most significant byte. The requirement fails, with
/// `InvalidProof`, when the new digest has fewer than `n_bits` trailing zero
/// bits. Digests must be 32 bytes long, and `msb` at most one byte.
pub open spec fn verify_pow_spec(
    mem: Seq<EntryV>,
    inputs: Seq<usize>,
    opts: Seq<(String, OptionValue)>,
) -> Result<OutputV> {
    match str_at(mem, inputs[0] as int) {
        Err(e) => Err(e),
        Ok(old) => if old.len() != 32 {
            Err(DslError::MalformedElement)
        } else {
            match (
                option_u32(opts, "n_bits"@),
                option_u64(opts, "nonce"@),
                option_binary(opts, "channel_digest"@),
                option_u32(opts, "trailing_zeros"@),
                option_binary(opts, "prefix"@),
                option_binary(opts, "msb"@),
            ) {
                (Some(n_bits), Some(nonce), Some(digest), Some(zeros), Some(prefix), Some(msb)) =>
                    if digest.len() != 32 || msb.len() > 1 {
                    Err(DslError::MalformedElement)
                } else if zeros < n_bits {
                    Err(DslError::InvalidProof)
                } else {
                    output(
                        seq![("hash"@, ElementV::Str(digest))],
                        seq![
                            ("internal"@, ElementV::Str(le_bytes(nonce as nat, 8))),
                            ("internal"@, ElementV::Str(prefix)),
                            ("internal"@, ElementV::Str(msb_hint(msb))),
                        ],
                    )
                },
                _ => Err(DslError::InvalidOption),
            }
        },
    }
}

/// Checks the proof of work on the channel digest at `inputs[0]`, with the
/// channel's results from the options.
pub fn verify_pow(dsl: &mut DSL, inputs: &[usize], options: &Options) -> (r: Result<FunctionOutput>)
    requires
        inputs@.len() == 1,
    ensures
        *final(dsl) == *old(dsl),
        result_v(r) == verify_pow_spec(old(dsl).mem(), inputs@, options.entries@),
{
    let old_channel_digest = dsl.get_str(inputs[0])?;
    if old_channel_digest.len() != 32 {
        return Err(DslError::MalformedElement);
    }
    let n_bits = options.get_u32("n_bits")?;
    let nonce = options.get_u64("nonce")?;
    let digest = options.get_binary("channel_digest")?;
    let zeros = options.get_u32("trailing_zeros")?;
    let prefix = options.get_binary("prefix")?;
    let msb = options.get_binary("msb")?;
    if digest.len() != 32 || msb.len() > 1 {
        return Err(DslError::MalformedElement);
    }
    if zeros < n_bits {
        return Err(DslError::InvalidProof);
    }
    let msb_byte: u8 = if msb.len() == 0 { 0 } else { msb[0] };
    let ghost prefix_v = prefix@;
    let mut new_hints = no_entries();
    push_entry(&mut new_hints, MemoryEntry::new("internal", Element::Str(nonce_le_bytes(nonce))));
    push_entry(&mut new_hints, MemoryEntry::new("internal", Element::Str(prefix)));
    let mut msb_v: Vec<u8> = Vec::new();
    msb_v.push(msb_byte);
    assert(msb_v@ =~= msb_hint(msb@));
    push_entry(&mut new_hints, MemoryEntry::new("internal", Element::Str(msb_v)));
    assert(entries_v(new_hints@) =~= seq![
        ("internal"@, ElementV::Str(le_bytes(nonce as nat, 8))),
        ("internal"@, ElementV::Str(prefix_v)),
        ("internal"@, ElementV::Str(msb_hint(msb@))),
    ]);
    let entry = MemoryEntry::new("hash", Element::Str(digest));
    Ok(FunctionOutput { new_elements: one_entry(entry), new_hints })
}

/// Registers the proof-of-work check; a name already taken stops the
/// registration with `DuplicateFunction`.
pub fn load_functions(dsl: &mut DSL) -> (r: Result<()>)
    ensures
        r is Ok <==> crate::dsl::range_names_free(old(dsl).functions@, 49, 50),
        r matches Err(e) ==> e == DslError::DuplicateFunction,
        r is Ok ==> crate::dsl::functions_extended_by(final(dsl), old(dsl), 49, 50),
        final(dsl).functions@.subrange(0, old(dsl).functions@.len() as int) == old(dsl).functions@,
        final(dsl).data_types@ == old(dsl).data_types@,
        final(dsl).memory@ == old(dsl).memory@,
        final(dsl).hints@ == old(dsl).hints@,
{
    crate::dsl::load_standard_functions(dsl, 49, 50)
}

} // verus!
