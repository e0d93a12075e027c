use crate::dsl::framework::{
    str_at, DslError, Element, ElementV, EntryV, FunctionOutput, MemoryEntry, OutputV, Result,
    DSL,
};
use crate::dsl::values::{no_entries, one_entry, output, result_v};
use sha2::Digest;
use vstd::prelude::*;

verus! {

/// The SHA-256 digest of `data`.
pub uninterp spec fn sha256_digest(data: Seq<u8>) -> Seq<u8>;

/// Hashes `data` with `sha2::Sha256::digest`. Trusted: the result is the
/// SHA-256 digest of the bytes, a function of them alone, and it is 32 bytes
/// long (the hasher's output size).
#[verifier::external_body]
fn sha256(data: &[u8]) -> (r: Vec<u8>)
    ensures
        r@ == sha256_digest(data@),
        r@.len() == 32,
{
    <sha2::Sha256 as Digest>::digest(data).to_vec()
}

/// Hashes the concatenation of two byte strings.
pub fn concat_and_hash(first: &[u8], second: &[u8]) -> (r: Vec<u8>)
    ensures
        r@ == sha256_digest(first@ + second@),
        r@.len() == 32,
{
    let mut data: Vec<u8> = Vec::new();
    let mut i: usize = 0;
    while i < first.len()
        invariant
            0 <= i <= first@.len(),
            data@ == first@.subrange(0, i as int),
        decreases first@.len() - i,
    {
        data.push(first[i]);
        i = i + 1;
        assert(data@ =~= first@.subrange(0, i as int));
    }
    let mut j: usize = 0;
    while j < second.len()
        invariant
            0 <= j <= second@.len(),
            data@ == first@ + second@.subrange(0, j as int),
        decreases second@.len() - j,
    {
        data.push(second[j]);
        j = j + 1;
        assert(data@ =~= first@ + second@.subrange(0, j as int));
    }
    assert(second@.subrange(0, second@.len() as int) =~= second@);
    sha256(data.as_slice())
}

/// Mixes the digest at `inputs[1]` into the channel digest at `inputs[0]`:
/// the new channel digest is the hash of the digest followed by the old
/// channel digest. Both must be 32 bytes long.
pub open spec fn mix_digest_spec(mem: Seq<EntryV>, inputs: Seq<usize>) -> Result<OutputV> {
    match (str_at(mem, inputs[0] as int), str_at(mem, inputs[1] as int)) {
        (Err(e), _) => Err(e),
        (Ok(_), Err(e)) => Err(e),
        (Ok(old), Ok(d)) => if old.len() != 32 || d.len() != 32 {
            Err(DslError::MalformedElement)
        } else {
            output(seq![("hash"@, ElementV::Str(sha256_digest(d + old)))], seq![])
        },
    }
}

/// Mixes a digest into the channel.
pub fn mix_digest(dsl: &mut DSL, inputs: &[usize]) -> (r: Result<FunctionOutput>)
    requires
        inputs@.len() == 2,
    ensures
        *final(dsl) == *old(dsl),
        result_v(r) == mix_digest_spec(old(dsl).mem(), inputs@),
{
    let old_channel_digest = dsl.get_str(inputs[0])?;
    let digest = dsl.get_str(inputs[1])?;
    if old_channel_digest.len() != 32 || digest.len() != 32 {
        return Err(DslError::MalformedElement);
    }
    let new_digest = concat_and_hash(digest, old_channel_digest);
    let entry = MemoryEntry::new("hash", Element::Str(new_digest));
    Ok(FunctionOutput { new_elements: one_entry(entry), new_hints: no_entries() })
}

/// Registers the channel digest mixing, in order; a name already taken stops the
/// registration with `DuplicateFunction`.
pub fn load_functions(dsl: &mut crate::dsl::framework::DSL) -> (r: crate::dsl::framework::Result<()>)
    ensures
        r is Ok <==> crate::dsl::range_names_free(old(dsl).functions@, 41, 42),
        r matches Err(e) ==> e == crate::dsl::framework::DslError::DuplicateFunction,
        r is Ok ==> crate::dsl::functions_extended_by(final(dsl), old(dsl), 41, 42),
        final(dsl).functions@.subrange(0, old(dsl).functions@.len() as int) == old(dsl).functions@,
        final(dsl).data_types@ == old(dsl).data_types@,
        final(dsl).memory@ == old(dsl).memory@,
        final(dsl).hints@ == old(dsl).hints@,
{
    crate::dsl::load_standard_functions(dsl, 41, 42)
}

} // verus!
