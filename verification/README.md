# stark_dsl

A verified library for building Bitcoin-script STARK verifier programs over the
Mersenne-31 field and its complex (`CM31`) and degree-4 (`QM31`) extensions.

A program (`DSL`) holds registered data types, registered functions and a
memory of values. Each function appends new values to the memory and the hints
that its script will consume; for the simpler functions the library also
builds the script gadget that consumes them.

Layout of `src/`:

- `field/`: the base field `M31` and the extensions `CM31` and `QM31`, with
  their spec operations, executable operations proved against them, and the
  algebra used by the proofs (inverses, ring identities, and the facts that
  `-1` and `5` are not squares modulo `P`, so every nonzero element of the
  extensions is invertible).
- `limbs.rs`: byte limbs of field elements, and the scripts that recompose them.
- `table.rs`: the quarter-square table used to multiply limbs.
- `script.rs`: Bitcoin scripts as bytes, number pushes and small gadgets.
- `dsl/framework.rs`, `dsl/runner.rs`: programs, memory, options, and the
  dispatch of a call to its trace generator, with the exact result of each call.
- `dsl/building_blocks/`: the registered functions and their gadgets, the SHA-256
  digest mixing, the proof-of-work check and the Merkle tree queries, with a
  `load_functions` per block; `dsl/mod.rs` registers the data types and all
  fifty standard functions.
- `dsl/witness.rs`: the hints of a program as the witness items of its script.
- `dsl/m31.rs`, `dsl/qm31.rs`: limb-level aliases of the building blocks
  (`qm31_limbs_get_first` for `qm31_limbs_first`, and so on).
- `dsl/compose.rs` and the other `dsl/` modules: composite computations built
  from registered calls (partial evaluations, pair and coset vanishing, point
  operations, folding, line coefficients, quotients and constraints).

Every public function states its result exactly; the laws that relate several
functions are public proof functions next to the functions they speak of.

## What the library does not check itself

- Merkle proofs. The registered Merkle queries do not verify the path from a
  leaf to the root: the verdict of that check comes in the option
  `proof_is_valid` (1 for a valid proof), and without it a query is refused
  with `InvalidProof`. The library only lays out the values and hints of a
  query whose proof was found valid.
- Proof of work. `verify_pow` does not mix the nonce into the channel or count
  the digest's trailing zero bits: the channel's results come in the options
  `channel_digest`, `trailing_zeros`, `prefix` and `msb`. The library checks the
  requirement `trailing_zeros >= n_bits` on them and lays out the new digest
  and the hints.
- Scripts are built, not run: nothing here states that a gadget's script
  accepts exactly the traces that its generator produces.
- Not provided: tools that pack several elements into one hash and back.
- Where the field operations meet a non-canonical value or zero (for an
  inverse), they refuse it with an error (`MalformedElement`,
  `NotInvertible`) and never panic.
