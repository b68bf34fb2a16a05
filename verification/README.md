# verified_rcv

Ranked-choice (instant-runoff) elections whose tally is computed inside a
TDX enclave and published to a CosmWasm contract, with the tally logic, the
ballot and attestation encodings, and the contract's state machine verified
in Verus.

## Layout

- `src/irv.rs`, `src/irv_laws.rs` — the IRV core (`irv_spec`) against its
  mathematical model, and what every result satisfies (round shape,
  per-round sums, no eliminated candidate coming back).
- `src/decrypt.rs`, `src/ballot_codec.rs` — Stage 1: decrypting and
  validating ballots, the Borsh ballot plaintext, and the full tally
  (`tally_spec`).
- `src/codec.rs`, `src/codec_laws.rs`, `src/binding.rs`, `src/digest.rs`,
  `src/fields.rs`, `src/hexcodec.rs` — canonical serialization and its
  injectivity, the ballots / names / commit hashes and ReportData layouts,
  field packing, hex.
- `src/contract/` — the contract: state, handlers, dispatch and queries,
  public-input extraction, quote checks, the tally well-formedness check,
  and the laws over its transitions and quote checks.
- `src/enclave/` — the runtime: TDX quote parsing, the dstack simulator,
  attestation artifacts, the HTTP framing of the prove server's exchange,
  and the tally service's request handling.
- `src/honest_tally.rs` — an honest enclave's tally and publication are
  accepted by the contract.
- `app/` — I/O around the library: the CosmWasm entry points with contract
  storage and the chain's gnark verifier query, the dstack agent clients,
  the tally service loop, the real prover path (`serve --real-zkdcap`) and
  the command-line tools.
- `tests/` — tests of the library.
