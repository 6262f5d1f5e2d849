# lean_state

The state transition of a lean consensus chain, written in Rust and verified with
Verus: slots, block headers, attestations, justification, finalization, and the
greedy choice of signature proofs.

- `src/model.rs` holds the chain state as a mathematical value and says what each
  transition makes of it. The contracts of `LeanState` in `src/state.rs`,
  `src/chain.rs`, `src/selection.rs` and `src/encoding.rs` refer to it.
- `src/consistency.rs` states what holds of every state that a chain can reach, and
  `src/laws.rs` what the transitions guarantee. `src/whole_calls.rs` does so for calls
  with any number of attestations.
- What is trusted stands beside what needs it: the SSZ lists and bit lists in
  `src/collections.rs`, tree hashing in `src/hashing.rs`, the SSZ encoding in
  `src/encoding.rs`, the walk over a hash set in `src/selection.rs`, the sorting of
  roots in `src/votes.rs`, and the integer square root in `src/slot.rs`.
- `app/` reads recorded cases from files and reports errors in words.
