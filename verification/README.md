# stwo_polynomial

Circle STARK proofs that are proved and verified with the composition polynomial in hand: proving
returns the polynomial next to the proof, and verifying compares it with the sampled values at the
out-of-domain point before it opens the committed trees.

- `src/` is the library, verified with Verus. `prove` is the prover's side as steps between the
  work of a backend; `verify` is the verifier's side; `laws` states what ties them together.
  `field`, `circle` and `poly` hold the arithmetic and the polynomials, `channel`, `pcs`,
  `stark_proof` and `air` what is asked of stwo, and `oods` the samples out of the domain.
- `tests/` runs the library against stwo.
- `app/` drives a backend of stwo through the steps of proving and verifies proofs in the form that
  stwo gives them. It needs stwo with its feature `prover`.

The channel and the Merkle trees are those over Blake2s.
