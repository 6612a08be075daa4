# greyhound

Greyhound polynomial commitments over `Z_q[X] / (X^64 + 1)`, with the Labrador argument that
closes an evaluation proof. The library is written and proved in Verus.

A polynomial with 32-bit coefficients is cut into ring elements, the ring elements are decomposed
into short digits, and the digits are committed to with random matrices. To prove the value of the
polynomial at a point, the prover folds the digits by a Fiat-Shamir challenge; the verifier checks
five rows of linear equations and a norm bound on the folded witness.

- `src/` holds the scheme: ring arithmetic (`zq`, `rq`, `poly`, `linalg`, `layout`), transcripts
  (`bytes`, `sponge`, `fiat_shamir`), challenges (`challenge`), commitment and evaluation
  (`params`, `commit`, `eval`, `prover`, `eval_check`), the argument (`labrador`, `norm`, `round`,
  `folding`, `folding_check`) and the input of coefficients (`input`). That honest proofs are
  accepted is proved in `completeness`, `short` and `folding_complete`; that proofs which were
  tampered with or belong to another statement are rejected, in `tamper` and `negative`; that the
  relation is linear, in `linearity`.
- `app/` is the program: it runs the steps of the library and has the ICICLE backend decompose,
  sample and project between them.
- `tests/` runs the library on small parameters.
