# zkfl

Verified step logic for Nova proofs in federated learning, over the BN254
scalar field.

- `src/field.rs`: field elements held as canonical encodings; the field
  operations of `halo2curves` (through `nova_snark`) behind small trusted
  functions.
- `src/layers.rs`: padding, convolution, max pooling, flattening and dense layers,
  each with an exact contract and a check of the shapes on which it is defined.
- `src/inference.rs`: the accuracy circuit (network evaluation and the counter
  of correct predictions), with the law that the counter counts them.
- `src/aggregation.rs`: the aggregation circuit (addition gates that sum two
  local models position by position; every step sets the state to 1).
- `src/endpoint.rs`: the route table of the verifying adapter.
- `app/main.rs`: the provers and the HTTP adapter (`app aggproof`,
  `app trainingproof`, `app serve`): file reading, Nova proving and
  verification, and the `StepCircuit` impls.
