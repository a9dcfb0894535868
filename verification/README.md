# ai_pow_vi

A deterministic INT8 transformer-layer reference for a verifiable-inference
puzzle, written in Verus. The library in `src/` states its behaviour in
`requires` / `ensures` contracts over mathematical models (`Seq`, `int`,
spec functions) and Verus proves them; the trusted items are three BLAKE3 wrappers, the
names of their results, and the declaration of `std::io::Error`.

## Layout

- `src/` — the verified library:
  - integer kernels: `arith`, `quant`, `matmul_int8`, `rmsnorm`, `layernorm`,
    `activation_lut`, `softmax`, `rope`, `ffn`;
  - sequence blocks: `attention`, `deltanet`, `ssm`, `layer`, and `causal`,
    which proves each block causal (the output for the first tokens of a run
    is the output of a run over those tokens alone);
  - the model and its commitments: `model`, `layout`, `merkle`, `comm_w`,
    `streaming`, `tile_hash`, `activations`, `hashing`;
  - the forward driver and puzzle logic: `forward`, `prompt`, `mining`,
    `determinism`, `vi_proof` (wire format, with round-trip and rejection
    laws), `vi_eval`, `io`, `reload`.
- `tests/` — ordinary Rust tests run against the compiled library.
- `app/` — what Verus does not see: file I/O, the floating-point
  gated-DeltaNet recurrence, and the drivers that call the puzzle crate.
