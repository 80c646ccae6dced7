# mamba3

State-space sequence models with automatic differentiation, layers, distributions and
decoding, verified with Verus.

A tensor is a shape and a term that says how an executor computes it. The library decides
shapes, tapes, gradients, parameters, random streams and formulas, and proves what it
decides; the executor evaluates terms.

What a term holds is given over the real numbers in `src/buffer.rs`: the kernels of the
distributions are read as the formulas proved for them, and the verified functions of
`src/distributions/kernels.rs` hand an executor exactly those formulas.

- `src/` is the verified library.
- `app/` is the ordinary Rust around it: an engine on the host that evaluates terms in single
  precision, the compute device, checkpoints on disk, special functions, and the decoding loop.
- `tests/` runs the library on concrete values.
