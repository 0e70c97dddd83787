# proofman

The logic of a STARK proof manager, verified with Verus.

`src/` is a library. Every function in it has a contract, and Verus proves all of them but those of
the few wrappers around calls of other crates and of the standard library:

- `plonk2pil`: an R1CS turned into PLONK constraints, copy constraints merged, and both packed with
  custom gates into the trace of a compressor or an aggregation circuit.
- `stark_verifier`: the size and parts of a proof, the order of its transcript, what is asked of
  hashing and folding, and the verdict.
- `manager`: counting outstanding proofs, settling completions, and scheduling recursive proofs on
  streams.
- `setup`: settings and structures of STARKs, the names and files of each stage, sizing of recursive
  circuits, verification keys.
- `circom`: the values that circuit and contract templates are filled with.
- `exps`: CUDA kernels for quotient expressions, and the compiler flags to build them.
- `rows`: packed rows, and the source of their accessors.
- `cli`: what the proving commands decide.
- `hashes`: traces of BLAKE3 and SHA2-256.
- `field`, `field_prime`, `field_inverse`: arithmetic in the Goldilocks field.
- `text`, `parse`, `paths`, `words`: text, numbers, paths and bytes.

The wrappers call `indexmap`, `rand`, `regex`, `serde_json` and `tera`. What they rely on is stated at each
call.

`app/` is ordinary Rust around the library: the command line, files, processes, threads and dynamic
libraries. It is generic over what sibling libraries do, such as hashing and compiling PIL.

`tests/` runs the library.
