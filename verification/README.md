# QVNT

A quantum circuit toolkit whose logic is verified with Verus.

Gates are addressed by bitmasks: each set bit of a mask names one qubit.

## Layout

- `src/math.rs`: qubit masks, their qubits (`BitsIter`, `qubit_list`), bit counts
  and the index split of a tensor product.
- `src/operator/`: the gates.
  - `angle.rs`: rotation angles, carried as the bit patterns of doubles.
  - `atomic.rs`: the atomic gates, their names, validity and inverses.
  - `single/`, `multi/`: controlled operations and queues of them; the Hadamard
    and quantum Fourier transforms.
  - `amplitude.rs`: for every gate and basis index, the old amplitudes that make
    up the new one and their exact coefficients; the proof that the inverse of
    every valid gate is its conjugate transpose, and that gates stay on their qubits.
  - `identities.rs`: exact products of gates (S S = Z, T T = S, H H = Id, the
    square roots of SWAP and iSWAP squared, Y = i X Z), and the proof that every
    gate and controlled operation with exact coefficients is undone by its inverse.
  - `multi/transform.rs`: the entries of a queue's matrix as sums of exact
    monomials, the proof that the Hadamard queue is the Hadamard transform, and
    that four T gates make Z.
- `src/interpreter/`: the interactive interpreter's command language, the tag
  tree, the unrolling of `loop`, the `tag` subcommands and the read loop's blocks.
- `src/backend.rs`: simulator settings and errors.
- `app/`: the floating-point state-vector simulators (with `rayon`), gates given by
  complex matrices, the text forms of errors, the command-line arguments (`clap`)
  and the read loop (`rustyline`).
- `tests/`: the tests of the library.
