# fss

Two-party distributed point functions (DPF) over the ring of integers
modulo 2^16, written in Verus.

- `src/group.rs`: the `Group` trait (with the group laws as proof
  obligations) and the `FromRng` trait.
- `src/ring.rs`: `RingElm`, its group and operator impls, and the group of
  pairs.
- `src/prg.rs`: seeds and the pseudorandom generator (ChaCha20 from
  `rand_chacha`), with seed expansion and conversion to group elements.
- `src/dpf.rs`: key generation, evaluation, stateful evaluation, evaluation
  over the whole 16-bit domain, and the proof that the two keys' shares add
  up to the point function.
- `src/pika.rs`: the local steps of the table-lookup protocol (masking the
  input shares, summing the looked-up table entries).
- `src/input.rs`: the encoding of signed inputs as bit vectors.
- `app/main.rs`: file input and output, and the floating-point function table.
