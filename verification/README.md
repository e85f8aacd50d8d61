# camelid

Decision logic of a CPU inference engine, written in Verus: executable Rust whose
behaviour is stated in `requires` and `ensures` clauses and proved.

- `src/` is the verified library.
  - Speculative decoding: token trees, drafters, and the proof that a drafter never
    changes what is decoded.
  - Rotary position embedding: which settings and metadata are accepted, which
    elements of a row are rotated together, and the tables for a device. The
    arithmetic of angles is a parameter.
  - Schedule telemetry and memory traces.
  - Thread counts, layer selectors, head sampling and other small policies.
  - Integer parts of quantised kernels and the repacking of Q4_K weights.
- `app/` is ordinary Rust around it: process-wide state, environment variables,
  serialised reports, threads and floating-point arithmetic.
- `tests/` runs the library on concrete values.

One thing is trusted rather than proved: `text::debug_text`, the quoted form of a text
as `std` prints it.
