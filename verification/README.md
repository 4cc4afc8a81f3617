# fibration_timing

Fiber-bundle timing for concurrent agent scheduling, as a Verus-verified
library.

- `src/` — the verified library, generic over the scalar type `T` of time
  points and fiber states: bundle construction and validation, connections
  and parallel transport (the arithmetic of a matrix step is a kernel passed
  in by the caller), loop validation, schedule building with a stable
  priority order, round-robin slot distribution, drift monitoring, and the
  section lifter's bundle.
- `app/` — the `f64` layer: the transport kernel, connection and curvature
  forms, holonomy, gauge fixing, drift magnitudes, section lifting, a
  displayable error and serde records of the library's types.
- `tests/` — tests of the library on `f64` values.
