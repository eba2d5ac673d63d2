# libm_ext

`sin(πx)` and `cos(πx)` for `f64` and `f32`.

- `src/` is the verified library: the thresholds past which every float is an
  even integer (`limits`), the quarter-turn reduction `|x| = n/2 + r` and the
  kernel/sign tables (`quadrant`), and the branch each function takes for an
  input (`plan`), with the laws that tie them together (period, oddness,
  `sin² + cos²`, values at integers and half-integers).
- `app/` evaluates the floating-point kernels and the Python bindings, following
  the plans that `src/` computes.
- `tests/` exercises the library on concrete values.
