# ternary_federated

Federated learning for ternary agents, verified with Verus.

- `src/` — the verified library: ternary values and the 64-bit linear
  congruential generator (`ternary`), strategies with exact fitness and
  mutation (`strategy`), agents and nodes with local evolution and federated
  blending (`node`), the stable descending ordering of agents by fitness
  (`ranking`), majority-vote aggregation (`aggregate`), the per-node steps of
  an experiment (`federation`) and the library's laws (`laws`).
- `app/` — the floating-point side, unverified: fitness as `f64`, the privacy
  budget, weighted and best-of aggregation, federated rounds and the
  experiment driver.
- `tests/` — tests of the library.

Fitness is held exactly as the fraction `hits / total`; `app/` turns it into
`f64` with one division.
