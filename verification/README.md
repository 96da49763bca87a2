# bayesite_core

The core of Bayesite: Bayesian models as data, what can be simulated and computed from them, and
the records that make an analysis reproducible.

`src/` is a library whose every function is verified with Verus:

- `json`, `render`, `text`, `lines`, `order`, `number`, `fingerprint`: documents, numerals, doubles
  by their bit patterns, and SHA-256 identities.
- `ir`, `ancestral`, `depth`, `sameness`, `model`, `bounds`, `posterior`, `identity`: models, the
  order in which their sites can be generated, and how they are bound to data.
- `term`, `transform`, `shapes`, `density`, `logp`: the log density of a bound model, with
  its gradient.
- `nuts`: no-U-turn transitions.
- `predictive`, `generation`: prior and posterior simulation, checks, and generated datasets.
- `inspect`: the report on a model as it is evaluated.
- `investigation`, `workspace`: snapshots, their verification, and the workspaces that they are
  taken from.
- `cli`: what the command line asks for.

Floating point, random numbers, JSON text and stored objects are handed in as services. What a
function promises is stated over what those services give.

`app/` is the host around the library: files, standard streams, threads and floating-point
numerics. `tests/` runs the library.
