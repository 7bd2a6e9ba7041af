# categorical_core

A hierarchy of categories by level: objects with real-valued properties,
morphisms with strengths, functors between levels, process categories whose
morphisms compose with probabilities, and natural transformations between
functors with a test of naturality.

`src/` is the library, written in Verus: every function carries a contract
and is proved against it, and `src/laws.rs` states and proves the properties
that relate several operations. Real numbers are carried as the bit patterns of
their `f64` values; the arithmetic on them (products of probabilities, the
naturality tolerance) is passed in by the caller as a function.

- `strmap.rs`, `levelmap.rs`: maps keyed by text (in order of first insertion)
  and by level (in ascending order).
- `text.rs`: decimal rendering of numbers for generated names.
- `model.rs`: objects, morphisms, functors, flat records.
- `category.rs`, `process.rs`, `natural.rs`: categories, process categories and
  composition, natural transformations and naturality.
- `features.rs`, `lift.rs`: feature matrices and the lifting of a level into
  clusters.
- `hierarchy.rs`: the hierarchy of levels.

`app/` holds the Python bindings (pyo3), serde records of the types, and the
floating-point work: the k-means clustering that chooses the clusters of a
lift, and the `f64` matrix handed to it.
