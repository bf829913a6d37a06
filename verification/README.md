# fa2

A verified library for the [ForceAtlas2](https://doi.org/10.1371/journal.pone.0098679)
graph layout algorithm, written in Verus.

The library is generic over the number type it computes with: any type that
implements `fa2::traits::Float` (see `app/lib.rs` for one backed by the floats
of `num_traits`). Every force of the algorithm is specified by the exact
expression it computes in that number type, so the contracts pin down each
result, evaluation order included.

What the proofs take from the number type is only that each of its
operations is a function of its arguments. With machine floats this holds
within one build on one machine; transcendental functions (`ln`, `powf`,
`sin`, `cos`) may give other results with another platform's math library.

- `src/data.rs`: the graph (`FA2Data`) and its adjacency lists (`NeighborhoodIndex`).
- `src/builder.rs`: the same graph stored node-major.
- `src/settings.rs`: the settings of the algorithm.
- `src/repulsion.rs`, `src/gravity.rs`, `src/attraction.rs`, `src/forces.rs`: the forces.
- `src/barnes_hut.rs`: the Barnes-Hut quadtree that approximates repulsion.
- `src/layout.rs`: the layout runner (`FA2Layout`), one epoch at a time.
- `app/lib.rs`: machine floats as layout numbers, and the multi-threaded paths.
