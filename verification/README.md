# adjunction

Category theory adjunctions computed on concrete objects, with Verus proofs.

- `src/` is the verified library: list monoids, graphs and their path
  categories, the free monoid and free category constructions, the forgetful
  functors, group presentations and their abelianization, and an adjunction
  type whose check of the triangle identities is proved to report exactly what
  its components compute.
- `src/` also states the laws of these objects as proof functions: the monoid
  and category laws, the words and paths that the free constructions
  enumerate, and the fact that every abelianization is abelian and reflective.
- `tests/` runs the library on concrete values.
- `app/` holds serializable (serde) forms of the data types, with conversions
  in both directions.
