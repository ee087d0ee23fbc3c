# qutee

A quad tree whose coordinates are any primitive integer type, verified with
Verus.

- `src/coordinate.rs`: the `PositionUnit` trait that coordinate types
  implement, with the arithmetic a tree needs (comparison, addition,
  halving an interval without overflow).
- `src/point.rs`, `src/boundary.rs`: points and rectangular areas (`contains`,
  `overlaps`, `encloses`, `split` into four quadrants), and the lemmas that
  relate them.
- `src/capacity.rs`: the capacity of each level, fixed at compile time
  (`ConstCap`) or at run time (`DynCap`).
- `src/tree.rs`: the tree, its well-formedness, insertion.
- `src/tree/iter.rs`, `src/tree/query.rs`: iteration over all items and
  queries over an area, with the laws that tie them to insertion.
- `src/text.rs`: decimal text of coordinates for error messages.
- `app/lib.rs`: a copy of the error type with `Display` and
  `std::error::Error`.
