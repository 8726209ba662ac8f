# lib

A hash array mapped trie (HAMT) whose nodes live in memory or in an
append-only space of segments, verified with Verus.

- `hash`: the universal hash that places keys.
- `hamt::space`: segments of values and table items, extensions that add one
  segment, readers over a space, and read-after-write laws.
- `hamt::trie::node`: trie keys, occupancy maps, nodes whose base is in memory
  or in a segment table, and the model they are proved against (`model`,
  `persist`, `count`).
- `hamt::trie::mem`, `hamt::trie::space`, `hamt::titan`: tries in memory and
  over a space, with single and deep (nested) insertion, lookup, listing and
  commit; the laws of lookup after insertion and after commit.
- `hamt::trie::space::map_base` and `pack`: table items packed into two 32-bit
  halves, lookups over a packed table, and the writer of a memory trie into
  one.
- `hamt::segment`, `hamt::trie::flat`, `hamt::trie::segment`: a single-level
  trie written to and read from a byte segment.
- `iroh_db::base`, `reader`, `client`: entity, attribute and transaction
  types and the error types.

Every function under `src/` is verified; the one trusted item is a wrapper of
`Rc::clone`. Tests under `tests/` run the library on concrete values.
