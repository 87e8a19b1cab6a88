# key_optimizer (verified core)

Keyboard layout heatmap tracking and layout optimisation. `src/` is the
verified library (Verus); `app/` is the program around it: the egui window,
the platform key listeners, file storage and the floating-point scoring and
annealing loop.

Library modules:

- `id`, `keyboard`, `layout`, `stats`: keys, keyboards (geometry kept as `f32`
  bit patterns), the key-to-character layout and the typing statistics.
- `mappings`: character tables derived from key labels; `session`: the state
  behind the heatmap window; `editor`: the keyboard editor's state.
- `optimize`: the integer side of the optimiser (movable keys, swap pairs)
  and its laws; `platform`: listener events and input decisions; `xkb`:
  reading the desktop's layout name.
- `assoc`, `chars`: association lists read as maps, and character
  classification.

Data layout: the key-to-character layout, the unigram counts and the bigram
counts are lists of `(key, value)` entries, each key once, in first-seen order,
not `HashMap`s. vstd describes a `HashMap` only for primitive integer and
`bool` keys, and the keys here are `KeyId`, `CharId` and pairs of `CharId`.
A map keyed by the raw integer (the key index or the code point) would be
covered, but std's default hasher is seeded anew in every process, so the
pairs handed to the letter table, the optimiser and the stats file would come
out in a different order on each run; the lists give the same order every time.
