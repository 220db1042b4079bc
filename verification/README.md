# yamlette

A YAML library whose logic is verified with Verus: the models of the core
schema (null, bool, int, float, str, timestamp, binary, merge, value, yaml,
map, seq, omap and the yamlette literal and incognitum models), the
renderer and ropes that text is written with, the styles, the conductor's
bookkeeping of volumes and records, the performer's decisions, the composer
and the book of read values with its extractor.

## Layout

- `src/` — the verified library. Every function states its behaviour in
  `requires`/`ensures`; the round-trip laws of the scalar models (what
  decoding gives back of an encoding) stand as public proof functions
  beside them.
- `tests/` — tests of the library on concrete values.
- `app/` — the orchestra: a conductor thread that takes values and hints
  through a channel, drives the library's step functions (`take_hint`,
  `take_value`, `next_gesture`, `play_note`, `play_chord`, `play_style`,
  `play_to_volume`, `render_music`) and hands the text out.

## What is not here

The YAML reader (the tokenizer and the reader that builds nodes, layers,
block scalars and block mappings from its tokens) is not part of this
crate. It is written against a tokenizer module, the `txt` text library and
a rune, symbol and scanner API of `skimmer`; none of these is available to
this crate, whose `skimmer` dependency (0.0.3) offers readers, data chunks
and the marker type but no runes, symbols or scanner.
`src/reader.rs` holds the reader's nodes, errors and context, and the
marker type that values read from a document carry.

Collections of other containers (`VecDeque`, `LinkedList`, `BinaryHeap`,
hash and tree maps and sets) are played through `Vec`-based chords only,
and the schema is the concrete core schema rather than an open trait.
