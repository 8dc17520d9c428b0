# spellman

Cyrillic-optimized language detection (30 classes). This crate is the
verified core: every function under `src/` carries a Verus contract, and
the properties the detector relies on are stated and proved as lemmas
next to the code they are about.

- `src/language.rs` — the language inventory, codes, names, scripts.
- `src/features.rs` — word classification, lowercasing, the rolling n-gram
  packer and signed buckets.
- `src/hash.rs` — the three feature-hash mixers, buckets and signs.
- `src/route.rs` — script routing ahead of any model.
- `src/sent.rs` — sentence splitting, short-piece gluing and the markdown
  sentence sweep.
- `src/model.rs` — the metadata contract of a model artifact.
- `src/batch.rs` — plan ladders, chunk schedules, gather indices.
- `src/widen.rs` — exact binary16 / FP8 E4M3 to binary32 widening.
- `src/eval.rs`, `src/compare.rs` — eval-file parsing, fragments,
  tallies, the seeded balanced sampler, third-party answers.
- `src/hub.rs` — Hub reference strings.

`app/` is the command-line program around the library (`detect`, `eval`,
`bench`, `assess`, `lid-bench`): file and Hub I/O, the compiled scoring
plans, floating-point pooling and softmax, and report printing.
