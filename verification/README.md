# orrun

The rules of a small role-playing world, each stated as a contract and proved with
Verus: the continent atlas, combat, key bindings and authored game data.

- `src/atlas` - the kilometre atlas: packed cells, drainage, rivers, lakes, landmass,
  population, settlements, roads, hydrology links, outlines and the checks a finished
  atlas passes.
- `src/combat` - formulas, sheets, the tenth-of-a-second fight and its published
  scenarios, the live world with its arena, target locks, hostile minds, the player's
  actions and the world clock.
- `src/controls.rs` - key bindings.
- `src/gamedata` - authored data: the raw records, every way they can be refused, and
  the typed data that is left.
- `src/args.rs`, `src/playtest.rs`, `src/hamlet.rs` - command lines, the scripted run of
  the player's actions, the hamlet's colours.
- `src/measure.rs`, `src/rounding.rs`, `src/text.rs`, `src/rng.rs` - numbers by their bits,
  integers rounded as floats and doubles are, strings, and the seeded generator.

Quantities of combat are integers in parts of 2^60 that round as doubles do
(`src/combat/number.rs`, `src/combat/product.rs`); the costs of roads, the weights of
sites and the shares of an atlas round as floats do (`src/rounding.rs`). Nothing in `src` uses floating point: where a rule needs a
score from it, the rule takes the rank of the score.

`app` holds the combat simulator's command line, the reading of game data from XML, and
the floating-point half of the atlas (noise, slopes, curves), which hands the library
plain values. `tests` holds the tests.
