# diplomacygm

Game state and map reading for a Discord bot that runs Diplomacy variants,
with the logic proved correct by Verus.

- `src/` — the verified library: phases, provinces, boards and the game
  manager; the map configuration (JSON) and the map's SVG drawing read into
  province descriptions (layers, paths, transforms, adjacencies, overrides);
  the bot's permission rules, fishing and bumble games, and reply cutting.
  Laws that relate several operations are stated as public proof functions
  (see `map_laws.rs`, `phase.rs`, `manager.rs`, `board.rs`, `text.rs`).
- `tests/` — tests of the library on concrete values.
- `app/` — the program around it: file reading, the floating-point geometry
  of the drawing (outlines, unit positions, border distances with GEOS), and
  the Discord commands.
