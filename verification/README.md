# roguelike

A small roguelike's game logic as a verified library, with the game program
around it.

- `src/` — the library, verified with Verus:
  - `rect.rs`: rectangles (rooms), overlap and center.
  - `map.rs`: the 80×50 tile map, index arithmetic, room and corridor carving,
    random room generation and the test map.
  - `draw.rs`: the calls that draw the map, with bracket-lib's colours.
  - `dice.rs`: the random number generator of bracket-lib, behind contracts.
  - `components.rs`: entity data (position, field of view, markers, names).
  - `visibility_system.rs`: updating fields of view and what the player has seen.
  - `enemy_ai_system.rs`: what a monster does and how it follows a path.
  - `player.rs`: keys and player movement.
  - `game.rs`: the per-frame decision of running systems or reading input.
  - `spawn.rs`: monster kinds.
  - `laws.rs`: properties spanning several functions.
- `app/` — the program: terminal, entity world, path finding and field of view
  from bracket-lib, drawing.
- `tests/` — tests of the library.
