# dieselrogue

The verified core of DieselRogue, a diesel-punk roguelike with an ASCII
terminal UI. The functions under `src/` carry contracts that Verus proves,
except a handful of small wrappers around calls into outside crates (the
random number generator, the line and glyph tables of the terminal library,
gzip compression and JSON parsing), whose contracts are trusted and say in
their doc comments what is claimed of the outside code. `app/` holds the
command line around the library (the game window, writing the generated map
blocks, converting pictures to REXPaint images).

## Layout

- `geom`, `tile`, `map`: tile positions and directions, tile kinds, the tile
  map and its queries (blocking, sight, nearest free tile, exits).
- `block`, `gen_blocks`, `wfc`, `grid`: map blocks, their rotations and
  mirrors, the catalogue of generated blocks, and the wave-function-collapse
  layout of a grid of blocks.
- `spawn`: map analysis for spawning — regions, spawn points, zones and the
  doors between them, zone depths, reachability behind locked doors, tank
  spawns.
- `population`, `keys`, `guards`: where loot, door locks, keys, sentinels and
  patrollers go.
- `ai`, `tank_ai_system`, `enemy_ai_system`, `step`, `viewshed`: actor
  perception, alertness and decisions, the enemy turn, what a step turns
  into, and what an entity sees.
- `input`, `firearm`: the main screen's keys, free-look and target picking;
  firing a gun (single shot, burst, rocket, fan) and melee strikes.
- `body`, `animation`: body slots and equipping, animation timing.
- `pathfinding`, `rex`, `settings`, `sprite`, `ability`, `intent`,
  `components`, `error`, `state`, `rng`: routes, the `.xp` image format,
  settings, glyphs, abilities, action phases and small shared types.

Random draws go through the terminal library's generator; the contracts say
what holds whatever is drawn, and the loot pass can also be run on draws
given in advance (`loot_from_draws`), with the same outcome for the same
draws.
