# DodgeRoyale

A top-down dodging game on a wrapping world, its headless arena, and the batch
environment that a trainer drives over a binary protocol.

`src/` is the verified library: the rules of the game and the formats it speaks,
each with a contract that Verus proves. `app/` is the program around it: the
window, the threads, the streams, the database and all floating-point
arithmetic. `tests/` runs the library on concrete values.

## The library

| Module | What it holds |
| --- | --- |
| `bits` | Floating-point numbers as bit patterns: order, sign and finiteness |
| `collision`, `enemy`, `enemy_types` | Hitboxes, pursuit, walls, contacts and blasts |
| `enemy_population` | Which enemies are wanted, and where one may be placed |
| `simulation` | Episodes, actions, views of the world and predicted paths |
| `observation` | The encoder that turns a frame into the numbers a policy reads |
| `gym` | The wire protocol, the batch of arenas and the session |
| `rng`, `mixing` | Seeds and the streams derived from them |
| `game` | Menus, settings, texts, the floor and the wipe between screens |
| `art`, `glyphs`, `scale`, `settings`, `motion`, `shatter` | Palette, font, sizes and tuning |
| `compute`, `model`, `native` | Scoring a round, its records, and the command line |
| `identities`, `ranked`, `text` | Ordered identities, stable ordering, and decimal text |

Coordinates, speeds and times cross the border as the bit patterns of 32-bit
floating-point numbers. The library compares, orders, negates and clamps them;
sums, roots and curves are computed by the program and handed in.

What the library takes on trust is small and marked: drawing from `fastrand`, and
running a map on a `rayon` pool.

## Running

The program needs no database. Where `DATABASE_URL` is set it connects at
startup, and applies the SQL files of a `migrations` directory that is deployed
beside it. `gym` serves arenas over stdin and stdout, and
`--headless` plays one episode without a window.

The manifest enables the parts of Bevy that hold the world, its sprites and its
screens. A build that opens a window also enables Bevy's `bevy_winit`,
`bevy_sprite_render` and `bevy_core_pipeline`, and a backend such as `x11`.
