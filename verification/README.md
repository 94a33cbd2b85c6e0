# wisp

The rules of a networked spell-casting game, written in Verus and proved.

- `src/` is the library. Every function in it has a contract that says what it
  returns or changes, and Verus proves it. What holds of several functions
  together stands as public proof functions named `law_…`.
- `app/` is the program around it: a server, a client and an observer that plays
  scripts. It has the physics engine, the files and the network, asks the library
  what to do, and does it. It draws nothing.
- `tests/` runs the library on given values.

## How the library counts

Numbers are `Scalar`s: 32-bit floating point numbers, held as their bits, and added,
multiplied, divided and rooted with integer arithmetic (`scalar.rs`,
`rounding.rs`). Each operation is proved to give the representable number nearest
to the exact result. Sines, cosines and their inverses are left to the program,
which hands them in.

Vectors and rotations (`vector.rs`) are made of them. Things in the world are named
by `Entity`, and what a spell needs to know of them is handed in as lists.

Where a law holds but for rounding, it says by how much: `closeness.rs` sets results
against exact real numbers, `turning.rs` does so for rotations, and `frames.rs` and
`facing.rs` for rotations made to look along a direction.

## Where things are

- `net/`: what peers tell each other, and what the server makes of it: players,
  lanterns, beams, bodies and portals.
- `spells/`: definitions and their catalog, the cast engine, what casts deliver and
  effect, damage, child casts, and each spell.
- `player/`: characters, how they move, what they wear and how they are seen.
- `magic.rs` and `spatial.rs`: the lens, the iris and the portals of the game for
  one.
- `observer.rs`: scripts.
- `trace.rs`: lines of JSON that tell what happens, through `serde_json`. Its few
  trusted functions are the only ones that are not proved.
