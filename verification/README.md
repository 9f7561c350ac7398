# pfinder

A retro first-person maze shooter for the terminal. The library in `src/`
holds the game's logic with its contracts and proofs; `app/` is the
terminal program around it (input, timing, audio, the floating-point
camera, actors and ray casting).

## Library modules

- `map` — the maze: depth-first generation on a 12×12 grid of rooms, and
  the cell queries. Proved: every walkable cell is reachable from the
  start, exactly the 144 rooms and 143 passages are walkable, the border
  is solid, the exit is the far corner room, enemy starts are open rooms
  away from the start; the maze and the enemy starts are exactly those
  that the recorded draws give.
- `keys` — timer-decay key state (a key stays held three frames after its
  last event); proved hold window and release laws.
- `buffer` — the character frame buffer with clipped writes.
- `screens` — game-over and victory cards.
- `hud` — the framed status (health, rounds, time, compass, goal) and
  key-hint rows.
- `view` — wall slices, exit portal glyphs, enemy and loot sprites behind
  the depth test, crosshair, gun sprite and damage frame.
- `flush` — the differential frame update; proved to turn a terminal
  showing the previous frame (or anything at all, for a first frame) into
  one showing the new frame, and to be silent for an unchanged frame.
- `game` — key handling, round control, how a frame ends the round,
  enemy behaviour, hit points, rounds and loot.
- `text` — decimal formatting.
- `rng` — the calls into `rand`, and `Dice`, a random source that records
  its draws for the proofs.
