# game_server

The game logic of a small multiplayer world run as a SpacetimeDB module:
player inventories, trading between players, sign-in state, resource
harvesting, creature scheduling and the choice of terrain chunks to generate.
The logic is written in Verus and proved against its contracts.

## Layout

- `src/` — the verified library.
  - `table.rs`: a table of rows keyed by a unique `u64`, seen as a map.
  - `components.rs`: the row types (players, logins, animations, creatures,
    resources, trade sessions, active trades, server globals, chat lines).
  - `inventory.rs`: pockets and inventories (one pocket per slot, each with a
    positive count); storing, removing and adding items, with the item totals
    they keep.
  - `world.rs`: every table the game reads or writes, with row-level reads and
    writes that keep the world well formed.
  - `player_actions.rs`, `trade.rs`, `npcs.rs`, `chunks.rs`: the game's
    requests. Each states its outcome as a function of the world before it; a
    refused request leaves the world as it was, as the database rolls a failed
    request back. Each request that must find rows comes with a check that
    tells whether it can run.
  - `laws.rs`, `trade_laws.rs`: properties that span requests. Moving items
    between slots or inventories neither creates nor destroys them; a
    successful trade hands each side's offer to the other when both have room,
    and otherwise each offer goes back to its maker (a pocket that finds no
    room is lost); taking back an offered pocket undoes offering it; closing a
    trade removes every trace of it; signing out ends a player's trade; trade
    sessions and active-trade markers keep pointing at each other; harvesting
    keeps every stored resource alive. `chunks.rs` shows that, while players
    stay put, as many passes as it takes to generate the missing chunks 20 at
    a time generate all of them, after which passes generate nothing.
  - `platform.rs`: the calls into `spacetimedb` (identity comparison) and
    `rand` (integer draws), with the contracts they are trusted to meet.
- `app/` — the SpacetimeDB module itself: table definitions, reducers,
  scheduling, and the floating-point geometry of positions and rotations. Each
  reducer loads the tables into a `World`, checks that the verified call can
  run, calls it and writes back the rows it changed.
- `tests/` — tests of the library on concrete worlds.
