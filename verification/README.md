# rusty

The rules engine of a collectible card game played in lobbies: players join
a lobby, pick a deck and get ready; the game deals hands, starts turns and
decides each step of a turn's twelve phases and of priority, carries out
card and player actions, resolving the stack of waiting actions (with a
bound on how many it carries out), combat, effects and abilities that a
player is asked to use, and shows each player what they may see.

Every operation of the library carries a contract that states what it does,
and proof functions state the laws that relate operations (stats added and
removed, mana paid, effects applied and cleaned up, the turn's cycle,
abilities answered once).

Layout:

- `src/` — the library. `game.rs` holds the table and its lookups,
  `execute.rs` the card and player actions, `checks.rs` and
  `combat_check.rs` the tests of when they can be carried out, `stack.rs`
  the resolution of the stack, `removal.rs` destruction and
  exile, `fight.rs` and `combat.rs` combat, `flow.rs` the turn and priority
  decisions, `abilities.rs` the abilities waiting on an answer,
  `ossification.rs` that card's enter ability, `reset.rs` a card reset to
  its pristine copy, `additional.rs` further abilities a card asks its owner
  to use, `lobby.rs`, `views.rs` and
  `public_info.rs` what clients are shown, `render.rs` the text boards,
  `deck_info.rs` a deck's make-up, `slot_machine.rs` the minigame, and
  `rng.rs` the draws from the random generator and the id generators.
- `tests/` — tests of the library on concrete values.
- `app/` — a command-line run of a lobby through to the first turn.
