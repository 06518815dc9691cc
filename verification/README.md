# lesserpyon

A small shogi engine: a position with attack maps that each move keeps up
to date, a generator of the moves that may be played, and a player that
picks one of them at random.  The library under `src/` is verified with
Verus; `app/` holds the game at the terminal.

Layout of `src/`:

- `koma_inf.rs`, `koma_info.rs`, `koma_moves.rs`: piece codes and how each
  piece moves.
- `te.rs`: a move.
- `kyokumen.rs`: the position, its set-up from a 9 x 9 picture, and the
  attack maps computed from the board.
- `control.rs`, `rays.rs`, `slides.rs`, `edits.rs`, `follow.rs`,
  `advance.rs`: what the attack maps hold, the edits a move makes to them,
  and why those edits keep them in agreement with the board (`move_`).
- `gen_spec.rs`, `movegen.rs`, `drops.rs`, `check.rs`, `legal.rs`,
  `ready.rs`: the move generator, move by move and in order, and a run-time
  test of what it asks of a position.
- `generated.rs`: every generated move is a move of the piece it names (or a
  drop onto an empty square), respects the pins, and can be played by
  `move_`.
- `complete.rs`: no move of the kinds the generator is meant to give is
  left out, in check or not.
- `answers.rs`: against a check, every move other than the king's takes
  or blocks the single checking piece.
- `pins.rs`: the pin table marks exactly the pieces that stand first on a
  line from their king with a slide of the other player behind them.
- `legality.rs`: no generated move leaves the mover's king reached by a
  piece of the other player.
- `distinct.rs`: no move is generated twice.
- `game.rs`: reading a typed move, checking it against the generated
  moves, and the random player.
