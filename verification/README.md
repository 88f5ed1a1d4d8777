# tetris

A terminal Tetris game whose rules are verified with Verus.

- `src/` is the verified library:
  - `piece.rs`: the seven tetrominoes, their colours, and rotation.
  - `board.rs`: the playing field, drawing a piece onto a board, the move
    check, dropping a piece, and clearing full rows.
  - `bag.rs`: the bag of upcoming pieces and the clock-based choices that
    fill it.
  - `game.rs`: the game state and its two steps, a key press and a tick.
  - `screen.rs`: what the field and the side panels show.
- `app/` is the terminal front end (crossterm): it draws, reads keys and
  runs the loop.
- `tests/` exercises the library on concrete games.
