# gomoku

A Gomoku engine for the Ninuki-renju rules (19x19 board, five in a row wins,
pairs are captured by flanking them, ten captured stones win, a double-three
is forbidden), written in Verus and verified.

Layout:

- `src/board`: bitboards, positions, the board with its capture counts.
- `src/rules`: captures, forbidden double-threes, fives and whether a capture
  can break them, the winner.
- `src/eval`: pattern scores and the static evaluation.
- `src/search`: Zobrist hashing, the transposition tables, move ordering,
  VCF/VCT threat search, and the alpha-beta search with iterative deepening.
- `src/engine.rs`: the engine that picks a move (opening book, immediate
  wins, forced blocks, threat search, alpha-beta).
- `src/ui`: the game as the front end plays it: turns, opening rules, wins,
  undo/redo, review, and the decisions around the AI's moves.
- `app/`: the egui front end (window, drawing, input, the AI thread).
- `tests/`: tests of the library.
