# rusty_rook

A chess engine that speaks the UCI protocol. The rules of chess that the engine needs live in
the library under `src/`, where every function carries a contract that Verus proves:

- `board/`: bitboards, the position (`Chessboard`), moving pieces, castling, en passant,
  promotion and reading FEN strings.
- `figures/`: the moves and threats of each kind of piece.
- `engine/`: the generation of the moves of a position (checks, pins, moves that stop a
  check), counting positions to a given depth, move notation and the hashing of positions.
- `helper/`: the rays and target squares of every square, magic bitboards (the predefined
  magic factors, the attack tables they index, and the check that a candidate factor works),
  the opening book's line format.
- `evaluation/`: the integer parts of the evaluation (where the king stands, mirrored squares).
- `uci.rs`: reading UCI commands: values of parameters, the time for a move, replaying the
  moves of a `position` command.

Laws that span several functions stand as public proof functions whose names start with
`law_`.

`app/` is the program around the library: the UCI loop, the search (which rates positions in
floating point and runs on several threads), the transposition table, the opening book file and
the search for new magic factors.

`tests/` holds the tests, run against the compiled library.
