# redtail

A chess engine whose core is verified with Verus: board representation, FEN reading and
writing, move making and taking back, pseudo-legal and legal move generation, perft,
evaluation, the transposition and principal variation tables, UCI option parsing and an
alpha-beta search with quiescence.

## Layout

- `src/` is the verified library.
  - `bitboard.rs`, `utils.rs`: bit operations on 64-bit boards and the pseudorandom stream.
  - `chess/`: colors, pieces, squares, castling rights and the packed move type.
  - `board.rs` and `board/`: the position, its FEN reader (`fen.rs`) and writer (`fen_out.rs`) and the law
    that joins them (`fen_law.rs`),
    attack tables (`attacks.rs`), magic numbers (`magic.rs`), Zobrist keys (`zobrist.rs`),
    attack queries (`query.rs`) and making and taking back moves (`make.rs`).
  - `movegen.rs` and `movegen/pseudo.rs`: legal and pseudo-legal move generation, perft.
  - `search/`: evaluation terms (`eval.rs`), the search itself (`evaluate.rs`), options and
    helpers.
  - `tt.rs`, `pv.rs`: the transposition table and the principal variation table.
  - `uci.rs`: the engine state between UCI commands and the `position` command.
- `app/` is the executable around the library: the UCI loop, printing, timing of threads, and
  the benchmark.
- `tests/` holds the tests.

Public functions state their effect in their `requires` / `ensures`, as far as it does not
rest on the clock, the stop flag or the shared tables (the search's scores, for instance, are
stated for mates, stalemates, repetitions and cut-offs, bounded otherwise, and at a full node
folded from the negated results of the searches of its children, each of which keeps the same
statement); the laws that relate several functions (taking back a move restores the board, a
refused move changes nothing, the packed table data round-trips, reading back a written FEN
gives the same FEN, every pseudo-legal move is listed, and others) are public proof functions
next to the functions they are about.
