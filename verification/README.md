# mattis

A UCI chess engine whose engine logic is a library verified with Verus.

- `src/` — the verified library: bitboards and square types, move encodings,
  attack tables, the board (FEN reading and writing, move generation, making and
  taking back moves, Zobrist keys), perft, evaluation, the transposition tables,
  the alpha-beta search with quiescence search and iterative deepening, move
  notation, UCI message parsing and formatting, the time manager, and the search
  for magic numbers.
- `tests/` — tests of the library.
- `app/` — the executable: command line, the UCI loop on standard input, the
  search thread, and the perft test suite runner.
