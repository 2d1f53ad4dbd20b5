# threes

The rules of [Threes!](https://threesgame.com) as a verified library, with a terminal front end:
a `1` and a `2` merge into a `3`, and from there on equal tiles merge.

- `src/` is the library. Every function in it has a contract that Verus proves: the board and its
  pushes, the draw of the tiles and the forecast of the bonus tiles, the game and the outcomes
  that a move can have, the alpha-beta search with its cache and its budget, the bots, the log
  texts, the pictures of a game, and the course of a sitting at the terminal.
- `tests/` runs the library.
- `app/` is the program around it: arguments, keys, the screen, log files, clocks and threads, and
  the evaluation of positions, which uses floating-point numbers.

## How the library is laid out

| Module | What it holds |
| --- | --- |
| `board`, `board_laws` | ranks and faces, lines, pushes, the board |
| `dice`, `draw`, `tile` | the random stream, the deck and the bonus cycle, the next tile |
| `probability`, `forecast` | exact fractions, the chances of the coming bonus tiles |
| `game`, `game_laws` | games, moves, snapshots, previews |
| `eval`, `plan` | what a board is worth in whole numbers, plans |
| `ranking`, `cache`, `budget`, `search`, `search_laws`, `bot` | the search and the bots |
| `text`, `logging`, `tui`, `screen` | texts, log entries, labels, pictures |
| `session` | what happens next at the terminal |

A type that changes has a model, such as `GameModel` for `Game`, and the contracts say how one
model leads to the next. The modules with `laws` in their names, and the public proof functions
elsewhere, state what holds across several functions: that a push keeps the sum of the faces, that
the forecast never errs, that exactly one previewed outcome shows the tile that a move brings,
that a seed and the moves fix a game, and more.

Scores of a search are whole numbers that order positions as the floating-point values of the
evaluation do. The search asks for them through the functions of a `Judge`. Its contract says
exactly what it returns for every judge that gives the same score to the same question. The stop
signal may be a clock, which answers as it likes: there are answers that it can have given, one to
each poll, with which the search comes to just this result. For any judge at all the contract says
that the move is legal, that neither the node limit nor the depth is exceeded, that the reported
scores lie within the bounds of the scores that the judge gives, and what comes out where nothing
is searched.

What the proofs rest on without proof is stated where it is used: the ChaCha stream of
`rand_chacha` with `gen_range`, `shuffle` and `choose` of `rand` (`dice`), the clock (`game`), and
`String::push` (`text`).

## Playing

Arrow keys, `wasd` or `hjkl` move; `q` quits; `r` restarts.

- `threes` plays by hand, `--bot-opponent ab` beside a bot.
- `threes --bot ab --ab-depth 4` watches a bot.
- `--seed` makes a game reproducible; `--log-json` and `--log-text` write logs.
