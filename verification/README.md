# Mini Shogi

A 5x6 shogi variant for a human and a computer player.

- `src/` is the verified library: the pieces and how they move
  (`piece`), the game with its move generation, moves, captures, drops,
  promotions and outcome (`game`), a coordinate grid (`board`), player actions
  and their undo (`action`), the three computer players (`ai_minimax`,
  `ai_random`, `ai_monte_carlo`, chosen in `ai`), when search progress is sent
  (`ai_sender`), the principal variation as text (`progress_text`), and the
  flow of a game between clicks, turns and search results (`controller`).
- `tests/` runs the library on concrete positions.
- `app/` is the program around it: the macroquad window, drawing, mouse input,
  the search thread and the progress line.
