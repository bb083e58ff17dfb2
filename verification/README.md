# snake

A snake game for the terminal and the browser, written as a verified library
with a thin program around it.

- `src/` holds the game, proved with Verus: the board geometry
  (`grid_geometry`), the walled grid (`grid`), the snake and its moves
  (`snake`), the rules of a tick (`game`), the half-block frame renderer with
  its byte-exact output and minimal redraws (`renderer`, `ansi`), the key
  mapping (`terminal`), the decisions of an interactive session (`cli`) and the
  browser-facing game (`web`). Random draws go through `random`, whose two
  functions call the `rand` crate.
- `app/` is the terminal program: raw mode, reading keys with `crossterm`,
  writing the renderer's bytes to the screen and pacing the ticks; and the
  `wasm_bindgen` front of the browser game.
- `tests/` runs the library on concrete boards.

Controls in the terminal: arrow keys move, space pauses and resumes, escape quits.
