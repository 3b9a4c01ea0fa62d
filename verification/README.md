# git_graph interactive viewer

A full-screen, scrollable and searchable view of a text graph whose lines carry
ANSI colors, with vim-style keys: `hjkl` and the arrow keys scroll, `gg`/`G`
go to the top and the end, `/` and `?` search forward and backward, `n` and
`N` repeat the search, `q` quits.

- `src/` is the library, written in Verus with its contracts and proofs:
  `ansi` (escape sequences and visible text), `width` (terminal columns of a
  character), `window` (horizontal windows of a line, padding), `search`
  (smart-case search, matches, the next matching line), `viewer` (the state of
  the view and how keys change it), `render` (the rows and the status line),
  `text` (string helpers).
- `app/` drives the terminal with crossterm: raw mode, the alternate screen,
  drawing, and reading key presses.
- `tests/` runs the library on concrete values.
