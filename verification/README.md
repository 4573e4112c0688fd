# zerostack_ui

The rules of a terminal interface for a coding assistant, verified with Verus:
how a conversation is laid out, painted, scrolled and marked, how a line that
the user submits is routed, and how a turn of the agent begins, goes on and ends.

- `src/` is the verified library. Text is specified as a sequence of characters,
  a frame as a list of drawing operations, and what a rule decides as a list of
  steps.
  - Layout: `width`, `wrap`, `table`, `markup`, `markdown`, `feed`, `urls`.
  - Screen: `draw`, `statusline`, `bottom`, `renderer`, `screen`, `display`,
    `terminal`, `clipboard`.
  - Input: `keys`, `pickers`, `submit`, `control`.
  - Conversation: `session`, `events`, `prompts`, `steps`, `turn`, `flow`,
    `commands`, `merging`, `slash`, `interactive`, `startup`, `help`, `clock`.
- `app/` is the program around it: it reads the keyboard, paints, runs other
  programs, and takes the steps that the library decides on.
- `tests/` runs the library on given values.

The calls into chrono, compact_str, pulldown_cmark, regex and smallvec stand
behind functions marked `external_body`, whose comments say what is relied on.
