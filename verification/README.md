# review_ui

The layout, text and navigation logic of a terminal code-review interface,
written in Verus and proved against its contracts.

- `src/` is the verified library. Each module states its behaviour in
  `requires`/`ensures` over spec functions, and the laws that relate several
  operations are public proof functions named `law_*`:
  - `presentation`, `presentation_laws`: the rows of a file diff, gaps that
    expand and contract, the whole-file view, search and line lookup.
  - `wrap`: wrapping a rendered row into the pane and the viewport built
    from the wrapped rows.
  - `file_tree`, `files`, `header`, `footer`, `help`, `layout`, `app`: the
    file tree, the rows of the files pane, the header summary, footer
    targets, popups and pane geometry.
  - `routing`: which component receives pointer input and which one has
    the keyboard focus.
  - `keymap`: what a key asks for in each mode, with its prefix keys.
  - `moves`, `ordering`, `navigation`, `review_file`, `session`: search
    and guide jumps, the next file to review, guide numbering, the
    back/forward history, the state of one reviewed file, and the files of
    a review with the selected one.
  - `guide_layout`: where guide comments are framed around the diff rows.
  - `motion`, `text`, `render`, `diff`, `columns`: column and word
    motion, text helpers, shortening, code spans and line numbers, and how
    display columns and byte columns of a line correspond.
  - `language`: what the review does with each event of its language
    server.
  - `review`: the review as one state machine over the messages of the
    repository, the review-state writer, the output target and the
    language server.
  - `syntax`, `highlight`, `unicode`: syntax highlighting through syntect
    and two-face, and grapheme and width queries through
    unicode-segmentation and unicode-width, each call behind a small
    trusted wrapper whose contract names what the crate computes.
- `tests/` runs the library on concrete values.
- `app/` converts between the library's values and ratatui's and assembles
  ratatui lines from the library's layouts.
