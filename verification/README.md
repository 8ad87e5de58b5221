# eddy

The editing core of the eddy text editor, verified with Verus.

- `src/` is the library: a buffer of text held in a rope, the selections of
  every view into it, undo history, cursor movement by graphemes, words,
  lines and pages, mouse gestures, line-ending normalisation, colors and
  themes, the coloring of a line for drawing, the tree of a project's files,
  the command a key press asks for, and the receiving end of the backend's
  responses.  Each public function
  states in its contract what it returns and changes; the laws that relate
  several functions (undoing an edit, redoing it, removing what was
  inserted, toggling a caret twice, normalising twice, merging a directory
  listing twice, receiving what was peeked, editing keeping carets on
  grapheme boundaries) are proof functions beside them.
- `app/` holds what the library leaves to its surroundings: reading and
  writing files, themes in TOML, the callbacks of the user interface, running
  a key press's command with the clipboard and the file system, the SSH
  backend thread and the workspace of views.
- `tests/` runs the library on concrete inputs.
