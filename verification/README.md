# kerbin

The core of the kerbin text editor as a Verus library: the text buffer with its
edits, undo and redo; extmarks and how edits move them; the drawing of a buffer's
lines and viewport; cursor motions and buffer commands; the layout solver; the
command language and command-line parsing; the plugin manifest and the generated
config crate; the versions offered for install; themes, key bindings, dialogues,
split panes; the configuration, palette, register and `if`/`then` commands. The
functions in `src/` are verified against their contracts, but for the trusted
wrappers below; the laws the library keeps are public proof functions.

- `src/` — the verified library. Calls into `ropey`, `unicode-segmentation`,
  `unicode-width` and `regex-cursor`, and into the parts of `std` that Verus does
  not specify (case mapping, `Debug` of a `str`, the clock), go through small
  trusted wrappers whose contracts state what their documentation says.
- `tests/` — tests of the library on concrete values.
- `app/` — the config-crate generator program: argument handling, file reading and
  writing, resolving paths on disk, and running `git ls-remote` to list versions.
