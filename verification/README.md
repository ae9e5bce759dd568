# zk-tui

The screen of a museum of zero-knowledge proof systems: documents and how they are laid out in
a terminal, the line where commands are typed and completed, the transcript of what happened,
the full-screen page view, and the grammar of the slash commands. Every function under `src/`
has a contract. Verus proves all of them except the few marked `external_body`, which wrap a call
into std, `unicode-width` or `pulldown-cmark` and whose contracts are trusted; `app/` is the
terminal around the library.

## Layout

- `src/strings.rs`, `src/width.rs` — characters and their terminal columns (`unicode-width`).
- `src/doc.rs`, `src/text.rs`, `src/table.rs`, `src/layout.rs` — documents, and wrapping,
  cutting, padding and tables in rows of coloured text.
- `src/markdown.rs` — markdown pages (`pulldown-cmark`) as documents.
- `src/look.rs`, `src/plain.rs` — colours and ASCII stand-ins; documents printed as plain text.
- `src/commands.rs`, `src/complete.rs`, `src/activities/` — the command grammar, its completions,
  the explanation of each mistake, and the words and numbers of the hands-on activities.
- `src/composer.rs`, `src/transcript.rs`, `src/pager.rs`, `src/screen.rs`, `src/jobs.rs` — the
  screen's state, and what keys, the mouse wheel, pasted text and running tasks do to it.
- `src/frame.rs`, `src/overlay.rs` — where the screen's parts sit, and the popup and the shortcut
  box, laid out as rows.
- `src/views.rs` — `/help`, `/examples`, `/list`, `/about`, the welcome box, caution lines, a
  run in progress or without a report, and one step of an attack on the pool as documents, from
  sentences and facts the caller gives in the reader's language.
- `app/` — environment and disk, terminal events and painting with `crossterm` and `ratatui`, and
  the numbers printed with floating point.
- `tests/` — examples on concrete values, run against the compiled library.

Laws that hold across functions are public proof functions next to the functions they relate,
for instance `up_then_down_returns_to_the_draft` in `composer.rs`, `wrap_keeps_the_text` in
`text.rs` or `push_while_scrolled_keeps_the_window` in `transcript.rs`.

Widths are measured by `unicode-width`, whose width of a string is not always the sum of its
characters' widths (a variation selector can widen the character before it). The laws on the
limits of wrapping, cutting and tables therefore come in two kinds: those that hold whatever the
widths (cutting keeps the longest start of a row whose characters fit; a table's column widths
and gaps add up to at most the width asked for; wrapping keeps every character but spaces and
line breaks), and those that hold of text whose runs are measured as the sum of their
characters' widths (`wrapped_rows_fit`, `truncated_rows_fit`, `data_table_rows_fit`). Their
premises speak only of the text given, so a caller can check them with `text::width`.

## Left out

The museum's engines are crates of their own (`zk_core`, `zk_pool`, the proof systems, the
phrase tables of `zk_i18n`) and are not part of this project's sources, so what only drives them
is not here: the activity runs (a pool run, a forge run, the ceremony and the trio), the `App`
that owns the museum and its comparisons, a run's full report (its timings are also floating
point), the pool's ledger and receipts, and the records they serialise. What decides for those
runs and can stand alone is here, taking plain values: the command grammar and requests, the
stores' paths, the activities' words and numbers, `/list`, `/about` and its facts, a run without
a report, and each step of an attack. `app/` paints the screen and reads keys; it has no entry
point of its own for the same reason.
