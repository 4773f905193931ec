# paleta

A library for keeping palettes of colours, verified with Verus, and a small
command-line program around it.

`src/` (verified):

- `text`, `util`: decimal and hexadecimal text; a colour's `#RRGGBB` and
  `rgb(r,g,b)` names.
- `color`, `extracted_color`, `palette`: colours, colours taken from an image,
  and palettes that hold colours in the order they were added.
- `model`: every colour and palette of the database, keyed by id, filled from
  the rows of the three tables; each palette gets its colours in junction
  order.
- `sql`: the statements of the SQLite database (colours, palettes, and the
  junction table between them).
- `transaction`: each write operation as a session that issues one request at
  a time (begin, query, insert, execute, commit) and decides from each reply
  what comes next: colours and links are reused rather than duplicated,
  unlinked rows are pruned, and an operation succeeds only when its commit
  does.
- `toasts`: the markup of the notifications and the names offered for new
  palettes.

`app/main.rs` opens the database, performs the sessions' requests with
`rusqlite`, converts the alpha channel between the stored real number and the
text the library carries, and prints the model.
