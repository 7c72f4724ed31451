# mousai

The core of a music recogniser, verified with Verus.

- `src/recognizer/`: recordings that wait to be recognised. A recording (`recording.rs`) is
  shared, so all recordings are held in one place (`objects.rs`) and referred to by number.
  `recordings.rs` is the list of the saved ones, on top of the ordered map of the `indexmap`
  crate (`index_map.rs`); what it does is stated over sequences of entries (`entries.rs`). The
  list does no input or output: it says what has to be written to the database and which changes
  its observers have to hear of. `laws.rs` proves that list and database stay in step and that
  observers are told the truth.
- `src/window/`: what the main window shows, as a state and the actions that follow from each
  event, with laws on what is shown once the actions were performed.
- `src/db.rs`: the options of the database, and its writes with their effect.
- `app/`: the database on disk (LMDB, through `heed`) and the widgets (GTK).
- `tests/`: tests of the library.
