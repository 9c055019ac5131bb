# velotype

The editing rules of a Markdown editor that shows a document as blocks, verified
with Verus.

- `src/` is the library. It reads Markdown into blocks, edits them, and keeps the
  undo history, the search bar, tables, menus, dropped files and the state of the
  window. Every function states in its contract what it returns or changes.
- `app/` is what stands around it: sizes in pixels, files, and the order in which a
  front end's events and frames go through the library.
- `tests/` runs the library on documents and events.

Where to start in `src/`:

| module | what it holds |
| --- | --- |
| `blocks`, `editor` | blocks, the editor's state and their models |
| `text`, `grammar`, `markup`, `table_syntax`, `regions` | what single lines and runs of lines are |
| `import_model`, `importer`, `import_laws` | from Markdown to blocks |
| `document`, `structure`, `quotes`, `newline`, `cells`, `paste`, `images`, `kinds` | what edits do to the document |
| `events`, `event_laws`, `motion_laws` | which edit an event of a block makes |
| `table_data`, `tables`, `table_edit`, `targets`, `cell_laws`, `table_laws` | tables and their cells |
| `history`, `restore`, `undo_laws` | undo and redo |
| `search` | the search bar |
| `focus`, `keys`, `window`, `rows`, `menu_bar` | what a frame does and shows |
| `context_menu`, `menus`, `file_drop` | menus, dialogs and dropped files |

The models of the state are values such as `EditorView`; contracts say which model
an operation leads to. Statements that hold of several operations are public proof
functions, named after what they say.
