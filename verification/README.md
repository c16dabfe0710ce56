# kiorg (verified core)

The decision logic of the kiorg file manager and of its file chooser
portal, written in Verus with its contracts proved.

- `src/visit_history.rs`: the global visit history, its `history.csv`
  encoding and decoding, and the proof that what is written is read back.
- `src/tab.rs`: a tab's entries, filtered view, selection, marks, range
  selection and navigation history.
- `src/app.rs`: the window's state and what each user action does to it
  (selection, clipboard, rename, drag and drop, navigation, picker mode),
  the start directory, and the saved state.
- `src/portal.rs`: how the portal runs kiorg in picker mode and turns its
  result file into the portal's answer.
- `src/paths.rs`, `src/text.rs`: path joining and trimming, decimal
  numbers, line splitting.
- `app/`: the program around the library: command line, file system,
  directory watcher, serde copies of the saved state, and the D-Bus portal.
