# nv_core

The core of a Notational Velocity–style notes application, written in Verus:
notes held as plain values (id = file stem, raw content, tags found in it,
dates as unix milliseconds), ranked search, wiki links and their
autocompletion, the storage rules (newest first, names that are free both among the
notes and on disk, the trash), the desktop palettes and stylesheet, and the reading of
pywal's color files.

- `src/` is the verified library. Each module states its behaviour in
  `requires`/`ensures` over spec functions; the laws of the library are public
  proof functions next to the functions they speak of.
- `tests/` runs the library on concrete values, comparing with the outside
  crates where the behaviour is theirs (regex, fuzzy-matcher, chrono).
- `app/` is the GTK application and the file-system side of storage: it reads
  and writes files and hands the results to the library.
