# SigilSmith

A mod manager for Baldur's Gate 3 whose rules are verified with Verus. It keeps a
library of mods and profiles, imports packages and archives, ranks the load order,
finds conflicts between loose files, and brings a profile into the game by links and
a new `modsettings.lsx`.

## Layout

- `src/` is the library. Every decision is here, with its contract: the library and
  its profiles, the reading of packages and of their metadata, the plan of an import
  or a deployment, the smart ranking, the dialogs and tables of the interface, and
  the command line. Functions that need the disk, the clock or a running task take
  what was read as plain values and return what is to be done. Properties of several
  functions together are public proof functions named `law_..`.
- `app/` is the program around it: it reads and writes files, unpacks archives,
  makes links and carries out what the library decides.
- `tests/` runs the library on concrete values.

Calls into other crates (XML, JSON, compression, hashing, dates, packages) stand in
`src/` behind small functions whose contracts are believed; each says in its comment
what it claims of the crate.
