# wrapt

A faster, prettier front-end for `apt`. wrapt wraps `apt` and `dpkg`: it shows a
clean plan, downloads packages in parallel, keeps a history that can be undone,
and explains what apt's own messages leave unclear.

The rules of the program form a library that is verified with Verus. Each
function states what it returns for every input, over plain mathematical values,
and Verus proves it.

## Layout

- `src/` is the verified library.
  - `text`, `number`, `order`, `names`: texts as sequences of characters, numbers
    in decimal, sorting, sets of names.
  - `version`: the order of Debian versions.
  - `apt`, `lists`, `listpkgs`: what apt and dpkg print, and apt's indexes.
  - `history`: recorded transactions, and how to undo, redo and roll back.
  - `why`, `whynot`, `resolve`: why a package is here, or cannot be.
  - `kernels`, `restart`, `doctor`: old kernels, services on replaced libraries,
    the health of the system.
  - `fetch`, `repo`: mirrors and software sources.
  - `changelog`, `cnf`, `provides`, `selfupdate`: smaller commands.
  - `config`, `cli`: settings, and what a command line asks for.
  - `install`, `transact`, `commands`: what is to be installed, the steps of a
    transaction, and the commands that start one.
  - `download`, `progress`: checking a download, and following apt at work.
  - `ui`, `report`, `json`: what is shown.
- `app/` is the program around it: processes, files, the network, the terminal.
- `tests/` runs the library on concrete values.

## What is trusted

A few functions of other crates and of the standard library are described rather
than proved: the digests of `sha2` and `md-5`, `hex`, the date format of
`chrono`, and from std letter case, lossy decoding, debug quoting and appending to
a string. Each is described in one place, whose comment says what is claimed.
