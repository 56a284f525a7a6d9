# limusic

The verified core of a desktop YouTube Music client: response parsing, the local music library,
the loopback audio proxy's request logic, playlist and account edits, the player's deck decisions
and the app's settings rules, each with a Verus contract.

- `src/` is the library. Every function in it is verified; the few calls into std or outside
  crates that Verus cannot read sit behind small trusted wrappers whose doc comments say what is
  assumed of them.
- `tests/` runs the library on concrete values.
- `app/` is a small command-line front end: it reads folders and saved responses from disk and
  prints what the library makes of them.
