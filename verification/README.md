# liwinux

Keyboard and mouse for Android games on Linux, with the tools around it:
profiles, a supervised session, and reports on stutters, video and latency.

- `src/` is the library. Everything in it is verified with Verus: the mapping
  engine and its finger pool, the runner that decides when keys reach the game,
  profile files and how a save changes them, the window and session supervision,
  the privileged helper's parsing, and the text of every report. Each public
  function states what it returns; the `law_` proof functions state what holds
  across several of them.
- `app/` is the program around it: the command line, the two bus services, the
  touch pipe, the devices and the profile editor's web server. Floating-point
  arithmetic lives here too; the library takes the finished figures.
- `tests/` runs the library with the real outside crates.

Positions and speeds reach the library as the bits of single-precision numbers,
which it compares but never computes with. Documents, pictures and JSON are read
by `toml_edit`, `image` and `serde_json` through small wrappers; what is taken on
trust about each call stands above its wrapper.
