# unit_info

Resolves the variables of a program, and the functions that contain an address, from the
debugging information (DWARF) of one of its units.

- `src/` is the library, verified with Verus.
  - `reader` reads a unit from the sections of the program with gimli; `dwarf` is what was read.
  - `functions` finds the functions that contain an address.
  - `tree`, `attributes` and `types` resolve variables from the entries of a unit; `location`,
    `evaluation` and `operations` find out where they are kept; `cache` holds them.
  - `variable` is what is known of a variable; `describe`, `names` and `text` put it into words.
  - `target` is what has been read of the target so far. Where that is not enough, the library
    says what it needs, and is asked again.
  - `frame`, `namespaces`, `depth`, `replies` and `laws` state what holds of the library as a whole.
- `app/` reads the target and asks again.
- `tests/` runs the library.
