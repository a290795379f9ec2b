# macrocosim

A simulator of microgrid sites: grid connections, meters, batteries, solar
inverters, electric-vehicle chargers and steam boilers, wired into a graph,
ticked by a clock, commanded over two power axes, and driven by scenarios,
scripts and a sky with clouds.

- `src/` is the library, verified by Verus. It holds the physics, the rules and
  the state of a site. Floating-point numbers are bit patterns there
  (`single.rs`, `double.rs`), with every operation defined as the exact result
  rounded to the nearest number, ties to even (`ieee.rs`, `rounding.rs`). Time,
  chance and what scripts evaluate to come in as arguments.
- `tests/` runs the library, and holds its arithmetic against the machine's.
- `app/` is the rest: the Lisp interpreter, random draws and trigonometry,
  locks and listeners, the physics task, JSON and recorded files.

Names that begin with `law_` are statements about the library as a whole.
