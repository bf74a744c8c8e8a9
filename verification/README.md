# ratatui_layout

Verified building blocks of a terminal UI layout engine, written in Verus.

- `src/rect.rs`: rectangles and margins (clipped construction, edges, inner area, union,
  intersection) and the laws relating them.
- `src/constraint.rs`: sizing constraints and how much of a length each one gives.
- `src/layout.rs`: layouts (direction, margins, constraints) and the plan for splitting an area.
- `src/split.rs`: the linear requirements handed to a constraint solver, and the placement of
  the solver's positions as rectangles.
- `app/lib.rs`: runs the cassowary solver on a plan (its interface is floating point) and
  caches the results per thread.
