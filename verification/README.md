# rustflow

Verified core of an interactive wind-tunnel simulator: a grid-based
incompressible flow solver with obstacle voxelization and streamline display.

The library (`src/`) holds the integer and decision logic, each function with
a Verus contract:

- `lattice` — the flat `x`-fastest layout of the `w × h × d` cell lattice, its
  decomposition, and proofs that it is a bijection onto `0 .. w*h*d`.
- `grid` — lattice dimensions plus the obstacle mask: clearing, marking cells,
  seeding the default cube, counting solid cells, their bounding box.
- `stencil` — which cells each solver pass touches (inflow slab, interior
  sweep, wall/obstacle cells), the six face neighbours, the Neumann wall rule,
  and the chunking of parallel per-cell fills.
- `controls` — keyboard shortcuts, display settings, the default-cube and
  model-placement state machines, the import gate, glTF staging paths and
  wheel detection by node name.
- `mesh` — triangle assembly from a mesh index buffer.

The application (`app/`) is the Bevy program: rendering, UI, file dialogs and
copying, and all floating-point arithmetic (the solver's velocity and pressure
updates, world-space conversions, streamline tracing), calling the library for
the decisions above.
