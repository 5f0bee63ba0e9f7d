# cfd

A 2D axisymmetric compressible-flow sandbox: draw a wall or dial in a rocket nozzle,
rasterize it into a solid volume-fraction field, run a finite-volume solver over it and
record what was measured.

`src/` is the verified library. It takes every decision and keeps every index, counter,
text and record; its contracts say which formula is applied to which values, in which
order, and what is done with the result. A measured value is a `Scalar`, the bit pattern
of a double: comparing, clamping and classifying values is verified on the patterns, and
the arithmetic itself, with the guards inside a formula, is named by the `*Math` traits.

`app/` holds what the library cannot: the arithmetic of those traits in the machine's
floating point, a few plain formulas, the error type with its conversions, the messages
that a run prints about its start and its sponge, and the files and commands behind the
recording of results.

`tests/` runs the library on concrete values.

| modules | subject |
|---|---|
| `scalar`, `text`, `calendar`, `json`, `error`, `parallel` | values, text, dates, errors, threads |
| `grid`, `padded`, `walk`, `bodies`, `field`, `setup` | cells, ghost bands, neighbours, connected bodies, options |
| `flow`, `riemann`, `sweep`, `update`, `stage`, `ghosts`, `sensor` | fluxes, reconstruction, stages, boundaries, shock sensor and sponge |
| `mach`, `nozzle`, `refill`, `monitor`, `report`, `forces`, `snapshot` | starting field, geometry edits, convergence, figures, display |
| `solver`, `euler`, `mock` | the solver's interface and its two implementations |
| `profile`, `contour`, `rao`, `curve`, `tessellate`, `handles` | walls, nozzle contours, handles to drag |
| `editor`, `freeform`, `raster`, `grade` | drawing, rasterizing, graded grids |
| `results`, `machine` | result records, labels, the lock on them |

Trusted are `parallel::par_collect`, which hands rows out through `rayon`, and the contract
of `String::push`.
