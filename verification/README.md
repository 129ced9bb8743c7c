# lamberto

Interplanetary trajectory scanner: sweeps departure/arrival date grids and
solves Lambert's problem at each grid point, for pork-chop plots and
trajectory catalogs.

## Layout

- `src/` — the verified library (Verus):
  - `bodies` — planet names and NAIF barycenter IDs to anise frames;
  - `epoch` — epoch strings to nanoseconds in their time scale;
  - `grid` — the date grid of one sweep axis;
  - `scan` — sweep preparation, the per-point pipeline over the grid, the
    sweep's bookkeeping and best-solution selection;
  - `transfer` — transfer direction and type labels;
  - `text` — decimal rendering of integers;
  - `error` — the error type and its messages.
- `app/` — the command-line program: configuration loading (YAML), the
  ephemeris, the floating-point geometry and Lambert solve handed to the
  library's sweep, and the CSV/YAML output.
- `tests/` — tests of the library.

Each window epoch is read as nanoseconds in its own time scale. When all
four window epochs of a sweep share a time scale, the grid is stepped in
that scale; when they mix scales, all four are taken to TDB and the grid is
stepped there.

The program starts every almanac from the DE440 excerpt
`assets/de440-shorter.bsp`, read beside the executable or else from the
working directory, and adds the
SPK file that the configuration names.
