# lattice

Data structures of a sparse voxel 64-tree renderer, verified with Verus.

- `src/` is the library. Every function in it carries a `requires`/`ensures`
  contract that Verus proves, over mathematical models (`Seq`, `Map`, `int`)
  of the data:
  - `bits`, `bitpacked`: a growable array of values packed at a power-of-two
    bit width (1 to 32 bits), widened as larger values arrive;
  - `lattice`: the per-chunk SVO levels, grid, lookup tables, fixed-width
    packed arrays and the geometry and material DAG levels;
  - `dag`, `lattice_dag`: node levels that deduplicate nodes by content hash;
  - `material_table`, `chunk`: per-chunk tables of unique voxel values;
  - `import`: Morton codes, interior culling, RGB indices and palette lookup;
  - `format`: the static `.vox` palette and the grouping of imported voxels
    into `.vox` models and scene graph;
  - `convert`, `bench`, `load`: format detection, the benchmark generator and
    number formatting, file header records.
  Properties that relate several operations (dedup, inverse operations,
  palette round trips, width choice) are stated as public proof functions
  next to the code they are about.
- `tests/` runs the library on concrete values.
- `app/` is the command-line program around it: `.vox` file writing, palette
  generation and palettization (floating-point OKLab math), format detection
  from file names, and benchmarks.
