# stakhal

Inspection of STM32CubeMX firmware projects, verified with Verus: the `.ioc`
configuration, the generated HAL call graph and peripheral state models, the
`USER CODE` regions of the C sources, `PV` declarations and their uses,
application state machines found in the C code, and the plans from which
their drawings are made.

- `src/` is the verified library. Each public function states what it
  returns in its `ensures`, over spec functions on `Seq`/`Map` values; the
  C syntax trees come from tree-sitter and the state graphs are held in
  `petgraph`, both behind small trusted wrappers whose contracts say what
  the library relies on. `laws.rs`, `sm_laws.rs` and the `law_*` proof
  functions elsewhere state properties that span several functions.
- `tests/` runs the library on concrete inputs.
- `app/` holds what the library does not: reading and writing files, the
  JSON document of a project, and the floating-point geometry of the
  drawings.
