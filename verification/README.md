# uengine

A small entity-component-system game engine. The library under `src/` is
written in Verus and verified: its public functions carry contracts, and
every function, public or not, is proved free of errors against the
contracts it calls.

- `any`: type descriptions (`TypeInfo`) and `AnyVec`, a vector of
  fixed-size byte rows.
- `ecs`: component registry, entities and their locations, tables and
  columns of component values, archetypes, bundle insertion, queries, a
  row-packed archetype layout (`packed`) and a sparse-set storage
  (`sparse`), error texts.
- `rendering`: the decisions a window takes on its events.
- `editor`: the project description.

`app/` is the executable around the library: the window event loop, the
application layers, systems and commands, typed access to components, and
the serialisable project file.
