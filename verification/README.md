# town

The logic of a small town map game built on Bevy and LDtk, verified with Verus.

- `src/` is the verified library:
  - `grid`: columns, rows, neighbours and distances of the cells of a row-major grid;
  - `coords`: grid coordinates and LDtk cell indices, through `bevy_ecs_ldtk`;
  - `pathfinding`: the search for a walk between cells around collision cells,
    through the A* search of the `pathfinding` crate;
  - `level`: a level's measurements and collision cells, through `itertools`;
  - `building`: which building areas and entrances hold a point;
  - `player`: the player's animation state and the box it is kept in.
- `tests/` runs the library.
- `app/` is the Bevy application: systems, components, input and rendering.
