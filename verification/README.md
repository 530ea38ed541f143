# falling_leaf

The core of a small game engine, verified with Verus.

- `src/ecs`: an archetype based entity component system. Entities are ids, components are
  values of one type parameter `V` tagged with integer component type identifiers. The
  `ECS` stores entities with the same set of component types in one table; its view is a map
  from entity id to the entity's components, and every operation (create, delete, add and
  remove components, get, queries with include and exclude filters, mutable queries) is
  specified against that map. `mesh_register` holds the mesh, level-of-detail and hitbox
  registers of the entity manager, `material_register` the materials by name; `component` the integer based components (colors, flags,
  mesh and texture settings).
- `src/systems`: the event system (listener registry, turning window input into
  engine events), the animation system, and the choice of the renderer that takes an
  entity's render data.
- `src/utils`: asset path construction, the multi-key lookup on maps, the decision which
  of several requested mutable references can be handed out, and the removal of mesh
  vertices that no triangle uses.
- `app`: what stays outside the verifier: floating point components (positions, physics,
  lights, materials), time points, shared pointers and locks, reading the working
  directory, turning window-library events into the library's window input, and the
  physics step run as a mutable query of the entity store.
- `tests`: tests of the library on concrete values.
