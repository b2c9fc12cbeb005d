# jackdaw

The editing logic of a scene editor, verified with Verus.

- `src/` is the library. A scene is a set of live entities (`world`) and a document (`document`) that
  authors some of their components. Commands change both and can be undone: `set_field`,
  `component_commands`, `location`, `lifecycle`, with gestures on a field in `field_edit`. The
  `history` keeps them all: it undoes by itself what needs the scene alone, and hands out what the
  engine takes part in. `agreement` states that parents and children agree and what keeps it so.
  `templates`, `entity_menu`, `gltf` and `clipboard` enter entities; `naming`, `node_ids` and
  `registration` give them names, ids and document nodes. `hierarchy`, `outliner` and their
  neighbours are the tree of rows; `inspector` and its neighbours are the cards; `brush_edit`,
  `face_drag`, `element_drag`, `draw_brush`, `clip_ops` and `brush_mesh` edit solids.
- Each function states in its contract what it returns and what it changes, over views of the types.
  Proof functions named `law_…` state what holds across functions, such as that undo restores what was
  there, that a drag that is cancelled leaves no trace, or that the outliner shows the scene.
- Coordinates and other floating-point numbers are kept by their bits: the library moves, compares and
  stores them, and the engine computes them.
- `app/` is the engine side: plugins, the system clipboard, paths, and floating-point geometry.
- `tests/` holds the tests of the library.
