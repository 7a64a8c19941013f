# canvas_diagram

The diagram panel of a Modelica workbench: a canvas on which the components of
a model are shown as icons, joined by wires, and edited by hand.

- `src/` is the library: what the panel decides and what it computes on whole
  and fixed-point numbers, with its contracts, checked by Verus. Geometry is
  measured in `Fixed` numbers of 2^-32 of a unit; times are milliseconds,
  documents, tabs and background tasks are numbers, and sampled values are
  carried by their bits.
- `app/` is the panel around it: it paints with egui, runs projections on the
  task pool of bevy, and talks to the workbench through the traits of
  `app/host.rs`.
- `tests/` runs the library on concrete diagrams.

Each tab has a canvas of its own, kept in `state`: tabs on one document have a
scene, a camera and a selection each, and what was just added is highlighted in
all of them (`pulse`).

How a document becomes a picture: `lifecycle` decides when it is projected,
`recover` completes the connections, `project` builds the scene, `decorations`
adds the texts and plots of the diagram annotation, `icon_view`, `edge_view` and
`highlight` say how it is drawn. How a gesture becomes an edit: `panel` runs a
frame, `ops`, `components` and `menus` turn what happened into edits, and
`apply` says what follows once a document has taken them.
