# genuary

Verified logic behind a few generative-art sketches built on Bevy.

`src/` is a Verus library:

- `compute_node` — the stage machine of a render-graph node that drives a
  compute shader: wait for the `init` pipeline, run it, wait for the `update`
  pipeline, run it every frame; and the workgroups it dispatches.
- `particles` — the palette texture of the particle sketch: horizontal colour
  bands, and a texture size taken from a Worley noise map (`noise` crate).
- `layers` — which tiles of a two-layer tile map get spawned, from boolean
  masks of a noise field; the upper layer only covers base tiles.
- `app_state`, `compute_worker` — small state and step decisions.

`app/` is the Bevy program around it: windows, GPU resources, the render
graph, noise sampling in floating point, and file output. It picks a sketch
by its first argument.
