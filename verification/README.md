# gunship

The verified core of the Gunship game engine, written in Verus.

`src/` holds the engine logic with its contracts, each function proved by Verus:

- `ecs`, `scene`: entities, their recycling, and the scene that owns them.
- `collections`: fixed-capacity arrays.
- `component`: dense component storage with queued messages, audio sources and the audio
  step, bounding volumes, collision callbacks (which callbacks are invoked, with what), the
  grid walk over every cell of a box, the candidate pairs of the collision broadphase and the
  once-per-pair narrowphase.
- `input`, `engine`: per-frame input state and the engine's frame decisions (window messages,
  debug pause and single-stepping, worker count, internal managers, and what is registered with
  the renderer).
- `time`: the fixed time step between frames.
- `scheduler`, `asynchronous::scheduler`: the bookkeeping of the work scheduler and of the
  fiber scheduler.
- `wav`: decoding of RIFF WAVE files.
- `resource`: text decoding, mesh handles, shader source parsing and the vertex layout of
  COLLADA meshes.

`app/` is ordinary Rust around the core: file access, frame timing, type ids, manager lookup,
the drivers that act on the core's frame decisions, and the parts that work on floating-point
data (vertex attributes, alarm times, bounding boxes and the collision narrowphase).

`tests/` exercises the library from the outside.
