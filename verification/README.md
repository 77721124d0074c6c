# gororoba

A verified library for the Gororoba workspace: game-semantics arenas,
strategies and the conditions of the semantic cube (well-bracketing,
innocence, parallel innocence), the interaction-arena levels and play
engine, the integer side of the fluid kernels (lattice tables, streaming,
voxel masks, backend choice and device probing), and the logic of the
studio, synthesis-arena and physics-sandbox apps.

- `src/`: the library, verified with Verus.
- `tests/`: tests run against the compiled library.
- `app/`: the programs around it: HTTP servers, the backend client, device
  probing, and the floating-point kernels (fluid solvers, algebra, payoffs).
