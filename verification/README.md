# rubik

A Rubik's cube: a verified model of the puzzle and a small viewer around it.

- `src/cube.rs` — the cubie model: 26 cubies on a 3×3×3 grid, each with a grid
  position and six side colours, and the layer turn in progress. A turn carries the
  cubies of one layer through a quarter rotation. The cube's type invariant keeps
  every cubie on the grid, away from the centre, in a place of its own.
- `src/solver/state.rs` — the sticker model: six faces of nine stickers, the face
  turns on it, and the reading of a cubie model into stickers.
- `src/input.rs` — which key asks for which turn.
- `app/` — the window, the camera, the meshes and the GPU renderer, which work in
  floating point, and the animation of a turn (its angle and each cubie's transform).

Verus proves each function against its contract and the laws stated as public proof
functions: in the cubie model every turn is undone by the opposite turn and has order
four, and the cube stays well formed; in the sticker model the up, down, right and
left turns are undone by their opposites, every turn keeps the centres, the opposite
face and the number of stickers of each colour; a fresh cube reads as solved.
