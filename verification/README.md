# AtomicWM

A canvas window manager for Wayland: windows live at world coordinates on an
unbounded 2D canvas, and each output shows a camera's view of it.

The crate is a library whose logic is specified and proved with Verus, plus a
program around it.

- `src/` is the verified library:
  - `input`: keybinding strings (`Super+Shift+Q`) and their parser, the
    actions, and the keymap built from the keybinding settings, which refuses
    a binding that two settings share;
  - `config`: the text settings, their defaults and the checks on them
    (`#RRGGBB` colours, non-blank values), and the configuration error type;
  - `canvas::world`: the managed windows and which of them has focus;
  - `window`: window identifiers and nodes, implicit clusters (the connected
    components of the touching-edges graph), decoration hit priority,
    navigation directions and snap edges;
  - `backend`: toplevel bookkeeping (identifiers in order, fallback titles,
    focus kept on removal, map/unmap on commit) and the backend error;
  - `render`: `#RRGGBB` colours read into byte channels;
  - `app`: command-line modes and start-up errors.
  The rectangle type of a window is a type parameter: nothing in the library
  computes with coordinates.
  The keymap holds its bindings in a vector of pairs whose invariant is that
  no binding occurs twice, rather than a hash map: a binding is a struct, and
  a hash map keyed by it would let nothing be proved about lookups. The
  cluster walk keeps the windows it has visited in a vector too, because the
  order of that vector is the visit order that the walk's specification
  states.
- `app/` is the program: floating-point geometry (rectangles, camera,
  directional search, snapping, placement, decoration rectangles, edge
  contacts), the TOML configuration file, the simulation mode and the
  Smithay backend.
- `tests/` exercises the library on concrete values.
