# Squiggle

An interactive waveform plot: pan, zoom and pick your way around many
high-density polylines at once.

## Layout

- `src/` — the verified library (Verus). It holds the plot logic that needs no
  floating point:
  - `axis` — axis orientation and anchoring, the shared tick budget, and the
    tidying of tick labels (trailing zeros, bare points, negative zero);
  - `ribbon` — the vertex and triangle layout a polyline is drawn with;
  - `demo` — the command line of the demo, the names of its squiggles and
    their sidebar labels;
  - `text` — text comparison and the stacked sidebar label.
- `app/` — the Bevy application: the floating-point model and coordinate math
  (`app/model`), rendering, input and the egui chrome.
- `tests/` — tests of the library.
