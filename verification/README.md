# bevy_vello (SVG integration)

The SVG side of a Vello renderer for Bevy, as a verified library.

- `src/` — the verified library:
  - `parse.rs`: loading SVG bytes or text into a parsed, rendered document,
    and picking the document's named groups as layers;
  - `render_plan.rs`: the drawing plan of a group (layers pushed and popped,
    paths drawn, nested documents entered, unsupported nodes);
  - `anchor.rs`: anchors and bounding boxes in half-size units;
  - `extract.rs`: which SVG entities are extracted for rendering each frame;
  - `render_cache.rs`, `render_images.rs`: per-entity render images for UI
    SVGs, when they are created and when they are rendered;
  - `aabb_updates.rs`: which entities get new bounding boxes;
  - `svg_tree.rs`: the trusted contracts of the `usvg`, `vello_svg` and
    `std::str` functions the library calls.
- `app/` — floating-point geometry and Vello drawing around the library.
- `tests/` — tests of the library.
