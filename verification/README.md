# wb_sketch

The 2D sketcher of a CAD workbench: the geometry and constraints of a
sketch and what the sketcher's commands and tools do to them, written in
Verus and proved against its contracts.

Coordinates, radii and dimension values are `f32`s in the sketcher. The
library carries them as their IEEE-754 bit patterns (`u32`) and never
computes with them; ids are the 128-bit values of the sketch's UUIDs.

## Layout

- `src/` — the verified library, one module per concern:
  - `sketch` — the data model: elements, constraints, lookup, cascade
    deletion;
  - `constrain`, `ovp`, `step` — constraint tools, typed on-view values,
    and what a click or drag does besides the tool;
  - `profile` — closed wires for extrusion;
  - `snap`, `glyphs`, `style` — which snap wins, constraint glyph
    suffixes and tones, element names and icons;
  - `commands`, `selection`, `validate`, `params` — scripted commands,
    selections, the sketch check, named dimensions;
  - `external`, `dxf` — projected solid edges and imported drawings;
  - `workbench`, `feature`, `ident`, `text` — tool tables, the document
    feature, ids and small string helpers.
- `tests/` — the library's tests.
- `app/` — what cannot be proved here: the serde copies of the model,
  floating-point measuring and snapping, projecting edges and reading
  drawings, each handing plain values to the library.
