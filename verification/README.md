# wellfriend_perception

Domain-neutral perception primitives for document scanning, written in Verus.

`src/` is the verified library. Every executable function carries a contract over a
mathematical model, and the library's laws are stated as proof functions:

- `buffer`, `types`: checked image buffers, views and regions over an `ImageModel`
  (shape, layout, stride, bytes); a read returns what `set_u8`, a buffer row from
  `row_mut`, or a row of a mutable view from `view_mut` stored, and the buffer keeps
  its shape, format and stride.
- `image`: packing, crops, borders and padding, normalization, clamping, thresholds,
  histograms and ranks, color layout remaps, the 3x3 median, window sums and the gather
  step of nearest-neighbour resizing.
- `document`: binary morphology, foreground masks, 4-connected components (a proved
  partition of the foreground into linked parts, each listed in depth-first flood order), component boundaries, dark-pixel counts.
- `robust`: a seeded generator whose index sequence is a function of the seed and the
  requested bounds.
- `temporal`: the geometry tracker's bookkeeping step (track identifiers, history depth,
  lost frames), with its laws; the smoothing itself is real-valued and lives in `app/`.
- `readiness`: the capture-readiness decision from threshold facts and quality warnings.
- `runtime`: decoding and materializing runtime images, request validation, the engine
  configuration check and the wire labels.
- `text`, `error`: decimal rendering and error messages.

`app/` holds what the library does not model: real-valued image and geometry code,
quality scoring, document detection scoring, and the serde schema of the runtime bridge.

`tests/` exercises the library on concrete values.
