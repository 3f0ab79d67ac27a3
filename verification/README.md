# abra

An image-processing library whose integer logic is verified with Verus.

- `src/` — the verified library: RGBA images, colours and colour statistics,
  per-channel histograms (medians, means, clip bounds, levels tables), window
  filters (median, despeckle, surface blur, box blur), colour inversion, tiling,
  area preparation and cropping, the canvas layer stack, plugin results,
  settings and model manifests read from YAML documents, WebP decoding into
  RGBA images, PNG encoding, identifiers and the noise hash. The YAML loader,
  the WebP decoder and the PNG encoder are called through trusted wrappers.
  Every public function carries a contract; the laws of the library are public
  proof functions.
- `tests/` — tests of the library on concrete values.
- `app/` — the unverified parts around the library: floating-point filters and
  colour-space conversions, resampling, tiled model inference, reading and
  writing files, the per-thread settings and the GPU provider registry.
