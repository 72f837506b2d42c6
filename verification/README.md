# wbphotogrammetry

Photogrammetry primitives for drone structure-from-motion workflows, written
in Verus. The library in `src/` holds the integer, byte and text logic of the
pipeline, each function with a contract that Verus proves:

| Module | Contents |
|--------|----------|
| `text` | character-level string helpers: trimming, ASCII case, searching |
| `paths` | names for what `std::path::Path` makes of a path, and the calls behind them |
| `error` | the error type and its rendered messages |
| `camera` | camera model names |
| `features` | feature method names, matching options, profile settings, ORB level budgets, failure diagnostics, pair labels |
| `ingest` | raster orientation, accepted file types, XMP packet and attribute decoding, DJI maker-note heading |
| `fast` | FAST corner detection with non-maximum suppression and spacing |
| `brief` | BRIEF test patterns, descriptors, Hamming matching with ratio test and cross-check |
| `dense` | dense-matching search windows, census patch comparison, side-output naming |
| `alignment` | alignment options, intrinsics refinement masks, reduced-system layout, sampling, observation grouping |
| `graph` | the support graph of matched pairs and the aligned-frame estimate |
| `loop_closure` | choice of loop-closure links |
| `bundle` | sensor-bundle providers: directory recognition, band mapping, acquisition time |

`tests/` exercises the library on concrete values. `app/` is ordinary Rust
around it: directory scanning, image and EXIF decoding, opening sensor
bundles with `wbraster`, and the estimates that work on floating-point values.
