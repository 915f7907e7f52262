# black_cube_gallery

The renderer-independent core of a small WebGL art gallery with two installations,
*Black Cube / White Room* and *A World in Light*, written in Verus. Every function in
`src/` carries a contract that the verifier proves; the library relies on no trusted
function.

## Layout

- `src/gallery_core.rs`, `src/artwork.rs`, `src/descriptors.rs` — canonical identifiers,
  artwork catalogues and their lookups, and the published catalogue entries.
- `src/planet_tiles.rs` — cube-sphere quadtree addressing: tile hierarchy, exact integer
  neighbour lookup across cube faces, asset paths, working sets and streaming plans.
- `src/tile_cache.rs` — the fixed-slot residency cache for streamed texture tiles
  (lowest vacant slot first, least recently used eviction).
- `src/tile_streaming.rs` — bounded request planning, finest resident coverage and stale
  asset selection.
- `src/input.rs`, `src/fps.rs` — key-binding validation and sanitizing.
- `src/browser/` — the visitor's keyboard session, installation command keys, world
  composition, and the decoding of the compact Earth texture map.
- `src/world_in_light/` — shader composition at stable markers, scissor-rectangle merging,
  the star catalogue's random source and the inspection-target cycle.
- `src/text.rs` — exact string comparison, ordering and single-occurrence replacement.
- `tests/` — executable scenarios.
- `app/` — the unverified shell: persisted settings (serde), keyboard dispatch, simulation
  time and the floating-point parts of surface streaming and lighting.

## Ordered sets

Where ordered sets of tile requests or held keys are needed, the library keeps them as
strictly increasing `Vec`s (and takes strictly increasing slices), with that order as a
stated invariant or precondition, instead of `BTreeSet`. A `BTreeSet` orders its elements by
their `Ord` implementation; for the library's request type that impl is derived, and for key
codes it is `String`'s, and the verifier reads neither, so nothing about membership or
iteration order could be proved through them. The explicit order (`request_lt` for tile
requests, `chars_lt` for key codes) is the one those impls define, and the proofs rest on it.
