# sl_viewer

The verified core of a Second Life / OpenSim viewer, written in Verus.

- `src/` is the library. Every function carries a contract that Verus
  proves: start-location and SLURL parsing, legacy login names, capability
  URL selection, region-continuity classification and recovery policy, the
  live-session configuration and start-up plan, the start-up failure a
  login outcome reports, panel shortcuts and teleport requests, the
  live-session snapshot and the world view derived from it, the
  avatars merged from live samples (staleness and removal) and the names to
  look up, avatar profiles (applying and merging fetched profiles),
  object-feed counts, the network debug view and its log lines, binary LLSD
  (parser, encoder and their round trip), Second Life mesh headers and LOD
  selection, the geometry cache for meshes and sculpts, the fixture texture
  cache with its priority quotas and eviction order, texture decoding to
  RGBA, sculpt grid triangulation, and the text of the diagnostics panel
  (start-up gates and forensics, residency, fetch attempts, message-name
  counts, the RegionObjects inspection summary).
- `tests/` exercises the library on concrete values.
- `app/` is a small command-line front end: it reads settings from the
  environment, fixture textures and mesh files from disk, keeps the social
  cache in SQLite, does the floating-point geometry work (dequantising
  mesh vertices, glTF import, sculpt vertices, normals and bounds), and
  runs the two JPEG 2000 decoders (`jpeg2k`, `justjp2`), which can panic on
  malformed input, where such a panic is caught; the library's texture
  decoder takes them as arguments.

Calls into other crates (`image`, `flate2`, `md5`, `std` paths) stand behind
small trusted wrappers whose doc comments say what is assumed of them.
