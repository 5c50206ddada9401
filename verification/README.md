# Cantus

Cantus is a music and status bar with a launcher. This crate holds its logic, written in
Verus with contracts that the verifier proves.

- `src/` — the library:
  - `data`: the fixed-size word codec shared by host and shaders (`ShaderData`), the
    fixed-capacity `InlineVec`, and the packed word types; `geometry`: glyph, curve and edge
    records and the font arena's `append`; `uploads`: the bookkeeping of GPU storage uploads;
    `contract`, `program`, `resources`, `renderer`: the shader program interface.
  - `launcher`: the search field (`TextField`, with caret moves by grapheme cluster), the rows
    for a query (calculator answer, ranked apps, web search), key handling and activation,
    the apps listed from desktop entries, provider aliases and search addresses.
  - `timer`: timer requests, the countdown and description readouts, and the timer itself.
  - `music`, `players`, `spotify`, `spotify_ids`, `playlists`, `enrichment`: the playback queue
    (carrying cards across snapshots, anchoring, seeking, toggling, card badges, playlist
    buttons and card seeds), local MPRIS players, the
    queue built from a player snapshot and the catalog, the catalog entries asked for, Connect
    requests, playlist choice, pictures and ratings, Spotify addresses and ids, collection-write
    framing with base-128 varints, and what track enrichment keeps and fetches (`refresh`:
    one refresh of the enrichment caches).
  - `lyrics`, `ttml`, `clocks`: caption clean-up and WebVTT/SubRip cues, caption speech,
    match keys, section labels laid over lyric lines, singer voices from performer tags, and
    TTML lyrics with their clock values.
  - `weather`: the calendar page and its paging, forecast routing, place lookups and labels.
  - `platform`: the aggregate CPU counters of `/proc/stat`; `status`: the processor history;
    `noise`: the 2-lane avalanche hash; `chars`: text building blocks.
- `app/` — the program around it: arguments, the launcher socket, processes, reading
  `/proc/stat` and the configuration file, and the floating-point parts: conversions of
  packed words and the reading of lyric clock values as seconds.
- `tests/` — tests of the library on concrete values.

`Cargo.toml` pins `vergen` to 9.0.6 although nothing here uses it: librespot-core's build
script uses `vergen-gitcl` 1.0, which does not build against vergen 9.1.
