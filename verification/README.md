# tf_demo_parser — verified cache building

The library (`src/`, verified with Verus) holds the decisions that turn decoded
Team Fortress 2 demo snapshots into the typed-array caches of the web viewer:

- `codes`: team, projectile, metadata and duck-state codes;
- `cache`: the cache rows and how one tick of a player or projectile is written;
- `timeline`: tick bases, which packets become snapshots, where events land;
- `snapshot`: samples and how the ticks between two snapshots are filled, with the
  laws that every tick of a gap is written and that the last step is the snapshot;
- `session`: the packet-by-packet state machine (`begin_packet`, `stage`,
  `advance`, `write_player`, `write_projectile`, `finish`);
- `users`, `events`: users, chat lines with their color codes, deaths grouped by
  tick, rounds and the player list;
- `keys`: integer ids as keys of the ordered maps (`BTreeMap`) that index player
  rows by entity, projectile rows by entity, users by user id and by entity, and
  deaths by tick;
- `voice`: voice samples and Steam voice packet decoding (through `bitbuffer` and
  `steamid-ng`).

`app/` is ordinary Rust around it: floating-point geometry (blending, distances,
quantization), the packet loop that carries out the library's plans, the
JavaScript output object, the release of strings handed to C callers, and
opus/wave audio decoding. The demo decoder itself is not part of this crate.
