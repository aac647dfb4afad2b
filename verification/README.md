# stalkerhek_engine

An engine that logs into Stalker IPTV portals as a MAG set-top box and republishes
their channels: as an HLS playlist server, and as a portal proxy that a real box can
use. Per-profile filters hide genres and channels and rename titles.

`src/` is the library, verified with Verus:

- `text`, `encoding`, `address`: character-level helpers, percent-encoding and
  decoding, and what the engine reads from URLs (through the `url` crate).
- `filter`, `api`: the filter rules of each profile, their snapshots, and the filter
  requests of the control API.
- `reply`: the portal's JSON answers (read through `serde_json` into a plain value)
  and what the engine reads from them: tokens, profiles, genres, channels,
  categories, links, EPG items, and the EPG guide with the profile's time zone.
- `stalker`: the portal account (identity, MAC repair, request building, replies,
  link decryption, stream fallbacks and the steps of a playlist fetch, EPG).
- `hls`: the playlist server's decisions (playlists, segment rewriting, headers,
  the redirect steps of a stream fetch).
- `proxy`: what the portal proxy answers itself and how it forwards and rewrites
  the rest.
- `dns`: European identities, the identity and expiry caches, DNS-over-HTTPS queries.
- `mag`: the headers of a MAG box and the scrubbing of its metrics.
- `discover`: recognising portals and ranking the ones found.
- `profile`: profile configuration, defaults and the profile list.

`app/` is the program around it: the HTTP servers (axum), the portal client (reqwest),
DNS and time lookups, files on disk, JSON (serde) and the Android JNI bridge.
