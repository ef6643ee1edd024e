# radarpro

The data-handling core of a weather radar and forecast workstation, written
in Verus: every function under `src/` carries a contract that Verus proves.

- `src/` — the verified library: NWS alert parsing (`alerts_parse`,
  `alerts_time`, `json_value`) and the poll-race-safe alert store
  (`alerts_store`); NEXRAD Level II bucket listing, object keys and cache
  decisions (`list_objects`, `discovery`, `cache_keys`, `cache_volume`,
  `net`, `request_url`); HRRR keys, `.idx` sidecars and client decisions
  (`hrrr_keys`, `hrrr_idx`, `hrrr_client`); shared types and calendar
  arithmetic (`radar_types`, `calendar`, `text`).
- `app/` — ordinary Rust around it: HTTP with retries, the on-disk cache and
  update loop, JSON text, and the floating-point geometry, palette and sweep
  code.
- `tests/` — tests of the library.
