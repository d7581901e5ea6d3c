# Mirage

An HTTP front-end to an Xtream Codes VOD and series API: it serves HTML
directory listings that rclone's `http` backend understands, and redirects
video requests to the provider's `/movie/...` and `/series/...` URLs after
checking them against the catalog.

The library in `src/` is written in Verus and proved against its contracts:

- `naming`, `roundtrip`: folder and file names of movies, shows, seasons and
  episodes, and the laws that their id tags and season folders parse back.
- `catalog`: the TV and movie catalog snapshots built from the API pages
  (merged, de-duplicated, capped in test mode, sorted by folder name), and
  when a worker's first rebuild is due.
- `handlers`: what each route answers — listing pages and redirect targets.
- `head_metadata`, `range_expand`: strict checks of upstream probes, the
  headers of `HEAD` answers, and widened `Range` requests.
- `ttl_cache`, `cache`, `pace`: expiring caches, the series-detail cache
  rules, and the spacing of API requests.
- `config`, `env`, `limits`: settings read from the environment.
- `xtream`: API records, URLs, and what the client makes of API answers.
- `html`, `path_seg`, `text`, `sorting`, `json`: pages, path segments,
  string and order helpers, and the JSON model.

`app/` is the server around it: `axum` routes, `reqwest` calls, `tokio`
tasks, `serde` and `rkyv` formats, and files on disk.
