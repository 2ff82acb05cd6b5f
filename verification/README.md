# fsonline

A server that finds where a movie or an episode can be streamed, offers what it found to
players, and plays it through itself.

- `src/` is the library: every decision of the server, with its contract. `contracts` holds the
  values that requests and records speak of, `fsonline`, `scrappers` and `imdb_service` find the
  players of a title, `routes`, `custom_extractor` and `error` say what is answered, `playlist`
  reads and makes playlists, `ts_parser` reads transport streams, and `player` loads segments,
  finds out when they start and keeps them.
- `app/` is the program around it: sockets, files, the database, the browser and the clock. It
  does what the library says and tells it what came of it.
- `tests/` runs the library on concrete values.

Times are counted in ticks of a 90 kHz clock, as in the streams themselves.

What the library takes from other crates it calls through small functions whose contracts are
believed, not proved. They stand in `text`, `buffers`, `fsonline`, `scrappers`, `imdb_service`,
`custom_extractor`, `playlist`, `small_cache` and `player::populate`, each with a comment on
what is believed of which function.
