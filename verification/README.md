# bangumiao

The core of a desktop anime tracker, written in Verus: parsing of video file
names and RSS episode titles, the decisions around aria2 downloads, grouping and
ordering of the local library, settings, and the timing of the background RSS
refresh. Every function in `src/` carries a contract that Verus proves.

- `src/` — the verified library, one module per concern (`filename`, `rss`,
  `subscriptions`, `download`, `aria2`, `library`, `episode_order`, `settings`,
  `scheduler`, `app_state`, `feedback`, `mikan`, `db`), on top of `text`,
  `decimal` and `patterns`.
- `tests/` — tests of the library on concrete values.
- `app/` — the application around it: the SQLite database, aria2's process and
  socket, RSS fetching, the file system and the command handlers.
