# blowup

The logic of a film-lover's desktop tool — a film library kept on disk, a
knowledge base of films, people and genres, torrent search, and subtitle
handling — written as a Verus library whose functions carry proved
contracts.

- `src/` is the verified library: SRT parsing, shifting and the overlay
  ASS document; the library index (`{root}/{director}/{tmdb_id}/`) with its
  search and grouping; TMDB, OMDb, YTS, OpenSubtitles and ASSRT request
  parameters and answer handling; S3 request signing; the knowledge graph,
  genre tree and film queries; and the decisions of downloads, imports and
  enrichment.  Calls into outside crates (hashing, URL parsing, gzip, case
  mapping, the home directory) go through small trusted wrappers whose
  contracts say what the crates document.
- `tests/` exercises the library on concrete values.
- `app/` is a command-line program around the library: it reads files and
  settings, makes the HTTP requests and runs `ffmpeg`/`ffprobe`.
