# yt-dlp-feed

Serves the pages and likes of SoundCloud accounts as podcast feeds. The audio of
an item is downloaded with yt-dlp when a client asks for it, streamed while it
arrives, and kept for a while.

- `src/` decides: configuration, feed metadata and its refreshes, routes, RSS and
  HTML, downloads and their streams, cleaning. Every function there has a
  contract that Verus proves.
- `app/` acts: files, processes, the network, JSON and YAML. It hands the library
  plain values and does what the library decides.
- `tests/` runs the library on concrete values.

What is believed without proof is marked where it stands: `String::push`, and the
calls into `sha2`, `httpdate`, `chrono`, `base64` and `urlencoding`.
