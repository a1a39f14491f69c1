# m3u8

Tools around downloading an HLS video: reading the segment list of an m3u8 playlist,
naming and collecting the downloaded segments, handing them to FFmpeg to be joined, and a
small HTTP forwarding proxy.

- `src/` is the verified library (Verus): `text` (lines, trimming, searching in text),
  `url` (full segment URLs), `playlist` (the segment list of a playlist), `downloader`,
  `desktop` (the desktop variant's playlist reading and bookkeeping), `ffmpeg`, `proxy`
  and `cli`.
- `app/` is the program around it: reading input, the network, files and processes.
  Started with `proxy --target host:port` it runs the proxy instead, and with
  `desktop <url> <folder> <name>` the desktop download (progress printed to stdout).
- `tests/` holds the tests of the library.
