# furl_core

The core of `furl`, a downloader that fetches a file over HTTP in byte-range
chunks with several concurrent workers, written in Verus and verified.

- `src/` — the verified library:
  - `headers.rs`: the `HeaderUtils` trait, reading the file name out of
    Content-Disposition and the total size out of Content-Range;
  - `address.rs`: URL checks and the file name a URL path ends in;
  - `chunks.rs`: the worker count and the cut of a file into chunks, with
    the laws the cut obeys;
  - `engine.rs`: the `Downloader` state and the decisions of a download
    (file name, output path, Range header values, progress records);
  - `text.rs`: character-level helpers (searching, trimming, decimal numbers);
  - `header_map.rs`: the trusted contracts of the `http` header types;
  - `cli.rs`: the command-line options as plain data.
- `app/` — the `furl` binary: argument parsing, network and file I/O, and
  progress bars, calling the library for every decision.
- `tests/` — tests of the library on concrete values.
