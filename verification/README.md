# mirakc_webui

A web UI for the recordings of a mirakc tuner server: it lists recorded MPEG
transport stream files with their program information, checks them for dropped
packets, makes thumbnails, and keeps deleted recordings in a trash for a while.

- `src/` is the library, verified with Verus:
  - `tsdropcheck` reads packet headers and adaptation fields and counts drops,
    transport errors and scrambled packets per PID (`DropChecker` takes a file
    chunk by chunk);
  - `mirakc` holds the API's types, its URLs and how a listing shows a program;
  - `recorded`, `thumbnail`, `trash` and `config` hold the naming, listing,
    trash-expiry and command-line rules; `order` lists items in a stable
    descending order; `text` holds the string operations they share.
- `app/` is the server: file and network I/O, the HTTP routes, ffmpeg, serde
  and the figures computed in floating point.
- `tests/` runs the library on concrete inputs.
