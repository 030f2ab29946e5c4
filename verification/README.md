# logcrab

LogCrab is a log anomaly explorer. This crate holds its core as a library
verified with Verus, and a small command-line program around it.

## Layout

- `src/` — the verified library:
  - format recognition: `registry` (binary formats by magic bytes),
    `detect` and `formats` (text formats by sniffing a sample);
  - line formats: `generic`, `logcat`, `dmesg`, `bugreport`, `dlt`, `otel`,
    `pcap` and `capture` (packet captures), `btsnoop` (Bluetooth RFCOMM, HFP
    and AVRCP decoders);
  - the store: `store` (line ids, the merge of per-source time orders,
    locating a time), `time_index` (a source's time order, kept across
    appended batches), `bookmarks`, `file_state` (time offsets);
  - searching: `pattern` (regular expressions), `filter`, `search`,
    `selection`, `filter_worker` and `queue_map` (request scheduling);
  - scoring decisions: `anomaly` (keywords, template rarity), `temporal`
    (recency and bursts in a time window), `histogram`;
  - settings: `config`, `session`, `input` (keyboard shortcuts), `tabs`,
    `sidecar` (the scoring service's data), `export`, `calibration`;
  - helpers on characters and text: `chars`, `text`.
- `tests/` — tests of the library.
- `app/` — `logcrab`, which recognises the format of each file given and
  writes one JSON object per log line; it does the reading of files and the
  floating-point scoring arithmetic.

Calls into other crates (regular expressions, time parsing, key sequences)
stand behind small trusted wrappers in `src/`, each documented with what is
assumed of it.
