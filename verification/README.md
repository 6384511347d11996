# rootly_lib

A small telemetry store for OpenTelemetry logs and traces, whose library is
verified with Verus.

- `src/` — the verified library:
  - `codec`: big-endian integers; `text`: numerals, UTF-8, string building;
    `path`: joining file names onto directories.
  - `model`: the header, mutable header, ini file, log, log entry, log file
    and trace records, with their byte formats and round-trip lemmas.
  - `parsers`: decoding of OTLP export requests (through prost, into the
    plain values of `parsers::otlp`) and extraction of logs and traces.
  - `storage_api`, `rootly`, `efs_storage`: where files are kept and how
    the ini file is opened.
  - `response`, `api`, `cli`: HTTP statuses, content types, command-line
    options.
- `app/` — the OTLP/HTTP server and the AWS Lambda handlers: networking,
  the file system and configuration loading.
- `tests/` — tests of the library on concrete values.
