# whatchanged

A file-system change monitor: it scans the folders you pick, records which
files are new, modified, moved or deleted, keeps compressed snapshots of
text files, finds duplicates, reads the system trash for recoverable files,
and sends webhooks (chat services, Telegram) when something changes.

## Layout

- `src/` — the library, verified with Verus. Every decision the application
  makes lives here with a contract: path validation and suspicious-file
  detection, ignore patterns (globs and a small wildcard regex), scan
  classification and batch totals, move/delete detection, line blame over
  snapshots (a longest common subsequence, proved optimal), duplicate
  grouping, snapshot preparation and integrity checks, trash parsing,
  webhook URL checks, signatures, message planning and delivery reports,
  secret encryption, settings validation, CSV/HTML/Markdown reports and
  search query building.
  Calls into other crates (AES-GCM, base64, HMAC-SHA256, SHA-256, zstd,
  glob, URL parsing, percent-decoding, time formatting) go through small
  trusted wrappers whose contracts state what those crates document.
  `src/laws.rs` and the public proof functions in the modules state the
  properties that hold across functions.
- `tests/` — tests of the library on concrete values.
- `app/` — the program around the library: the SQLite database, file-system
  walks, HTTP requests, the background scheduler and the user commands.
  It reads and writes; the library decides.
