# transit

The verified core of a dual-pane terminal file-transfer tool: a local file
browser, a remote browser over `ssh`, and a sequential `scp` upload queue.

- `src/` is the library, verified with Verus:
  - `text.rs`: character classes, trimming, line splitting, decimal text;
  - `config.rs`: what a remote host, a remote path and a source directory may
    be, where the settings file lives, and how it is written and read back;
  - `remote.rs`: POSIX path arithmetic, shell quoting, the listing script and
    the parsing of its output;
  - `local.rs`, `order.rs`: local entries, their size text and pane line, and
    the listing order;
  - `transfer.rs`: the upload worker's queue and its whole-run behaviour,
    scp/ssh arguments, size parsing;
  - `app.rs`: the browser and upload queue as a state machine; keys and the
    answers of the outside world go in, requests and commands come out;
  - `paths.rs`: the standard library's path and case functions it calls.
- `app/` is the terminal program: it reads the environment, the file system and
  ssh output, runs the worker threads, and draws the screen with ratatui.
- `tests/` runs the library on concrete values.
