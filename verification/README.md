# tracelogs

A library for collecting logs, verified with Verus, and a small program around it.

- `src/` is the verified library: splitting streamed text into log lines at the
  matches of a separator regex (`tokenizer`, `pattern`, `text`), gathering
  multi-line records (`multiline`), ordering, merging and filtering log lines
  from several sources (`logs`, `tracer`), reading journald entries and
  `kubectl logs` output (`journald`, `kubectl`, `extractor`, `numbers`,
  `config`), and the decisions of the process watcher (`processes`).
  The regex, chrono, strfmt and termion crates are called through a few
  trusted wrappers whose contracts are stated beside them.
- `app/` runs commands, reads files and `/proc`, talks ssh, parses JSON with
  serde, and prints what the library returns.
- `tests/` exercises the library on concrete inputs.
