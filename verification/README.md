# orgstand

A terminal TODO and agenda manager for org-mode files, built around a library
whose behaviour is specified and proved with Verus.

## Layout

- `src/` — the verified library:
  - `text.rs`: character-level string operations (lines, search, trimming,
    replacement, decimal numbers) with their mathematical models;
  - `calendar.rs`: the `Date` type, the proleptic Gregorian day numbering it is
    modelled by, and the calls into `chrono`;
  - `dates.rs`: org timestamps, planning keywords, and the date an entry is
    shown under;
  - `parser.rs`: headline levels, entry extents, and the entries of an org
    text (headlines found by `orgize`);
  - `writer.rs`: the edits written back to an org text (content, dates,
    keywords, tags, deletion, new entries);
  - `agenda.rs`: the browser's lists (all open TODOs, the week agenda) and
    their stable date order;
  - `picker.rs`: the date picker and its month calendar;
  - `browser.rs`: selections, the tag list, titles and labels, the week's days;
  - `keys.rs`: what each key does in each view;
  - `scanner.rs`: which directories and files are scanned;
  - `laws.rs`: properties that relate several operations.
- `tests/` — tests on concrete values.
- `app/` — the terminal program: file and directory I/O, the event loop and
  drawing with `ratatui`, `crossterm` and `tui-textarea`.
