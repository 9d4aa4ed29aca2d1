# no_eagles

A desktop tool for organising race result files: files are imported from a
directory listing with type-ahead suggestions, races are configured with a
name and a date, imported files are linked to races, and result files (a
header line and comma-separated records) are read for display.

- `src/` is the library, verified with Verus:
  - `text.rs`: white-space trimming, case folding, substring search, splitting;
  - `csv.rs`: reading the lines of a result file as trimmed records;
  - `files.rs`: the list of imported files, kept free of duplicates;
  - `import.rs`: suggestions, keyboard navigation and the import flow;
  - `races.rs`: adding, linking files to, and deleting races.
- `app/` holds the user-interface components and the backend commands that
  read the file system; they hand every decision to the library.
- `tests/` exercises the library on concrete values.
