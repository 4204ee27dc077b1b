# rust_web_demo

A small people directory served over HTTP: an infinite-scroll listing, a
typeahead search that highlights what matched, and the page layout that links
the front-end assets built by Vite.

- `src/` is the verified library (Verus):
  - `assets` — the media type served for a static file, from its extension
    (through rocket's table of known extensions);
  - `people` — pagination arithmetic, the query windows, and the search
    highlighting (through the `regex` crate);
  - `scroll` — which row of a page carries the next-page address;
  - `typeahead` — when a search runs and the ids of its result entries;
  - `vite` — reading the Vite manifest: finding entries, walking imported chunks
    and collecting stylesheets and module preloads;
  - `seed` — the SQL statements of the seed data;
  - `text` — string comparisons and decimal formatting used by the above.
- `app/` is the server: Rocket routes, Diesel queries on SQLite, `markup`
  templates, embedded static assets, and the `gen-seed` command.
- `tests/` runs the library on concrete values.
