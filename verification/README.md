# sdict

A self-hostable, ad-free web frontend for SpanishDict, with its lookup logic verified in Verus.

- `src/` is the verified library:
  - `json.rs` holds a JSON value as plain data and looks values up in it; JSON text is
    parsed by `serde_json`.
  - `text.rs` trims and searches text, and holds the library's contact with `std`
    (lower case, UTF-8), `regex` and `urlencoding`; `markup.rs` its contact with `scraper`,
    `ammonia` and `minify-html`.
  - `spanishdict.rs` finds the page data in a SpanishDict page, parses definitions and corpus
    examples, counts and filters the highlighted words of the examples, and decides each step
    of a lookup.
  - `web.rs` decides what each route answers: the search redirect, the translation page, the
    minification of HTML responses.
- `app/` is the web server: fetching pages, the router, templates and `main`.
- `tests/` runs the library on concrete values.
