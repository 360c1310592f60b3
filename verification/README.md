# rusty_notes

A local Markdown notebook served as a small web UI, with its logic written
in Verus and proved against its contracts. Where that logic rests on an
outside crate (`ttl_cache`, `time`, `regex`, `scraper`, `htmlescape`,
`syntect`), the contracts speak of that crate's results by name: the
highlighted HTML, for instance, is fixed as whatever `syntect` renders for
each decoded code block, but what `syntect` renders is not itself stated.

- `src/` is the verified library:
  - `text` — the string operations the notebook relies on (trimming,
    prefixes and suffixes, replacing, splitting, lines), specified over the
    characters of their strings;
  - `cache` — the one-hour title cache over `ttl_cache`;
  - `types` — `NoteItem`, with modification times shown through `time`;
  - `config` — default settings;
  - `patterns` — regular expressions through `regex`;
  - `highlighter` — syntax highlighting of rendered code blocks through
    `scraper`, `htmlescape` and `syntect`;
  - `notes::utils` — titles, listings in modification order, categories,
    new notes, search queries, collapse tags and page rendering;
  - `notes::search` — the `rg` pipeline and how search output joins the
    list of hits;
  - `notes::web` — URL prefix, home page filters, built-in static files,
    saved note text;
  - `startup` — whether the notes directory is still empty.
- `app/` is the server around it: configuration from the environment,
  the file system, the search tools, Markdown rendering with `comrak`,
  templates and the HTTP handlers.
- `tests/` exercises the library on concrete values.
