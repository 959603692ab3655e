# inkscope

The verified core of InkScope, a desktop client that imports Chinese web novels
(from text files, from public pages of Qidian and Fanqie, or through Legado book
sources), stores them chapter by chapter, and has a language model analyse them.

`src/` is the library, checked by Verus:

- `text`, `rules`, `json`, `html`, `web`, `address`: the rule language of Legado
  sources (JSONPath-like and CSS-chain rules, `##` replacements, `{{…}}`
  templates), the links and request templates they produce, and the checks every
  request passes, down to the refusal of private, loopback and link-local IPv4
  hosts.
- `source`, `search`, `toc`: which sources can search and import, the overview
  of a repository, searching across sources, tables of contents (the walk over
  their pages is a state machine), chapter texts and the assembly of an import.
- `book`, `chunking`, `page`, `model`: chapters of a stored book, exports, the
  parts a book is cut into for analysis, public pages, prompts, how the
  model's replies are judged and repaired, and the run of an analysis (a state
  machine that reuses stored analyses and tells the app what to do next).
- `report`: the report of an analysis, the members of its module objects merged
  key by key.
- `outside`: every call into an outside crate (regex, html-escape, urlencoding,
  url through reqwest, uuid, scraper, serde_json), each behind a trusted item.
  Every JSON text the client meets (search answers, tables of contents, chapter
  pages, request options and headers, source repositories, the model's answers)
  is parsed there into the library's document type.

`app/` holds what Verus cannot take: the Tauri commands, files, SQLite, HTTP and
the concurrency; it hands the library plain values and acts on its decisions.
