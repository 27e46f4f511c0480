# factoriomodtranslator

The verified core of a translator for Factorio mod locale files.

- `src/` is the library, checked by Verus: the `.cfg` reader and writer
  (blank lines inside a section kept; with the laws that reading back a
  written file gives its entries grouped by section, and that a file read,
  written and read again keeps its header, sections and entries), the
  glossary, the game's own translations, the decisions of a translation run
  (difference mode, glossary terms, game translations by key and by text,
  history, engine; no engine in manual edits), the engines' requests and
  DeepL's retry rule, the encrypted storage of API keys (with the law that a
  saved key loads back), and what saving a translation writes into a folder
  or an archive (every entry of an archive copied, unless a translation is
  written under its name, and the translations added).
- `tests/` runs the library on concrete values.
- `app/` is the rest: reading and writing files and archives, the history
  database, HTTP calls, JSON, logging, and the commands of the interface.
