# make-gitignore

Generates `.gitignore` files from GitHub's gitignore templates, either for the
languages named on the command line (`gitignore --languages=rust,python`) or
for those picked in a terminal list with a search filter.

The logic is a verified library (`src/`), each function with its contract:

- `text` – character-level string operations (trimming, ASCII case folding,
  ordering, sorting, substring search) proved against short statements of what
  they compute;
- `sync` – the `last_synced` timestamp (written and read back as a decimal
  numeral), its 24-hour freshness window, and the choice between the cache and
  a download;
- `templates` – the map of templates by language, the case-insensitive check
  of requested names, and the exact text of the generated file;
- `ui`, `ui::app`, `ui::events`, `ui::render` – the picker's state, what each
  key press does to it, and what is drawn of it.

`app/` is the program around it: command-line parsing, the download and
extraction of the template archive, the file system, and the terminal.
