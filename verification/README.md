# bounds

Adds a `.gitignore` and a `LICENSE` to a repository, from the templates of
the gitignore.io service and the licenses GitHub lists.

- `src/` is the verified library: text handling (`text`), rendering and
  merging `.gitignore` files (`generate::gitignore`, with the properties
  proved in `generate::gitignore_laws`), filling license templates
  (`generate::license`), the planned writes (`generate`), template
  detection (`detect`), the service replies (`api`) and the wizard's
  decisions and summary (`wizard`).
- `app/` is the command-line program: prompts, HTTP requests and file
  writes, calling the library for every decision.
- `tests/` exercises the library on concrete values.
