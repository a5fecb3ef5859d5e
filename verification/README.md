# hermitgrab

A tag-based dotfile manager: `hermit.toml` files declare links, patches and
installs, each guarded by tag requirements (`+os=linux`, `-zsh`); profiles
name sets of tags and detectors turn tags on from the outcome of scripts.

The library in `src/` is written in Verus and verified:

- `text`, `sorted`, `paths`: strings, the ordered map that holds tags and
  configuration entries, and path handling (the few `std::path` calls are
  trusted wrappers whose results are named).
- `tags`: tags, requirements, and what it means for a requirement to hold.
- `config`: configuration files and their merge into the global
  configuration: required tags, snippets, profiles, detectors, active tags.
- `render`: template rendering (handlebars, behind a trusted wrapper) with
  directories, tags, variables and snippets.
- `action`, `plan`: the actions built from configuration entries (and
  whether an install runs, given its check), the order in which entries are
  prepared, the execution plan gathered from the prepared entries and sorted
  stably by order, its filtering by active tags and its grouping by order.
- `file_check`: what each observed state of a placed file means (linked,
  copied, differing, missing) and the message shown for it.
- `json`, `action::content`: JSON values and the JSON merge patch, proved;
  reading and writing JSON, YAML and TOML text and applying JSON patch
  operations go through trusted wrappers whose results are named.
- `config_text`: appending link and patch entries and profile tags to the
  text of a configuration file (the `toml_edit` reads and edits are trusted
  wrappers; the decisions are proved).
- `file_ops`, `detector`, `cmd_add`, `discover`, `build_doc`, `errors`: the
  decisions behind placing links, detected tags, adding entries, picking a
  repository, the documentation pages, and error messages.

`app/` is the program around it: the command line, reading and writing
files (it hands their text to the library and writes back what the library
returns), running scripts, placing links, git and GitHub. `tests/` runs the library on
concrete values.
