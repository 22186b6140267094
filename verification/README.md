# facts

A library and command line for fact sheets: `.facts` files that list short,
checkable claims about a project, grouped under Markdown headings, each
optionally with a shell command that proves it, an explicit ID and tags.

## Layout

- `src/` — the library, written in Verus and verified:
  - `parser`, `writer`, `model`: the sheet format. A file in the form the
    writer produces (`writer::is_canonical`: no `\r\n`, no byte order mark,
    every line ended, no stray blank lines) is read and written back character
    for character (`writer::law_parse_write_roundtrip`); a written fact reads
    back with its fields (`writer::law_written_mapping_fact_reads_back`,
    `writer::law_written_plain_fact_reads_back`); sections nest by heading
    depth in file order (`parser::law_sections_nest_in_file_order`).
  - `id`, `locate`: fact IDs (hashes of labels, or explicit) and where each
    fact lives. Computed IDs never collide with each other or with explicit
    IDs (`id::law_computed_ids_distinct`), and the reading and editing
    commands compute the same ID table from the same labels in the same order
    (`locate::law_ids_agree_across_commands`).
  - `list`, `check`, `get`, `add`, `edit`, `remove`, `move_fact`: the
    commands' logic over parsed sheets (`add::law_added_fact_is_listed`,
    `remove::law_remove_drops_only_that_fact`,
    `edit::law_edit_replaces_only_that_fact`,
    `move_fact::law_move_keeps_fact_count`).
  - `tags`: the boolean tag and search expressions
    (`tags::law_tag_operators_are_boolean`, `tags::law_operators_compose`,
    `tags::law_single_word_expression`).
  - `lint`, `fmt`: structural checks and normalization; a file with no
    lint error parses (`lint::law_lint_without_errors_parses`).
  - `init`, `uninit`, `skills`, `update`: stack detection, scaffolding
    (the scaffolded file parses to one `project` section holding the stack
    facts, `writer::law_scaffold_parses`), bundled skills and self-update
    decisions.
  - `color`, `text`: terminal colors and character-level helpers.
- `app/` — the `facts` binary: arguments, files, locking, running commands,
  printing.
- `tests/` — tests of the library on concrete sheets.
