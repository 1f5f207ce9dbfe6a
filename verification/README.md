# tfplanshow

Renders the JSON plan that `terraform show -json` writes as a grouped
summary, with replacements (destroy and recreate) called out first, then
deletes, creates, updates and unrecognized action arrays; data-source reads
and no-ops on request; and a closing count line. Optional CI gates fail on
replacements or on any destruction.

The library in `src/` is verified with Verus:

- `categorize` names the action shape of a `change.actions` array.
- `order` sorts changes by address, stably, by insertion.
- `summarize` groups a plan's changes by shape, each group in address order.
- `diff` finds the top-level attributes whose value differs in an update.
- `path` renders `replace_paths` entries as `ingress[0].from_port`.
- `render` writes the text report; `text` holds the character-level helpers.
- `json` and `plan` model the plan: JSON values as plain data (numbers as
  the text `serde_json` writes for them, object members in key order).

`app/` is the command: argument parsing with clap, reading the file, parsing
the JSON with serde into its own copies of the plan types, converting them to
the library's model, and printing the report or a JSON listing.
