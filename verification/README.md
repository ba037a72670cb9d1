# itcy_tui

Verified core of a terminal browser for publication artefacts.

- `src/text.rs`: character-sequence operations (split, trim, replace, prefix and
  suffix tests) specified over `Seq<char>`.
- `src/artefact.rs`: `body.md` paths to artefacts (id, `YYYY/MM[/DD]` shard,
  sibling `meta.toml`) and the `subject = "…"` line of `meta.toml`, with laws
  about both.
- `src/ui/`: the pane enum and its key hints, the footer and overlay text,
  the publications pane state (filter, selection, `:open`), table rows and the
  preview.
- `app/lib.rs`: ratatui rendering of what the library decides to show.
