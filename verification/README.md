# relay

Hand a coding session from one agent to another and look back at past
handoffs. The logic is a Verus-verified library:

- `src/text.rs` — the text model (UTF-8 byte offsets, Unicode whitespace,
  `trim`, `find`, `lines`, decimal numerals) and its executable helpers.
- `src/handoff_file.rs` — which `.relay/` entries are handoffs and the time
  stamp in their names.
- `src/handoff/templates.rs` — the `minimal` and `raw` handoff templates.
- `src/history.rs` — `relay history`: newest-first selection and the agent
  and task of each handoff.
- `src/diff.rs` — `relay diff`: the latest handoff and the git summary.
- `src/resume.rs` — `relay resume`: the latest handoff, its task section and
  the resume prompt.
- `src/agents/codex.rs` — the Codex adapter's status, arguments and result.

`app/` reads the directory, runs git and Codex, and serialises the reports.
