# winx_code_agent

A code agent's tools — reading and editing files with search/replace blocks,
running commands, saving task context, permissions by mode — with the logic
written in Verus and proved against its contracts.

- `src/` is the verified library. Each module states what its functions
  return in `requires`/`ensures` over mathematical models (`Seq`, `Map`,
  views), and the laws that relate several functions are public proof
  functions named `law_*`. Calls into other crates (hashing, globbing,
  diffs, paths, base64, MIME types, random ids) go through small trusted
  wrappers whose contracts are stated next to them.
- `app/` is the program around it: a Model Context Protocol server on
  standard input and output that reads and writes files and runs commands,
  and the similarity scoring and fuzzy search that work on floating-point
  numbers.
- `tests/` exercises the library on concrete values.

Main modules: `text` (the string model: lines, trimming, byte lengths),
`diff` (search/replace blocks with or without per-block diagnostics, simple
edits, large-file edits, word diffs, checkpoints,
git commands), `file` (whitelist of read files, syntax checks, repository
activity, search/replace with tolerance levels), `tools` (the agent's tools),
`security`, `plugins`, `lsp`, `thinking`, `semantic`, `sql`,
`reinforcement`, `integrations`, `error`.
