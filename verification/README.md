# code_commit

A command-line agent that asks a language model for code changes, applies
them to a Rust project under `.gitignore`-based protection rules, runs
`build.sh`, and repairs until the build passes; it also reviews a project's
module specifications stage by stage (`--aw`), checks consistency (`--cc`)
and rolls the codebase up into one text (`--rollup`).

Layout:

- `src/` is the verified library (Verus). Everything that decides lives
  here: argument parsing, configuration checks, the parsers of the model's
  replies, path cleaning and protection, the prompts, the commit session (a
  state machine from events to actions), the dependency graph and its
  levels, task discovery, the summary of the project, and the reports.
- `app/` is the program around it: reading and writing files, walking the
  project, `git status`, the editor, `build.sh`, the HTTP calls to the model
  and the logs. It hands the library plain values and carries out the
  actions the library returns.
- `tests/` runs the library on concrete inputs.
