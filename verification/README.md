# tenet

Checks code against numbered requirements written in Markdown. Contracts
live in `.contracts/NNN-name/CONTRACT.md` under the directory they cover;
a model judges each file in a contract's scope, and a final question about
the repository concludes the contract.

The library under `src/` is verified with Verus. It holds the rules:
reading contract documents (`parse`, `markdown`), selecting and ordering
contracts and files (`discovery`, `paths`, `order`), reading Git's output
(`git`), the decisions of a run and the questions it asks (`runner`), how
contracts conclude and which evidence they get (`conclusion`), counts and
exit codes (`report`), fixture evaluations (`evals`), the command outputs
(`listing`) and report lines (`format`).

`app/` is the command-line program around it: argument parsing, the file
system, Git processes, snapshots, the terminal and JSONL reports, and the
concurrent run loop that asks the model.

The model client and the source reader come from the `ev-grep` crates,
which this build does not include: `app/evaluator.rs` answers every model
request with an error saying so, and `app/files.rs` reads source files
itself, deciding size, binary content and UTF-8 with the library's
`change::file_text`. Everything up to the model request (the questions,
the sources and the limits) and everything after it (recording answers,
concluding contracts, counts and exit codes) is in the library.
