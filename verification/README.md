# git-scribe

`git-scribe` suggests a commit message for the staged changes of a Git repository. It combines the
staged diff with the README, the working-tree layout, the branch, recent commit subjects and the
structure of changed Rust code into one prompt that fits the model's context window, asks a local
model through Ollama, and prints the message or opens Git's editor with it.

## Layout

* `src/` is the library, verified with Verus. It holds every decision: what a prompt says and how it
  is kept within its budget (`generation`), how diffs, name-status output and working trees are read
  (`git`), which code a change affects (`syntax`), what is shown (`terminal`), what is sent and
  received (`ollama`), how settings are combined (`cli`), and the course of one run (`run`,
  `session`).
* `app/` is the program around it: arguments, libgit2, HTTP, files and the clock.
* `tests/` runs the library on concrete values.

The functions that call other crates from the library state in their doc comments what is taken on
trust of them: parsing and querying with Tree-sitter, reading durations with humantime, and a few
conversions of the standard library.
