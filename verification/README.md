# sluuz (`slu`)

git, but it sleuths - a git superset with cross-repo search, secret scanning,
and multi-repo management, plus terminal views for repos, branches, tags,
logs, stashes, the working tree and finished branches.

## Layout

- `src/` - the library, verified with Verus. Everything the commands decide
  lives here with its contract: how git's output is read (branches, commits,
  tags, status, remotes, diffs), how a diff is laid out side by side and
  coloured (through syntect), which rows a scope and a filter keep, what a
  key does in each view, what a delete asks and what a note says, how the
  help and the shell completions are laid out. Laws that span functions stand
  as public proof functions (`lemma_*`).
- `app/` - the program around it: argument parsing, running git, walking the
  filesystem, the terminal loops and the drawing. It hands the library plain
  values and acts on what comes back.
- `tests/` - the library's tests, on concrete values.
