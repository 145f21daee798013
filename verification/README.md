# wt

A git worktree manager (`wt new`, `wt ls`, `wt rm`, `wt path`, ...).

- `src/` is the verified library:
  - `text.rs`: the string operations the tool relies on (`trim`, `lines`,
    `split_whitespace`, `replace`, `u32` parsing and printing, padding),
    each stated as a spec function and implemented by a verified loop;
  - `git.rs`: the git invocations, what their results mean, and the parsers
    for `git worktree list --porcelain` and `git status --porcelain=v2`;
  - `config.rs`: merging the global and per-repo configuration, and where a
    new worktree goes;
  - `commands/`: what each subcommand decides, given what git reported;
  - `style.rs`, `paths.rs`: terminal colours and path operations, taken from
    `owo-colors` and `std::path` behind small trusted wrappers;
  - `error.rs`: the errors and their messages.
- `app/` is the command line tool: argument parsing, running git, reading the
  configuration files, copying files and running setup commands.
- `tests/` exercises the library on concrete values.
