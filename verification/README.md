# git-su

Manage several Git identities: switch the Git user of a scope (local, global,
system) by initials, by part of a name, or by `Name <email>`; pair users for shared
commits; list, add and clear users. Saved users live in `~/.git-su` in TOML.

## Layout

- `src/` is the library, verified with Verus. It decides everything: how
  `Name <email>` strings are read, how paired users are named and addressed, which
  saved users a search term finds and which combination of them a search returns,
  which `git config` commands to run and what to print. It runs nothing itself.
  - `text.rs`: white space, trimming, words, searching, joining, over `Seq<char>`.
  - `user.rs`: users, parsing, pairing, name, email and initials.
  - `user_file.rs`, `user_list.rs`: the saved users and the search over them.
  - `git.rs`: scopes, `git config` commands, and the steps that clear a user.
  - `config_repository.rs`: `gitsu.defaultSelectScope`, `gitsu.groupEmailAddress`.
  - `color.rs`: colored output through the `colored` crate.
  - `switcher.rs`: the commands of the tool.
- `app/` is the program: argument parsing (clap), the interactive menu
  (dialoguer), running shell commands, reading and writing `~/.git-su` (serde,
  toml), printing.
- `tests/` runs the library on concrete values.
