# shvl

A small CLI for organizing NixOS packages into groups: each group is a `.nix`
file under a `.shvl` directory that evaluates to a list of packages.

## Layout

- `src/` is the verified library (Verus):
  - `names.rs`: group names (the naming rules), the path of a group's file,
    the walk decisions over the `.shvl` directory, and the sorted group list;
  - `group.rs`: groups, their file format (writing and reading back), and
    adding and removing packages;
  - `nix.rs`: the part of a Nix expression that a group file is read from, and
    the call into the `rnix` parser;
  - `commands.rs`: what each command computes (new file contents, tables);
  - `config.rs`, `utils.rs`: settings and their precedence;
  - `order.rs`, `text.rs`: string order, sorted lists, splitting;
  - `error.rs`: errors and their messages.
- `app/` is the command line program: argument parsing, the interactive group
  picker, and all file system access.
- `tests/` exercises the library.

## The .shvl directory

It is taken from the first of: the `--dir` flag; the path stored in
`$HOME/.local/share/shvl/dir`; the `base_dir` of the config file (the one named
by `--config`, else `$HOME/.local/share/shvl/config.json`); `/etc/nixos/.shvl`.
