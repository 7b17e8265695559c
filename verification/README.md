# memo

A small command that records short Markdown notes in a Git repository, with
the rules it follows proved in Verus.

- `src/` is the verified library:
  - `text.rs`: trimming, splitting and decimal numerals, each against a
    specification over character sequences;
  - `tags.rs`: the tag rule and the order-keeping removal of repeated tags;
  - `config.rs`: the configuration file format and its keys;
  - `cli.rs`: the command line;
  - `entry.rs`: the environment name, the note's text with its YAML front
    matter (memo's own, or a metadata script's output), its name (the
    SHA-256 of its text, through the `sha2` crate) and where its copies go;
  - `registry.rs`: the user's tag registry, one tag per line;
  - `repo.rs`: whether the repository may be used, the branch state, the lock and the
    error file;
  - `sync.rs`: the background synchronisation as state machines that answer
    each Git outcome with the next step: the reset to the upstream only where
    no memo changes are pending, and the rebase that resolves conflicts by
    itself.
- `app/main.rs` runs the command: it reads the environment, the files and
  Git, and performs what the library decides.
- `tests/` exercises the library on concrete values.
