# graft

graft brings a user's environment into any container: it copies personal tools
together with the shared libraries that they need into a running Docker
container and opens a shell there. It also drives devcontainers: `graft up`
reads `devcontainer.json`, brings the container up, installs features, runs
lifecycle hooks, grafts the environment on top, and forwards the container's
ports. With `--remote`, all of it happens on another host over ssh.

The project is written in [Verus](https://github.com/verus-lang/verus).

- `src/` is the library. It decides everything and runs nothing: commands are
  values, and what came of them is handed back. Every function is verified
  against its contract. The few functions of the standard library and of other
  crates that it rests on are named in `text.rs` and `devcontainer/hash.rs`.
- `app/` is the command: it reads the command line and the files, runs the
  commands, asks the user, and carries the connections.
- `tests/` runs the library on concrete values.

The laws that relate several functions stand at the end of each module, as
public proof functions: that a shell reads a quoted command line back as the
words that it was made of, that features are installed behind what they depend
on, that a start comes to an end, that an unchanged configuration asks nothing.
