# clusterit

A tool for setting up and maintaining servers over SSH. A *clusterfile*
module lists shell commands, grouped into steps by blank lines, and may pull in
other modules; `clusterit apply <module> <destination>` runs it on a device.

## Layout

- `src/` is the library, verified with Verus:
  - `text.rs`: character helpers (slicing, trimming, splitting, decimal
    numerals and their parsing);
  - `arena.rs`: the parse arena and its laws; `render.rs`: showing an arena as
    an indented tree;
  - `parse.rs`: the line syntax of clusterfiles and the parse state machine,
    with the laws on the shape of the tree it builds; `module.rs`: modules;
    `error.rs`: parse errors;
  - `destination.rs`: SSH destinations `ssh://[user@]host[:port]`;
  - `device.rs`, `state.rs`: devices, their credentials and the state file's
    content;
  - `setup.rs`, `k3.rs`, `keys.rs`, `cluster_config.rs`: recognising boards and
    distributions, setup steps, the cluster state, key files.
- `app/` is the program around it: the command line, files, SSH sessions,
  terminal prompts and the JSON/TOML formats.
- `tests/` runs the library on concrete inputs.
