# create_process_w

Starting Windows processes with `CreateProcessW`, with the logic verified
by Verus.

- `src/` — the verified library:
  - `command.rs`: the `Command` builder (including the show-window
    command) and `prepare_spawn`, which turns its settings into the request
    for `CreateProcessW`;
  - `env_block.rs`: the environment block (last change per key wins, keys
    compared ignoring ASCII case, variables ordered by lowercased key,
    `KEY=VALUE\0 ... \0` encoding);
  - `env_laws.rs`: the proved properties of the environment (ordering,
    permutation, stability, last change wins, untouched variables
    inherited, reordering changes with distinct keys, where every variable
    comes from, reading and parsing the block back);
  - `child.rs`: the request for `CreateProcessW`, the `Child` record (whose
    handles count as closed once a wait returned the exit status) and the
    decisions on what the Windows calls return;
  - `exit_status.rs`, `binding.rs`: `ExitStatus`, `ShowWindowCommand` and
    the Windows constants.
- `app/` — the Windows calls themselves (`CreateProcessW`,
  `WaitForSingleObject`, `GetExitCodeProcess`, `TerminateProcess`,
  `CloseHandle`), reading the current environment and converting OS
  strings to UTF-16; `Spawn` and `ChildExt` give `Command` and `Child`
  their `spawn`, `status`, `kill`, `wait` and `try_wait`.
- `tests/` — tests of the library.
