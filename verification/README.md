# toolbx-zed

Lets the Zed editor work on files inside a Toolbx container. Run as `zed`, the
program rewrites the paths it is given into SSH URLs of the form
`ssh://<uid>@<container id>.toolbx/<path>` and starts Zed with links named
`ssh` and `sftp` first on its search path. Those links lead back to this
program, which then serves the connection with `podman exec` and uploads with
`podman cp`.

Layout:

- `src/` — the verified library (Verus): argument reading for the three front
  ends (`ssh.rs`, `sftp.rs`, `zed.rs`), the destination format (`dest.rs`), the
  container description (`container.rs`), paths and the search path
  (`paths.rs`), command descriptions (`command.rs`), errors (`error.rs`) and
  the string operations they rest on (`text.rs`).
- `app/` — the program: environment, files, processes, signals and logging.
- `tests/` — tests of the library on concrete values.
