# teleport-box

`teleport-box` runs a local program inside a sandbox that looks like a remote Linux host. The files
come over `sshfs`, commands are run over `ssh`, and `bwrap` isolates the local process. Nothing is
installed on the remote host.

- Remote tools are truth: each program that the remote host has on its search path is replaced by a
  link to the tool, which runs the real one on the remote host.
- Local host tools are denied: every directory of the remote search path that the local system has
  is replaced by links for the remote programs there, by the directory of the remote host, or by an
  empty directory. A program that the remote host does not have is not found, whatever the local
  host has.

```
teleport-box <doctor|shell|exec|codex> [user@]host[:port] [options] [-- command]
```

## Layout

- `src/` decides: it parses targets, builds command lines, quotes words for shells, lays out the
  files of a run, plans what is mounted where, and says what comes after what. It is verified with
  Verus. Functions take what was seen of the world (paths that exist, what a command printed) and
  return what is to be done (arguments, steps on files, the next phase).
- `app/` acts: it reads arguments and the environment, touches files and runs processes.
- `tests/` runs the library on concrete values.

The laws of the library are public proof functions next to what they are about, such as
`shell::quoting_keeps_words`, `targets::plain_targets_read_back`,
`transfer::pulls_stay_in_the_shared_directory`, `bwrap::wrapped_commands_know_the_connection`,
`staging::links_stand_for_remote_programs`, `bwrap::local_programs_are_denied` and `session::what_was_set_up_is_taken_down`.
