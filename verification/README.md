# simterm

The verified core of a web-socket terminal: a CGI program that receives
command lines from a browser, runs them, and sends their output back.

`src/` is the library, verified with Verus:

- `text` — character-level helpers for strings: trimming, splitting.
- `escape` — escaping of blanks and shell metacharacters, and unescaping.
- `wildcard` — splitting a file name pattern at its `*` and matching
  directory entries against it.
- `complete` — name completion: prefix tests, longest common prefix, and the
  line a completed command is sent back as.
- `strmap` — a small insertion-ordered map keyed by text, for the
  environment and the aliases.
- `interp` — expansion of `$NAME`, `${NAME}`, `$$`, `$0` and `~`.
- `cmdline` — lexing a command line into words, pipeline stages,
  redirections and the background flag.
- `alias` — alias expansion.
- `paths` — removing `.` and `..` from a path.
- `session` — the decisions of the session loop: input blocks, built-in
  commands, the session's environment and aliases.
- `process` — user input to running children, the emulated commands of the
  Windows prompt, listing details.

`app/` holds the I/O: the `Terminal` trait, the session loop, child
processes, the file system work of the built-in commands, and colouring.
