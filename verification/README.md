# shell

A small Unix-like shell. The library (`src/`) holds what the shell
decides: splitting a line into `;`-chained commands, `|` stages and
quote-aware words; which builtin a word names; the arguments each builtin
accepts and what it does with them; and the text `ls`, `help`, `history`
and `test_colors` print and the prompt (mode strings, colours, number padding, calendar
dates). Each function carries a contract that Verus proves.

`app/` is the interactive program around it: it reads lines, performs the
file-system and terminal work, and asks the library what to do. It
also keeps what the library cannot hold: the choice of the platform's
cross-device error code, which is made at compile time.

Modules: `text` (characters, trimming, splitting), `path` (joining
operands onto the working directory, `~` for home), `chaining`, `repl`
(words, line planning, shell state), `reg` (builtins and their registry),
`builtins` (per-command decisions and screens), `color`, `ls`, `order`
(lexicographic order, stable sort), `numfmt`, `datetime`, `recall`
(rustyline history), `error`, `history`, `env_vars`, `redirection`.
