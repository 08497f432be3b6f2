# nut_shell

An interactive command shell for small systems, written in Verus and
verified: commands live in a constant tree of directories, each with an
access level; the shell reads one character at a time, edits the line,
completes names with Tab, recalls history with the arrow keys, optionally
asks for a login, and runs commands through an application-supplied
handler.

## Layout

- `src/shell/` — the shell itself. `model.rs` states, for every input
  character, the next state and the exact text shown (`step`); `mod.rs`
  implements `Shell` and proves it against that model; `nav.rs` walks the
  tree (paths, prompt, `ls`); `laws.rs` holds properties of the model
  (access control, password masking, history recall, ...);
  `decoder.rs`, `parser.rs` and `history.rs` are the input state machines
  and the command history.
- `src/tree/` — the command tree, path parsing and tab completion.
- `src/auth/` — access levels, users, SHA-256 password hashing (through
  `sha2` and `subtle`) and credential providers.
- `src/response.rs`, `src/error.rs`, `src/config.rs`, `src/io.rs` —
  command responses, errors and their texts, configurations, and the
  character I/O trait.
- `src/text.rs`, `src/bounded.rs` — character-level text functions and a
  fixed-capacity string.
- `src/minimal.rs` — a minimal access level, I/O and handler.
- `tests/` — runtime tests.

The shell's contracts that involve access decisions hold when nobody is
logged in, and otherwise for access-level types whose comparison follows
its specification (`ordered`); `Level` in `src/minimal.rs` is one.

What the application supplies is described by relations that its
implementations define: `CommandHandler::executes` (the answers of the
handler to a command id and its arguments) and `CredentialProvider::finds`
and `accepts` (its lookups and password verdicts). The shell's contracts
say which id and arguments it hands to the handler, which name and
password it hands to the provider, and what it does with each answer.

Fixed-capacity text and lists (the line, the history, the prompt,
completion matches) are the crate's own `BoundedString` and `Vec`s whose
capacity is part of the state's invariant, so that the verifier sees
their contents; no outside collection crate is used. The `String`
fields of `CliError` carry no capacity bound.

A failed command line is reported as `Error: ` followed by a short label
(`report_text` in `src/error.rs`): the argument-count error in full, and
`Unknown error` for the errors that only handlers or authentication give.
