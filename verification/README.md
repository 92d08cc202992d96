# orquestra_cli

A command-line client for Solana programs registered on orquestra.dev, or described
by a local Anchor/Solana IDL file: list instructions, run them (build, sign and send
the transaction), derive program-derived addresses, and manage the configuration.

The logic is a library verified with Verus; the program around it is ordinary Rust.

## Layout

- `src/` — the verified library.
  - `wire.rs` — compact-u16 lengths, locating the blockhash, signed wire transactions
    versus bare messages, base58/base64 transaction text.
  - `message.rs` — compiling instructions into a legacy message: the deduplicated
    account table in canonical order, header, keys, blockhash, instructions.
  - `solana.rs` — program-derived addresses, the unsigned message of IDL mode,
    keypairs, signing and simulation payloads.
  - `borsh.rs`, `values.rs`, `numbers.rs` — argument values and their Borsh and
    PDA-seed encodings.
  - `idl.rs`, `api.rs` — IDL contents and API data, and what the commands read from them.
  - `interactive.rs`, `config.rs`, `cli.rs` — the decisions behind the commands,
    the configuration, and the command surface.
  - `laws.rs` — properties that span several functions.
  - `codecs.rs`, `crypto.rs` — the calls into base58, base64, JSON, SHA-256 and
    Ed25519, with the contracts the library relies on.
  - `text.rs`, `strmap.rs` — string helpers and a string-keyed map.
- `app/` — the executable: argument parsing, prompts, files, HTTP and JSON-RPC.
- `tests/` — tests of the library on concrete values.
