# mailctl

Email tools for the command line and MCP, with their logic proved in Verus.

The programs discover accounts and mailboxes, search messages and read bodies
within fixed bounds, retrieve and export attachments, provision credentials, and
save unsent drafts whose outcome is kept on disk. Identical retries of a draft
share the recorded outcome, and an uncertain outcome never permits another
APPEND.

## Layout

- `src/` is the library. Every function in it has a contract, and laws that
  relate several functions are public proof functions.
  - `config`, `policy`, `credentials`, `host`, `authentication`, `service`,
    `backend`: configuration, access grants, accounts, and the sharing of
    connections.
  - `imap`: what is sent to a mail server and what its answers come to.
    `wire` and `framing` bound a response while it arrives, `decode` reads
    responses and commands, `fetch` checks rows, `body` and `attachment` read
    parts, `projection` and `discovery` describe messages and mailboxes,
    `append` stores drafts. `body::html` walks a parsed document, bounds it, and
    marks the characters that would be counted otherwise beside their
    neighbours, before it is rendered.
  - `search`, `draft`, `draft_journal`, `export`: pages of results, composed
    messages, the journal of drafts, and files that are written.
  - `frontends`: command lines, setup, terminal output, and the MCP transport.
  - `ipc`, `isolation`: the local broker and the separately provisioned service.
  - `domain`, `encoding`, `text`, `path`, `order`, `digest`, `file_storage`:
    shared types and helpers.
- `app/` is ordinary Rust around the library: files, sockets, TLS, the database,
  serialization, and the two executables.
- `tests/` runs the library with its outside crates.

## What is trusted

The library calls outside crates only through small functions marked
`#[verifier::external_body]`, or through `assume_specification`. Each says above
it which function it calls and what is claimed of it. Results that take pages to
describe (a decoded response, a parsed header, a rendered document, a digest) are
named instead of described; the logic around them stands in functions that take
the result as an argument, and those are proved for every value of it.

What waits for something stays in `app/`: sockets and TLS, the coroutines that
drive the protocol over them, files, the database, and the clock. So does reading
and writing the library's types as JSON or TOML, and the one conversion that
needs a raw identifier, that of a message's structure.
