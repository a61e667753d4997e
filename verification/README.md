# irixmail

The mail-handling core of an SMTP server with Sieve filtering, written in
Verus: every function in `src/` carries a contract that the verifier checks.

## Layout

- `src/sieve/` — the Sieve filter language: lexer, compiler to a jump-based
  instruction list, encoded-character decoding, string matching, message
  headers and the interpreter that runs a compiled script over a message.
- `src/smtp/` — the SMTP side: the command parser, the replies to each
  command, the session state machine, SASL authentication, the inbound
  checks (loop detection, blocklists, SPF/DKIM/DMARC/ARC decisions, spam
  verdict, greylisting, rate limits), the outbound queue model with its
  retry schedule, leases, concurrency slots and delivery bookkeeping, and
  delivery status notifications.
- `src/text.rs` — small verified string and byte helpers.
- `app/` — the I/O around the library: the async session runner over a
  socket, the clock, the shared delivery limiter, and the stored form of
  queue records.
- `tests/` — the test suites, run against the compiled library.

## Where the outside world comes in

The library calls a few outside crates through small trusted wrappers whose
contracts state what the crate does: `smtp-proto` to read command lines and
render the EHLO reply, `mail-parser` to read message headers, `base64` for
SASL payloads and `serde_json` for stored settings. Where such a call is
followed by logic of the library, a public verified function also takes the
call's result directly (`execute_with_fields`, `MessageView::from_fields`,
`OutboundLimits::from_fields`, `tune_connection`).

Everything that waits on a socket or a clock, or holds shared state, is in
`app/`: the async session runner (with hooks for the services a deployment
attaches; only a hook set with no services is provided), the clock, and a
shared delivery limiter whose slots are freed when dropped.

The DNS lookups, the message store, the directory, DKIM/SPF/DMARC/ARC
evaluation, DKIM signing, the listeners and the outbound SMTP client are not
part of this project: the crates they rest on are not available here. The
library verifies the decisions taken on their results (for example
`rate_gate`, `apply_attempt`, `bounce_report`, `gauntlet_verdict`,
`delivery_refusal`), which a complete deployment would feed from those
services.
