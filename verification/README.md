# tickets

A small work-tracking system of three Theater actors, with its logic verified
in Verus:

- the **acceptor** checks its start-up configuration (`api_token`,
  `inbox_api`, `inbox_token`, none of them empty, and optionally
  `handler_manifest`), records the API token and inbox settings in the store,
  and hands each TCP connection to a fresh handler started from the configured
  manifest, or from the default one where none is given;
- the **handler** answers one HTTP request: bearer-token authorization, routing,
  listing (with `status` and `assignee` filters), showing, creating tickets,
  changing their status (`open`, `in-progress`, `done`, `closed`) and adding
  comments to their thread; after each saved change it mails the assignee
  from `tickets@colinrozzi.com` through the inbox service, best effort (a
  failed lookup or send leaves the reply as it is, and nobody is told of
  their own comment);
- the **client** turns a command into an API call, writes the request, reads
  the reply off the connection and prints it.

Layout:

- `src/` — the verified library. `text` (searching, words, trimming, decimal
  numbers), `http` (response framing, percent-encoding, query strings, bearer
  tokens), `ticket` (the ticket list rules), `handler` (the request machine),
  `cli` (command planning, request text, reply reading, output, timestamps),
  `acceptor` (configuration, the start-up machine and the connection
  hand-over machine), `exchange`
  (laws relating what one side writes to what the other reads).
- `app/` — the actors' host side: imports and exports of the runtime, JSON
  encoding with serde, and the loops that carry out what the library's
  machines ask for.
- `tests/` — tests of the library on concrete values.
