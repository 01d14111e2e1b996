# thanos

A minimal L4 load balancer. The library under `src/` holds its decisions,
each proved against its contract:

- `config/` reads the configuration language (`key = value;` statements,
  `#` comments) into settings and puts the command line settings over them;
  `config/keymatch.rs` knows the words of the language.
- `text.rs` and `number.rs` give the character-level operations it rests on
  (trimming, splitting, line breaking, decimal numbers).
- `balance.rs` decides over a snapshot of the active servers: joining,
  leaving, round robin and least connections.
- `lib.rs` holds the shared `Backend`, whose active list is published
  through `arc_swap`.
- `health.rs` is the health check's state machine, `proxy/` the failure
  threshold of proxied connections, `logs/` the kinds of log message.

`app/main.rs` is the program: command line, files, sockets and the tokio
tasks that run the decisions above.
