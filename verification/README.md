# rad

`rad` keeps `rust-analyzer` running apart from the editors that use it. Editors that open the same
workspace share one language server, which goes on running when they close and ends once it has
been idle for long enough.

The library under `src/` holds what decides, proved with Verus:

- `protocol`: messages on the wire. `lsp` are the messages of language servers, `msg` those between
  a client and the daemon, `control_text` the JSON text of their control messages, `control`
  stand-alone control frames, `wire` the numbers in them.
- `mapper`: the ids of requests, so that many clients can ask one language server.
- `instance`: one language server and its clients.
- `manager`: all instances: who shares which, and which end.
- `server`: what the daemon does with a message of a client.
- `client`: what a client asks and what it shows.
- `config`, `logging`, `error`: settings, places of logs, what can go wrong.
- `json`, `buffer`, `table`: the parts of `serde_json`, `bytes` and `dashmap` that the library
  calls, with what is believed of them.
- `text`: strings as sequences of characters.

What holds across functions is stated by the public proof functions whose names start with `law_`.

The program under `app/` does what is left: sockets, processes, files, the command line.
