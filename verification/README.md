# laundry_relay

A relay between people who want to start or watch washing machines and the clients that
stand beside the machines. `src/` holds its rules, verified with Verus; `app/` is the
server around them.

| module | what it holds |
| --- | --- |
| `registry` | the connected clients, signs of life, the sweep of the silent |
| `requests` | requests that a client has to answer, and what the requester is told |
| `connection` | the WebSocket connections of clients and of requesters, as state machines |
| `archiver`, `files`, `rotation` | which documents are fetched, where they are kept, how older copies are kept |
| `machines` | what goes into the table of machines, and what is answered out of it |
| `jobs` | background jobs, one of each kind at a time |
| `json`, `clock` | the calls into `serde_json` and `chrono` |
| `query`, `reply`, `log`, `text` | parameters, answers, log lines, texts |

What is trusted and not proved is marked `external_body` or `assume_specification`, all of it
in `json` and `clock`. The contracts of these items speak of six names without a body, which
stand for what `serde_json` holds, reads and writes: `json_tree`, `json_members`, `json_parse`,
`json_parse_bytes`, `json_text` and `json_pretty`.

Laws that relate several functions are the public proof functions
whose names begin with `law_`.
