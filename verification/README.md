# macro-bus

A message bus for one host or a small cluster, with a line-based text protocol:
clients register message types, publish to the types they own, and subscribe to
any type. Daemons forward messages and registrations to each other over mutual
TLS.

The library under `src/` holds the logic and is verified with Verus: its functions
state what they return or change, over a mathematical model of their data, and
the `*_laws` modules prove what holds across functions. It does no
input or output of its own. `app/` is the program around it: the command line,
files, sockets and timers.

| Modules | What they hold |
| --- | --- |
| `text`, `number`, `wire`, `frame`, `validate`, `status`, `reply` | text, lines, blocks, status codes |
| `command`, `message`, `body` | what clients send |
| `registry`, `table`, `seen`, `queue` | ownership, subscribers, fan-out, loop prevention |
| `conn` | the server's side of a client connection |
| `client` | the client's side |
| `federation` | links between daemons |
| `config`, `server`, `cli`, `tls` | settings, the socket's path, output texts, TLS material |
| `protocol_laws` | what one side writes, the other reads |
| `registry_laws` | ownership, convergence, duplicates, subscriptions, drops |
| `session_laws`, `exchange_laws` | ordering, subscriptions, names and answers across steps |
| `run_laws`, `drop_laws` | the response discipline, split input and drops over whole runs |
| `client_laws` | split input on the client's side |
| `federation_laws` | frames, forwarding, reconciliation, redialing |

What is taken on trust stands next to the outside call it is about: the queue and
the wake-up flag of `tokio` in `queue`, `rustls` and `rustls-pemfile` in `tls`,
the clock in `conn`, and a few functions of the standard library in `text` and
`queue`.
