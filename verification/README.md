# rustybgp

A BGP daemon whose routing core is verified with Verus.

`src/` is the core, a library: the routing table and the choice of best routes, the authorizations
that routes are held against, what peers and monitoring stations are told, the sessions with peers
and caches, and the requests of the management interface. Its functions do no input or output.
They take the state and an event, and give back what there is to do.

| module | what it holds |
| --- | --- |
| `addr`, `time`, `bgp`, `rtr`, `bmp`, `api` | the values that messages and requests are made of |
| `vecmap`, `lists` | maps, and facts about sequences |
| `path`, `rib`, `table`, `snapshot` | routes, the routing table, and copies of it |
| `update` | what peers are told about routes |
| `roa`, `cache` | authorizations, and the sessions with the caches that announce them |
| `counter`, `peer` | counters, peers and the speaker itself |
| `event`, `change`, `session`, `server` | sessions with peers, and what the server does about events |
| `service`, `listing`, `native`, `show` | the requests of the management interface |

`app/` is the daemon around it: sockets, timers, channels and the gRPC service. It takes the codecs
of the wire formats from the crate `proto` of the same workspace, and the gRPC types from the code
that is generated for `gobgpapi`.

`tests/` holds the tests of the library.
