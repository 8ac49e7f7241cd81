# nerve

A test client for [Matrix](https://matrix.org/) homeservers. It plays a number
of users: each logs in with a fresh device, sets up end-to-end encryption,
checks the history of its rooms, sends numbered messages (some of them images)
and measures how long messages take to arrive. Several instances can play the
same users; of a user's devices only the first one sends.

The logic is a library that is verified with [Verus](https://github.com/verus-lang/verus);
what talks to the network is ordinary Rust around it.

| Directory | Contents |
|---|---|
| `src/` | the verified library |
| `tests/` | its tests |
| `app/` | the program: arguments, HTTP, the Matrix SDK, sockets, telemetry |

The library decides and computes; it makes no request and opens no connection.
Where a decision follows from what came of a request (logging in, registering,
bootstrapping encryption, shipping datapoints, restarting users), a function
takes the state and the outcome and gives the next state or the next thing to
do.

| Module | Subject |
|---|---|
| `auth`, `registration`, `crypto` | credentials, login, registration, derived secrets |
| `users`, `interval`, `invites`, `config` | settings |
| `message`, `history`, `image`, `damage` | message texts, checking a room's history, PNG images, what damage to them is found |
| `devices` | stale devices and which device is the first |
| `schedule`, `traffic` | what a user does in a round, sending, measuring |
| `datapoint`, `collector` | records, the link to the collector, the collector |
| `lifecycle`, `supervision` | the run of a user, readiness, restarts |
| `telemetry` | how telemetry is exported |
| `text`, `number`, `clock` | the basics |

Called `datapoint`, the program is the collector: `datapoint serve <stride>
[addr] [file]` gathers records, `datapoint cat [file]` prints them.
