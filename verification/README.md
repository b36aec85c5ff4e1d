# fetch_relay

A relay that lets applications on a companion device make HTTP requests through
their host. The library in `src/` holds the decisions, verified with Verus:

- `handshake`: sessions with peers, handshake packets, timeouts;
- `caps`, `codec`: what each side can do, and what the two agree on;
- `fetch`, `headers`: the HTTP call that a request comes to, and the answer;
- `base64`, `json`, `text`: the formats that these need.

`app/` is the relay around it: the host, the clock, the log and the HTTP client.
