# rsintercept

An upstream http proxy that supports websockets. What it decides is a library verified with
Verus, in `src/`; `app/` is the program around it, which listens, connects, reads and writes.

- `path`: the label that a request is counted under, its path cut after a number of segments.
- `headers`: whether a request asks for a websocket, and the host that it names upstream.
- `exchange`: one request, from the client to upstream and back.
- `relay`: one direction of an open websocket.
- `metrics`, `counters`: what is counted, in counters of the `prometheus` crate.
- `log`, `calendar`: lines of the log, and the times that they bear.
- `tls`: certificates and private keys from files in PEM form.
- `args`: the command line.
- `text`: what the rest uses of strings.
- `exchange_laws`, `relay_laws`: what holds over any sequence of events.

Functions marked `external_body`, and the names declared `uninterp`, stand for calls into other
crates. Their contracts are not proved; each says in words what it claims of the crate it calls.

## Metrics

The counters that carry a path, and their names:

```console
rs_intercept_non_websocket_total{path="/abc"} 2
rs_intercept_websocket_messages_total{path="/abc"} 8
rs_intercept_websocket_sessions_total{path="/abc"} 1
```

Messages are counted where the proxy receives them from the client. `rs_intercept_websocket_fail`
and `rs_intercept_non_websocket_fail` count the requests that upstream could not be had for.
