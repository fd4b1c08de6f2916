# HermesMQ client

A client for [hermesmq](https://github.com/hyperiondb/hermesmq), a
Raft-replicated message queue. The decisions of the client are a library that
Verus verifies; the Node.js addon around it does the input and output.

- `src/`: the library.
  - `wire`: the messages, and how they become bytes and come back.
  - `frame`: messages on a connection.
  - `cluster`: the members, their idle connections and their pipelines.
  - `exchange`: one request to one node.
  - `call`: which node a request goes to, redirects and retries.
  - `pipeline`: many requests under way on one connection.
  - `client`: the operations and the requests that they send.
  - `replies`: what the caller of an operation gets.
  - `subscription`: messages that are pushed to a consumer.
  - `backoff`, `text`, `error`: waits, decimal numbers, failures.
- `tests/`: tests of the library.
- `app/`: the addon: sockets, tasks and JavaScript values.

Proof functions whose names begin with `law_` state what holds of the library
as a whole.
