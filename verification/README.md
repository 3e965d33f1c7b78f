# multiplex_stream

Many logical endpoints over one byte stream. Endpoints on the two sides pair
up through a connect/accept handshake, then exchange data frames; every
request is answered by a response that carries the request's identifier.

- `src/` is the verified library: identifiers (`ids`), messages (`message`),
  the endpoint state machine (`endpoint`), errors and request outcomes
  (`error`), the forwarding decisions of a paired endpoint (`transfer`), the state of the worker that serves the shared stream and its
  reaction to every event (`mux`), and properties spanning several operations
  (`laws`).
- `app/` is the asynchronous runtime around it: the tokio tasks that read and
  write the framed stream, the user-facing `MStream` and `MStreamEndPoint`,
  and serialisable copies of the message types.
- `tests/` exercises the library on concrete values.
