# greeter

A greeter service: a gRPC API to echo a name, file greetings and read them back,
plus HTTP health and Prometheus metrics endpoints.

- `src/` is the verified library (Verus):
  - `config` — the service settings and the parsing of their environment variables;
  - `db` — the in-memory greetings store, its identifier generator and timestamps;
  - `grpc` — the request logic of the greeter (`grpc::metrics`: which status each
    request is counted under, once);
  - `http::health` — the probe answers.
- `app/` is the executable around it: environment, locking, tonic/axum servers,
  tracing and metric emission.
- `tests/` exercises the library on concrete values.
