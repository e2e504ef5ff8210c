# wasmedge_hyper_demo

HTTP clients and servers meant to run on WasmEdge with tokio and hyper,
with their decision logic verified by Verus.

- `src/` is the verified library: the I/O adapter (`tokio_io`), request
  planning from a URI (`uri`), body assembly and decoding (`body`), the echo
  handlers (`echo`), routing and answers of the classification server
  (`classify`), the ranking of class scores (`ranking`), and the text helpers
  they share (`lines`, `text`).
- `app/` holds the programs: sockets, TLS, the hyper/axum/warp plumbing and the
  wasi-nn inference, which runs only inside the WasmEdge host. The first
  argument picks the program: `client`, `client-https`, `server-axum`,
  `server-tflite` or `server-warp`.
- `tests/` exercises the library.
