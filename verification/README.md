# forge_worker_sdk

Building blocks for Forge worker processes: a local IPC protocol between a
supervisor and a worker, carried in length-prefixed frames
(`[u32 big-endian length][u8 kind][payload]`, payload encoded as
MessagePack or JSON), with control-plane RPCs (`ping`, `health`,
`capabilities`, `shutdown`, `cancel_job`, `job_status`) and job progress
events.

Layout:

- `src/` — the library, verified with Verus: framing over a `bytes::BytesMut`
  stream (`framing`), the JSON value model (`json`), wire messages
  (`protocol`), cancel tokens (`cancel`), the job registry
  (`job_registry`) and the control plane (`dispatcher`).  Each module states
  its contracts over abstract views and proves the laws of the protocol:
  frames read back as written, the registry keeps job ids distinct,
  cancellation fires the job's own token (and so the signal paired with
  it) and deactivates the job, an event the channel accepts is recorded on
  the named job alone, eviction keeps active jobs and the finished ones that
  started last, and every control-plane answer echoes its request.
- `app/` — the transport around it: serde shapes of the messages, the Tokio
  codec, the product-handler trait with its dispatcher, and the async server
  on Unix sockets and Windows named pipes.
- `tests/` — the test suite.
