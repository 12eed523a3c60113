# micro_xrce_dds_rs

A micro-ROS / XRCE-DDS client for `no_std` targets, speaking to a micro-ROS
Agent over a length-prefixed TCP stream, with its protocol logic verified by
Verus.

## Layout

- `src/` — the verified library. Every function carries a `requires` /
  `ensures` contract over a byte-level model of what it produces or reads:
  - `wire`, `protocol`, `framing`: byte encodings, protocol constants, the
    TCP length prefix.
  - `cdr`, `cdr_reader`: the CDR writer and reader, with read-after-write
    lemmas for every primitive.
  - `message`, `ros2`, `action`, `service`: the `Message` trait, the
    message types (std_msgs, action wrappers, service sample identity) and
    the laws that a decode gives back what an encode wrote.
  - `rt`: the XRCE message encoders and reply parsers, the session
    bookkeeping (`SessionState`: identity, counters, the pending CREATE, the
    disconnect flag) and the decoding of received frames.
  - `creation`: the step functions that decide how a node, a publisher, a
    subscription, a service client and a service server are created on the
    agent (which index, which parent, which CREATE frame, in which order,
    when to register a slot and send READ_DATA, where to stop).
  - `publisher`, `subscription`, `node`, `session`: WRITE_DATA frames,
    dispatch, entity XML descriptions, the standalone session's counters.
  - `service` also holds the client side of a call (`begin_call`,
    `end_call`): the sequence number, the pending call, the request frame.
  - `bounded`: the `heapless` collections used by the library and the
    contracts it relies on for them.
- `app/` — the async runtime around the library (Embassy channels, mutexes
  and signals, the executor task that owns the transport, node / publisher /
  subscription / service / action handles, the floating-point messages and
  the standalone blocking-style session). It moves frames, waits, and holds
  shared state: it carries out the actions the library's step functions
  return and reports their outcomes back. What it keeps is plumbing: locks
  and signals, emptying an inbox of a stale reply before a call, and
  registering a slot in the dispatch table when a step asks for it.
- `tests/` — tests of the library on concrete values.
