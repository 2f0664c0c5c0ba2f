# mqagent

Network quality measurement for MikroTik RouterOS. Agents run as containers on
routers, probe each other in a mesh and report latency, jitter, loss,
reordering, DSCP conformance, voice MOS and throughput to a controller.

The logic is a Verus library: the functions under `src/` carry contracts that
Verus proves, but for the few calls listed below, and what holds across functions
stands there as public proof functions whose names begin with `law_`.

## Layout

| Place | What is there |
|---|---|
| `src/proto` | The wire formats: MQP and TWAMP-Light. |
| `src/probe` | Senders and reflectors, without their sockets. |
| `src/collector` | Samples to RTT, jitter, loss, reordering and DSCP figures. |
| `src/tasks`, `src/spool.rs` | The cached plan and the store-and-forward queue. |
| `src/agent` | What the managed agent does next, and the results it submits. |
| `src/controller` | The controller's API shapes, errors and backoff. |
| `src/discovery`, `src/routeros` | Reading a router's tables, and what is wrong with the network. |
| `src/config.rs`, `src/cli` | Settings, command lines and reports. |
| `src/text.rs`, `src/net.rs`, `src/json.rs`, ... | The ground the rest stands on. |
| `app/` | Sockets, HTTP, files, signals, and the floating-point E-model. |
| `tests/` | The library at work on concrete values. |

## What is believed without proof

A few calls leave the library: `serde_json` reads and writes JSON, `rand` draws
the jitter of a backoff, `time` writes RFC 3339 timestamps, and the standard
library sorts integers, quotes strings and reads the clocks. Each stands behind
one small function whose contract says what is relied on; the two that convert
JSON values between the library's type and `serde_json`'s promise nothing of
themselves.
