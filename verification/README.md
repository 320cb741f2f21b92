# llm-orch

A single-host orchestrator for LLM backends: it spawns `llama-server` (and
compatible) processes on demand, places them on GPUs by declared VRAM, routes
and queues requests, scales by load, and reloads its configuration at runtime.

The logic is a verified library under `src/`: Verus proves the contracts of its
functions, except for the few that only make a call into another crate or into
an unspecified part of the standard library, whose contracts are believed (see
the end of this page). `app/` is the program around it: HTTP, processes,
timers, files and floating-point averages. It hands the library plain values
and carries out what the library decides.

## Layout of the library

| Modules | Subject |
| --- | --- |
| `config`, `settings`, `fingerprint` | configuration rules, the settings in use, what makes an instance stale |
| `apikeys`, `server` | API keys, authentication, errors |
| `gpu`, `nvidia`, `placement`, `keepalive` | device metrics, placement, keep-alive references |
| `port_alloc`, `backend`, `spawning` | ports, command lines, spawning and readiness |
| `instance`, `scheduler`, `acquire`, `unload`, `autoscale`, `reconcile`, `metrics` | the scheduler as a state machine |
| `handlers`, `forwarding`, `exchange`, `multipart`, `sse`, `debug_log`, `types` | requests, replies, streams and logs |
| `reload`, `watcher` | reloading and file watching |
| `stub` | a canned backend for trying the program out |
| `json`, `text`, `numbers`, `names` | JSON access, texts, number formats, maps by name |
| `laws` | what holds of the scheduler across its operations |

The scheduler's model is `scheduler::State`: each operation of
`InstanceManager` is stated as a function on it, and the laws speak of those
functions. What the library takes from other crates (`shlex`, `serde_json`,
`base64`) and from the standard library without a specification stands behind
small functions marked `external_body`, and one `assume_specification`. Verus
takes their contracts as given and proves nothing of them; their doc comments
say what is relied on.
