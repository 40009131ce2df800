# wasmhive

The core of a map-reduce system whose workers are browser tabs, verified with Verus. A native
master splits a job into chunks, ships a WASM module and data to the workers over WebRTC data
channels, and reduces what comes back.

`src/` is the verified library. It takes the decisions and computes the bytes; it does no I/O.

| Module | What it holds |
|---|---|
| `protocol` | the binary wire protocol: frames, payloads, reassembly |
| `channel` | what a message on a worker's data channel comes to |
| `job` | one job: dispatch, retries, timeouts, results in chunk order |
| `workers` | which workers are available |
| `sending` | frames one after the other over a channel that can be too full |
| `signaling` | the JSON conversation with the signaling server |
| `pipeline` | encoding chunks before a job, decoding and reducing results after it |
| `direct` | the one-round numeric path |
| `numeric`, `video`, `crawl`, `raytrace`, `bench` | what the programs compute |
| `worker` | what the workers run: gray frames, page titles |
| `setup`, `options`, `parse`, `json`, `text`, `slots` | choices, texts and small parts |

What holds across functions stands as public proof functions next to them, and in
`protocol::laws` and `job::laws`.

`app/` is the program around the library: connections, files, floating point. `tests/` runs the
library on concrete values.
