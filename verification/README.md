# streaming_engine

The decision logic of an on-the-fly audio processing server: audio is fetched by a key,
processed as the parameters of a URL ask, cached and streamed back.

The rules of the server stand in `src/` as functions over plain values, verified with
Verus. Sockets, files, tasks and the codec library stand in `app/`, which asks the library
what to do and does it.

## Layout

| Module | What it decides |
|---|---|
| `text`, `float64`, `paths`, `tags`, `blob` | texts, numbers by their bit patterns, file paths, tags, byte buffers |
| `utils` | errors and the status that each is answered with |
| `streamingpath` | route prefixes, storage names made of digests, the signature of a path |
| `middleware` | `Range` headers, the answer with audio, the response cache, admission |
| `inflight` | who leads, waits or fails among identical requests in flight |
| `disk_evictor` | the size of a cache directory, and which files go |
| `cache`, `storage` | the response caches, and a local cache before a remote storage |
| `processor`, `ffmpeg` | filter chains and jobs, decoding step by step, metadata |
| `thumbnail` | the search for the most representative part of a recording |
| `routes` | what each route answers |

Functions named `law_*` state what holds of the library as a whole. Items marked
`#[verifier::external_body]` are the boundary to other crates; what they claim is in their
doc comments.

Samples and durations are floating-point numbers, which the library holds by their bit
patterns: it compares, rounds and writes them, and leaves their arithmetic to `app/`.
