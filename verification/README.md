# easy_rpc

A Connect-style RPC core: unary calls and server streams over HTTP, with
structured errors, deadlines, trailers and gzip.

- `src/` is the protocol, written in Verus. Every function has a contract over
  mathematical models, and the properties that span functions are stated and
  proved as public proof functions named `law_…`.
- `tests/` runs the library on concrete values.
- `app/` is the runtime around it: clients over hyper and reqwest, servers over
  hyper and axum, and two conformance servers. It does the I/O and hands plain
  values to the library.

| module | what it holds |
| --- | --- |
| `protocol` | the wire in one place: re-exports, and the paths of methods |
| `message` | requests, responses, errors, descriptions of methods |
| `headers`, `order` | header maps and the order of their names |
| `text`, `decimal`, `base64` | text, numerals, base64 |
| `codes`, `content`, `deadline` | error codes, content types, deadlines |
| `json`, `wire_error` | JSON documents, and errors written as such |
| `gzip`, `framing` | compression and the envelope of streamed messages |
| `trailers`, `incoming`, `outgoing` | header maps joined, received and sent |
| `context`, `server`, `dispatch`, `reply` | the server: what becomes of a request, and what is written in response |
| `stream`, `client`, `bridge_hyper`, `bridge_reqwest`, `interceptors` | the client: what is sent, and how responses are read |
| `conformance`, `conformance_official` | what the conformance services answer |

What the proofs take on trust is marked `external_body`, `assume_specification`
or `uninterp`: calls into `flate2`, `serde_json` and `http`, and a few functions
of the standard library. Each says in its doc comment what is claimed of it.
