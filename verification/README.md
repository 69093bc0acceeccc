# wasm-proxy

A reverse proxy whose requests and responses pass WebAssembly plugins, with its
logic verified by Verus.

## Layout

- `src/` is the library. Its functions are verified against their contracts, but for
  the calls into other crates, whose contracts are believed (see "Trusted code").
  - `proxy` carries a request from step to step: route, size limits, plugins,
    backend, plugins again, answer.
  - `plugin` loads plugins and runs their hooks; `sandbox` holds the calls into the
    `wasmi` interpreter; `json` writes what plugins are handed.
  - `headers`, `config`, `metrics`, `hot_reload` and `server` are what their names
    say; `text` and `string_map` serve them.
  - `guest`, `admin_blocker`, `admin_guard` and `error_masker` are the example
    plugins, from the inside.
  - `laws`, `shared_laws`, `json_laws` and `plugin_laws` state what holds across
    functions.
- `app/` is the program: sockets, files, signals, logs, YAML and the decoding of
  plugin decisions.
- `tests/` runs the library, with WebAssembly modules assembled in the tests.

## Plugins

A plugin is a WebAssembly module, in binary form or, in a `.wat` file, in text form. It
exports its memory as `memory`, a function `alloc(len: i32) -> i32`, and one
or both of `filter_request` and `filter_response`, each `(ptr: i32, len: i32) -> i64`.
A hook reads JSON at `ptr`:

```json
{"method":"GET","path":"/admin","headers":{"x-api-key":"secret123"}}
{"status":503,"headers":{"content-type":"text/plain"}}
```

It returns `(out_ptr << 32) | out_len`, the place of its decision:

```json
{"action":"continue","add_headers":{"x-plugin-checked":"admin_guard"}}
{"action":"block","status":403,"body":"missing or invalid api key"}
```

The first plugin that blocks ends the request. Headers that plugins add are set on
the response; a later plugin decides over an earlier one.

## Configuration

```yaml
listen_addr: "127.0.0.1:8080"
request_timeout_ms: 5000   # optional
max_body_bytes: 10485760   # optional
routes:
  - path_prefix: "/api"
    backend: "http://127.0.0.1:9001"
  - path_prefix: "/"
    backend: "http://127.0.0.1:9002"
plugins:
  - "admin_guard.wasm"
  - "error_masker.wasm"
```

The first route whose prefix matches decides. A change in the directory of the
configuration reloads configuration and plugins, both or neither; a request keeps
the state that it began with.

## Trusted code

The contracts of `wasmi`, `wat`, `hyper`, `serde_json` and `String::push` are believed,
not proved. They stand in `sandbox`, `headers`, `proxy`, `json` and `text`, each with a
comment that says what is claimed.
