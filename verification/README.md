# jude_web

A small web site whose visitors keep a session in an encrypted cookie.

- `src/store.rs`: a map from string keys to values, kept as a list without
  repeated keys; sessions and the template cache are such maps.
- `src/json.rs`: how a session is written as JSON and read back (through
  `rustc_serialize`, which is handed only texts whose arrays and objects nest
  at most `MAX_JSON_DEPTH` deep, as its decoder recurses without limit; a
  session's own text nests two deep), and
  how a string is escaped as JSON.
- `src/secret.rs`: the session key (through `sodiumoxide`), the request's
  cookies, and sealing a cookie value (through the `cookie` crate's private jar).
- `src/middlewares/session/`: the session middleware (`SessionWare`: key
  choice, reading the session from a request's cookies, writing it into a
  sealed cookie) and `SessionWrapper`, a request's session with byte values.
- `src/middleware/session/internal.rs`: `Session`, a session with string values.
- `src/templates.rs`: the cache of compiled mustache templates and the page
  made from the bytes that the caller's renderer writes for the cached template.
- `src/handler/`: what each page does to the session.
- `app/`: the iron server: routing, logging, the key file, the middleware
  traits, the process-wide template cache and the typed JSON layer.
