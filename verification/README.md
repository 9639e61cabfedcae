# rum_framework

A small HTTP web framework, verified with Verus.

Routes are kept in a tree of path segments. A segment written `:name` is a
parameter: it matches any request segment, and the value is handed to the
handler as a URL parameter. At each depth a request follows the segment it
names where a route continues with it, and the parameter segment otherwise.

`src/` is the verified library:

- `router` – the route tree, its model as a table from (pattern, method) to
  handler, registration with its conflict rules, lookup, the route listing,
  and the laws relating them.
- `handler`, `server` – the two route collections an application uses, and
  how a route string becomes segments.
- `request` – reading a request's text: request line, query, headers, body,
  form parameters.
- `dispatch` – reading and routing a request into what to do next.
- `context`, `params`, `response`, `status_code`, `method` – what a handler
  sees and builds.
- `text` – the string operations the rest is written with.
- `external` – the calls into `tera`, `mime` and `mime_guess`.

`app/` is the I/O around it: loading templates from disk, reading static
files, and serving connections on a thread pool.
