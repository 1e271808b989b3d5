# connector

A small HTTP library in the style of Elixir's Plug: each request becomes a
`Connection`, a handler matches its method and path against route patterns such as
`/user/:id/comments/:comment_id`, sets a status and a body, and sends the response.

A pattern is matched chunk by chunk from the start of the request path: each literal
must come next in the path, a variable takes the text up to the next `/`, and whatever
follows the last chunk is ignored. So `/issues` matches `/issues/new.html` but not
`/style.css`, and `/user/:id/edit` matches `/user/42/edit` (capturing `42`) but not
`/user/42/show`.

- `src/` is the verified library: the connection and its send-once response
  (`connection`), route patterns and path matching (`connection::routing`), the path
  grammar of the routing macro (`route`), and the issue tracker's record and route
  tables (`gumshoe`).
- `app/` runs it: the hyper/tokio server and response delivery, the routing macro's
  code generator, and the demo servers.
