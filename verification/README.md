# nicorandompicker

A random video picker for a video search snapshot API, run as a Cloudflare Worker.
The library in `src/` holds its logic, verified with Verus:

- `logic` — the random collection of videos: which searches to send and how to
  combine their pages (`VideoCollector`), given the chance values that its draw
  functions take from `rand`.
- `snapshot` — the search API: the JSON filter language, the query string and the
  request (`request`), the response types (`response`), errors, and fetching details
  by id chunk by chunk (`DetailsFetch`).
- `share_state` — the shareable search state and its compact text encoding (`v1`).
- `api` — validation of search parameters, sessions, rate limits and Turnstile,
  with the decisions of the rate-limit middleware and of a Turnstile verification
  as step functions that `app/` drives.
- `datetime`, `text` — points in time and character-level text utilities.

`app/` is the Worker around it: bindings, routing, HTTP, serde and the async loops
that perform the searches the library asks for. `tests/` runs the library.
