# io-pim-discovery

Service discovery for PIM (mail, calendar, contacts): given an email
address, find where its services live and how to authenticate.

The library (`src/`) holds every decision of the discovery, verified
with Verus:

- `text`: trimming, ASCII lowercasing and splitting, stated over
  `Seq<char>`.
- `compose::config`: the config model (service, endpoint, username,
  authentication methods, source), endpoint equivalence, the endpoint
  probe URLs and the refinement of methods against advertised schemes.
- `compose::collect`: the reduction of mechanism outputs into one list,
  merging configs that reach the same target.
- `compose::client`: reading an email address, planning the mechanisms
  in priority order, reducing their outputs (all, first, raw), walking
  each config's probe URLs, and applying probe results and resolved
  OAuth issuers.
- `compose::cli`: the requested services of the compose command and the
  table rows of its output.
- `search::all`: the search coroutine as a state machine driven one
  outcome at a time, with its laws stated over whole runs.
- `shared::urls`: URL parsing through the `url` crate.

`app/` holds the std side: the threaded compose client over a pluggable
network mechanism layer, the deadline-bounded fan-out, the search
driver, and the command's flags and table output.
