# cfspeedtest

A command-line client for Cloudflare's speed test service
(`speed.cloudflare.com`): it shows where the client is connected from,
measures latency, then download and upload bandwidth.

- `src/` is the verified library: the parsers for the service's text
  responses (`trace`, `server_timing`), the data-centre table
  (`locations`), the requests it builds (`endpoints`), the lines it shows
  (`meta`), and the decisions of the measurements (`latency`, `bandwidth`),
  with the character helpers they share (`text`).
- `app/` is the program around it: HTTP requests, JSON decoding, tasks and
  channels, the progress display, and the floating-point statistics.
- `tests/` exercises the library on concrete inputs.
