# erika

Media sources that are read by byte ranges: local files, file descriptors handed over by a host,
and resources on HTTP servers.

The library under `src/` makes every decision and is verified: which source a URI stands for, what
to ask an HTTP server for, when to try again and when to give up, what to believe of its answers,
what to keep cached, what to prefetch. Apart from reading the monotonic clock it performs no input
or output. A fetch, a read or the search for a length is a series of steps: the library names a
step, its caller performs it and reports what came of it.

| Module | |
| --- | --- |
| `text`, `range`, `content_range`, `headers` | numbers and ranges in text, and what response headers say |
| `retry` | when an HTTP exchange is tried again |
| `fetch` | fetching a range, resumed where a transfer breaks off |
| `length` | finding out how long a resource is |
| `http_source`, `http_read` | the window of cached bytes, and reads through it |
| `whole_reads`, `full_reads`, `live_reads`, `open_reads`, `read_limits` | what holds of reads from beginning to end |
| `fd_uri`, `owned_fd` | `fd://` URIs and the descriptors they name |
| `select` | choosing the source for a URI |
| `redact` | addresses and messages for logs |
| `luma`, `lut` | sampling frames, and the layout of the gamut table |

`app/` performs the steps: sockets, files, threads, waiting and the environment. The floating-point
arithmetic of luminance statistics and gamut mapping stands there too.
