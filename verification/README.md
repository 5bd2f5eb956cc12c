tokio-proxy-protocol
====================

Headers of the [PROXY protocol](http://www.haproxy.org/download/1.8/doc/proxy-protocol.txt),
verified with Verus.

- `src/` is the library: reading and writing headers of version 1 (`codec`, `proxy`,
  `header`, `text`, `addr`) and version 2 (`codec::v2`), what to do with a connection that is
  accepted (`accept`) or made (`connect`), and reading from a stream behind its header
  (`stream`). `laws` states what holds of all of these together, such as that a header is read
  back as it was written, in whatever pieces it comes.
- `buffer` and `error` hold what is taken on trust: the buffer type of the `bytes` crate, and
  how the standard library reads UTF-8.
- `app/` ties the library to tokio: sockets, streams and frames.

Acceptors and connectors support version 1 only.
