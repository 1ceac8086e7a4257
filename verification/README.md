# zincio_http

The rules of an HTTP/1.x, HTTP/2 and HTTP/3 server, verified with Verus, and a
server for the `zincio` runtime that runs them.

The library does no I/O. A caller hands it the octets that were read and the
events that happened, and it answers with the octets to write and what to do
next. Every function states in its contract what it returns and what it changes,
over mathematical models of the data: frames, streams, connections, header maps.

## Layout

- `src/octets.rs`, `src/headers.rs`, `src/fx.rs`, `src/time.rs`,
  `src/io_error.rs`: what the library takes from the `bytes`, `http` and
  `rustc-hash` crates and from `std`, with the contracts that are trusted.
- `src/numbers.rs`, `src/text.rs`: numbers in text.
- `src/h1/`: request heads, chunk sizes, the `Date` header, and what follows from
  the headers of a request (RFC 9112).
- `src/h2/`: the frame codec, request and response fields, and the connection
  with its streams, flow control and budgets (RFC 9113).
- `src/h3/`: the frame codec, reset accounting, the decisions of the connection
  driver, and what goes out for a request (RFC 9114).
- `app/`: the servers. They read and write, keep timers and channels, and call
  request handlers. The HPACK codec, the QUIC transport with QPACK, and the
  fields and bodies of HTTP/1.x messages are traits there.
- `tests/`: the library on concrete inputs.

## What is proved

Beside the contracts, public proof functions state what holds across functions.
The frame codecs read back every frame that they write, whatever the chunking
(`h2::codec::laws`, `h3::frame::laws`), and the field block that an HTTP/2
decoder holds open is that of the last frame that began or went on with one. A
connection sends no more data than the windows allow, in order, until nothing
more can be sent, and shares its window fairly (`h2::connection::laws`,
`h2::connection::draining`). Over any sequence of messages the body of a
response goes out in order, and trailers come after all of it
(`h2::connection::ordering`). Stream errors and floods cost only their own
stream while the reset budget lasts. What a request head comes to does not
depend on how its octets come in (`h1::head`), and a response tells the client
exactly whether the connection stays open (`h1::exchange`).
