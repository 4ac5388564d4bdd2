# smoltcp

A verified core of a small TCP/IP stack, written in Verus: executable Rust whose contracts are
proved.

- `src/wire/` holds the formats: UDP packets, checksums, addresses, and TCP segments as far as the
  handling of connections reads them.
- `src/iface/route.rs` is the routing table, over growing or fixed storage.
- `src/iface/socket_set.rs` is the set of sockets of an interface.
- `src/socket/tcp/time_wait.rs` is what is left of a TCP connection in TIME-WAIT, and what it makes
  of segments. `src/iface/time_wait_table.rs` files connections that have left their sockets,
  `src/iface/tcp_time_wait.rs` moves them there and lets them expire, `src/iface/tcp_connect.rs`
  opens outgoing connections past them, and `src/iface/tcp_segments.rs` lets them answer segments.
- `src/iface/interface/tcp.rs` leads segments from the network to all of this.
- `app/` does input and output around the library, and implements the formatting traits.

What a single socket makes of a segment, how it opens a connection, and how a segment is read, is
passed in as a function: the contracts say which socket it is called for, with what, and what follows
from its result. Observers, handlers and clocks are traits for users to implement. Each of their
methods has a relation that says what it may answer, or what it has heard; without further word it
may answer anything. Notices to observers, offers to the handler and questions to the registry are
noted in ghost records, and the contracts say by what each record grows. Every notice in its record
is shown to have reached its observer.

Nothing is taken on trust but the calls into `byteorder`, `heapless` and `managed`, and the cloning
of a shared clock. Each stands in a function of its own, whose comment says what is believed of it.
