# fast-socket-rs

A UDP and IP-packet socket stack whose deciding and computing parts are verified
with Verus.

- `src/` is the library. Packet buffers and pools, batches, endpoints, queues, tiles
  (threads that own several sockets and serve several lanes), the socket actor, the
  packet filter and packet parsing are all functions with contracts. Laws that relate
  several functions are the public `law_*` proof functions.
- `app/` holds what talks to the operating system: sockets, threads, the async
  runtime, signals and the command line. It asks the library what to do and performs
  it.
- `tests/` runs the library.

## Buffers and ownership

A pool issues buffers and takes them back by `recycle` or `recycle_remote`. The
application wraps them so that dropping one returns it.

## Waiting

Nothing in the library waits. Functions that would wait return what to wait for:
`SendAction` and `RecvStep` for the OS socket, `ActorWait` for the actor, `IdleWait`
for a tile and `IdleAction` for a queue.
