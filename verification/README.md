# dual_abi

A frame producer that several libraries share, verified with Verus.

One library owns the producer and its frame buffers. Others use it through
C entry points, through a function table, or as a module of a foreign
language, and never need to know its layout: objects cross the boundary as
opaque handles, statuses as wire codes, and public fields through a window
that only ever grows at its end.

## Layout

- `src/` is the library, all of it verified.
  - `abi`: what crosses the boundary (records, constants, status codes).
  - `storage`, `dmabuf`, `iosurface`: where a frame's bytes live, and what the
    operating system is asked to do around each access.
  - `heap`, `frame`: reference-counted buffers and copy-on-write.
  - `source`, `sub`, `subscribe`, `streaming`, `capture`, `capturing`,
    `teardown`: the producer, its subscriptions, its stream, its captures.
  - `stream`, `oneshot`: frames and single values for consumers that poll.
  - `capi`, `rt`: the C entry points, the panic shield, the last error.
  - `dynamic`, `registry`, `vtable`: the producer seen from another library.
  - `b`, `b_capi`: a consumer library.
  - `bolt`, `amod`, `bmod`: modules for mobile applications and .NET.
  - `py`, `py_b`: the two Python modules, as far as they decide anything.
  - `probe`: a fixed pool of counters, for hosts without an allocator.
  - `laws`, `lending`: what holds of a producer, and of the frames that it lends,
    over any run of operations.
- `tests/` run the library.
- `app/` is ordinary Rust around it: threads, locks, the operating system,
  the interpreter, and exported symbols.

## How threads are modelled

No thread runs in `src/`. A stream, a pump, a capture and a teardown are each
a function from the producer's state to the next state and to what its thread
is to do: make a call, sleep, wait, or end. The thread does it, reports back,
and asks again. `laws` states what holds however such steps interleave, for
instance that no callback runs once `unsubscribe` or a full teardown is done,
that a capture calls back exactly once, that identifiers are never used again,
and that blocking delivery loses nothing and hands on what was made.

Buffers are counted explicitly. Every operation says which references it
takes and gives; a buffer that somebody else holds keeps its bytes, and one
that nobody holds is given back.

What the operating system does is not part of the model: storage of a platform
kind comes from buffers that it has granted, and the calls to be made around
an access are recorded in order for the caller to make.
