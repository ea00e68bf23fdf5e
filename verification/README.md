# vnet_router

A virtual IP router whose logic is verified with Verus.

- `src/` is the verified library: configuration, static addresses, address assignment, routes to
  controllers, the plan of the network address translator, the life cycle, the chunk queue, the filters,
  the decision where each chunk goes, and the decisions of the router's event loop. `src/laws.rs` holds
  what is proved across calls.
- `app/` runs routers on tokio: locks, channels and tasks. It hands chunks to controllers and parents as
  the library decides, and holds the interfaces to a translator and a resolver.
- `tests/` runs the library on given values.

`src/addr.rs` holds all that is trusted: the calls into `ipnet` for networks, and the standard library's
reader of addresses.
