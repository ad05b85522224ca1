# tendabike

The domain logic of a bike maintenance tracker, verified with Verus:
parts and the gear they are attached to over time, activities and the
usage they add to every part involved, services and service plans, shops
that maintain parts for their subscribers, and users.

Layout:

- `src/` — the verified library. `store.rs` holds the in-memory store
  every operation works on; the entity modules (`part`, `activity`,
  `attachment`, `assembly`, `timeline`, `service`, `serviceplan`, `shop`,
  `subscription`, `user`, `account`, `usage`, `types`, `summary`) state
  what each operation does in `requires`/`ensures`; `db` and `partnote`
  convert rows of the relational store; `descent` imports climbing and
  descending values from comma-separated tables.
- `tests/` — ordinary Rust tests running the library.
- `app/` — JSON shapes of the entities for the web API and file input.
