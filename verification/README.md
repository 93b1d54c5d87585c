# tijarapos

The core of the TijaraPOS desktop point of sale, verified with Verus:
authentication and role-based permissions, the product catalog, stock
adjustments, and checkout and cancellation of sales, over an in-memory
store whose invariant every operation keeps: ids, unique usernames, brand
names, unit abbreviations, SKUs, barcodes, sale ids and idempotency keys,
foreign keys, and stock equal to the sum of its movements.

- `src/db` — the store, its invariant, the repository operations and the
  schema-migration planning (file names, ordering, what is pending).
- `src/auth` — setup of the first account, sign-in, permission checks;
  password hashing goes through `argon2`.
- `src/catalog` — categories, brands, units, taxes, discounts, products.
- `src/inventory` — stock adjustments, movement history, low-stock list.
- `src/sales` — pricing, checkout (idempotent by key), cancellation.
- `src/*/laws.rs` — properties that span several operations, proved.
- `app/` — the Tauri shell: the SQLite file and its migrations, the IPC
  commands, serde and `thiserror` copies of the library's types, and the
  floating-point discount and tax quotes that checkout takes as input.

The desktop shell keeps the store in memory only: each launch starts from
`Database::new()` (the seeded roles and permissions and nothing else), the
SQLite file receives the schema migrations but no rows, and every account,
product, stock movement and sale is lost when the application exits.
Loading saved rows back would need a check that they satisfy the store's
invariant, which this crate does not provide yet.
