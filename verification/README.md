# Retail demo server over Aerospike

An HTTP server for a product catalogue and shopping carts kept in an
Aerospike database.

- `src/` is the library, verified with Verus: the JSON and record-value
  models and their conversions, product and cart-item records and how they
  are stored, carts, the reshaping of the catalogue's product files, what a
  cart request reads and writes (including the retry rule of the optimistic
  write), how a search becomes a query, the settings, and the decisions of
  the loading and start-up endpoints. Laws such as "a stored product or cart
  reads back as itself" and "a planned cart write leaves in the store the
  cart the request answers with" are proof functions beside the code they
  speak of.
- `app/` is the program around it: reading the environment and files, the
  Aerospike client calls, the axum routes, and the serialisable copies of
  the library's records.
- `tests/` runs the library on concrete values.
