# econwar

A player-driven market game: companies produce goods from recipes, trade
them on per-resource limit order books, and pay wages, while NPC producers
keep raw materials flowing.

The library under `src/` holds the game's logic with its specifications,
verified with Verus:

- `decimal` — fixed-point amounts and the arithmetic of `rust_decimal`;
- `models` — players, companies, markets, orders, recipes, jobs;
- `engine` — order matching (price-time priority, maker price), pricing,
  production and the per-tick simulation (NPC supply at the floor and
  floods above the ceiling, payments between the trading companies, decay
  of day-old orders; a market whose amounts would overflow the decimal
  range is left as it was and reported), the checks on amounts (`limits`)
  and the laws that hold of them;
- `server` — command validation and the answers to commands, the in-memory
  game loop, market views, and account rules (registration, password
  hashing and login);
- `client` — the terminal client's state, key handling, command parsing
  and the lines it logs for the server's answers;
- `text` — character-level helpers and integer texts;
- `storage` and `seed` — stored texts, recipe assembly and the starting
  world.

`app/` holds the I/O around it: the Axum server with PostgreSQL and Redis,
and the Ratatui terminal client (`econwar server`, `econwar client [url]`).
