# swiftjourney

The decision logic of a train, hotel and meal booking service, written in
Verus. Each public function states in its contract what it returns; where
the result rests on an outside call (a random id, a password hash, a date
parse), the contract names that call's result or says what holds of every
outcome. Repository lookups, clocks and message queues stay outside and hand
their results in as plain values.

Layout:

- `src/` – the verified library, one module per service:
  hotels (`hotel`, `hotel_booking`, `hotel_query`, `hotel_rating`),
  trains (`train_schedule`, `train_seat`, `train_booking`, `train_type`,
  `route`), meals (`meal_booking`, `train_dish`, `dish_data`), orders and
  payments (`order`, `transaction`, `money`), users and sessions
  (`user`, `password`, `session`) and geography (`geo`).
  Calls into `argon2`, `uuid` and `rust_decimal` go through small trusted
  wrappers whose doc comments say what is assumed of them.
- `tests/` – scenarios run against the compiled library.
- `app/` – a small command-line front end: password hashing, session
  bookkeeping and the clock.
