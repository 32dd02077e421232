# management

Rules of a football-management game, written in Verus and proved against
their specifications.

- `src/` is the verified library. `session` holds the command session
  (clubs, managers, transfer offers, previews, receipts and the daily
  window) and checks a session against its checkpoint invariants;
  `fixture_checkpoint` and `competition_checkpoint` check the fixture,
  result and table part and the competition part of a saved game. The other
  modules hold the rules around it: board confidence, finances and the
  economy (including season prize money), facilities, contracts, contract
  reviews and the club wage figures, renewals delegated to the assistant
  manager, player availability and ageing, transfer-market rules, the
  market's book of offers with listing, bidding, countering, rejecting and
  previews, each resting on the financial review of the offer
  (`market_review`, `market_book`), contract moves and their social
  bookkeeping (`contract_social`), the inbox
  and player conversations, calendars, group cups, continental qualification
  and match squads. Dates go through `chrono` and random draws through
  `rand`, each behind a small trusted wrapper whose contract says what the
  crate documents.
- `app/` is ordinary Rust around the library: the parts that compute in
  floating point (injury rolls, wage expectations, matchday takings,
  transfer-fee thresholds, transfer budgets, simulated scores).
- `tests/` exercises the library on concrete values.

Not included: the competition calendar runner and season roll-over, the
market's confirmations, completed moves and daily phases,
the league and group tables of a saved game's competitions (they rest on the
league records' own table rules), the remaining parts of the game checkpoint, and
the scripted bot managers. They rest on game-state types and
modules (match engine, squad plans, selection, personnel, social registry)
that this library does not hold.
