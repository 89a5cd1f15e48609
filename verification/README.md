# poker_trainer

A preflop and equity trainer for Hold'em and Omaha. The library under `src/`
is written in Verus and verified; `app/` is the web server around it.

## Library (`src/`)

- `poker::cards`, `poker::parse` — cards and their two-character codes
  (`"Ah"`, `"Td"`), hand and board texts, and simple range texts such as
  `"QQ+, AK"`. Contracts are stated over the UTF-8 bytes of the text.
- `poker::ranking` — five-card evaluation (category × 2^20 plus the ranks
  in base 16, highest first) and the best five of seven; proofs that the
  value ignores card order and that a higher category always wins.
- `variants::nlhe`, `variants::plo` — Hold'em (best five of seven, blank
  cards for an unfinished board) and Omaha (exactly two hole and three board
  cards) evaluation.
- `poker::deck`, `poker::board` — a 52-card deck with swap-removal, random
  draws and board completion; multiset statements say that dealt cards
  leave the deck.
- `poker::equity` — random showdowns and Monte Carlo tallies: every trial
  is a deal of unseen cards, and the tally counts wins and ties over them.
- `poker::gto_range`, `poker::range`, `poker::util` — positions and actions,
  hand codes (`"AKs"`, `"T9o"`, `"77"`) and their card combinations, the
  13×13 starting-hand grid labels.
- `poker::user_stats`, `poker::drill`, `poker::drill_result` — drill
  questions, grading and per (position, action) tallies.
- `poker::random`, `poker::text` — the calls into `rand` and into
  `str::to_uppercase`, each with the contract the library relies on.

## Application (`app/`)

Axum handlers, templates, the worker pool that runs Monte Carlo tasks on
threads, and the parts that compute with floating-point weights (range
tables with frequencies, weighted ranges, the adaptive drill picker).
