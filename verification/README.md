# sponsored_logs

Sponsor placements for a log stream, verified with Verus.

`src/` is the verified library:

- `banner` — word wrapping to the frame width and the box-drawn banner
  (masthead, padded body rows, bottom border), with proofs that wrapped lines
  never overflow the frame, that every row of an ungilded banner has the same
  width when its tag fits, and that gilding only inserts zero-width escapes
  (stripped of them, a gilded banner is the plain one).
- `color` — the gold escape around the tag and when to apply it.
- `env` — the `SPONSORED_LOGS*` switches read through a caller-supplied lookup.
- `advertisers` — creatives (cpm held exactly, in cents) and the built-in book.
- `ledger` — the impression tally and the report sorted by spend; cpm and
  spend are in cents.
- `layer` — the exchange: on/off switch, controls, ledger, and what fills a slot
  once the fill dice have hit.
- `sampling` — the weighted choice, through `rand`'s `WeightedIndex`.
- `chars` — text as character sequences (trimming, ASCII lower case).

`app/` holds what Verus does not see: the `tracing_subscriber::Layer` that
rolls the fill dice (the fill rate is a float) and emits placements, the
clone-shared handle, and the readers of the process environment and terminal.
