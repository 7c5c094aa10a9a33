# blog_app

The logic behind a blog's live server simulations, verified with Verus: ten-server fleets, a
fan-out, a load-balancer tier, autoscaling, and a panel that bills tenants for the time a server
spends shut.

- `src/engine/` — one simulated server. Where every request stands and how it moves, the clocks its
  senders keep, the stack its controls ask for, what is read at each settle, and the client, the
  handler and the frame as machines that take an event and give back what to do next. Draws come to
  picks and lengths in double precision, worked on whole numbers.
- `src/compose.rs`, `src/hotswap.rs` — the stacks a policy names, and the front that swaps one for
  another without stranding anybody.
- `src/blame/` — the tenants' bill: who is seated, what each was charged, and the frame it is drawn
  from.
- `src/flow/`, `src/lb.rs`, `src/autoscale.rs`, `src/fan.rs`, `src/fleet.rs` — the cards: windows of
  trips, percentile cuts, and what each message does.
- `src/atoms/` — what pictures are written from: wires, lanes, strips, waterfalls, tables, code.

Time is counted in whole ticks, a thousand million to the virtual millisecond. Speeds and weights are
in millionths, rates in requests per thousand seconds. The laws that span functions are public proof
functions beside what they speak of.

- `app/` — the runtime the engines are driven on, the real admission layers, floating-point motion
  and geometry, and the components.
- `tests/` — the library from outside, the engine's on a paused clock with the real layers.
