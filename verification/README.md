# clashctl

The data model and the proxy-list state of a terminal controller for Clash, written in
Verus with contracts on every function.

- `src/proxy_type.rs`: the kinds of proxies and which class each belongs to.
- `src/proxies.rs`: the proxies by name (no name twice, insertion order kept), the listings
  by kind, and merging the proxies of proxy providers into them.
- `src/providers.rs`: proxy providers kept in name order.
- `src/names.rs`: comparing names in `String` order.
- `src/tree.rs`: the proxy tree: groups built from the proxies, key handling, the footer,
  refreshing with new groups, latency-test targets.
- `src/group_order.rs`: the stable sort of groups by usage frequency.
- `src/connection.rs`, `src/text.rs`: the connection page's dialog, its placement, the
  columns of a connection line and the elapsed time.
- `src/latency.rs`: the summary of a latency test.
- `src/schedule.rs`: which controller requests are due on each tick of the polling loop.
- `app/`: JSON decoding with serde, terminal keys, drawing with `tui`, and the background
  jobs (input, polling, traffic and log streams, actions with parallel latency tests) over a
  controller client.
