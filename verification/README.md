# EdgeSteer

EdgeSteer is a local DNS steering proxy. It routes each query through a
chain of upstream layers (UDP, TCP, DNS over HTTPS, DNS over TLS and the
system's own resolvers) chosen by keywords and sing-box domain rule sets,
and rewrites answers that point entirely into Cloudflare's ranges to a
preferred, probed Cloudflare edge address.

This crate is written in Verus: the library under `src/` states its
behaviour in `requires`/`ensures` contracts and proves it.

## Layout

- `src/config.rs` — the configuration model and its validation, layer
  selection by keywords and rule sets.
- `src/dns.rs` — layer chains and their walk, request deadlines, the checks
  an upstream answer must pass.
- `src/rule_sets.rs` — the sing-box SRS reader and domain matcher, the rule
  set store and its refresh worker.
- `src/plugins.rs` — the Cloudflare-preferred rewrite of A, AAAA and
  SVCB/HTTPS answers.
- `src/optimizer.rs` — candidate expansion, probe requests and their
  validation, timing scores, the choice of the fastest edge.
- `src/state.rs`, `src/compatibility.rs` — the configuration snapshot with
  its preferred addresses, and the per-host compatibility results.
- `src/watcher.rs`, `src/ranges.rs`, `src/local_dns.rs` — hot reload, the
  Cloudflare range lists, the system resolver list.
- `src/integration.rs`, `src/agent.rs`, `src/tray.rs`, `src/ui.rs`,
  `src/launch.rs` — macOS system DNS and login-item plans, the menu-bar
  agent's decisions, the window's texts, the command line.
- `src/document.rs` — the configuration editor's JSON document and its
  form edits; `src/window.rs` — the window's confirm-then-run flow of
  engine and registration actions.
- `src/net.rs`, `src/text.rs` — addresses, networks and text helpers.
- `app/` — the program around the library: sockets, HTTP and TLS, files,
  processes and the configuration file's JSON.
- `tests/` — tests of the library.

Laws that span several functions are public proof functions named
`law_*`.
