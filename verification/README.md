# kittykat

An on-demand rotating HTTP proxy that routes traffic through Tor.  Each
`Proxy-Authorization` token gets a session of its own, pinned to one Tor exit;
clients without a token share one anonymous session.  Idle sessions are dropped
after a configurable time-to-live, and an exit address stays committed to its
session for a while after that, so that no other session takes it.

## Layout

* `src/` — the verified library.
  * `config.rs` — settings, read from the environment (`KITTYKAT_LISTEN_ADDRESS`,
    `KITTYKAT_TOKEN_LIFETIME`, `KITTYKAT_ADDRESS_TIMEOUT`, `KITTYKAT_OPTIMISTIC`,
    `KITTYKAT_LOG`, `KITTYKAT_MAX_CIRC_DIRT`).
  * `net.rs` — IPv4 socket addresses and their text form.
  * `text.rs` — the decimal and boolean grammars, and name/value lookups.
  * `table.rs` — a keyed table viewed as a finite map.
  * `kitty.rs` — the session bookkeeping: a model of the registries as maps,
    its invariant, the operations and the laws they obey.
  * `kitty/` — tokens, hooks, the built-in `api` hook, and reading the token
    from a request.
* `app/` — the binary: configuration file, Tor client, HTTP server, tunnels.
* `tests/` — tests of the library on concrete values.
