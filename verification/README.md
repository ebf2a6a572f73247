# nomad-server

A private bridge between a Bitcoin wallet and the owner's own node, over
Nostr gift wraps. Wallets pair once with a one-time secret shown as a QR
code on the LAN, then query balances, UTXOs, history and fees, broadcast
transactions, and receive `notify/new_tx` pushes for the addresses they
watch. The node is reached through Electrs.

## Layout

- `src/` — the library, verified with Verus. Every decision of the server
  lives here with its contract:
  - `protocol`, `json`, `encoding`, `text`: envelopes, their JSON model,
    request parsing and validation, error codes;
  - `router`: replay check, rate limit, authorization and dispatch of one
    request, as a function from state and request to next state and action;
  - `pairing`, `store`, `keyed`, `replay`, `ratelimit`: the pairing secret,
    the allowlist and watch sets, seen envelope ids, per-sender buckets;
  - `handlers`, `history`, `chain`: validation of chain-data requests before
    any backend call, and the answers built from the backend's data;
  - `watcher`: which watched transactions are news to a wallet;
  - `backend`: the Electrs call discipline (single flight, spacing,
    cooldown after a timeout);
  - `ui`, `identity`, `config`: the LAN page and QR, the key file, settings;
  - `laws`: properties across calls, proved over the contracts' views.
- `app/` — the program around it: environment, files, Electrs and relay
  I/O, the HTTP server, and the loops that feed events to the library.
- `tests/` — tests of the library on concrete values.
