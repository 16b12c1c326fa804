# ratatoskr

A webhook worker that delivers secrets from a provider (Infisical) to
services: it checks the webhook's HMAC-SHA256 signature and replay window,
skips deliveries it has already processed, fetches each matching service's
secrets, writes them as flat files or a filled template (with `{env:NAME}` /
`{file:/path}` placeholders under a deny-by-default policy), and runs the
service's lifecycle hook (Caddy reload, container restart).

## Layout

- `src/` — the library, verified with Verus: configuration merging and
  defaults, placeholder scanning and resolution, signature parsing and
  checking, secret selection, render plans, lifecycle requests, and the
  dispatch state machine that decides every step of a delivery.
- `app/` — the program around it: TOML loading and include globs, the HTTP
  server, the Infisical HTTP client, file writes, PostgreSQL, and the loop
  that performs the actions the dispatch machine asks for.
- `tests/` — tests of the library's public functions.
