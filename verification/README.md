# infraBot

A Telegram authorization and notification gateway for infraCLI: a CLI pairs
with an allowlisted Telegram account through a one-time deep link, exchanges
a private verifier for a scoped access token, and delivers events that the
bot forwards to configured chats.

## Layout

- `src/` is the library, written in Verus and verified: the pairing store,
  access tokens, the decisions of each HTTP endpoint and of the Telegram
  webhook, event validation and rendering, the subscriber store and the
  configuration document. Calls into outside crates (SHA-256, base64, URL
  parsing, JWT signing, randomness, clocks) sit behind small items in
  `src/primitives.rs` and `src/token.rs`. Their contracts state what the
  documentation of each call promises: exact results where a few lines say
  them, a named result where they do not (a SHA-256 digest, the claims in a
  token's payload, an HS256 signature under a key), and only what holds of
  every outcome where the result rests on chance or the clock.
- `app/` is the service around it: configuration and subscriber files, the
  axum routes, and the Telegram Bot API calls.
- `tests/` exercises the library.

## Configuration

The service reads the file named by `INFRABOT_CONFIG` (default `.infra`).
Its `infrabot { ... }` block sets `public_url`, optional `bind` and policy
numbers, a `telegram { ... }` block, and one or more `source "id" { ... }`
and `recipient "id" { ... }` blocks. Secrets are written as `env("NAME")`.
