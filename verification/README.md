# actix_bootstrap

The verified core of a two-service bootstrap: an account service and an API
gateway. `src/` is checked by Verus; `app/` runs the services around it.

- `src/common.rs` — e-mail addresses.
- `src/hashing.rs`, `src/utils.rs` — SHA-512 hex digests, random tokens, outgoing mail.
- `src/accounts/` — user and refresh-token records, password salting and checking.
- `src/gateway/` — configuration, backend addresses, routes with round-robin
  load balancing and health state, and the per-request proxy decisions.
- `app/` — `auth` (actix-web, sea-orm, lettre, utoipa) and `gateway`
  (pingora, reqwest, serde_yaml) programs.
