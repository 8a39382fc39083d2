# oauthmux

`oauthmux` gives an external OAuth/OIDC client one stable callback and relays authorization results
to an explicit set of application origins. This crate is its core: configuration and what it means,
redirect and scope policy, sealed envelopes, the replay cache, and the decisions of configuration
providers. The core is written in Verus: functions state in their contracts what they return, and Verus
proves it. What a host brings along (its secret resolver, its replay cache, its instance lookup) and
the choice of random bytes are left open.

## Layout

- `src/` is the library.
  - `model`, `instance`, `policy_laws`: upstreams, relays, instances, redirects and scopes.
  - `config`, `compile`: resource documents and their compilation into a snapshot; `compile_laws`,
    `content_laws`, `request_laws`: what holds of every compilation.
  - `registry`, `resource_map`: snapshots, their combination across providers, lookup.
  - `provider_file`, `provider_ssm`, `ssm_scan`, `polling`: the decisions of providers.
  - `seal`, `replay`: transient state.
  - `settings`, `duration`: process settings.
  - `address`, `json`, `key`, `error`, `text`: values the others are made of.
- `app/` is the server around it: environment, files, AWS, HTTP, Lambda.
- `tests/` runs the library together with the crates it calls.

## Trusted calls

Verus takes the contracts of a few functions as given: those that call `url`, `base64`,
`chacha20poly1305` and `rand`. Each has a comment that says what is claimed of the outside function.
