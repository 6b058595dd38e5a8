# home_control_backend

The logic of a small home-automation server, verified with Verus.

- `src/` — the verified library:
  - `string_map` — a string-keyed map that keeps insertion order;
  - `text` — character-level splitting and pattern replacement;
  - `api::control_options` — control options and the validation of control
    requests (range bounds are `f32` bit patterns, compared as `f32`);
  - `api::device`, `api::hub` — devices, the registry of loaded hubs, and
    what a hub sends or reads for a request;
  - `api::dynamic` — devices whose commands are filled-in templates;
  - `api::util`, `api::auth` — password hashing, cookie and
    `Authorization` header parsing, login claims;
  - `api::routes` — which device and hub a request goes to, and page
    redirects;
  - `components::devices` — the built-in devices.
- `app/` — the HTTP server, the Bluetooth hubs, JSON and token handling.
- `tests/` — tests of the library.
