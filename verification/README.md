# cursor_api

The verified core of an API gateway: the text formats, codecs, tokens and
protocol framing it works with, and the decisions it makes on them, each
with a contract proved by Verus.

## Layout

- `src/`: the library.  Everything in it is verified except a set of
  small trusted functions around outside crates and `std` (marked
  `#[verifier::external_body]`, each with a doc comment naming the call),
  whose contracts are assumed.
  - Codecs: `base62`, `base64_codec`, `url_base64`, `hex`, `decimal`,
    `byte_order`, `ulid_code`, `utf8_check`.
  - Tokens and keys: `token` (randomness, user ids, token keys),
    `raw_token` (subjects, providers, signed token text), `config`
    (configured keys), `random_ids` (UUIDs, PKCE pairs).
  - Framing: `grpc` (length-prefixed frames, the stream decoder and its
    buffer), `proto_encode`, `compression` (gzip through `flate2`),
    `wire_type`.
  - Settings and models: `env_value`, `build_number`, `version`, `time`,
    `model`, `usage`, `userinfo`, `adapter_error`, `text`, `text_scan`.
  - Time and networking decisions: `ntp` (packets, timestamps, sample
    selection), `proxy_pool` (proxy settings and the client pool),
    `auth_route` (which credential a request's token is),
    `client_headers` (a request to the AI service: method, URL, host and
    headers with their values),
    `token_upgrade` (the upgrade request and the upgrade and usage polls).
  - Chat requests: `conversation` (messages to conversation turns),
    `chat_mode` (chat or agent mode, tools, thinking, web and context),
    `chat_request` (the request assembled from them, and its frame).
  - Containers: `interned` (shared strings and their pool), `rep_move`
    (replicating iterator), `manually_init` (a cell filled after it is
    made).
- `tests/`: tests of the compiled library.
- `app/`: what the library leaves to its host: the environment, the clock,
  printing, UDP exchanges with NTP servers, HTTP clients and their headers,
  the sending and waiting of the polls, the decoding and fetching of
  images, and protobuf messages.

Calls into outside crates (`flate2`, `base64`, `itoa`, `ulid`, `uuid`,
`sha2`, `rand`, `chrono`, `bytes`, `reqwest`) go through small trusted
functions whose contracts say what each call is relied on for; their doc
comments name the function called.
