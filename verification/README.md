# SeedRelay

A local server that speaks the OpenAI Realtime transcription protocol on
`/v1/realtime` and relays the audio to the Seed-ASR backend.

The library under `src/` holds the protocol logic, verified with Verus:

- `realtime` — client events, the session they configure, server events;
- `server` — API key checks (bearer token, `api_key` query parameter or
  `openai-insecure-api-key.<key>` subprotocol), handshake checks, HTTP framing, and the state
  machine of one connection, with its laws;
- `client` — the backend session: the order of its messages (`AsrExchange`),
  lifecycle checks, PCM framing, and the reading of backend answers;
- `protocol`, `wire` — the Protocol Buffers frames exchanged with the backend;
- `response` — what a backend answer is;
- `web`, `models`, `assets` — plain HTTP: health, model endpoints, web UI;
- `credentials`, `env_file`, `config`, `cli` — device registration, token
  expiry, `KEY=value` files and server options;
- `url`, `json`, `text`, `encoding`, `entropy` — the codecs underneath, and
  the calls into `serde_json`, `base64`, `md5`, `hex`, `uuid` and `rand`.

`app/` is the program around it: sockets, HTTP requests, files, the clock,
Opus encoding and resampling.
