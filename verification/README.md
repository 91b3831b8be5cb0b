# cinevault

The core of the CineVault HTTP gateway, verified with Verus. The gateway
serves a MovieBox catalogue over HTTP, hands out stream tickets, proxies
streams (rewriting DASH manifests so that every segment goes through the
proxy) and serves subtitles as WebVTT.

- `src/` — the verified library:
  - `text` — character-sequence specifications (`find`, `replace_all`,
    trimming, ASCII case) and the executable helpers built on them;
  - `providers` — provider selection, listing names and media ids;
  - `requests` — query parameters, their defaults, and error answers;
  - `ticket_id`, `tickets` — ticket identifiers and the ticket store
    (issue, resolve, expiry sweep);
  - `streams` — handing out releases with proxy URLs;
  - `proxy` — what the stream proxy fetches and which headers pass;
  - `manifest` — DASH manifest rewriting;
  - `subtitles` — SubRip to WebVTT, subtitle proxy URLs;
  - `server` — the gateway's public address;
  - `config` — start-up settings (port, public URL, log level, CORS).
- `tests/` — tests of the library on concrete values.
- `app/` — the HTTP server around the library (axum, reqwest, tokio).
