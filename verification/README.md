# dope

A man-in-the-middle HTTP(S) proxy that injects userscripts into web pages,
rewrites request and response headers by rule, logs traffic as JSON Lines,
and comes with an HTMX admin panel.

The library (`src/`) holds the proxy's logic with its contracts, proved by
Verus:

- `config`, `standalone` — the configuration and its rule lookups (exact
  domains, `"*"` as a fallback);
- `headers` — the `http` header map behind a model of its contents;
- `modify` — CSP handling, header removal and addition;
- `proxy` — what the proxy decides for a request, a response and an error,
  and the per-client queue of pending requests;
- `inject` — where userscripts go in a page;
- `logging`, `log`, `groups` — log entries, their selection and grouping;
- `html`, `panel`, `edit` — the panel's pages and the configuration edits;
- `cli`, `scripts`, `text`, `json` — the command line, userscript files and
  string helpers.

`app/` holds the programs around it: the proxy and the panel servers, file
and network I/O, and the serialized forms of the configuration and the log.
