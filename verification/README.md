# leva

The core of a local AI agent (chat gateway, automation server and terminal
agent), written in Verus: what the agent decides is proved against its
contracts. The programs around it do the I/O (HTTP, files, sockets, the
line editor) and the JSON plumbing between the library's values and the
wire.

- `src/` — the verified library.
  - `text`, `codec` — character-level text, base64, percent-encoding and
    number rendering.
  - `common` — configuration, chat messages, the per-session history cache,
    and the local tool registry with the three memory layers and the
    workspace file checks.
  - `server_llm` — the event-stream reader, the streamed and whole-reply
    model protocol and its tool-call loop decisions, chat session rules,
    model selection and tool routing.
  - `gmail_api` — message payload reading, HTML-to-text, composing plain,
    HTML and forwarded messages, request URLs and tokens.
  - `cdp_browser` — DevTools endpoints, tab choice, result filtering and
    page scripts.
  - `job_runner`, `cli` — the background job table and the terminal agent's
    decisions.
- `tests/` — tests of the library on concrete values.
- `app/` — the programs: `leva cli`, `leva llm` and `leva auto` (HTTP
  servers, file and network I/O, the line editor).
