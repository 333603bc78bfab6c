# open-promux

An API conversion proxy: clients speaking the OpenAI Responses API, Chat
Completions or Anthropic Messages reach upstreams that speak Chat
Completions or Anthropic Messages.

- `src/` is the verified library. Every conversion, the SSE decoder and the
  streaming state machines, configuration reading and writing, routing,
  rate limits, health tracking, the rectifier, traffic statistics and the
  log ring carry contracts checked by Verus.
- `app/` is the server around it: Axum endpoints, the Reqwest upstream
  calls, Tokio tasks, serde wire forms of the library's types, and logging.
- `tests/` run the library on concrete inputs.

Run the server with a configuration path (default `config.toml`):

```toml
port = 8080

[[upstreams]]
name = "openai"
url = "https://api.openai.com/v1"
api_key = "sk-your-api-key"
```
