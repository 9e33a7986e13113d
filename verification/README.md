# claus

A terminal coding agent, with its logic verified by Verus.

The agent talks to the Messages API, runs the tools that the model asks for,
finds code by meaning and by keywords, asks language servers, and takes in the
tools of MCP servers. `claus` opens the chat, `claus ask <question>` answers one
question, `claus index` indexes the current project.

## Layout

- `src/` is the library. What its functions do is stated in contracts that Verus
  proves. The calls into other crates stand behind small trusted functions whose
  contracts say what is taken for granted.
  - `api` — requests, retries, and the streamed reply as it is put together
  - `agent` — the turn, the conversation and its repair, the context budget,
    delegation to a sub-agent
  - `tools` — what each tool tells the model, reads from a call and answers
  - `rag` — chunks, term counts and ranking, embedding batches, what is stored,
    incremental indexing
  - `lsp`, `mcp`, `rpc` — framing, messages and what is known of a server
  - `tui`, `cli`, `config` — the chat, the command line, the environment
  - `text`, `json`, `order`, `keyed` — what the rest is built on
- `tests/` runs the library with the real crates.
- `app/` is the program around it: files, processes, the network, the terminal,
  and the scores, which are floating point.

## Configuration

`ANTHROPIC_API_KEY`, `VOYAGE_API_KEY` (for code search), `CLAUS_MODEL`,
`CLAUS_MAX_TOKENS` (default 16000) and `QDRANT_URL` (default
`http://localhost:6334`) are read from the environment or from `.env`. The
default model is the one that `CLAUS_DEFAULT_MODEL` names when the program is
built.
