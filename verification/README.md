# xuflow_core

The core of an AI coding agent (CLI and desktop), verified with Verus.

- `src/` is the library: every function in it carries a `requires`/`ensures`
  contract that Verus proves. It holds the decisions of the agent: the run
  loop as a state machine (`run`), context trimming and summaries (`agent`),
  the tools' argument checks and reports (`edit`, `patch`, `files`, `git`,
  `search`, `shell`, `todo`), HTML text extraction and encoding detection
  (`extract`, `fetch`), the web crawler as a state machine (`crawl`), the
  streamed reply parser (`stream`), MCP configuration and call handling
  (`mcp`), and the stored rows of the session store (`session`).
  Calls into outside crates (url, robotstxt, scraper, encoding_rs, regex,
  serde_json) go through small wrappers whose contracts are trusted.
- `app/` is the unverified shell around it: HTTP, processes, files, SQLite,
  async plumbing, and the copies of library types that carry serde derives.
  It performs the actions the library decides and reports their outcomes.
- `tests/` runs the library on concrete inputs.
