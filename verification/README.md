# inderes

A command line client for the Inderes MCP server, built around a verified library.

- `src/` is the library: what is asked of the server, how its answers are read, what the
  forum cache holds, and what is shown. It is written in Verus; every function states what it
  does, and the laws that hold across functions stand beside them as `law_…` proof functions.
- `app/` is the program: arguments, network, files, and the fractions that rank threads.
- `tests/` runs the library on concrete values.

| Module | What it is about |
|---|---|
| `json` | JSON values; reading and writing them is the work of `serde_json` |
| `text` | text as sequences of characters: cutting, joining, numbers |
| `args` | the tool calls behind the subcommands |
| `mcp` | requests to the server, its answers, streams of events |
| `render` | results of tools as text |
| `forum` | threads: addresses, pages of posts, HTML to text, rendering |
| `cache`, `table` | the forum cache |
| `walk` | reading a thread into the cache, page by page |
| `query`, `activity`, `double` | tables, charts and rankings over the cache |
| `oauth`, `auth`, `storage`, `moment` | signing in, tokens and when they expire |
| `upgrade`, `skill`, `commands` | releases, skills, and what the other subcommands decide |
