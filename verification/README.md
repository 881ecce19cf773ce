# recap

Runs a command, echoes and records its output, exit code and time, and lets
you look the runs up again from the command line or, as an MCP server, from an
AI agent.

    rec "ls -la"                 # after `eval "$(recap init bash)"`
    recap ls -la                 # run and record directly
    recap -l | -n 20 | -s 3      # last run, last 20 runs, run 3
    recap --mcp                  # MCP server (tools recap_last, recap_list, recap_get)

History: `~/.recap/index.jsonl` (one JSON record per run) and
`~/.recap/logs/NNNN.log` (each run's output).

Layout:

- `src/` — the verified library (Verus): `text` (decimal rendering and
  parsing, line splitting, joining), `storage` (paths, index framing, history
  queries), `run` (what is run and recorded), `mcp` (how each JSON-RPC request
  is answered), `cli` (argument reading, shell integration).
- `app/` — the program around it: file and process I/O, JSON (de)serialisation,
  terminal output.
- `tests/` — tests of the library.
