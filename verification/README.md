# kite_agent

The native command layer of a desktop agent: the part that runs shell
commands and code snippets, confines file tools to the agent's working
directory, searches and lists files, reads and sends mail, talks to HTTP
services and keeps MCP server processes.

The library under `src/` holds the decisions and the formatting of those
commands, with contracts proved by Verus:

- `shell`: PowerShell or `cmd` routing, script staging, polling a running
  command, capturing and clipping its output.
- `runner`: interpreter choice for a code snippet, its time limit and launch.
- `pathguard`: the state machine that confines a requested path to the
  working directory; it asks the caller for one file-system fact at a time,
  and places a path that does not exist yet under its canonical parent only
  when the path is not a symbolic link.
- `glob`: case-insensitive `*` patterns for file search, and the hit list.
- `files`: reports of the file tools, directory listings, dropped files and
  spreadsheet rendering.
- `mail`: envelope rows, inbox ranges, search commands, message parsing and
  rendering, and message composition.
- `email`: the parts of an outgoing message and the message built from them.
- `http`: request methods, the audio upload, and response handling.
- `mcp`: the registry of running servers and their line framing.
- `sorting`, `text`: the orderings and text operations the others use.
- `laws`: properties that span several functions.

`app/` is the program around it: the window framework's command handlers,
processes, threads, files and network, which hand plain values to the
library and act on what it returns.
