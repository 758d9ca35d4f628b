# liuma_core

The core of a session host for coding agents: the settings file, the wire
protocol, and the rules by which sessions are kept, queued, run, forked and
shown. `src/` is a library whose functions are proved against their contracts
with Verus; `app/` is the program around it, which reads and writes files, talks
to providers and runs the tasks.

## Layout

- `json`, `text`, `time`, `paths`, `strmap`, `ids`: values that the rest is made of
- `settings`, `codec`, `store`, `mcp`, `ports`, `providers`: the settings, how they
  are written and read, and what a change of them means
- `proto`, `frames`, `pages`: what goes over the wire
- `host`, `edits`, `workspaces`, `sessions`, `lineage`, `models`, `service`: the
  state of the host
- `events`, `queue`, `pump`, `driver`, `repair`, `assembly`, `fork`, `goals`,
  `logs`: a session, its log and its queue
- `interact`, `approval`, `plan`, `questions`, `commands`, `prompts`: what is asked
  of the user, and what the user asks for
- `attachments`, `export`, `billing`, `titles`, `feedback`, `demo`: the rest

Where the library calls another crate, the call stands in a small function whose
doc comment says what is taken for granted of it. Proof functions whose names
begin with `law_` state what holds across functions.
