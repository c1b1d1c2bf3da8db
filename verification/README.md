# frey

The decision core of an agent framework, verified with Verus.

Everything that decides something, except floating-point scores, stands in `src/`, as functions from
plain values to plain values with exact contracts: whether a tool call goes ahead, where cache breakpoints go, what is evicted from a prompt that is too long, what
an agent may reach, what a failure tells whom, what is recorded and replayed, and what is said over MCP,
A2A and AG-UI. Nothing there does I/O.

| Modules | What they decide |
|---|---|
| `segment`, `cache`, `budget`, `prompt`, `profiles`, `provider_caps` | What the model sees, in what order, at what price |
| `capability`, `taint`, `audit`, `sandbox`, `session`, `multi` | What an agent and its children may reach, and what is written down about it |
| `error`, `event`, `item`, `tool`, `tool_def`, `usage`, `ids` | The vocabulary: failures by audience, events, turns, tools, tokens and money |
| `provider`, `journal`, `run` | Requests and responses, the record of a run and its replay, the agent loop as a state machine |
| `search`, `skills`, `macros` | Finding tools, loading skills, what the `tool` attribute makes of a function |
| `mcp`, `card`, `task`, `agui` | The protocols |
| `doctor`, `commands` | Diagnosis and the command line |
| `text`, `json`, `hash`, `order` | Texts, JSON values, content hashes, stable sorting |

Public proof functions state what holds across functions, for instance that a replayed run gives back
what was recorded, that grants only narrow down a tree of agents, or that a breakpoint never sits on a
segment that changed.

`app/` is the program around the library: the command line, serialised forms, asynchronous traits,
the loop that asks a model and runs its tools, and whatever needs floating point. `tests/` runs the
library on concrete values.
