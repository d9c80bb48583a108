# zeroclaw

Verified parts of an agent runtime.

`src/` is a library verified with Verus. What it takes on trust are the calls into
the standard library and into `serde_json`, `sha2` and `base64`; each stands behind
a declaration whose comment says what is claimed of it.

| Module | What it holds |
| --- | --- |
| `circuit_breaker` | quarantine of failing providers |
| `complexity` | complexity scoring of conversations for model routing |
| `bubblewrap` | sandbox set-up and the command lines of `bwrap` |
| `session_logger` | start times and message counts of sessions |
| `media_cache`, `media_rewrite` | names, markers and expiry of cached images; what rewriting markers comes to |
| `media_save`, `media_clean` | the runs that save images and delete old ones |
| `sessions` | the tools that list, read, write and await sessions |
| `text`, `json`, `clock`, `message`, `tool` | what the others are built on |

Functions whose names begin with `law_` state what holds of a module as a whole.

What needs a clock takes the time as a number of nanoseconds; beside each such
function stands one that reads the clock. What needs files, sessions or sleep is
a state machine that names its next action (`AwaitRun`, `SaveRun`, `CleanupRun`).

`app/` performs these actions: locks, logging, files, processes, and the
asynchronous tools.
